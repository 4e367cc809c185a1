use while_interpreter::code_line::{normalize, CodeLine};
use while_interpreter::env::{MethodsList, VariablesList};
use while_interpreter::lexis::{DigitToken, NameToken, TypeToken};
use while_interpreter::runtime::{BodyExecutor, RunTime};
use while_interpreter::scopes::{Token, Tokenizer};
use while_interpreter::status::Status;
use while_interpreter::tokens::{AdditiveOperatorToken, AssignableToken, VariableToken};

fn gen_lines(lines: &[&str]) -> Vec<CodeLine> {
    lines.iter().enumerate().map(|(i, l)| CodeLine::new(l, (i + 1) as u32)).collect()
}

fn parse_and_run(lines: &[&str]) -> RunTime {
    let mut status = Status::new();
    let tokenizer = Tokenizer::new();
    let scope = tokenizer.tokenize(&normalize(&gen_lines(lines)), &mut status);
    assert!(!status.get_status());
    let mut rt = RunTime::new(scope);
    rt.run();
    rt
}

#[test]
fn missing_escape_stops_the_whole_parse() {
    // the innermost escape marker is missing: the error signal is set and
    // nothing after the broken while is parsed, so the later method is gone
    let lines = gen_lines(&[
        "a = 1;",
        "while a != 0:",
        "    while a != 0:",
        "        a -= 1;",
        "#",
        "b = 2;",
    ]);
    let mut status = Status::new();
    let scope = Tokenizer::new().tokenize(&lines, &mut status);
    assert!(status.get_status());
    // the unfinished while is discarded and the line after it never reaches
    // the top level
    assert_eq!(scope.stack.len(), 1);
}

#[test]
fn rerun_from_fresh_environment_is_identical() {
    let program = [
        "x = 3;",
        "num Double(n):",
        "    m = n;",
        "    m += n;",
        "    return m;",
        "y = Double(x);",
        "x += y;",
    ];
    let mut first = parse_and_run(&program);
    let mut second = parse_and_run(&program);
    for name in ["x", "y"] {
        assert_eq!(
            first.get_value_from_current_name(name),
            second.get_value_from_current_name(name)
        );
    }
    assert_eq!(first.get_value_from_current_name("x"), 9);
    assert!(!first.get_status());
}

#[test]
fn calls_leave_the_depth_balanced() {
    let rt = parse_and_run(&[
        "x = 4;",
        "num Inc(n):",
        "    n += 1;",
        "    return n;",
        "y = Inc(Inc(x));",
        "z = Inc(y);",
    ]);
    // every pushed frame was popped again, on success and on faults alike
    assert_eq!(rt.get_variable_list().depth(), 0);
}

#[test]
fn subtraction_wraps_below_zero() {
    let mut rt = parse_and_run(&["x = 0;", "x -= 1;"]);
    assert_eq!(rt.get_value_from_current_name("x"), u32::MAX);
}

#[test]
fn addition_wraps_above_the_word() {
    let mut rt = parse_and_run(&["x = 4294967295;", "x += 2;"]);
    assert_eq!(rt.get_value_from_current_name("x"), 1);
}

#[test]
fn oversized_literal_is_rejected() {
    assert!(DigitToken::parse("4294967295").is_some());
    assert!(DigitToken::parse("4294967296").is_none());
    let mut status = Status::new();
    Tokenizer::new().tokenize(&gen_lines(&["x = 99999999999999;"]), &mut status);
    assert!(status.get_status());
}

#[test]
fn reading_an_unbound_variable_faults_to_zero() {
    let mut rt = parse_and_run(&["x = 1;"]);
    assert!(!rt.get_status());
    assert_eq!(rt.get_value_from_current_name("ghost_name"), 0);
    assert!(rt.get_status());
}

#[test]
fn calling_an_undefined_method_faults_to_zero() {
    let mut rt = parse_and_run(&["x = Missing(1);", "y = 7;"]);
    // the failing call evaluates to the sentinel 0 and execution continues
    assert_eq!(rt.get_value_from_current_name("y"), 7);
    assert_eq!(rt.get_value_from_current_name("x"), 0);
    assert!(rt.get_status());
}

#[test]
fn redefining_a_method_overwrites_silently() {
    let mut rt = parse_and_run(&[
        "num Pick():",
        "    return 1;",
        "num Pick():",
        "    return 2;",
        "x = Pick();",
    ]);
    assert_eq!(rt.get_value_from_current_name("x"), 2);
    assert!(!rt.get_status());
}

#[test]
fn compound_update_reaches_the_innermost_live_binding() {
    // the callee has no binding named x, so its compound update rewrites the
    // caller's x: writes shadow exactly, compound updates search all depths
    let mut rt = parse_and_run(&[
        "x = 5;",
        "num Dec():",
        "    x -= 1;",
        "    return 0;",
        "Dec();",
    ]);
    assert_eq!(rt.get_value_from_current_name("x"), 4);
}

#[test]
fn assignment_shadows_instead_of_overwriting() {
    // a plain write inside the callee touches only the callee's depth
    let mut rt = parse_and_run(&[
        "x = 5;",
        "num Shadow():",
        "    x = 99;",
        "    return x;",
        "y = Shadow();",
    ]);
    assert_eq!(rt.get_value_from_current_name("x"), 5);
    assert_eq!(rt.get_value_from_current_name("y"), 99);
}

#[test]
fn junk_after_escape_marker_is_a_fault() {
    let mut status = Status::new();
    Tokenizer::new().tokenize(
        &gen_lines(&["while a != 0:", "# trailing"]),
        &mut status,
    );
    assert!(status.get_status());
}

#[test]
fn malformed_line_aborts_the_parse() {
    let mut status = Status::new();
    let scope = Tokenizer::new().tokenize(
        &gen_lines(&["x = 1;", "?!neither fish nor fowl", "y = 2;"]),
        &mut status,
    );
    assert!(status.get_status());
    assert_eq!(scope.stack.len(), 1);
}

#[test]
fn unbalanced_parentheses_are_a_fault() {
    let mut status = Status::new();
    Tokenizer::new().tokenize(&gen_lines(&["x = add((1, 3);"]), &mut status);
    assert!(status.get_status());
}

#[test]
fn return_outside_a_method_is_a_fault() {
    let mut status = Status::new();
    Tokenizer::new().tokenize(&gen_lines(&["x = 1;", "return x;"]), &mut status);
    assert!(status.get_status());
}

#[test]
fn bare_return_in_a_num_method_is_a_fault() {
    let mut status = Status::new();
    let scope = Tokenizer::new().tokenize(
        &gen_lines(&["num NoValue():", "    return;"]),
        &mut status,
    );
    assert!(status.get_status());
    assert_eq!(scope.methods.len(), 0);
}

#[test]
fn normalize_drops_comments_and_blanks() {
    let lines = gen_lines(&["", "// a comment", "x = 1;", "   ", "y = 2;"]);
    let kept = normalize(&lines);
    assert_eq!(kept.len(), 2);
    assert_eq!(kept[0].line, "x = 1;");
    assert_eq!(kept[0].line_number, 1);
    assert_eq!(kept[1].line, "y = 2;");
    assert_eq!(kept[1].line_number, 2);
}

#[test]
fn keywords_are_not_identifiers() {
    assert!(NameToken::parse("void").is_none());
    assert!(NameToken::parse("num").is_none());
    assert!(NameToken::parse("while").is_none());
    assert!(NameToken::parse("return").is_none());
    // a keyword occurring inside a longer word does not disqualify it
    assert!(NameToken::parse("number1").is_some());
    assert!(NameToken::parse("$dollar_Name2").is_some());
}

#[test]
fn analyse_recognizes_the_two_kinds() {
    assert_eq!(TypeToken::analyse("void"), TypeToken::Void);
    assert_eq!(TypeToken::analyse("num"), TypeToken::Num);
    assert_eq!(TypeToken::analyse("int"), TypeToken::Invalid);
}

#[test]
fn token_parse_classifies_lines() {
    let mut status = Status::new();
    let t = Token::parse(&CodeLine::new_from_line("x = 5;"), &mut status);
    assert!(matches!(t, Some(Token::Variable { .. })));
    let t = Token::parse(&CodeLine::new_from_line("add(1, 2);"), &mut status);
    assert!(matches!(t, Some(Token::MethodCall { .. })));
    let t = Token::parse(&CodeLine::new_from_line("num Add(a, b):"), &mut status);
    assert!(matches!(t, Some(Token::MethodHeader { .. })));
    let t = Token::parse(&CodeLine::new_from_line("while a != 0:"), &mut status);
    assert!(matches!(t, Some(Token::WhileHeader { .. })));
    let t = Token::parse(&CodeLine::new_from_line("a -= 3;"), &mut status);
    assert!(matches!(t, Some(Token::AdditiveOperator { .. })));
    assert!(!status.get_status());
    let t = Token::parse(&CodeLine::new_from_line("#"), &mut status);
    assert!(t.is_none());
    // headers are structure, not statements
    let mut status2 = Status::new();
    let header = Token::parse(&CodeLine::new_from_line("while a != 0:"), &mut status2).unwrap();
    assert!(header.to_stackable().is_none());
    assert!(header.to_while_header_token().is_some());
    let stmt = Token::parse(&CodeLine::new_from_line("x = 5;"), &mut status2).unwrap();
    assert!(stmt.to_stackable().is_some());
    assert!(stmt.to_method_header().is_none());
}

#[test]
fn lazy_bindings_reevaluate_on_every_read() {
    // an assignment stores the expression, not its value: the stored call
    // runs anew on every read of the variable, against the live environment
    let mut rt = parse_and_run(&[
        "a = 2;",
        "num Bump():",
        "    a += 1;",
        "    return 0;",
        "x = Bump();",
    ]);
    // the run itself never evaluated x, so Bump never ran
    assert_eq!(rt.get_value_from_current_name("a"), 2);
    // reading x runs Bump once
    assert_eq!(rt.get_value_from_current_name("x"), 0);
    assert_eq!(rt.get_value_from_current_name("a"), 3);
    // and reading it again runs Bump again
    assert_eq!(rt.get_value_from_current_name("x"), 0);
    assert_eq!(rt.get_value_from_current_name("a"), 4);
}

#[test]
fn environment_api_updates_and_reads() {
    let mut vars = VariablesList::new();
    let methods = MethodsList::new();
    let mut status = Status::new();
    let mut parse_status = Status::new();

    let five =
        AssignableToken::parse(&CodeLine::new_from_line("5"), &mut parse_status).unwrap();
    vars.add_or_update(VariableToken::new(NameToken::new("x"), five));

    let bump =
        AdditiveOperatorToken::parse(&CodeLine::new_from_line("x += 3;"), &mut parse_status)
            .unwrap();
    vars.update(bump, &methods, &mut status, 1000);

    let v = NameToken::new("x").evaluate(&methods, &mut vars, &mut status, 1000);
    assert_eq!(v, 8);
    assert!(vars.find("x").is_some());
    assert!(!status.get_status());

    // popping at depth 0 clears the depth-0 bindings
    vars.pop_variables();
    assert!(vars.find("x").is_none());
}

#[test]
fn manual_call_protocol_balances_frames() {
    let mut status = Status::new();
    let scope = Tokenizer::new().tokenize(
        &gen_lines(&["num AddOne(n):", "    n += 1;", "    return n;"]),
        &mut status,
    );
    assert!(!status.get_status());
    let mut rt = RunTime::new(scope);
    assert!(rt.get_method_token("AddOne").is_some());
    assert!(rt.get_method_token("Nothing").is_none());

    let mut parse_status = Status::new();
    let arg =
        AssignableToken::parse(&CodeLine::new_from_line("41"), &mut parse_status).unwrap();
    rt.push_parameter_variables(vec![VariableToken::new(NameToken::new("n"), arg)]);
    assert_eq!(rt.get_variable_list().depth(), 1);
    let v = rt.get_value_from_method_name("AddOne");
    rt.pop_variables();
    assert_eq!(v, 42);
    assert_eq!(rt.get_variable_list().depth(), 0);
}

#[test]
fn body_executor_runs_a_statement_list() {
    let mut status = Status::new();
    let scope =
        Tokenizer::new().tokenize(&gen_lines(&["x = 1;", "x += 2;"]), &mut status);
    assert!(!status.get_status());
    let executor = BodyExecutor { scope: scope.stack };
    let methods = MethodsList::new();
    let mut vars = VariablesList::new();
    let r = executor.execute(&methods, &mut vars, &mut status, 100000);
    assert!(r.is_none());
    assert_eq!(NameToken::new("x").evaluate(&methods, &mut vars, &mut status, 1000), 3);
}

#[test]
fn in_place_compound_rewrites_to_a_literal() {
    let methods = MethodsList::new();
    let mut vars = VariablesList::new();
    let mut status = Status::new();
    let mut parse_status = Status::new();

    let mut a = AssignableToken::parse(&CodeLine::new_from_line("5"), &mut parse_status).unwrap();
    let b = AssignableToken::parse(&CodeLine::new_from_line("7"), &mut parse_status).unwrap();
    a.add_assign(b, &methods, &mut vars, &mut status, 1000);
    assert_eq!(a.evaluate(&methods, &mut vars, &mut status, 1000), 12);

    let c = AssignableToken::parse(&CodeLine::new_from_line("13"), &mut parse_status).unwrap();
    a.sub_assign(c, &methods, &mut vars, &mut status, 1000);
    assert_eq!(a.evaluate(&methods, &mut vars, &mut status, 1000), u32::MAX);
}
