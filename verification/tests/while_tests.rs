use while_interpreter::code_line::CodeLine;
use while_interpreter::lexis::NameToken;
use while_interpreter::scopes::{InnerBodyScope, Stackable, Tokenizer, WhileToken};
use while_interpreter::status::Status;
use while_interpreter::tokens::{AdditiveOperatorToken, WhileHeaderToken};

struct CodeLineArrayNestedWhileLoopStackablePair {
    code_lines: Vec<CodeLine>,
    while_count: i32,
    stackable_func_calc: fn() -> Vec<Stackable>,
}

struct CodeLineArrayNestedWhileLoopPair {
    code_lines: Vec<CodeLine>,
    while_count: i32,
}

#[test]
fn simple_while() {
    let tests = [
        CodeLineArrayNestedWhileLoopStackablePair {
            code_lines: vec![
                CodeLine::new("while a != 0:", 1),
                CodeLine::new("    a += 1;", 2),
                CodeLine::new("#", 3),
            ],
            while_count: 1,
            stackable_func_calc: || {
                let while_header_token =
                    WhileHeaderToken { against_zero_variable: Some(NameToken::new("a")) };
                let mut while_token = WhileToken::new(while_header_token);
                let mut body = InnerBodyScope::new();
                let mut st = Status::new();
                body.stack.push(Stackable::AdditiveOperatorToken {
                    value: AdditiveOperatorToken::parse(
                        &CodeLine::new_from_line("a += 1;"),
                        &mut st,
                    )
                    .unwrap(),
                });
                while_token.scope = Some(body);

                vec![Stackable::WhileToken { value: while_token }]
            },
        },
        CodeLineArrayNestedWhileLoopStackablePair {
            code_lines: vec![
                CodeLine::new("while a != 0:", 1),
                CodeLine::new("    a += 1;", 2),
                CodeLine::new("    #", 3),
            ],
            while_count: 1,
            stackable_func_calc: || {
                let while_header_token =
                    WhileHeaderToken { against_zero_variable: Some(NameToken::new("a")) };
                let mut while_token = WhileToken::new(while_header_token);
                let mut body = InnerBodyScope::new();
                let mut st = Status::new();
                body.stack.push(Stackable::AdditiveOperatorToken {
                    value: AdditiveOperatorToken::parse(
                        &CodeLine::new_from_line("a += 1;"),
                        &mut st,
                    )
                    .unwrap(),
                });
                while_token.scope = Some(body);

                vec![Stackable::WhileToken { value: while_token }]
            },
        },
    ];

    for test in tests {
        let mut status = Status::new();
        let tokenizer = Tokenizer::new();
        let scope = tokenizer.tokenize(&test.code_lines, &mut status);

        if test.while_count > 0 {
            let expected = (test.stackable_func_calc)();
            assert!(scope.stack.first().unwrap().matches(expected.first().unwrap()));
        } else {
            assert!(scope.stack.is_empty());
        }
    }
}

#[test]
fn extended_while() {
    let tests = [
        CodeLineArrayNestedWhileLoopPair {
            code_lines: vec![CodeLine::new("while a != 0:", 1), CodeLine::new("    a += 1;", 2)],
            while_count: 0,
        },
        CodeLineArrayNestedWhileLoopPair {
            code_lines: vec![
                CodeLine::new("while a != 0:", 1),
                CodeLine::new("    a += 1;", 2),
                CodeLine::new("    b += 1;", 3),
                CodeLine::new("    c += 1;", 4),
                CodeLine::new("    super_long_method_call();", 5),
                CodeLine::new("#", 5),
            ],
            while_count: 1,
        },
        CodeLineArrayNestedWhileLoopPair {
            code_lines: vec![CodeLine::new("while a != 0:", 1), CodeLine::new("#", 2)],
            while_count: 1,
        },
        CodeLineArrayNestedWhileLoopPair {
            code_lines: vec![CodeLine::new("while a != 0:", 1), CodeLine::new("  #", 2)],
            while_count: 1,
        },
    ];

    for test in tests {
        let mut status = Status::new();
        let tokenizer = Tokenizer::new();
        let scope = tokenizer.tokenize(&test.code_lines, &mut status);

        assert_eq!(scope.stack.len(), test.while_count as usize);
    }
}

#[test]
fn nested_while_loop() {
    let tests = [
        CodeLineArrayNestedWhileLoopPair {
            code_lines: vec![CodeLine::new("while a != 0:", 1), CodeLine::new("    a += 1;", 2)],
            while_count: 0,
        },
        CodeLineArrayNestedWhileLoopPair {
            code_lines: vec![
                CodeLine::new("while a != 0:", 1),
                CodeLine::new("    while b != 0:", 2),
                CodeLine::new("        while c != 0:", 3),
                CodeLine::new("            while d != 0:", 4),
                CodeLine::new("    #", 5),
                CodeLine::new("#", 6),
            ],
            while_count: 0,
        },
        CodeLineArrayNestedWhileLoopPair {
            code_lines: vec![
                CodeLine::new("while a != 0:", 1),
                CodeLine::new("    while a != 0:", 2),
                CodeLine::new("        while c != 0:", 3),
                CodeLine::new("            while d != 0:", 4),
                CodeLine::new("            #", 5),
                CodeLine::new("        #", 6),
                CodeLine::new("    #", 7),
                CodeLine::new("#", 8),
            ],
            while_count: 4,
        },
    ];

    for test in tests {
        let mut status = Status::new();
        let tokenizer = Tokenizer::new();
        let scope = tokenizer.tokenize(&test.code_lines, &mut status);

        let mut nesting_count = 0;

        let while_token = if test.while_count > 0 { scope.stack.first() } else { None };
        if let Some(while_token) = while_token {
            let mut while_token: Option<&WhileToken> = match while_token {
                Stackable::WhileToken { value } => Some(value),
                _ => None,
            };

            while while_token.is_some() {
                nesting_count += 1;

                while_token = {
                    let mut found = None;
                    for stackable in &while_token.unwrap().scope.as_ref().unwrap().stack {
                        match stackable {
                            Stackable::WhileToken { value } => {
                                found = Some(value);
                                break;
                            },
                            _ => {},
                        }
                    }

                    found
                };
            }
        }

        assert_eq!(test.while_count as usize, nesting_count);
    }
}
