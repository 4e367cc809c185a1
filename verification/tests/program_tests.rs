use while_interpreter::code_line::{normalize, CodeLine};
use while_interpreter::runtime::RunTime;
use while_interpreter::scopes::Tokenizer;
use while_interpreter::status::Status;

struct StringValuePair<T> {
    variable_name: String,
    value: T,
}

struct FindableStringValuePair<T> {
    variable_name: String,
    value: T,
    findable: bool,
}

struct CodeLineStackPair {
    code_lines: Vec<CodeLine>,
    results: Vec<StringValuePair<u32>>,
}

struct FindableCodeLineStackPair {
    code_lines: Vec<CodeLine>,
    results: Vec<FindableStringValuePair<u32>>,
}

fn gen_lines(lines: &[&str]) -> Vec<CodeLine> {
    lines.iter().enumerate().map(|(i, l)| CodeLine::new(l, (i + 1) as u32)).collect()
}

#[test]
fn variable_set() {
    let tests = [
        CodeLineStackPair {
            code_lines: vec![CodeLine::new("x = 0;", 1), CodeLine::new("b = 5125;", 2)],
            results: vec![
                StringValuePair::<u32> { variable_name: String::from("x"), value: 0 },
                StringValuePair::<u32> { variable_name: String::from("b"), value: 5125 },
            ],
        },
        CodeLineStackPair {
            code_lines: vec![
                CodeLine::new("askdlkaslk = 223902;", 1),
                CodeLine::new("das_ist_mein_toller_name = 231;", 2),
            ],
            results: vec![
                StringValuePair::<u32> { variable_name: String::from("askdlkaslk"), value: 223902 },
                StringValuePair::<u32> {
                    variable_name: String::from("das_ist_mein_toller_name"),
                    value: 231,
                },
            ],
        },
    ];

    for test in tests {
        let mut status = Status::new();
        let tokenizer = Tokenizer::new();
        let scope = tokenizer.tokenize(&test.code_lines, &mut status);

        if status.get_status() {
            println!("{}", status.get_message());
            return;
        }

        let mut run_time = RunTime::new(scope);
        run_time.run();

        for result in &test.results {
            let actual_result = run_time.get_value_from_current_name(&result.variable_name);
            let expected = result.value;

            assert_eq!(actual_result, expected);
        }
    }
}

#[test]
fn method_call() {
    let tests = [
        FindableCodeLineStackPair {
            code_lines: gen_lines(&[
                "x = 5;",
                "a = 3;",
                "num Add(x ,y):",
                "    z = x;",
                "    z += y;",
                "    return z;",
                "r = Add(x, a);",
            ]),
            results: vec![
                FindableStringValuePair::<u32> {
                    variable_name: String::from("x"),
                    value: 5,
                    findable: true,
                },
                FindableStringValuePair::<u32> {
                    variable_name: String::from("a"),
                    value: 3,
                    findable: true,
                },
                FindableStringValuePair::<u32> {
                    variable_name: String::from("z"),
                    value: 5 + 3,
                    findable: false,
                },
                FindableStringValuePair::<u32> {
                    variable_name: String::from("r"),
                    value: 5 + 3,
                    findable: true,
                },
            ],
        },
        FindableCodeLineStackPair {
            code_lines: gen_lines(&[
                "x = 5;",
                "a = 3;",
                "num Add(x, y):",
                "    z = x;",
                "    z += y;",
                "    return z;",
                "",
                "num Mul(a, b):",
                "    result = a;",
                "    counter = b;",
                "    counter -= 1;",
                "    while counter != 0:",
                "        result += a;",
                "        counter -= 1;",
                "    #",
                "",
                "    return result;",
                "",
                "x += 2;",
                "y = 3;",
                "quertz = 1;",
                "",
                "while a != 0:",
                "    while a != 0:",
                "        a -= 1;",
                "    #",
                "    quertz = 5;",
                "#",
                "",
                "y += x;",
                "z = Add(x, y);",
                "product = Mul(x, y);",
            ]),
            results: vec![
                FindableStringValuePair::<u32> {
                    variable_name: String::from("x"),
                    value: 7,
                    findable: true,
                },
                FindableStringValuePair::<u32> {
                    variable_name: String::from("a"),
                    value: 0,
                    findable: true,
                },
                FindableStringValuePair::<u32> {
                    variable_name: String::from("y"),
                    value: 3 + 7,
                    findable: true,
                },
                FindableStringValuePair::<u32> {
                    variable_name: String::from("quertz"),
                    value: 5,
                    findable: true,
                },
                FindableStringValuePair::<u32> {
                    variable_name: String::from("z"),
                    value: 17,
                    findable: true,
                },
                FindableStringValuePair::<u32> {
                    variable_name: String::from("product"),
                    value: 70,
                    findable: true,
                },
            ],
        },
    ];

    for test in tests {
        let mut status = Status::new();
        let source_code = normalize(&test.code_lines);
        let lexer = Tokenizer::new();
        let scope = lexer.tokenize(&source_code, &mut status);

        if status.get_status() {
            println!("Status failed: not continuing");
            println!("{}", status.get_message());
            return;
        }

        let mut run_time = RunTime::new(scope);
        run_time.run();

        for result in &test.results {
            let actual_result = run_time.get_value_from_current_name(&result.variable_name);
            let expected = result.value;

            if result.findable == true {
                assert_eq!(actual_result, expected);
            } else {
                assert!(run_time.get_status());
            }
        }
    }
}

#[test]
fn while_return() {
    let tests = [
        FindableCodeLineStackPair {
            code_lines: gen_lines(&[
                "x = 5;",
                "a = 3;",
                "num IsEqual(actual, expected):",
                "    target = actual;",
                "    target -= expected;",
                "    while target != 0:",
                "        return 0;",
                "    #",
                "    return 1;",
                "y = IsEqual(x, a);",
                "z = IsEqual(x, x);",
            ]),
            results: vec![
                FindableStringValuePair::<u32> {
                    variable_name: String::from("x"),
                    value: 5,
                    findable: true,
                },
                FindableStringValuePair::<u32> {
                    variable_name: String::from("a"),
                    value: 3,
                    findable: true,
                },
                FindableStringValuePair::<u32> {
                    variable_name: String::from("y"),
                    value: 0,
                    findable: true,
                },
                FindableStringValuePair::<u32> {
                    variable_name: String::from("z"),
                    value: 1,
                    findable: true,
                },
                FindableStringValuePair::<u32> {
                    variable_name: String::from("target"),
                    value: 0,
                    findable: false,
                },
                FindableStringValuePair::<u32> {
                    variable_name: String::from("expected"),
                    value: 0,
                    findable: false,
                },
                FindableStringValuePair::<u32> {
                    variable_name: String::from("actual"),
                    value: 0,
                    findable: false,
                },
            ],
        },
        FindableCodeLineStackPair {
            code_lines: gen_lines(&[
                "x = 5;",
                "a = 3;",
                "num IsEqual(actual, expected):",
                "    target = actual;",
                "    target -= expected;",
                "    while target != 0:",
                "        while target != 0:",
                "            return 0;",
                "        #",
                "    #",
                "    return 1;",
                "y = IsEqual(x, a);",
                "z = IsEqual(x, x);",
            ]),
            results: vec![
                FindableStringValuePair::<u32> {
                    variable_name: String::from("x"),
                    value: 5,
                    findable: true,
                },
                FindableStringValuePair::<u32> {
                    variable_name: String::from("a"),
                    value: 3,
                    findable: true,
                },
                FindableStringValuePair::<u32> {
                    variable_name: String::from("y"),
                    value: 0,
                    findable: true,
                },
                FindableStringValuePair::<u32> {
                    variable_name: String::from("z"),
                    value: 1,
                    findable: true,
                },
                FindableStringValuePair::<u32> {
                    variable_name: String::from("target"),
                    value: 0,
                    findable: false,
                },
                FindableStringValuePair::<u32> {
                    variable_name: String::from("expected"),
                    value: 0,
                    findable: false,
                },
                FindableStringValuePair::<u32> {
                    variable_name: String::from("actual"),
                    value: 0,
                    findable: false,
                },
            ],
        },
    ];

    for test in tests {
        let mut status = Status::new();
        let source_code = normalize(&test.code_lines);
        let lexer = Tokenizer::new();
        let scope = lexer.tokenize(&source_code, &mut status);

        if status.get_status() {
            println!("Status failed: not continuing");
            println!("{}", status.get_message());
            return;
        }

        let mut run_time = RunTime::new(scope);
        run_time.run();

        for result in &test.results {
            let actual_result = run_time.get_value_from_current_name(&result.variable_name);
            let expected = result.value;

            if result.findable == true {
                assert_eq!(actual_result, expected);
            } else {
                assert!(run_time.get_status());
            }
        }
    }
}

#[test]
fn factorial_recursive() {
    let tests = [
        FindableCodeLineStackPair {
            code_lines: gen_lines(&[
                "x = 5;",
                "num Mul(a, b):",
                "    result = a;",
                "    counter = b;",
                "    counter -= 1;",
                "    while counter != 0:",
                "        result += a;",
                "        counter -= 1;",
                "    #",
                "",
                "    return result;",
                "num IsEqual(actual, expected):",
                "    target = actual;",
                "    target -= expected;",
                "    while target != 0:",
                "        return 0;",
                "    #",
                "    return 1;",
                "num Factorial(n):",
                "    isZero = IsEqual(n, 0);",
                "    isOne  = IsEqual(n, 1);",
                "    while isZero != 0:",
                "        return 1;",
                "    #",
                "    while isOne != 0:",
                "        return 1;",
                "    #",
                "    temp = n;",
                "    temp -= 1;",
                "    rec = Factorial(temp);",
                "    f = Mul(n, rec);",
                "    return f;",
                "z = Factorial(x);",
            ]),
            results: vec![
                FindableStringValuePair::<u32> {
                    variable_name: String::from("x"),
                    value: 5,
                    findable: true,
                },
                FindableStringValuePair::<u32> {
                    variable_name: String::from("z"),
                    value: 120, // 5! = 120
                    findable: true,
                },
            ],
        },
    ];

    for test in tests {
        let mut status = Status::new();
        let source_code = normalize(&test.code_lines);
        let lexer = Tokenizer::new();
        let scope = lexer.tokenize(&source_code, &mut status);

        if status.get_status() {
            println!("Status failed: not continuing");
            println!("{}", status.get_message());
            return;
        }

        let mut run_time = RunTime::new(scope);
        run_time.run();

        for result in &test.results {
            let actual_result = run_time.get_value_from_current_name(&result.variable_name);
            let expected = result.value;

            if result.findable == true {
                assert_eq!(actual_result, expected);
            } else {
                assert!(run_time.get_status());
            }
        }
    }
}
