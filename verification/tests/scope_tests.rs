use while_interpreter::code_line::CodeLine;
use while_interpreter::scopes::{Stackable, Tokenizer};
use while_interpreter::status::Status;
use while_interpreter::tokens::{
    AdditiveOperatorToken, AssignableToken, MethodHeaderToken, ReturnToken, VariableToken,
};

#[test]
fn inner_body() {
    let mut st = Status::new();
    let tests = [
        (
            vec!["void main():", "    a = 5;", "    b = 5;", "    return;"],
            1,
            vec![
                Stackable::VariableToken {
                    value: VariableToken::parse(&CodeLine::new_from_line("a = 5;"), &mut st)
                        .unwrap(),
                },
                Stackable::VariableToken {
                    value: VariableToken::parse(&CodeLine::new_from_line("b = 5;"), &mut st)
                        .unwrap(),
                },
                Stackable::ReturnToken {
                    value: ReturnToken::new(MethodHeaderToken::parse(
                        &CodeLine::new_from_line("void main():"),
                        &mut st,
                    )),
                },
            ],
        ),
        (
            vec!["void main():", "    a = 5;", "    b = 5;"],
            0,
            vec![
                Stackable::VariableToken {
                    value: VariableToken::parse(&CodeLine::new_from_line("a = 5;"), &mut st)
                        .unwrap(),
                },
                Stackable::VariableToken {
                    value: VariableToken::parse(&CodeLine::new_from_line("b = 5;"), &mut st)
                        .unwrap(),
                },
                Stackable::ReturnToken {
                    value: ReturnToken::new(MethodHeaderToken::parse(
                        &CodeLine::new_from_line("void main():"),
                        &mut st,
                    )),
                },
            ],
        ),
        (
            vec!["void blubbi(b):", "    e += 5;", "    return e;"],
            1,
            vec![
                Stackable::AdditiveOperatorToken {
                    value: AdditiveOperatorToken::parse(
                        &CodeLine::new_from_line("e += 5;"),
                        &mut st,
                    )
                    .unwrap(),
                },
                Stackable::ReturnToken {
                    value: ReturnToken {
                        header: MethodHeaderToken::parse(
                            &CodeLine::new_from_line("void blubbi(b):"),
                            &mut st,
                        ),
                        return_value: AssignableToken::parse(
                            &CodeLine::new_from_line("e"),
                            &mut st,
                        ),
                    },
                },
            ],
        ),
    ];

    for pair in tests {
        let mut status = Status::new();
        let tokenizer = Tokenizer::new();
        let lines: Vec<CodeLine> =
            pair.0.iter().enumerate().map(|(i, l)| CodeLine::new(l, (i + 1) as u32)).collect();
        let scope = tokenizer.tokenize(&lines, &mut status);

        if scope.methods.len() > 0 {
            for (index, current_stackable) in scope.methods[0].scope.stack.iter().enumerate() {
                assert!(current_stackable.matches(&pair.2[index]));
            }
        }

        assert_eq!(scope.methods.len(), pair.1);
    }
}
