use abanos::expr::Expr;
use abanos::lexer::{tokenize, LexerError, Token};
use abanos::parse::{ParseError, Parser};

fn test_meta(s: &str, expected: Vec<Result<Expr, ParseError>>) {
    let mut reader = Parser::new(s);

    for x in expected {
        let expr = reader.next().expect("the reader ended early");
        match (expr, x) {
            (Ok(e), Ok(x)) => assert_eq!(e, x),
            (Err(e), Err(x)) => assert_eq!(e, x),
            (a, b) => panic!("expected {:?}, got {:?}", b, a),
        }
    }
}

#[test]
fn test_boolean() {
    let s = "#t #true #f #false";
    let expected = vec![
        Ok(Expr::Boolean(true)),
        Ok(Expr::Boolean(true)),
        Ok(Expr::Boolean(false)),
        Ok(Expr::Boolean(false)),
    ];

    test_meta(s, expected);
}

#[test]
fn test_bytevector() {
    let s = "
    #u8(1 2 3)
    #u8(1 512 3)
    ";

    let expected = vec![
        Ok(Expr::Bytevector(vec![1, 2, 3])),
        Err(ParseError::UnexpectedToken(
            Token::Number("512".to_string()),
            1,
        )),
    ];

    test_meta(s, expected);
}

#[test]
fn test_char() {
    let s = "#\\a #\\newline #\\space #\\tab";

    let expected = vec![
        Ok(Expr::Char('a')),
        Ok(Expr::Char('\n')),
        Ok(Expr::Char(' ')),
        Ok(Expr::Char('\t')),
    ];

    test_meta(s, expected);
}

#[test]
fn tests_test_number() {
    let s = "1 1.0 1/2 1+2i 1.0+2.0i 1/2+3/4i";
    let expected = vec![
        Ok(Expr::Number(String::from("1"))),
        Ok(Expr::Number(String::from("1.0"))),
        Ok(Expr::Number(String::from("1/2"))),
        Ok(Expr::Number(String::from("1+2i"))),
        Ok(Expr::Number(String::from("1.0+2.0i"))),
        Ok(Expr::Number(String::from("1/2+3/4i"))),
    ];
    test_meta(s, expected)
}

#[test]
fn test_string() {
    let s = "\"hello\" \"world\"";
    let expected = vec![
        Ok(Expr::String(String::from("hello"))),
        Ok(Expr::String(String::from("world"))),
    ];

    test_meta(s, expected);
}

#[test]
fn test_vector() {
    let s = "#(1 2 3)";
    let expected = vec![Ok(Expr::Vector(vec![
        Expr::Number(String::from("1")),
        Expr::Number(String::from("2")),
        Expr::Number(String::from("3")),
    ]))];

    test_meta(s, expected);
}

#[test]
fn test_quote() {
    let s = "'1\n(quote 1)\n";
    let expected = vec![
        Ok(Expr::Number(String::from("1"))),
        Ok(Expr::Number(String::from("1"))),
    ];

    test_meta(s, expected);
}

#[test]
fn test_assignment() {
    let s = "(set! x 1)\n(set! double (lambda (x) (* x 2)))";

    let expected = vec![
        Ok(Expr::Assign(
            Box::new(Expr::Variable(String::from("x"))),
            Box::new(Expr::Number(String::from("1"))),
        )),
        Ok(Expr::Assign(
            Box::new(Expr::Variable(String::from("double"))),
            Box::new(Expr::Lambda(
                vec![Expr::Variable(String::from("x"))],
                vec![Expr::Apply(
                    Box::new(Expr::Variable(String::from("*"))),
                    vec![
                        Expr::Variable(String::from("x")),
                        Expr::Number(String::from("2")),
                    ],
                )],
            )),
        )),
    ];

    test_meta(s, expected);
}

#[test]
fn test_definition() {
    let s = "(define x 1)\n(define (double x) (* x 2))";

    let expected = vec![
        Ok(Expr::Define(
            Box::new(Expr::Variable(String::from("x"))),
            Box::new(Expr::Number(String::from("1"))),
        )),
        Ok(Expr::Define(
            Box::new(Expr::Variable(String::from("double"))),
            Box::new(Expr::Lambda(
                vec![Expr::Variable(String::from("x"))],
                vec![Expr::Apply(
                    Box::new(Expr::Variable(String::from("*"))),
                    vec![
                        Expr::Variable(String::from("x")),
                        Expr::Number(String::from("2")),
                    ],
                )],
            )),
        )),
    ];

    test_meta(s, expected);
}

#[test]
fn test_conditional() {
    let s = "(if #t 1 2)\n (if #f 1 2 3 4)";

    let expected = vec![
        Ok(Expr::If(
            Box::new(Expr::Boolean(true)),
            Box::new(Expr::Number(String::from("1"))),
            Box::new(Expr::Number(String::from("2"))),
        )),
        Err(ParseError::UnexpectedToken(
            Token::Number("3".to_string()),
            1,
        )),
    ];

    test_meta(s, expected);
}

#[test]
fn test_lambda() {
    let s = "(lambda (x) x)\n(lambda (x y) (+ x y))";

    let expected = vec![
        Ok(Expr::Lambda(
            vec![Expr::Variable(String::from("x"))],
            vec![Expr::Variable(String::from("x"))],
        )),
        Ok(Expr::Lambda(
            vec![
                Expr::Variable(String::from("x")),
                Expr::Variable(String::from("y")),
            ],
            vec![Expr::Apply(
                Box::new(Expr::Variable(String::from("+"))),
                vec![
                    Expr::Variable(String::from("x")),
                    Expr::Variable(String::from("y")),
                ],
            )],
        )),
    ];

    test_meta(s, expected);
}

#[test]
fn test_application() {
    let s = "(+ 1 2)\n(+ 1 2 3)\n ((foo) bar baz)";

    let expected = vec![
        Ok(Expr::Apply(
            Box::new(Expr::Variable(String::from("+"))),
            vec![
                Expr::Number(String::from("1")),
                Expr::Number(String::from("2")),
            ],
        )),
        Ok(Expr::Apply(
            Box::new(Expr::Variable(String::from("+"))),
            vec![
                Expr::Number(String::from("1")),
                Expr::Number(String::from("2")),
                Expr::Number(String::from("3")),
            ],
        )),
        Ok(Expr::Apply(
            Box::new(Expr::Apply(
                Box::new(Expr::Variable(String::from("foo"))),
                vec![],
            )),
            vec![
                Expr::Variable(String::from("bar")),
                Expr::Variable(String::from("baz")),
            ],
        )),
    ];

    test_meta(s, expected);
}

#[test]
fn test_variable() {
    let s = "x\ny\nz";

    let expected = vec![
        Ok(Expr::Variable(String::from("x"))),
        Ok(Expr::Variable(String::from("y"))),
        Ok(Expr::Variable(String::from("z"))),
    ];

    test_meta(s, expected);
}

#[test]
fn test_recover() {
    let s = "(if 1) 1 ( ( ( ( if )))) 7";

    let expected = vec![
        Err(ParseError::UnexpectedToken(Token::ParenRight, 1)),
        Ok(Expr::Number(String::from("1"))),
        Err(ParseError::UnexpectedToken(Token::ParenRight, 4)),
        Ok(Expr::Number(String::from("7"))),
    ];

    test_meta(s, expected);
}


#[test]
fn reader_yields_forms_in_order_then_ends() {
    let mut reader = Parser::new("1 x (f 2)");
    assert_eq!(reader.next(), Some(Ok(Expr::Number(String::from("1")))));
    assert_eq!(reader.next(), Some(Ok(Expr::Variable(String::from("x")))));
    assert_eq!(
        reader.next(),
        Some(Ok(Expr::Apply(
            Box::new(Expr::Variable(String::from("f"))),
            vec![Expr::Number(String::from("2"))],
        )))
    );
    assert_eq!(reader.next(), None);
    assert_eq!(reader.next(), None);
}

#[test]
fn reader_on_empty_and_comment_only_text() {
    assert_eq!(Parser::new("").next(), None);
    assert_eq!(Parser::new("  ; a comment\n  ").next(), None);
}

#[test]
fn reader_recovers_after_error_to_next_form() {
    test_meta(
        "(define) 5",
        vec![
            Err(ParseError::UnexpectedToken(Token::ParenRight, 1)),
            Ok(Expr::Number(String::from("5"))),
        ],
    );
}

#[test]
fn reader_reports_unexpected_eof() {
    let mut reader = Parser::new("(+ 1");
    assert_eq!(reader.next(), Some(Err(ParseError::UnexpectedEof)));
    assert_eq!(reader.next(), None);
}

#[test]
fn reader_reports_lexical_error_and_goes_on() {
    test_meta(
        "5% 6",
        vec![Err(ParseError::LexicalError(0)), Ok(Expr::Number(String::from("6")))],
    );
    test_meta(
        "(a 5%) 7",
        vec![Err(ParseError::LexicalError(1)), Ok(Expr::Number(String::from("7")))],
    );
}

#[test]
fn reader_top_level_close_paren() {
    test_meta(
        ") 3",
        vec![Err(ParseError::UnexpectedToken(Token::ParenRight, 0)), Ok(Expr::Number(String::from("3")))],
    );
}

#[test]
fn reader_bytevector_edges() {
    test_meta(
        "#u8() #u8(0 255 +7) #u8(256)",
        vec![
            Ok(Expr::Bytevector(vec![])),
            Ok(Expr::Bytevector(vec![0, 255, 7])),
            Err(ParseError::UnexpectedToken(Token::Number(String::from("256")), 1)),
        ],
    );
}

#[test]
fn reader_quoted_list_and_nested_quote() {
    test_meta(
        "'(a #t \"s\") ''x",
        vec![
            Ok(Expr::List(vec![
                Expr::Variable(String::from("a")),
                Expr::Boolean(true),
                Expr::String(String::from("s")),
            ])),
            Ok(Expr::Variable(String::from("x"))),
        ],
    );
}

#[test]
fn reader_string_escapes_and_signs() {
    test_meta(
        "\"a\\nb\\\"c\" -5 +x ... +",
        vec![
            Ok(Expr::String(String::from("a\nb\"c"))),
            Ok(Expr::Number(String::from("-5"))),
            Ok(Expr::Variable(String::from("+x"))),
            Ok(Expr::Variable(String::from("..."))),
            Ok(Expr::Variable(String::from("+"))),
        ],
    );
}

#[test]
fn lexer_tokens() {
    assert_eq!(
        tokenize("(5%"),
        vec![Ok(Token::ParenLeft), Err(LexerError::LexicalError)]
    );
    assert_eq!(tokenize("1.0"), vec![Ok(Token::Number(String::from("1.0")))]);
    assert_eq!(
        tokenize("#(#u8( #\\( x ')"),
        vec![
            Ok(Token::HashOpen),
            Ok(Token::HashU8Open),
            Ok(Token::Char('(')),
            Ok(Token::Identifier(String::from("x"))),
            Ok(Token::Quote),
            Ok(Token::ParenRight),
        ]
    );
    assert_eq!(tokenize("\"open"), vec![Err(LexerError::LexicalError)]);
}

#[test]
fn lexer_errors_map_to_reader_errors() {
    assert_eq!(ParseError::from_lexer(&LexerError::LexicalError, 3), ParseError::LexicalError(3));
    assert_eq!(ParseError::from_lexer(&LexerError::ReadLineError, 3), ParseError::ReadLineError);
}

#[test]
fn read_all_yields_every_form() {
    let mut reader = Parser::new("(if 1) 1 ( ( ( ( if )))) 7");
    assert_eq!(
        reader.read_all(),
        vec![
            Err(ParseError::UnexpectedToken(Token::ParenRight, 1)),
            Ok(Expr::Number(String::from("1"))),
            Err(ParseError::UnexpectedToken(Token::ParenRight, 4)),
            Ok(Expr::Number(String::from("7"))),
        ]
    );
    assert_eq!(reader.read_all(), vec![]);
}

#[test]
fn read_all_of_well_formed_text_is_one_expression_per_form() {
    let mut reader = Parser::new("(define (sq x) (* x x)) (sq 3) #(1 \"a\") '()");
    let all = reader.read_all();
    assert_eq!(all.len(), 4);
    assert!(all.iter().all(|r| r.is_ok()));
    assert_eq!(all[3], Ok(Expr::List(vec![])));
}

#[test]
fn lexer_numbers_and_identifiers() {
    assert_eq!(
        tokenize("1/2+3/4i +i -1.5 .5 a->b <=? 1a"),
        vec![
            Ok(Token::Number(String::from("1/2+3/4i"))),
            Ok(Token::Number(String::from("+i"))),
            Ok(Token::Number(String::from("-1.5"))),
            Ok(Token::Number(String::from(".5"))),
            Ok(Token::Identifier(String::from("a->b"))),
            Ok(Token::Identifier(String::from("<=?"))),
            Err(LexerError::LexicalError),
        ]
    );
    assert_eq!(
        tokenize("#true #false #\\space #\\newline #\\tab #\\xyz"),
        vec![
            Ok(Token::Boolean(true)),
            Ok(Token::Boolean(false)),
            Ok(Token::Char(' ')),
            Ok(Token::Char('\n')),
            Ok(Token::Char('\t')),
            Err(LexerError::LexicalError),
        ]
    );
}

#[test]
fn test_number() {
    let s = "1.0";

    let mut lex = tokenize(s).into_iter();

    assert_eq!(lex.next(), Some(Ok(Token::Number(String::from("1.0")))));
}

#[test]
fn test_lexical_errors() {
    let s = "(5%";

    let mut lex = tokenize(s).into_iter();

    assert_eq!(lex.next(), Some(Ok(Token::ParenLeft)));

    assert_eq!(lex.next(), Some(Err(LexerError::LexicalError)));
}

#[test]
fn recovery_counts_vector_openers() {
    test_meta(
        "(if 1 2 3 #(4)) 5",
        vec![
            Err(ParseError::UnexpectedToken(Token::HashOpen, 1)),
            Ok(Expr::Number(String::from("5"))),
        ],
    );
    test_meta(
        "(if 1 2 3 #u8(4)) 6",
        vec![
            Err(ParseError::UnexpectedToken(Token::HashU8Open, 1)),
            Ok(Expr::Number(String::from("6"))),
        ],
    );
}

#[test]
fn failing_operand_is_reported() {
    test_meta(
        "(f (if 1) 2) 3",
        vec![
            Err(ParseError::UnexpectedToken(Token::ParenRight, 2)),
            Ok(Expr::Number(String::from("3"))),
        ],
    );
    let mut reader = Parser::new("(f (if 1)");
    assert_eq!(reader.next(), Some(Err(ParseError::UnexpectedToken(Token::ParenRight, 2))));
    test_meta(
        "'(a #u8(300)) 4",
        vec![
            Err(ParseError::UnexpectedToken(Token::Number(String::from("300")), 2)),
            Ok(Expr::Number(String::from("4"))),
        ],
    );
}

#[test]
fn lambda_needs_identifier_formals_and_a_body() {
    test_meta(
        "(lambda (x)) 1",
        vec![
            Err(ParseError::UnexpectedToken(Token::ParenRight, 1)),
            Ok(Expr::Number(String::from("1"))),
        ],
    );
    test_meta(
        "(lambda (1) x) 2",
        vec![
            Err(ParseError::UnexpectedToken(Token::Number(String::from("1")), 2)),
            Ok(Expr::Number(String::from("2"))),
        ],
    );
    test_meta(
        "(define (f)) 3",
        vec![
            Err(ParseError::UnexpectedToken(Token::ParenRight, 1)),
            Ok(Expr::Number(String::from("3"))),
        ],
    );
}

#[test]
fn bad_string_escape_is_not_fatal() {
    assert_eq!(
        tokenize("\"a\\qb\" 5"),
        vec![Err(LexerError::LexicalError), Ok(Token::Number(String::from("5")))]
    );
    test_meta(
        "\"a\\qb\" 5",
        vec![Err(ParseError::LexicalError(0)), Ok(Expr::Number(String::from("5")))],
    );
}
