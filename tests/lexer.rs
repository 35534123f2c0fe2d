use script_front::lexer::{Keyword, LexError, Lexeme, Lexer, Node, Symbol};

fn chars(s: &str) -> Vec<char> {
    s.chars().collect()
}

fn lex(s: &str) -> Result<Vec<Node>, LexError> {
    Lexer::new(&chars(s)).lex()
}

fn lexemes(s: &str) -> Vec<Lexeme> {
    lex(s).unwrap().into_iter().map(|n| n.lexeme).collect()
}

fn ident(s: &str) -> Lexeme {
    Lexeme::Identifier(chars(s))
}

#[test]
fn empty_input_yields_no_tokens() {
    assert_eq!(lex(""), Ok(vec![]));
}

#[test]
fn class_keyword_spans_first_five_columns() {
    let tokens = lex("class").unwrap();
    assert_eq!(
        tokens,
        vec![Node {
            lexeme: Lexeme::Keyword(Keyword::Class),
            line_number: 1,
            start_col: 1,
            end_col: 6,
        }]
    );
}

#[test]
fn let_binding_tokens() {
    assert_eq!(
        lexemes("let x : Number = 5"),
        vec![
            Lexeme::Keyword(Keyword::Let),
            ident("x"),
            Lexeme::Symbol(Symbol::Colon),
            ident("Number"),
            Lexeme::Symbol(Symbol::Assignment),
            Lexeme::Number(5),
        ]
    );
}

#[test]
fn double_equals_is_one_comparison() {
    assert_eq!(
        lexemes("a == b"),
        vec![ident("a"), Lexeme::Symbol(Symbol::Comparison), ident("b")]
    );
}

#[test]
fn comment_line_is_discarded() {
    let tokens = lex("// comment\nlet").unwrap();
    assert_eq!(
        tokens,
        vec![Node {
            lexeme: Lexeme::Keyword(Keyword::Let),
            line_number: 2,
            start_col: 1,
            end_col: 4,
        }]
    );
}

#[test]
fn unterminated_string_fails() {
    assert_eq!(lex("\"abc"), Err(LexError::UnterminatedString));
}

#[test]
fn joined_word_texts_match_text_without_whitespace() {
    let source = "let x\r\n  foo 42 class\nBar9  0";
    let joined: String = lex(source)
        .unwrap()
        .into_iter()
        .map(|n| match n.lexeme {
            Lexeme::Identifier(t) => t.into_iter().collect::<String>(),
            Lexeme::Number(v) => v.to_string(),
            Lexeme::Keyword(Keyword::Let) => "let".to_string(),
            Lexeme::Keyword(Keyword::Class) => "class".to_string(),
            other => panic!("unexpected lexeme {:?}", other),
        })
        .collect();
    let stripped: String = source
        .chars()
        .filter(|c| *c != ' ' && *c != '\r' && *c != '\n')
        .collect();
    assert_eq!(joined, stripped);
}

#[test]
fn every_keyword_is_recognised() {
    assert_eq!(
        lexemes("if return else class let print section snippet"),
        vec![
            Lexeme::Keyword(Keyword::If),
            Lexeme::Keyword(Keyword::Return),
            Lexeme::Keyword(Keyword::Else),
            Lexeme::Keyword(Keyword::Class),
            Lexeme::Keyword(Keyword::Let),
            Lexeme::Keyword(Keyword::Print),
            Lexeme::Keyword(Keyword::Section),
            Lexeme::Keyword(Keyword::Snippet),
        ]
    );
}

#[test]
fn keyword_prefix_is_an_identifier() {
    assert_eq!(lexemes("classy lets"), vec![ident("classy"), ident("lets")]);
}

#[test]
fn single_character_symbols() {
    assert_eq!(
        lexemes("(){},:;~&|<>+-*/"),
        vec![
            Lexeme::Symbol(Symbol::LParen),
            Lexeme::Symbol(Symbol::RParen),
            Lexeme::Symbol(Symbol::LCurly),
            Lexeme::Symbol(Symbol::RCurly),
            Lexeme::Symbol(Symbol::Comma),
            Lexeme::Symbol(Symbol::Colon),
            Lexeme::Symbol(Symbol::SemiColon),
            Lexeme::Symbol(Symbol::ReturnType),
            Lexeme::Symbol(Symbol::And),
            Lexeme::Symbol(Symbol::Or),
            Lexeme::Symbol(Symbol::RelationalOp('<')),
            Lexeme::Symbol(Symbol::RelationalOp('>')),
            Lexeme::Symbol(Symbol::BinOp('+')),
            Lexeme::Symbol(Symbol::BinOp('-')),
            Lexeme::Symbol(Symbol::BinOp('*')),
            Lexeme::Symbol(Symbol::BinOp('/')),
        ]
    );
}

#[test]
fn relational_operators_are_single_characters() {
    assert_eq!(
        lexemes("<="),
        vec![
            Lexeme::Symbol(Symbol::RelationalOp('<')),
            Lexeme::Symbol(Symbol::Assignment),
        ]
    );
}

#[test]
fn comparison_consumes_two_columns() {
    let tokens = lex("a==b").unwrap();
    assert_eq!(tokens[1].start_col, 2);
    assert_eq!(tokens[1].end_col, 4);
    assert_eq!(tokens[2].start_col, 4);
    assert_eq!(tokens[2].end_col, 5);
}

#[test]
fn equals_at_end_of_input_is_assignment() {
    assert_eq!(lexemes("x ="), vec![ident("x"), Lexeme::Symbol(Symbol::Assignment)]);
}

#[test]
fn slash_at_end_of_input_is_division() {
    assert_eq!(lexemes("/"), vec![Lexeme::Symbol(Symbol::BinOp('/'))]);
}

#[test]
fn comment_running_to_end_of_input() {
    assert_eq!(lex("x // no newline after this"), Ok(vec![Node {
        lexeme: ident("x"),
        line_number: 1,
        start_col: 1,
        end_col: 2,
    }]));
}

#[test]
fn string_literal_keeps_raw_content() {
    let tokens = lex("\"a b\\n\" x").unwrap();
    assert_eq!(
        tokens[0],
        Node {
            lexeme: Lexeme::Word(chars("a b\\n")),
            line_number: 1,
            start_col: 1,
            end_col: 8,
        }
    );
    assert_eq!(tokens[1].start_col, 9);
}

#[test]
fn empty_string_literal() {
    assert_eq!(lexemes("\"\""), vec![Lexeme::Word(vec![])]);
}

#[test]
fn word_ends_at_quote() {
    assert_eq!(lexemes("ab\"cd\""), vec![ident("ab"), Lexeme::Word(chars("cd"))]);
}

#[test]
fn lines_and_columns_follow_newlines() {
    let tokens = lex("a\n  bc\r\n d").unwrap();
    assert_eq!(
        tokens,
        vec![
            Node { lexeme: ident("a"), line_number: 1, start_col: 1, end_col: 2 },
            Node { lexeme: ident("bc"), line_number: 2, start_col: 3, end_col: 5 },
            Node { lexeme: ident("d"), line_number: 3, start_col: 2, end_col: 3 },
        ]
    );
}

#[test]
fn newline_inside_string_counts_for_later_lines() {
    let tokens = lex("\"a\nb\" c").unwrap();
    assert_eq!(tokens[1], Node { lexeme: ident("c"), line_number: 2, start_col: 4, end_col: 5 });
}

#[test]
fn numbers_and_non_numbers() {
    assert_eq!(
        lexemes("007 9223372036854775807 9223372036854775808 12ab"),
        vec![
            Lexeme::Number(7),
            Lexeme::Number(i64::MAX),
            ident("9223372036854775808"),
            ident("12ab"),
        ]
    );
}

#[test]
fn minus_before_number_is_an_operator() {
    assert_eq!(
        lexemes("-5"),
        vec![Lexeme::Symbol(Symbol::BinOp('-')), Lexeme::Number(5)]
    );
}

#[test]
fn word_runs_through_non_terminal_punctuation() {
    assert_eq!(lexemes("a+b,c"), vec![ident("a+b,c")]);
}

#[test]
fn unicode_letters_start_words() {
    assert_eq!(lexemes("藏x é"), vec![ident("藏x"), ident("é")]);
}

#[test]
fn other_characters_are_skipped() {
    let tokens = lex("\t@x").unwrap();
    assert_eq!(tokens, vec![Node { lexeme: ident("x"), line_number: 1, start_col: 3, end_col: 4 }]);
}

#[test]
fn second_lex_finds_nothing_more() {
    let mut lexer = Lexer::new(&chars("let a"));
    assert_eq!(lexer.lex().unwrap().len(), 2);
    assert_eq!(lexer.lex(), Ok(vec![]));
}

#[test]
fn failed_lex_leaves_nothing_to_scan() {
    let mut lexer = Lexer::new(&chars("x \"open"));
    assert_eq!(lexer.lex(), Err(LexError::UnterminatedString));
    assert_eq!(lexer.lex(), Ok(vec![]));
}
