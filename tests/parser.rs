use script_front::lexer::{Keyword, Lexeme, Lexer, Node, Symbol};
use script_front::parser::{ASTNode, Expected, ParseError, Parser, Production};

fn chars(s: &str) -> Vec<char> {
    s.chars().collect()
}

fn tokens(s: &str) -> Vec<Node> {
    Lexer::new(&chars(s)).lex().unwrap()
}

fn parse(s: &str) -> Result<ASTNode, ParseError> {
    Parser::new(tokens(s)).parse()
}

fn token(lexeme: Lexeme, col: usize) -> Node {
    Node { lexeme, line_number: 1, start_col: col, end_col: col + 1 }
}

fn leaf(production: Production, value: &str) -> ASTNode {
    ASTNode {
        production: Some(production),
        children: vec![],
        value: Some(chars(value)),
        operator: None,
    }
}

fn var_decl(name: &str, ty: &str, literal: &str) -> ASTNode {
    ASTNode {
        production: Some(Production::VarDecl),
        children: vec![
            leaf(Production::Ident, name),
            ASTNode {
                production: Some(Production::TypeDecl),
                children: vec![leaf(Production::Literal, literal)],
                value: Some(chars(ty)),
                operator: None,
            },
        ],
        value: None,
        operator: None,
    }
}

fn class_decl(name: &str, body: Vec<ASTNode>) -> ASTNode {
    let mut children = vec![leaf(Production::Ident, name)];
    children.extend(body);
    ASTNode { production: Some(Production::ClassDecl), children, value: None, operator: None }
}

fn root(children: Vec<ASTNode>) -> ASTNode {
    ASTNode { production: Some(Production::ProgramRoot), children, value: None, operator: None }
}

#[test]
fn let_binding_becomes_var_decl() {
    let ast = parse("let x : Number = 5").unwrap();
    assert_eq!(ast.production, Some(Production::ProgramRoot));
    assert_eq!(ast.children.len(), 1);
    let decl = &ast.children[0];
    assert_eq!(decl.production, Some(Production::VarDecl));
    assert_eq!(decl.children[0].production, Some(Production::Ident));
    assert_eq!(decl.children[0].value, Some(chars("x")));
    let ty = &decl.children[1];
    assert_eq!(ty.production, Some(Production::TypeDecl));
    assert_eq!(ty.value, Some(chars("Number")));
    assert_eq!(ty.children.len(), 1);
    assert_eq!(ty.children[0].value, Some(chars("5")));
    assert_eq!(ast, root(vec![var_decl("x", "Number", "5")]));
}

#[test]
fn let_followed_by_semicolon_fails() {
    let toks = vec![
        token(Lexeme::Keyword(Keyword::Let), 1),
        token(Lexeme::Symbol(Symbol::SemiColon), 4),
    ];
    assert_eq!(
        Parser::new(toks).parse(),
        Err(ParseError::UnexpectedToken {
            production: Production::VarDecl,
            expected: Expected::Identifier,
            found: Lexeme::Symbol(Symbol::SemiColon),
            line: 1,
            col: 4,
        })
    );
}

#[test]
fn no_tokens_make_an_empty_program() {
    assert_eq!(Parser::new(vec![]).parse(), Ok(root(vec![])));
}

#[test]
fn string_typed_binding() {
    assert_eq!(
        parse("let name : String = 12"),
        Ok(root(vec![var_decl("name", "String", "12")]))
    );
}

#[test]
fn sibling_declarations_stay_in_order() {
    assert_eq!(
        parse("let a : Number = 1\nlet b : Number = 2"),
        Ok(root(vec![var_decl("a", "Number", "1"), var_decl("b", "Number", "2")]))
    );
}

#[test]
fn class_body_holds_its_declarations() {
    assert_eq!(
        parse("class Point { let x : Number = 0 let y : Number = 3 } let z : Number = 9"),
        Ok(root(vec![
            class_decl("Point", vec![var_decl("x", "Number", "0"), var_decl("y", "Number", "3")]),
            var_decl("z", "Number", "9"),
        ]))
    );
}

#[test]
fn nested_classes() {
    assert_eq!(
        parse("class A { class B { } let v : Number = 4 }"),
        Ok(root(vec![class_decl(
            "A",
            vec![class_decl("B", vec![]), var_decl("v", "Number", "4")]
        )]))
    );
}

#[test]
fn unclosed_class_body_fails_at_end() {
    assert_eq!(
        parse("class A { let v : Number = 4"),
        Err(ParseError::UnexpectedEndOfInput {
            production: Production::ClassDecl,
            expected: Expected::Symbol(Symbol::RCurly),
        })
    );
}

#[test]
fn class_without_brace_fails() {
    assert_eq!(
        parse("class A let"),
        Err(ParseError::UnexpectedToken {
            production: Production::ClassDecl,
            expected: Expected::Symbol(Symbol::LCurly),
            found: Lexeme::Keyword(Keyword::Let),
            line: 1,
            col: 9,
        })
    );
}

#[test]
fn class_without_name_fails() {
    assert_eq!(
        parse("class {"),
        Err(ParseError::UnexpectedToken {
            production: Production::ClassDecl,
            expected: Expected::Identifier,
            found: Lexeme::Symbol(Symbol::LCurly),
            line: 1,
            col: 7,
        })
    );
}

#[test]
fn stray_closing_brace_at_top_level_fails() {
    assert_eq!(
        parse("}"),
        Err(ParseError::UnexpectedToken {
            production: Production::ProgramRoot,
            expected: Expected::Declaration,
            found: Lexeme::Symbol(Symbol::RCurly),
            line: 1,
            col: 1,
        })
    );
}

#[test]
fn unsupported_keyword_is_an_error() {
    assert_eq!(
        parse("\nif"),
        Err(ParseError::UnexpectedToken {
            production: Production::ProgramRoot,
            expected: Expected::Declaration,
            found: Lexeme::Keyword(Keyword::If),
            line: 2,
            col: 1,
        })
    );
}

#[test]
fn unsupported_keyword_in_class_body_is_an_error() {
    assert_eq!(
        parse("class A { print }"),
        Err(ParseError::UnexpectedToken {
            production: Production::ClassDecl,
            expected: Expected::Declaration,
            found: Lexeme::Keyword(Keyword::Print),
            line: 1,
            col: 11,
        })
    );
}

#[test]
fn unknown_type_name_fails() {
    assert_eq!(
        parse("let x : Bool = 1"),
        Err(ParseError::UnexpectedToken {
            production: Production::TypeDecl,
            expected: Expected::TypeName,
            found: Lexeme::Identifier(chars("Bool")),
            line: 1,
            col: 9,
        })
    );
}

#[test]
fn missing_colon_fails() {
    assert_eq!(
        parse("let x Number = 1"),
        Err(ParseError::UnexpectedToken {
            production: Production::VarDecl,
            expected: Expected::Symbol(Symbol::Colon),
            found: Lexeme::Identifier(chars("Number")),
            line: 1,
            col: 7,
        })
    );
}

#[test]
fn missing_assignment_fails() {
    assert_eq!(
        parse("let x : Number 1"),
        Err(ParseError::UnexpectedToken {
            production: Production::TypeDecl,
            expected: Expected::Symbol(Symbol::Assignment),
            found: Lexeme::Number(1),
            line: 1,
            col: 16,
        })
    );
}

#[test]
fn string_literal_value_is_not_supported() {
    assert_eq!(
        parse("let s : String = \"hi\""),
        Err(ParseError::UnexpectedToken {
            production: Production::TypeDecl,
            expected: Expected::NumberLiteral,
            found: Lexeme::Word(chars("hi")),
            line: 1,
            col: 18,
        })
    );
}

#[test]
fn tokens_running_out_mid_binding_fail() {
    assert_eq!(
        parse("let"),
        Err(ParseError::UnexpectedEndOfInput {
            production: Production::VarDecl,
            expected: Expected::Identifier,
        })
    );
    assert_eq!(
        parse("let x : Number ="),
        Err(ParseError::UnexpectedEndOfInput {
            production: Production::TypeDecl,
            expected: Expected::NumberLiteral,
        })
    );
}

#[test]
fn failed_parse_leaves_cursor_in_place() {
    let mut parser = Parser::new(tokens("let x : Number = 5 if"));
    assert!(parser.parse().is_err());
    assert!(parser.parse_vardec().is_ok());
}

#[test]
fn productions_parse_one_at_a_time() {
    let mut parser = Parser::new(tokens("let x : Number = 5 Number = 7 = 8 y"));
    assert_eq!(parser.parse_vardec(), Ok(var_decl("x", "Number", "5")));
    let ty = parser.parse_type().unwrap();
    assert_eq!(ty.value, Some(chars("Number")));
    assert_eq!(ty.children, vec![leaf(Production::Literal, "7")]);
    assert_eq!(parser.parse_assignment(), Ok(leaf(Production::Literal, "8")));
    assert_eq!(parser.parse_ident(Production::Ident), Ok(leaf(Production::Ident, "y")));
    assert_eq!(
        parser.throw_error(Production::Ident, Expected::Identifier),
        ParseError::UnexpectedEndOfInput {
            production: Production::Ident,
            expected: Expected::Identifier,
        }
    );
}

#[test]
fn negative_literal_keeps_its_sign() {
    let toks = vec![
        token(Lexeme::Symbol(Symbol::Assignment), 1),
        token(Lexeme::Number(-42), 3),
    ];
    assert_eq!(Parser::new(toks).parse_assignment(), Ok(leaf(Production::Literal, "-42")));
}

#[test]
fn parse_classdec_on_its_own() {
    let mut parser = Parser::new(tokens("class Empty { } let"));
    assert_eq!(parser.parse_classdec(), Ok(class_decl("Empty", vec![])));
    assert_eq!(
        parser.parse_classdec(),
        Err(ParseError::UnexpectedToken {
            production: Production::ClassDecl,
            expected: Expected::Keyword(Keyword::Class),
            found: Lexeme::Keyword(Keyword::Let),
            line: 1,
            col: 17,
        })
    );
}
