//! The parser: tokens in source order in, a tree of class and variable
//! declarations out.
//!
//! ```text
//! Program     := Declaration*
//! Declaration := ClassDecl | LetDecl
//! ClassDecl   := 'class' Identifier '{' Declaration* '}'
//! LetDecl     := 'let' Identifier ':' TypeName '=' Literal
//! TypeName    := Identifier, one of "Number" or "String"
//! Literal     := Number
//! ```
use vstd::prelude::*;

use crate::lexer::{copy_chars, copy_lexeme, nodes_view, same_chars, Keyword, Lexeme, Node, SpecLexeme, SpecNode, Symbol};
use crate::number::{decimal_chars, decimal_of};

verus! {

/// The grammar rule a tree node stands for, or that was being attempted
/// when parsing failed.
#[derive(Debug, Clone, Copy, PartialEq, Eq, Structural)]
pub enum Production {
    ProgramRoot,
    ClassDecl,
    VarDecl,
    TypeDecl,
    Ident,
    Literal,
}

/// What the parser wanted to see next.
#[derive(Debug, Clone, Copy, PartialEq, Eq, Structural)]
pub enum Expected {
    Identifier,
    Keyword(Keyword),
    Symbol(Symbol),
    /// An identifier naming a type: `Number` or `String`.
    TypeName,
    /// A numeric literal.
    NumberLiteral,
    /// The start of a declaration: `let` or `class`.
    Declaration,
}

#[derive(Debug, Clone, PartialEq, Eq)]
pub enum ParseError {
    /// The token at `line`, column `col` is `found`, where `production`
    /// wanted `expected`.
    UnexpectedToken {
        production: Production,
        expected: Expected,
        found: Lexeme,
        line: usize,
        col: usize,
    },
    /// The tokens ran out where `production` wanted `expected`.
    UnexpectedEndOfInput { production: Production, expected: Expected },
}

pub enum SpecParseError {
    UnexpectedToken {
        production: Production,
        expected: Expected,
        found: SpecLexeme,
        line: nat,
        col: nat,
    },
    UnexpectedEndOfInput { production: Production, expected: Expected },
}

impl View for ParseError {
    type V = SpecParseError;

    open spec fn view(&self) -> SpecParseError {
        match self {
            ParseError::UnexpectedToken { production, expected, found, line, col } =>
                SpecParseError::UnexpectedToken {
                production: *production,
                expected: *expected,
                found: found@,
                line: *line as nat,
                col: *col as nat,
            },
            ParseError::UnexpectedEndOfInput { production, expected } =>
                SpecParseError::UnexpectedEndOfInput {
                production: *production,
                expected: *expected,
            },
        }
    }
}

/// A node of the declaration tree. It owns its children.
#[derive(Debug, PartialEq, Eq)]
pub struct ASTNode {
    pub production: Option<Production>,
    pub children: Vec<ASTNode>,
    pub value: Option<Vec<char>>,
    pub operator: Option<Vec<char>>,
}

pub struct SpecAst {
    pub production: Option<Production>,
    pub children: Seq<SpecAst>,
    pub value: Option<Seq<char>>,
    pub operator: Option<Seq<char>>,
}

pub open spec fn chars_view(v: Option<Vec<char>>) -> Option<Seq<char>> {
    match v {
        Some(t) => Some(t@),
        None => None,
    }
}

impl View for ASTNode {
    type V = SpecAst;

    open spec fn view(&self) -> SpecAst {
        ast_view(*self)
    }
}

pub open spec fn asts_view(v: Seq<ASTNode>) -> Seq<SpecAst> {
    v.map_values(|n: ASTNode| n@)
}

pub open spec fn ast_view(n: ASTNode) -> SpecAst
    decreases n,
{
    SpecAst {
        production: n.production,
        children: Seq::new(
            n.children.len() as nat,
            |i: int|
                if 0 <= i < n.children.len() {
                    ast_view(n.children[i])
                } else {
                    SpecAst { production: None, children: seq![], value: None, operator: None }
                },
        ),
        value: chars_view(n.value),
        operator: chars_view(n.operator),
    }
}

pub open spec fn is_type_name(t: Seq<char>) -> bool {
    ||| t == seq!['N', 'u', 'm', 'b', 'e', 'r']
    ||| t == seq!['S', 't', 'r', 'i', 'n', 'g']
}

/// Whether lexeme `l` is what `want` asks for.
pub open spec fn satisfies(l: SpecLexeme, want: Expected) -> bool {
    match want {
        Expected::Identifier => l is Identifier,
        Expected::Keyword(k) => l == SpecLexeme::Keyword(k),
        Expected::Symbol(sym) => l == SpecLexeme::Symbol(sym),
        Expected::TypeName => l matches SpecLexeme::Identifier(t) && is_type_name(t),
        Expected::NumberLiteral => l is Number,
        Expected::Declaration => l == SpecLexeme::Keyword(Keyword::Let) || l == SpecLexeme::Keyword(
            Keyword::Class,
        ),
    }
}

/// Whether there is a token at `pos` and it is what `want` asks for.
pub open spec fn fits(toks: Seq<SpecNode>, pos: int, want: Expected) -> bool {
    0 <= pos < toks.len() && satisfies(toks[pos].lexeme, want)
}

/// The error for wanting `want` at `pos` while attempting `production`.
pub open spec fn error_at(toks: Seq<SpecNode>, pos: int, production: Production, want: Expected) -> SpecParseError {
    if 0 <= pos < toks.len() {
        SpecParseError::UnexpectedToken {
            production,
            expected: want,
            found: toks[pos].lexeme,
            line: toks[pos].line_number,
            col: toks[pos].start_col,
        }
    } else {
        SpecParseError::UnexpectedEndOfInput { production, expected: want }
    }
}

/// The text of an identifier lexeme.
pub open spec fn text_of(l: SpecLexeme) -> Seq<char> {
    match l {
        SpecLexeme::Identifier(t) => t,
        _ => seq![],
    }
}

/// The value of a number lexeme.
pub open spec fn number_of(l: SpecLexeme) -> int {
    match l {
        SpecLexeme::Number(n) => n as int,
        _ => 0,
    }
}

pub open spec fn leaf(production: Production, value: Seq<char>) -> SpecAst {
    SpecAst { production: Some(production), children: seq![], value: Some(value), operator: None }
}

pub open spec fn ident_node(name: Seq<char>) -> SpecAst {
    leaf(Production::Ident, name)
}

pub open spec fn literal_node(n: int) -> SpecAst {
    leaf(Production::Literal, decimal_of(n))
}

pub open spec fn type_node(name: Seq<char>, literal: SpecAst) -> SpecAst {
    SpecAst {
        production: Some(Production::TypeDecl),
        children: seq![literal],
        value: Some(name),
        operator: None,
    }
}

pub open spec fn var_node(ident: SpecAst, ty: SpecAst) -> SpecAst {
    SpecAst {
        production: Some(Production::VarDecl),
        children: seq![ident, ty],
        value: None,
        operator: None,
    }
}

pub open spec fn class_node(name: Seq<char>, body: Seq<SpecAst>) -> SpecAst {
    SpecAst {
        production: Some(Production::ClassDecl),
        children: seq![ident_node(name)] + body,
        value: None,
        operator: None,
    }
}

pub open spec fn root_node(decls: Seq<SpecAst>) -> SpecAst {
    SpecAst { production: Some(Production::ProgramRoot), children: decls, value: None, operator: None }
}

/// An identifier at `pos`, as an `Ident` node; one token.
pub open spec fn ident_at(toks: Seq<SpecNode>, pos: int, production: Production) -> Result<SpecAst, SpecParseError> {
    if fits(toks, pos, Expected::Identifier) {
        Ok(ident_node(text_of(toks[pos].lexeme)))
    } else {
        Err(error_at(toks, pos, production, Expected::Identifier))
    }
}

/// `'=' Number` at `pos`, as a `Literal` node; two tokens.
pub open spec fn assignment_at(toks: Seq<SpecNode>, pos: int) -> Result<SpecAst, SpecParseError> {
    if !fits(toks, pos, Expected::Symbol(Symbol::Assignment)) {
        Err(error_at(toks, pos, Production::TypeDecl, Expected::Symbol(Symbol::Assignment)))
    } else if !fits(toks, pos + 1, Expected::NumberLiteral) {
        Err(error_at(toks, pos + 1, Production::TypeDecl, Expected::NumberLiteral))
    } else {
        Ok(literal_node(number_of(toks[pos + 1].lexeme)))
    }
}

/// `TypeName '=' Number` at `pos`, as a `TypeDecl` node; three tokens.
pub open spec fn type_at(toks: Seq<SpecNode>, pos: int) -> Result<SpecAst, SpecParseError> {
    if !fits(toks, pos, Expected::TypeName) {
        Err(error_at(toks, pos, Production::TypeDecl, Expected::TypeName))
    } else {
        match assignment_at(toks, pos + 1) {
            Ok(literal) => Ok(type_node(text_of(toks[pos].lexeme), literal)),
            Err(e) => Err(e),
        }
    }
}

/// `'let' Identifier ':' TypeName '=' Number` at `pos`, as a `VarDecl` node;
/// six tokens.
pub open spec fn let_at(toks: Seq<SpecNode>, pos: int) -> Result<SpecAst, SpecParseError> {
    if !fits(toks, pos, Expected::Keyword(Keyword::Let)) {
        Err(error_at(toks, pos, Production::VarDecl, Expected::Keyword(Keyword::Let)))
    } else {
        match ident_at(toks, pos + 1, Production::VarDecl) {
            Err(e) => Err(e),
            Ok(ident) => if !fits(toks, pos + 2, Expected::Symbol(Symbol::Colon)) {
                Err(error_at(toks, pos + 2, Production::VarDecl, Expected::Symbol(Symbol::Colon)))
            } else {
                match type_at(toks, pos + 3) {
                    Ok(ty) => Ok(var_node(ident, ty)),
                    Err(e) => Err(e),
                }
            },
        }
    }
}

/// Declarations found before `r`, put in front of what `r` holds; an error stays.
pub open spec fn prepend_decls(
    pre: Seq<SpecAst>,
    r: Result<(Seq<SpecAst>, int), SpecParseError>,
) -> Result<(Seq<SpecAst>, int), SpecParseError> {
    match r {
        Ok((ds, end)) => Ok((pre + ds, end)),
        Err(e) => Err(e),
    }
}

/// `'class' Identifier '{' Declaration* '}'` at `pos`: the `ClassDecl` node
/// and the position just past the closing brace.
pub open spec fn class_at(toks: Seq<SpecNode>, pos: int) -> Result<(SpecAst, int), SpecParseError>
    decreases toks.len() - pos, 0int,
{
    if !fits(toks, pos, Expected::Keyword(Keyword::Class)) {
        Err(error_at(toks, pos, Production::ClassDecl, Expected::Keyword(Keyword::Class)))
    } else if !fits(toks, pos + 1, Expected::Identifier) {
        Err(error_at(toks, pos + 1, Production::ClassDecl, Expected::Identifier))
    } else if !fits(toks, pos + 2, Expected::Symbol(Symbol::LCurly)) {
        Err(error_at(toks, pos + 2, Production::ClassDecl, Expected::Symbol(Symbol::LCurly)))
    } else {
        match declarations_at(toks, pos + 3, true) {
            Ok((body, end)) => Ok((class_node(text_of(toks[pos + 1].lexeme), body), end)),
            Err(e) => Err(e),
        }
    }
}

/// One declaration at `pos`, within `within`: the node and the position
/// just past it.
pub open spec fn declaration_at(toks: Seq<SpecNode>, pos: int, within: Production) -> Result<
    (SpecAst, int),
    SpecParseError,
>
    decreases toks.len() - pos, 1int,
{
    if fits(toks, pos, Expected::Keyword(Keyword::Let)) {
        match let_at(toks, pos) {
            Ok(d) => Ok((d, pos + 6)),
            Err(e) => Err(e),
        }
    } else if fits(toks, pos, Expected::Keyword(Keyword::Class)) {
        class_at(toks, pos)
    } else {
        Err(error_at(toks, pos, within, Expected::Declaration))
    }
}

/// Declarations from `pos` on: up to the end of the tokens at top level, or
/// through the closing brace of a class body. Gives the declarations and
/// the position just past them.
pub open spec fn declarations_at(toks: Seq<SpecNode>, pos: int, in_class: bool) -> Result<
    (Seq<SpecAst>, int),
    SpecParseError,
>
    decreases toks.len() - pos, 2int,
{
    if pos < 0 || pos >= toks.len() {
        if in_class {
            Err(error_at(toks, pos, Production::ClassDecl, Expected::Symbol(Symbol::RCurly)))
        } else {
            Ok((seq![], pos))
        }
    } else if in_class && toks[pos].lexeme == SpecLexeme::Symbol(Symbol::RCurly) {
        Ok((seq![], pos + 1))
    } else {
        let within = if in_class {
            Production::ClassDecl
        } else {
            Production::ProgramRoot
        };
        match declaration_at(toks, pos, within) {
            Err(e) => Err(e),
            Ok((d, next)) => if pos < next <= toks.len() {
                prepend_decls(seq![d], declarations_at(toks, next, in_class))
            } else {
                Ok((seq![d], next))
            },
        }
    }
}

/// The program that the tokens from `pos` on make: a `ProgramRoot` node
/// holding every top-level declaration.
pub open spec fn program_at(toks: Seq<SpecNode>, pos: int) -> Result<SpecAst, SpecParseError> {
    match declarations_at(toks, pos, false) {
        Ok((decls, _)) => Ok(root_node(decls)),
        Err(e) => Err(e),
    }
}

/// The program that all of `toks` make.
pub open spec fn parse_tokens(toks: Seq<SpecNode>) -> Result<SpecAst, SpecParseError> {
    program_at(toks, 0)
}

pub open spec fn parsed(r: Result<ASTNode, ParseError>) -> Result<SpecAst, SpecParseError> {
    match r {
        Ok(n) => Ok(n@),
        Err(e) => Err(e@),
    }
}

fn leaf_node(production: Production, value: Vec<char>) -> (r: ASTNode)
    ensures
        r@ == leaf(production, value@),
{
    let r = ASTNode {
        production: Some(production),
        children: Vec::new(),
        value: Some(value),
        operator: None,
    };
    assert(r@.children =~= seq![]);
    r
}

fn branch_node(production: Production, children: Vec<ASTNode>, value: Option<Vec<char>>) -> (r:
    ASTNode)
    ensures
        r@ == (SpecAst {
            production: Some(production),
            children: asts_view(children@),
            value: chars_view(value),
            operator: None,
        }),
{
    let r = ASTNode { production: Some(production), children, value, operator: None };
    assert(r@.children =~= asts_view(children@));
    r
}

fn is_type_name_chars(t: &Vec<char>) -> (r: bool)
    ensures
        r == is_type_name(t@),
{
    let number = vec!['N', 'u', 'm', 'b', 'e', 'r'];
    let string = vec!['S', 't', 'r', 'i', 'n', 'g'];
    assert(number@ =~= seq!['N', 'u', 'm', 'b', 'e', 'r']);
    assert(string@ =~= seq!['S', 't', 'r', 'i', 'n', 'g']);
    same_chars(t, &number) || same_chars(t, &string)
}

/// A forward cursor over a token sequence in source order.
pub struct Parser {
    tokens: Vec<Node>,
    position: usize,
}

impl Parser {
    pub closed spec fn stream(&self) -> Seq<SpecNode> {
        nodes_view(self.tokens@)
    }

    pub closed spec fn pos(&self) -> int {
        self.position as int
    }

    pub closed spec fn wf(&self) -> bool {
        self.position <= self.tokens.len()
    }

    /// A parser at the first of `tokens`.
    pub fn new(tokens: Vec<Node>) -> (p: Parser)
        ensures
            p.wf(),
            p.stream() == nodes_view(tokens@),
            p.pos() == 0,
    {
        Parser { tokens, position: 0 }
    }

    /// Whether the current token is what `want` asks for.
    fn fits_here(&self, want: Expected) -> (r: bool)
        requires
            self.wf(),
        ensures
            r == fits(self.stream(), self.pos(), want),
    {
        if self.position >= self.tokens.len() {
            return false;
        }
        let l = &self.tokens[self.position].lexeme;
        match want {
            Expected::Identifier => matches!(l, Lexeme::Identifier(_)),
            Expected::Keyword(k) => match l {
                Lexeme::Keyword(found) => *found == k,
                _ => false,
            },
            Expected::Symbol(sym) => match l {
                Lexeme::Symbol(found) => *found == sym,
                _ => false,
            },
            Expected::TypeName => match l {
                Lexeme::Identifier(t) => is_type_name_chars(t),
                _ => false,
            },
            Expected::NumberLiteral => matches!(l, Lexeme::Number(_)),
            Expected::Declaration => match l {
                Lexeme::Keyword(found) => *found == Keyword::Let || *found == Keyword::Class,
                _ => false,
            },
        }
    }

    /// The error for wanting `expected` at the current token while
    /// attempting `production`.
    pub fn throw_error(&self, production: Production, expected: Expected) -> (e: ParseError)
        requires
            self.wf(),
        ensures
            e@ == error_at(self.stream(), self.pos(), production, expected),
    {
        if self.position < self.tokens.len() {
            let t = &self.tokens[self.position];
            ParseError::UnexpectedToken {
                production,
                expected,
                found: copy_lexeme(&t.lexeme),
                line: t.line_number,
                col: t.start_col,
            }
        } else {
            ParseError::UnexpectedEndOfInput { production, expected }
        }
    }

    /// The text of the current token, an identifier.
    fn identifier_here(&self) -> (r: Vec<char>)
        requires
            self.wf(),
            fits(self.stream(), self.pos(), Expected::Identifier),
        ensures
            r@ == text_of(self.stream()[self.pos()].lexeme),
    {
        match &self.tokens[self.position].lexeme {
            Lexeme::Identifier(t) => copy_chars(t),
            _ => Vec::new(),
        }
    }

    /// The value of the current token, a number.
    fn number_here(&self) -> (r: i64)
        requires
            self.wf(),
            fits(self.stream(), self.pos(), Expected::NumberLiteral),
        ensures
            r as int == number_of(self.stream()[self.pos()].lexeme),
    {
        match &self.tokens[self.position].lexeme {
            Lexeme::Number(n) => *n,
            _ => 0,
        }
    }

    /// Parses an identifier into an `Ident` node, on behalf of `production`.
    pub fn parse_ident(&mut self, production: Production) -> (r: Result<ASTNode, ParseError>)
        requires
            old(self).wf(),
        ensures
            final(self).wf(),
            final(self).stream() == old(self).stream(),
            parsed(r) == ident_at(old(self).stream(), old(self).pos(), production),
            final(self).pos() == if r is Ok {
                old(self).pos() + 1
            } else {
                old(self).pos()
            },
    {
        if !self.fits_here(Expected::Identifier) {
            return Err(self.throw_error(production, Expected::Identifier));
        }
        let name = self.identifier_here();
        self.position = self.position + 1;
        Ok(leaf_node(Production::Ident, name))
    }

    /// Parses `'=' Number` into a `Literal` node holding the number's digits.
    pub fn parse_assignment(&mut self) -> (r: Result<ASTNode, ParseError>)
        requires
            old(self).wf(),
        ensures
            final(self).wf(),
            final(self).stream() == old(self).stream(),
            parsed(r) == assignment_at(old(self).stream(), old(self).pos()),
            final(self).pos() == if r is Ok {
                old(self).pos() + 2
            } else {
                old(self).pos()
            },
    {
        let start = self.position;
        if !self.fits_here(Expected::Symbol(Symbol::Assignment)) {
            return Err(self.throw_error(Production::TypeDecl, Expected::Symbol(Symbol::Assignment)));
        }
        self.position = self.position + 1;
        if !self.fits_here(Expected::NumberLiteral) {
            let e = self.throw_error(Production::TypeDecl, Expected::NumberLiteral);
            self.position = start;
            return Err(e);
        }
        let n = self.number_here();
        self.position = self.position + 1;
        Ok(leaf_node(Production::Literal, decimal_chars(n)))
    }

    /// Parses `TypeName '=' Number` into a `TypeDecl` node whose value is
    /// the type's name and whose child is the literal.
    pub fn parse_type(&mut self) -> (r: Result<ASTNode, ParseError>)
        requires
            old(self).wf(),
        ensures
            final(self).wf(),
            final(self).stream() == old(self).stream(),
            parsed(r) == type_at(old(self).stream(), old(self).pos()),
            final(self).pos() == if r is Ok {
                old(self).pos() + 3
            } else {
                old(self).pos()
            },
    {
        let start = self.position;
        if !self.fits_here(Expected::TypeName) {
            return Err(self.throw_error(Production::TypeDecl, Expected::TypeName));
        }
        let name = self.identifier_here();
        self.position = self.position + 1;
        match self.parse_assignment() {
            Ok(literal) => {
                let mut children: Vec<ASTNode> = Vec::new();
                children.push(literal);
                assert(asts_view(children@) =~= seq![literal@]);
                Ok(branch_node(Production::TypeDecl, children, Some(name)))
            },
            Err(e) => {
                self.position = start;
                Err(e)
            },
        }
    }

    /// Parses `'let' Identifier ':' TypeName '=' Number` into a `VarDecl`
    /// node whose children are the `Ident` and the `TypeDecl`.
    pub fn parse_vardec(&mut self) -> (r: Result<ASTNode, ParseError>)
        requires
            old(self).wf(),
        ensures
            final(self).wf(),
            final(self).stream() == old(self).stream(),
            parsed(r) == let_at(old(self).stream(), old(self).pos()),
            final(self).pos() == if r is Ok {
                old(self).pos() + 6
            } else {
                old(self).pos()
            },
    {
        let start = self.position;
        if !self.fits_here(Expected::Keyword(Keyword::Let)) {
            return Err(self.throw_error(Production::VarDecl, Expected::Keyword(Keyword::Let)));
        }
        self.position = self.position + 1;
        let ident = match self.parse_ident(Production::VarDecl) {
            Ok(n) => n,
            Err(e) => {
                self.position = start;
                return Err(e);
            },
        };
        if !self.fits_here(Expected::Symbol(Symbol::Colon)) {
            let e = self.throw_error(Production::VarDecl, Expected::Symbol(Symbol::Colon));
            self.position = start;
            return Err(e);
        }
        self.position = self.position + 1;
        match self.parse_type() {
            Ok(ty) => {
                let mut children: Vec<ASTNode> = Vec::new();
                children.push(ident);
                children.push(ty);
                assert(asts_view(children@) =~= seq![ident@, ty@]);
                Ok(branch_node(Production::VarDecl, children, None))
            },
            Err(e) => {
                self.position = start;
                Err(e)
            },
        }
    }

    /// Parses `'class' Identifier '{' Declaration* '}'` into a `ClassDecl`
    /// node whose first child is the class name and whose other children
    /// are the declarations of its body.
    pub fn parse_classdec(&mut self) -> (r: Result<ASTNode, ParseError>)
        requires
            old(self).wf(),
        ensures
            final(self).wf(),
            final(self).stream() == old(self).stream(),
            match class_at(old(self).stream(), old(self).pos()) {
                Ok((n, end)) => r matches Ok(x) && x@ == n && final(self).pos() == end,
                Err(e) => r matches Err(x) && x@ == e && final(self).pos() == old(self).pos(),
            },
        decreases old(self).stream().len() - old(self).pos(), 0int,
    {
        let start = self.position;
        if !self.fits_here(Expected::Keyword(Keyword::Class)) {
            return Err(self.throw_error(Production::ClassDecl, Expected::Keyword(Keyword::Class)));
        }
        self.position = self.position + 1;
        if !self.fits_here(Expected::Identifier) {
            let e = self.throw_error(Production::ClassDecl, Expected::Identifier);
            self.position = start;
            return Err(e);
        }
        let name = self.identifier_here();
        self.position = self.position + 1;
        if !self.fits_here(Expected::Symbol(Symbol::LCurly)) {
            let e = self.throw_error(Production::ClassDecl, Expected::Symbol(Symbol::LCurly));
            self.position = start;
            return Err(e);
        }
        self.position = self.position + 1;
        match self.parse_declarations(true) {
            Ok(body) => {
                let mut children: Vec<ASTNode> = Vec::new();
                children.push(leaf_node(Production::Ident, name));
                let ghost body_view = body@;
                let mut body = body;
                children.append(&mut body);
                assert(asts_view(children@) =~= seq![ident_node(name@)] + asts_view(
                    children@.subrange(1, children@.len() as int),
                ));
                assert(children@.subrange(1, children@.len() as int) =~= body_view);
                Ok(branch_node(Production::ClassDecl, children, None))
            },
            Err(e) => {
                self.position = start;
                Err(e)
            },
        }
    }

    /// Parses one declaration, inside `within`.
    fn parse_declaration(&mut self, within: Production) -> (r: Result<ASTNode, ParseError>)
        requires
            old(self).wf(),
        ensures
            final(self).wf(),
            final(self).stream() == old(self).stream(),
            match declaration_at(old(self).stream(), old(self).pos(), within) {
                Ok((n, end)) => r matches Ok(x) && x@ == n && final(self).pos() == end,
                Err(e) => r matches Err(x) && x@ == e && final(self).pos() == old(self).pos(),
            },
        decreases old(self).stream().len() - old(self).pos(), 1int,
    {
        if self.fits_here(Expected::Keyword(Keyword::Let)) {
            self.parse_vardec()
        } else if self.fits_here(Expected::Keyword(Keyword::Class)) {
            self.parse_classdec()
        } else {
            Err(self.throw_error(within, Expected::Declaration))
        }
    }

    /// Parses declarations up to the end of the tokens (at top level) or
    /// through the closing brace of a class body.
    fn parse_declarations(&mut self, in_class: bool) -> (r: Result<Vec<ASTNode>, ParseError>)
        requires
            old(self).wf(),
        ensures
            final(self).wf(),
            final(self).stream() == old(self).stream(),
            match declarations_at(old(self).stream(), old(self).pos(), in_class) {
                Ok((ds, end)) => r matches Ok(x) && asts_view(x@) == ds && final(self).pos() == end,
                Err(e) => r matches Err(x) && x@ == e && final(self).pos() == old(self).pos(),
            },
            r is Ok && !in_class ==> final(self).pos() == final(self).stream().len(),
        decreases old(self).stream().len() - old(self).pos(), 2int,
    {
        let ghost toks = self.stream();
        let start = self.position;
        let mut items: Vec<ASTNode> = Vec::new();
        loop
            invariant
                self.wf(),
                self.stream() == toks,
                toks == old(self).stream(),
                start == old(self).pos(),
                start <= self.pos() <= toks.len(),
                declarations_at(toks, start as int, in_class) == prepend_decls(
                    asts_view(items@),
                    declarations_at(toks, self.pos(), in_class),
                ),
            decreases toks.len() - self.pos(),
        {
            if self.position >= self.tokens.len() {
                if in_class {
                    let e = self.throw_error(Production::ClassDecl, Expected::Symbol(Symbol::RCurly));
                    self.position = start;
                    return Err(e);
                }
                assert(asts_view(items@) + seq![] =~= asts_view(items@));
                return Ok(items);
            }
            if in_class && self.fits_here(Expected::Symbol(Symbol::RCurly)) {
                self.position = self.position + 1;
                assert(asts_view(items@) + seq![] =~= asts_view(items@));
                return Ok(items);
            }
            let within = if in_class {
                Production::ClassDecl
            } else {
                Production::ProgramRoot
            };
            let ghost pos = self.pos();
            let ghost before = asts_view(items@);
            match self.parse_declaration(within) {
                Ok(d) => {
                    assert(pos < self.pos()) by {
                        lemma_declaration_advances(toks, pos, within);
                    }
                    assert(prepend_decls(before + seq![d@], declarations_at(toks, self.pos(), in_class))
                        == prepend_decls(before, declarations_at(toks, pos, in_class))) by {
                        lemma_prepend_decls_assoc(before, seq![d@], declarations_at(toks, self.pos(), in_class));
                    }
                    items.push(d);
                    assert(asts_view(items@) =~= before + seq![d@]);
                },
                Err(e) => {
                    self.position = start;
                    return Err(e);
                },
            }
        }
    }

    /// Parses the whole program from the current token on: a `ProgramRoot`
    /// node holding every top-level declaration.
    pub fn parse(&mut self) -> (r: Result<ASTNode, ParseError>)
        requires
            old(self).wf(),
        ensures
            final(self).wf(),
            final(self).stream() == old(self).stream(),
            parsed(r) == program_at(old(self).stream(), old(self).pos()),
            final(self).pos() == if r is Ok {
                old(self).stream().len() as int
            } else {
                old(self).pos()
            },
    {
        match self.parse_declarations(false) {
            Ok(decls) => Ok(branch_node(Production::ProgramRoot, decls, None)),
            Err(e) => Err(e),
        }
    }
}

pub proof fn lemma_prepend_decls_assoc(
    a: Seq<SpecAst>,
    b: Seq<SpecAst>,
    r: Result<(Seq<SpecAst>, int), SpecParseError>,
)
    ensures
        prepend_decls(a + b, r) == prepend_decls(a, prepend_decls(b, r)),
{
    if let Ok((ds, end)) = r {
        assert(a + b + ds =~= a + (b + ds));
    }
}

/// A declaration that parses ends past where it starts, and no further
/// than the end of the tokens.
pub proof fn lemma_declaration_advances(toks: Seq<SpecNode>, pos: int, within: Production)
    requires
        declaration_at(toks, pos, within) is Ok,
    ensures
        pos < declaration_at(toks, pos, within)->Ok_0.1 <= toks.len(),
    decreases toks.len() - pos, 1int,
{
    if fits(toks, pos, Expected::Keyword(Keyword::Class)) && !fits(toks, pos, Expected::Keyword(Keyword::Let)) {
        lemma_declarations_advance(toks, pos + 3, true);
    }
}

/// Declarations that parse end at or past where they start, and no further
/// than the end of the tokens; a class body ends past its start.
pub proof fn lemma_declarations_advance(toks: Seq<SpecNode>, pos: int, in_class: bool)
    requires
        0 <= pos <= toks.len(),
        declarations_at(toks, pos, in_class) is Ok,
    ensures
        pos <= declarations_at(toks, pos, in_class)->Ok_0.1 <= toks.len(),
        in_class ==> pos < declarations_at(toks, pos, in_class)->Ok_0.1,
    decreases toks.len() - pos, 2int,
{
    if pos < toks.len() && !(in_class && toks[pos].lexeme == SpecLexeme::Symbol(Symbol::RCurly)) {
        let within = if in_class {
            Production::ClassDecl
        } else {
            Production::ProgramRoot
        };
        lemma_declaration_advances(toks, pos, within);
        let next = declaration_at(toks, pos, within)->Ok_0.1;
        lemma_declarations_advance(toks, next, in_class);
    }
}


} // verus!
