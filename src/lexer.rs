//! The tokenizer: source characters in, positioned tokens out.
use vstd::prelude::*;

use crate::number::{parse_i64, parse_i64_spec};
use crate::scan::{
    comment_end, index_of, lemma_index_of_bounds, lemma_prepend_assoc, lemma_scan_step,
    lemma_terminal_index_bounds, line_of, line_start_of, prepend, punctuation, scan, spec_node,
    terminal_index,
};

verus! {

#[derive(Debug, Clone, Copy, PartialEq, Eq, Structural)]
pub enum Keyword {
    If,
    Return,
    Else,
    Class,
    Let,
    Print,
    Section,
    Snippet,
}

#[derive(Debug, Clone, Copy, PartialEq, Eq, Structural)]
pub enum Symbol {
    LParen,
    RParen,
    /// One of `+`, `-`, `*`, `/`.
    BinOp(char),
    /// One of `<`, `>`.
    RelationalOp(char),
    LCurly,
    RCurly,
    Comma,
    Colon,
    SemiColon,
    /// `=`
    Assignment,
    /// `==`
    Comparison,
    /// `~`
    ReturnType,
    /// `&`
    And,
    /// `|`
    Or,
}

/// What a token is.
#[derive(Debug, Clone, PartialEq, Eq)]
pub enum Lexeme {
    /// The characters between the quotes of a string literal, as written.
    Word(Vec<char>),
    Number(i64),
    Identifier(Vec<char>),
    Keyword(Keyword),
    Symbol(Symbol),
    /// A lexeme with no recognised shape. The scanner treats the end of the
    /// input as a boundary, so `Lexer::lex` never produces it.
    Unknown,
}

/// The mathematical value of a `Lexeme`.
pub enum SpecLexeme {
    Word(Seq<char>),
    Number(i64),
    Identifier(Seq<char>),
    Keyword(Keyword),
    Symbol(Symbol),
    Unknown,
}

impl View for Lexeme {
    type V = SpecLexeme;

    open spec fn view(&self) -> SpecLexeme {
        match self {
            Lexeme::Word(t) => SpecLexeme::Word(t@),
            Lexeme::Number(n) => SpecLexeme::Number(*n),
            Lexeme::Identifier(t) => SpecLexeme::Identifier(t@),
            Lexeme::Keyword(k) => SpecLexeme::Keyword(*k),
            Lexeme::Symbol(s) => SpecLexeme::Symbol(*s),
            Lexeme::Unknown => SpecLexeme::Unknown,
        }
    }
}

/// One token: its lexeme, the 1-based line it starts on, and its columns.
/// `start_col` is the 1-based column of its first character and `end_col`
/// is `start_col` plus the number of characters it consumed.
#[derive(Debug, Clone, PartialEq, Eq)]
pub struct Node {
    pub lexeme: Lexeme,
    pub line_number: usize,
    pub start_col: usize,
    pub end_col: usize,
}

pub struct SpecNode {
    pub lexeme: SpecLexeme,
    pub line_number: nat,
    pub start_col: nat,
    pub end_col: nat,
}

impl View for Node {
    type V = SpecNode;

    open spec fn view(&self) -> SpecNode {
        SpecNode {
            lexeme: self.lexeme@,
            line_number: self.line_number as nat,
            start_col: self.start_col as nat,
            end_col: self.end_col as nat,
        }
    }
}

pub open spec fn nodes_view(v: Seq<Node>) -> Seq<SpecNode> {
    v.map_values(|n: Node| n@)
}

#[derive(Debug, Clone, Copy, PartialEq, Eq, Structural)]
pub enum LexError {
    /// A `"` with no closing `"` after it.
    UnterminatedString,
    /// A scan reached the end of the input without a boundary. The scanner
    /// treats the end of the input as a boundary, so `Lexer::lex` never
    /// returns it.
    NoTerminalFound,
}

/// Whether `c` is alphabetic or numeric in the Unicode sense.
pub uninterp spec fn is_alphanumeric_char(c: char) -> bool;

/// Relies on `char::is_alphanumeric`: whether `c` has the Unicode `Alphabetic`
/// or `Numeric` property, which depends on the character alone.
#[verifier::external_body]
fn is_alphanumeric(c: char) -> (r: bool)
    ensures
        r == is_alphanumeric_char(c),
{
    c.is_alphanumeric()
}

/// The characters that end a word or number.
pub open spec fn is_terminal(c: char) -> bool {
    ||| c == ' '
    ||| c == ';'
    ||| c == '\r'
    ||| c == '\n'
    ||| c == '('
    ||| c == ')'
    ||| c == '"'
    ||| c == ':'
    ||| c == '~'
    ||| c == '='
}

pub open spec fn keyword_text(k: Keyword) -> Seq<char> {
    match k {
        Keyword::If => seq!['i', 'f'],
        Keyword::Return => seq!['r', 'e', 't', 'u', 'r', 'n'],
        Keyword::Else => seq!['e', 'l', 's', 'e'],
        Keyword::Class => seq!['c', 'l', 'a', 's', 's'],
        Keyword::Let => seq!['l', 'e', 't'],
        Keyword::Print => seq!['p', 'r', 'i', 'n', 't'],
        Keyword::Section => seq!['s', 'e', 'c', 't', 'i', 'o', 'n'],
        Keyword::Snippet => seq!['s', 'n', 'i', 'p', 'p', 'e', 't'],
    }
}

/// The keyword spelled exactly `t`, if any.
pub open spec fn keyword_of(t: Seq<char>) -> Option<Keyword> {
    if t == keyword_text(Keyword::If) {
        Some(Keyword::If)
    } else if t == keyword_text(Keyword::Return) {
        Some(Keyword::Return)
    } else if t == keyword_text(Keyword::Else) {
        Some(Keyword::Else)
    } else if t == keyword_text(Keyword::Class) {
        Some(Keyword::Class)
    } else if t == keyword_text(Keyword::Let) {
        Some(Keyword::Let)
    } else if t == keyword_text(Keyword::Print) {
        Some(Keyword::Print)
    } else if t == keyword_text(Keyword::Section) {
        Some(Keyword::Section)
    } else if t == keyword_text(Keyword::Snippet) {
        Some(Keyword::Snippet)
    } else {
        None
    }
}

/// A scanned word is a keyword if it spells one, else a number if it reads
/// as a signed 64-bit integer, else an identifier.
pub open spec fn classify(t: Seq<char>) -> SpecLexeme {
    match keyword_of(t) {
        Some(k) => SpecLexeme::Keyword(k),
        None => match parse_i64_spec(t) {
            Some(n) => SpecLexeme::Number(n),
            None => SpecLexeme::Identifier(t),
        },
    }
}

fn keyword_chars(k: Keyword) -> (r: Vec<char>)
    ensures
        r@ == keyword_text(k),
{
    let r = match k {
        Keyword::If => vec!['i', 'f'],
        Keyword::Return => vec!['r', 'e', 't', 'u', 'r', 'n'],
        Keyword::Else => vec!['e', 'l', 's', 'e'],
        Keyword::Class => vec!['c', 'l', 'a', 's', 's'],
        Keyword::Let => vec!['l', 'e', 't'],
        Keyword::Print => vec!['p', 'r', 'i', 'n', 't'],
        Keyword::Section => vec!['s', 'e', 'c', 't', 'i', 'o', 'n'],
        Keyword::Snippet => vec!['s', 'n', 'i', 'p', 'p', 'e', 't'],
    };
    assert(r@ =~= keyword_text(k));
    r
}

pub(crate) fn same_chars(a: &Vec<char>, b: &Vec<char>) -> (r: bool)
    ensures
        r == (a@ == b@),
{
    if a.len() != b.len() {
        return false;
    }
    let mut i: usize = 0;
    while i < a.len()
        invariant
            a.len() == b.len(),
            i <= a.len(),
            a@.take(i as int) =~= b@.take(i as int),
        decreases a.len() - i,
    {
        if a[i] != b[i] {
            assert(a@[i as int] != b@[i as int]);
            return false;
        }
        i = i + 1;
        assert(a@.take(i as int) =~= b@.take(i as int));
    }
    assert(a@ =~= a@.take(i as int));
    assert(b@ =~= b@.take(i as int));
    true
}

/// The keyword spelled exactly `text`, if any.
pub fn keyword_from(text: &Vec<char>) -> (r: Option<Keyword>)
    ensures
        r == keyword_of(text@),
{
    let all = [
        Keyword::If,
        Keyword::Return,
        Keyword::Else,
        Keyword::Class,
        Keyword::Let,
        Keyword::Print,
        Keyword::Section,
        Keyword::Snippet,
    ];
    let mut i: usize = 0;
    while i < 8
        invariant
            i <= 8,
            all@ == seq![
                Keyword::If,
                Keyword::Return,
                Keyword::Else,
                Keyword::Class,
                Keyword::Let,
                Keyword::Print,
                Keyword::Section,
                Keyword::Snippet,
            ],
            forall|j: int| 0 <= j < i ==> text@ != keyword_text(#[trigger] all@[j]),
        decreases 8 - i,
    {
        if same_chars(text, &keyword_chars(all[i])) {
            return Some(all[i]);
        }
        i = i + 1;
    }
    assert(text@ != keyword_text(all@[7]));
    None
}

/// Classifies a scanned word: keyword, then number, then identifier.
pub fn classify_word(text: Vec<char>) -> (r: Lexeme)
    ensures
        r@ == classify(text@),
{
    match keyword_from(&text) {
        Some(k) => Lexeme::Keyword(k),
        None => match parse_i64(&text) {
            Some(n) => Lexeme::Number(n),
            None => Lexeme::Identifier(text),
        },
    }
}

/// The value of what `Lexer::lex` returns.
pub open spec fn lexed(r: Result<Vec<Node>, LexError>) -> Result<Seq<SpecNode>, LexError> {
    match r {
        Ok(v) => Ok(nodes_view(v@)),
        Err(e) => Err(e),
    }
}

fn punctuation_symbol(c: char) -> (r: Option<Symbol>)
    ensures
        r == punctuation(c),
{
    if c == '(' {
        Some(Symbol::LParen)
    } else if c == ')' {
        Some(Symbol::RParen)
    } else if c == '{' {
        Some(Symbol::LCurly)
    } else if c == '}' {
        Some(Symbol::RCurly)
    } else if c == ',' {
        Some(Symbol::Comma)
    } else if c == ':' {
        Some(Symbol::Colon)
    } else if c == ';' {
        Some(Symbol::SemiColon)
    } else if c == '~' {
        Some(Symbol::ReturnType)
    } else if c == '&' {
        Some(Symbol::And)
    } else if c == '|' {
        Some(Symbol::Or)
    } else if c == '<' || c == '>' {
        Some(Symbol::RelationalOp(c))
    } else if c == '+' || c == '-' || c == '*' {
        Some(Symbol::BinOp(c))
    } else {
        None
    }
}

/// A copy of `v`.
pub(crate) fn copy_chars(v: &Vec<char>) -> (r: Vec<char>)
    ensures
        r@ == v@,
{
    let mut r: Vec<char> = Vec::new();
    let mut i: usize = 0;
    while i < v.len()
        invariant
            i <= v.len(),
            r@ == v@.take(i as int),
        decreases v.len() - i,
    {
        r.push(v[i]);
        i = i + 1;
        assert(r@ =~= v@.take(i as int));
    }
    assert(r@ =~= v@);
    r
}

/// A copy of `l`.
pub(crate) fn copy_lexeme(l: &Lexeme) -> (r: Lexeme)
    ensures
        r@ == l@,
{
    match l {
        Lexeme::Word(t) => Lexeme::Word(copy_chars(t)),
        Lexeme::Number(n) => Lexeme::Number(*n),
        Lexeme::Identifier(t) => Lexeme::Identifier(copy_chars(t)),
        Lexeme::Keyword(k) => Lexeme::Keyword(*k),
        Lexeme::Symbol(sym) => Lexeme::Symbol(*sym),
        Lexeme::Unknown => Lexeme::Unknown,
    }
}

fn is_terminal_char(c: char) -> (r: bool)
    ensures
        r == is_terminal(c),
{
    c == ' ' || c == ';' || c == '\r' || c == '\n' || c == '(' || c == ')' || c == '"' || c
        == ':' || c == '~' || c == '='
}

/// A cursor over source text. The line and the start of the line are kept
/// alongside the position, and always agree with what the text before the
/// position says they are.
pub struct Lexer {
    input: Vec<char>,
    position: usize,
    line: usize,
    line_start: usize,
}

impl Lexer {
    pub closed spec fn source(&self) -> Seq<char> {
        self.input@
    }

    pub closed spec fn pos(&self) -> int {
        self.position as int
    }

    pub closed spec fn wf(&self) -> bool {
        &&& self.input.len() < usize::MAX
        &&& self.position <= self.input.len()
        &&& self.line == line_of(self.input@, self.position as int)
        &&& self.line_start == line_start_of(self.input@, self.position as int)
        &&& self.line <= self.position + 1
        &&& self.line_start <= self.position
    }

    /// A lexer at the start of `input`. The length bound leaves room for the
    /// column just past the last character.
    pub fn new(input: &Vec<char>) -> (l: Lexer)
        requires
            input.len() < usize::MAX,
        ensures
            l.wf(),
            l.source() == input@,
            l.pos() == 0,
    {
        let copy = copy_chars(input);
        Lexer { input: copy, position: 0, line: 1, line_start: 0 }
    }

    fn peek_next_char(&self) -> (r: Option<char>)
        requires
            self.wf(),
        ensures
            r == (if self.pos() + 1 < self.source().len() {
                Some(self.source()[self.pos() + 1])
            } else {
                None
            }),
    {
        if self.position + 1 < self.input.len() {
            Some(self.input[self.position + 1])
        } else {
            None
        }
    }

    /// Moves one character on.
    fn advance(&mut self)
        requires
            old(self).wf(),
            old(self).pos() < old(self).source().len(),
        ensures
            final(self).wf(),
            final(self).source() == old(self).source(),
            final(self).pos() == old(self).pos() + 1,
    {
        if self.input[self.position] == '\n' {
            self.line = self.line + 1;
            self.line_start = self.position + 1;
        }
        self.position = self.position + 1;
    }

    /// Moves `n` characters on.
    fn advance_by(&mut self, n: usize)
        requires
            old(self).wf(),
            old(self).pos() + n <= old(self).source().len(),
        ensures
            final(self).wf(),
            final(self).source() == old(self).source(),
            final(self).pos() == old(self).pos() + n,
    {
        let target = self.position + n;
        while self.position < target
            invariant
                self.wf(),
                self.source() == old(self).source(),
                old(self).pos() <= self.pos() <= target,
                target == old(self).pos() + n,
                target <= self.source().len(),
            decreases target - self.pos(),
        {
            self.advance();
        }
    }

    /// The token for `lexeme` starting here and consuming `width` characters.
    fn token(&self, lexeme: Lexeme, width: usize) -> (r: Node)
        requires
            self.wf(),
            self.pos() + width <= self.source().len(),
        ensures
            r@ == spec_node(lexeme@, self.source(), self.pos(), width as nat),
    {
        let start = self.position - self.line_start + 1;
        Node { lexeme, line_number: self.line, start_col: start, end_col: start + width }
    }

    /// The first index at or after `from` holding `ch`, or the length.
    fn find(&self, from: usize, ch: char) -> (r: usize)
        requires
            self.wf(),
            from <= self.source().len(),
        ensures
            r == index_of(self.source(), from as int, ch),
    {
        let mut i = from;
        while i < self.input.len()
            invariant
                from <= i <= self.input.len(),
                index_of(self.input@, from as int, ch) == index_of(self.input@, i as int, ch),
            decreases self.input.len() - i,
        {
            if self.input[i] == ch {
                return i;
            }
            i = i + 1;
        }
        i
    }

    /// The index of the first terminal character after the current one, or
    /// the length.
    fn get_index_of_next_terminal(&self) -> (r: usize)
        requires
            self.wf(),
            self.pos() < self.source().len(),
        ensures
            r == terminal_index(self.source(), self.pos() + 1),
    {
        let mut i = self.position + 1;
        while i < self.input.len()
            invariant
                self.position + 1 <= i <= self.input.len(),
                terminal_index(self.input@, self.position + 1) == terminal_index(
                    self.input@,
                    i as int,
                ),
            decreases self.input.len() - i,
        {
            if is_terminal_char(self.input[i]) {
                return i;
            }
            i = i + 1;
        }
        i
    }

    /// The characters from `from` up to, not including, `to`.
    fn chars_between(&self, from: usize, to: usize) -> (r: Vec<char>)
        requires
            from <= to <= self.source().len(),
        ensures
            r@ == self.source().subrange(from as int, to as int),
    {
        let mut r: Vec<char> = Vec::new();
        let mut i = from;
        while i < to
            invariant
                from <= i <= to <= self.input.len(),
                r@ == self.input@.subrange(from as int, i as int),
            decreases to - i,
        {
            r.push(self.input[i]);
            i = i + 1;
            assert(r@ =~= self.input@.subrange(from as int, i as int));
        }
        r
    }

    /// Discards a comment: everything up to and including the next newline.
    fn go_to_next_line(&mut self)
        requires
            old(self).wf(),
            old(self).pos() < old(self).source().len(),
        ensures
            final(self).wf(),
            final(self).source() == old(self).source(),
            final(self).pos() == comment_end(old(self).source(), old(self).pos()),
    {
        let newline = self.find(self.position, '\n');
        proof {
            lemma_index_of_bounds(self.input@, self.position as int, '\n');
        }
        let end = if newline < self.input.len() {
            newline + 1
        } else {
            newline
        };
        self.advance_by(end - self.position);
    }

    /// Scans a string literal whose opening quote is the current character.
    fn parse_string(&mut self) -> (r: Result<Node, LexError>)
        requires
            old(self).wf(),
            old(self).pos() < old(self).source().len(),
        ensures
            final(self).wf(),
            final(self).source() == old(self).source(),
            ({
                let s = old(self).source();
                let pos = old(self).pos();
                let q = index_of(s, pos + 1, '"');
                if q < s.len() {
                    &&& r matches Ok(node) && node@ == spec_node(
                        SpecLexeme::Word(s.subrange(pos + 1, q)),
                        s,
                        pos,
                        (q + 1 - pos) as nat,
                    )
                    &&& final(self).pos() == q + 1
                } else {
                    &&& r == Err::<Node, LexError>(LexError::UnterminatedString)
                    &&& final(self).pos() == pos
                }
            }),
    {
        let close = self.find(self.position + 1, '"');
        proof {
            lemma_index_of_bounds(self.input@, self.position + 1, '"');
        }
        if close == self.input.len() {
            return Err(LexError::UnterminatedString);
        }
        let text = self.chars_between(self.position + 1, close);
        let width = close + 1 - self.position;
        let node = self.token(Lexeme::Word(text), width);
        self.advance_by(width);
        Ok(node)
    }

    /// Scans a word or number that starts at the current character and runs
    /// up to the next terminal character or the end of the input.
    fn parse_token(&mut self) -> (r: Node)
        requires
            old(self).wf(),
            old(self).pos() < old(self).source().len(),
        ensures
            final(self).wf(),
            final(self).source() == old(self).source(),
            ({
                let s = old(self).source();
                let pos = old(self).pos();
                let e = terminal_index(s, pos + 1);
                &&& r@ == spec_node(classify(s.subrange(pos, e)), s, pos, (e - pos) as nat)
                &&& final(self).pos() == e
            }),
    {
        let end = self.get_index_of_next_terminal();
        proof {
            lemma_terminal_index_bounds(self.input@, self.position + 1);
        }
        let text = self.chars_between(self.position, end);
        let width = end - self.position;
        let node = self.token(classify_word(text), width);
        self.advance_by(width);
        node
    }

    /// Tokenizes the input from the current position to its end. On success
    /// the tokens are those of `scan`; on failure, the first error it meets.
    /// Either way the lexer is left at the end of the input.
    pub fn lex(&mut self) -> (r: Result<Vec<Node>, LexError>)
        requires
            old(self).wf(),
        ensures
            final(self).wf(),
            final(self).source() == old(self).source(),
            final(self).pos() == old(self).source().len(),
            lexed(r) == scan(old(self).source(), old(self).pos()),
    {
        let ghost s = self.input@;
        let ghost start = self.position as int;
        let mut nodes: Vec<Node> = Vec::new();
        while self.position < self.input.len()
            invariant
                self.wf(),
                self.source() == s,
                s == old(self).source(),
                start == old(self).pos(),
                start <= self.pos() <= s.len(),
                scan(s, start) == prepend(nodes_view(nodes@), scan(s, self.pos())),
            decreases s.len() - self.pos(),
        {
            let ghost pos = self.pos();
            let ghost before = nodes_view(nodes@);
            proof {
                lemma_scan_step(s, pos);
            }
            let c = self.input[self.position];
            let mut emitted: Option<Node> = None;
            match punctuation_symbol(c) {
                Some(sym) => {
                    emitted = Some(self.token(Lexeme::Symbol(sym), 1));
                    self.advance();
                },
                None => {
                    if c == '=' {
                        let next = self.peek_next_char();
                        if next.is_some() && next.unwrap() == '=' {
                            emitted = Some(self.token(Lexeme::Symbol(Symbol::Comparison), 2));
                            self.advance_by(2);
                        } else {
                            emitted = Some(self.token(Lexeme::Symbol(Symbol::Assignment), 1));
                            self.advance();
                        }
                    } else if c == '/' {
                        let next = self.peek_next_char();
                        if next.is_some() && next.unwrap() == '/' {
                            self.go_to_next_line();
                            proof {
                                lemma_index_of_bounds(s, pos, '\n');
                            }
                        } else {
                            emitted = Some(self.token(Lexeme::Symbol(Symbol::BinOp('/')), 1));
                            self.advance();
                        }
                    } else if c == '"' {
                        match self.parse_string() {
                            Ok(node) => {
                                emitted = Some(node);
                                proof {
                                    lemma_index_of_bounds(s, pos + 1, '"');
                                }
                            },
                            Err(e) => {
                                let rest = self.input.len() - self.position;
                                self.advance_by(rest);
                                return Err(e);
                            },
                        }
                    } else if is_terminal_char(c) || !is_alphanumeric(c) {
                        self.advance();
                    } else {
                        emitted = Some(self.parse_token());
                        proof {
                            lemma_terminal_index_bounds(s, pos + 1);
                        }
                    }
                },
            }
            match emitted {
                Some(node) => {
                    proof {
                        lemma_prepend_assoc(before, seq![node@], scan(s, self.pos()));
                    }
                    nodes.push(node);
                    assert(nodes_view(nodes@) =~= before + seq![node@]);
                },
                None => {},
            }
        }
        assert(nodes_view(nodes@) + seq![] =~= nodes_view(nodes@));
        Ok(nodes)
    }
}

} // verus!
