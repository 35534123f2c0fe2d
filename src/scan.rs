//! What tokenizing means: the scanner's move at each position of the text,
//! the tokens it gives from a position to the end, the line and column of a
//! position, and facts about every tokenization.
use vstd::prelude::*;

use crate::lexer::{
    classify, is_alphanumeric_char, is_terminal, keyword_text, LexError, SpecLexeme, SpecNode,
    Symbol,
};
use crate::number::{decimal_of, parse_i64_spec};

verus! {

/// The 1-based line of position `pos`: one more than the newlines before it.
pub open spec fn line_of(s: Seq<char>, pos: int) -> nat
    decreases pos,
{
    if pos <= 0 {
        1
    } else if s[pos - 1] == '\n' {
        line_of(s, pos - 1) + 1
    } else {
        line_of(s, pos - 1)
    }
}

/// Where the line holding position `pos` begins.
pub open spec fn line_start_of(s: Seq<char>, pos: int) -> int
    decreases pos,
{
    if pos <= 0 {
        0
    } else if s[pos - 1] == '\n' {
        pos
    } else {
        line_start_of(s, pos - 1)
    }
}

/// The 1-based column of position `pos` within its line.
pub open spec fn column_of(s: Seq<char>, pos: int) -> nat {
    (pos - line_start_of(s, pos) + 1) as nat
}

/// The token for `lexeme` when it starts at `pos` and consumes `width` characters.
pub open spec fn spec_node(lexeme: SpecLexeme, s: Seq<char>, pos: int, width: nat) -> SpecNode {
    SpecNode {
        lexeme,
        line_number: line_of(s, pos),
        start_col: column_of(s, pos),
        end_col: column_of(s, pos) + width,
    }
}

/// The first index at or after `from` holding `ch`, or the length when none does.
pub open spec fn index_of(s: Seq<char>, from: int, ch: char) -> int
    decreases s.len() - from,
{
    if from >= s.len() {
        s.len() as int
    } else if s[from] == ch {
        from
    } else {
        index_of(s, from + 1, ch)
    }
}

/// The first index at or after `from` holding a terminal character, or the
/// length when none does.
pub open spec fn terminal_index(s: Seq<char>, from: int) -> int
    decreases s.len() - from,
{
    if from >= s.len() {
        s.len() as int
    } else if is_terminal(s[from]) {
        from
    } else {
        terminal_index(s, from + 1)
    }
}

/// The symbol that the single character `c` stands for, among those that
/// never look at the next character.
pub open spec fn punctuation(c: char) -> Option<Symbol> {
    if c == '(' {
        Some(Symbol::LParen)
    } else if c == ')' {
        Some(Symbol::RParen)
    } else if c == '{' {
        Some(Symbol::LCurly)
    } else if c == '}' {
        Some(Symbol::RCurly)
    } else if c == ',' {
        Some(Symbol::Comma)
    } else if c == ':' {
        Some(Symbol::Colon)
    } else if c == ';' {
        Some(Symbol::SemiColon)
    } else if c == '~' {
        Some(Symbol::ReturnType)
    } else if c == '&' {
        Some(Symbol::And)
    } else if c == '|' {
        Some(Symbol::Or)
    } else if c == '<' || c == '>' {
        Some(Symbol::RelationalOp(c))
    } else if c == '+' || c == '-' || c == '*' {
        Some(Symbol::BinOp(c))
    } else {
        None
    }
}

/// Where a `//` comment starting at `pos` ends: just past the next newline,
/// or at the end of the input.
pub open spec fn comment_end(s: Seq<char>, pos: int) -> int {
    let n = index_of(s, pos, '\n');
    if n < s.len() {
        n + 1
    } else {
        s.len() as int
    }
}

/// What the scanner does at one position: consume characters silently, emit
/// one token that consumes characters, or fail.
pub enum Step {
    Skip(nat),
    Emit(SpecLexeme, nat),
    Fail(LexError),
}

/// The scanner's move at position `pos` of `s`.
pub open spec fn step(s: Seq<char>, pos: int) -> Step {
    let c = s[pos];
    match punctuation(c) {
        Some(sym) => Step::Emit(SpecLexeme::Symbol(sym), 1),
        None => if c == '=' {
            if pos + 1 < s.len() && s[pos + 1] == '=' {
                Step::Emit(SpecLexeme::Symbol(Symbol::Comparison), 2)
            } else {
                Step::Emit(SpecLexeme::Symbol(Symbol::Assignment), 1)
            }
        } else if c == '/' {
            if pos + 1 < s.len() && s[pos + 1] == '/' {
                Step::Skip((comment_end(s, pos) - pos) as nat)
            } else {
                Step::Emit(SpecLexeme::Symbol(Symbol::BinOp('/')), 1)
            }
        } else if c == '"' {
            let q = index_of(s, pos + 1, '"');
            if q < s.len() {
                Step::Emit(SpecLexeme::Word(s.subrange(pos + 1, q)), (q + 1 - pos) as nat)
            } else {
                Step::Fail(LexError::UnterminatedString)
            }
        } else if is_terminal(c) || !is_alphanumeric_char(c) {
            Step::Skip(1)
        } else {
            let e = terminal_index(s, pos + 1);
            Step::Emit(classify(s.subrange(pos, e)), (e - pos) as nat)
        },
    }
}

/// Tokens found before `r`, put in front of what `r` holds; an error stays.
pub open spec fn prepend(pre: Seq<SpecNode>, r: Result<Seq<SpecNode>, LexError>) -> Result<
    Seq<SpecNode>,
    LexError,
> {
    match r {
        Ok(rest) => Ok(pre + rest),
        Err(e) => Err(e),
    }
}

/// The tokens of `s` from position `pos` to its end, or the first error.
pub open spec fn scan(s: Seq<char>, pos: int) -> Result<Seq<SpecNode>, LexError>
    decreases s.len() - pos,
{
    if pos < 0 || pos >= s.len() {
        Ok(seq![])
    } else {
        match step(s, pos) {
            Step::Fail(e) => Err(e),
            Step::Skip(w) => if 0 < w <= s.len() - pos {
                scan(s, pos + w)
            } else {
                Ok(seq![])
            },
            Step::Emit(lexeme, w) => if 0 < w <= s.len() - pos {
                prepend(seq![spec_node(lexeme, s, pos, w)], scan(s, pos + w))
            } else {
                Ok(seq![])
            },
        }
    }
}

/// The tokens of the whole of `s`, or the first error.
pub open spec fn tokenize(s: Seq<char>) -> Result<Seq<SpecNode>, LexError> {
    scan(s, 0)
}

pub proof fn lemma_index_of_bounds(s: Seq<char>, from: int, ch: char)
    requires
        0 <= from <= s.len(),
    ensures
        from <= index_of(s, from, ch) <= s.len(),
        index_of(s, from, ch) < s.len() ==> s[index_of(s, from, ch)] == ch,
        forall|i: int| from <= i < index_of(s, from, ch) ==> s[i] != ch,
    decreases s.len() - from,
{
    if from < s.len() && s[from] != ch {
        lemma_index_of_bounds(s, from + 1, ch);
    }
}

pub proof fn lemma_terminal_index_bounds(s: Seq<char>, from: int)
    requires
        0 <= from <= s.len(),
    ensures
        from <= terminal_index(s, from) <= s.len(),
        terminal_index(s, from) < s.len() ==> is_terminal(s[terminal_index(s, from)]),
        forall|i: int| from <= i < terminal_index(s, from) ==> !is_terminal(s[i]),
    decreases s.len() - from,
{
    if from < s.len() && !is_terminal(s[from]) {
        lemma_terminal_index_bounds(s, from + 1);
    }
}

/// Every move of the scanner consumes at least one character, and `scan`
/// follows it.
pub proof fn lemma_scan_step(s: Seq<char>, pos: int)
    requires
        0 <= pos < s.len(),
    ensures
        match step(s, pos) {
            Step::Fail(e) => scan(s, pos) == Err::<Seq<SpecNode>, LexError>(e),
            Step::Skip(w) => w > 0 && pos + w <= s.len() && scan(s, pos) == scan(s, pos + w),
            Step::Emit(lexeme, w) => w > 0 && pos + w <= s.len() && scan(s, pos) == prepend(
                seq![spec_node(lexeme, s, pos, w)],
                scan(s, pos + w),
            ),
        },
{
    lemma_index_of_bounds(s, pos, '\n');
    lemma_index_of_bounds(s, pos + 1, '"');
    lemma_terminal_index_bounds(s, pos + 1);
}

pub proof fn lemma_prepend_assoc(a: Seq<SpecNode>, b: Seq<SpecNode>, r: Result<Seq<SpecNode>, LexError>)
    ensures
        prepend(a + b, r) == prepend(a, prepend(b, r)),
{
    if let Ok(rest) = r {
        assert(a + b + rest =~= a + (b + rest));
    }
}

proof fn lemma_line_of_grows(s: Seq<char>, a: int, b: int)
    requires
        0 <= a <= b <= s.len(),
    ensures
        line_of(s, a) <= line_of(s, b),
    decreases b - a,
{
    if a < b {
        lemma_line_of_grows(s, a, b - 1);
    }
}

/// Whether every token of `toks` consumes at least one column and lies on
/// line `first` or later, with lines never decreasing along the sequence.
pub open spec fn well_placed(toks: Seq<SpecNode>, first: nat) -> bool {
    &&& forall|i: int|
        0 <= i < toks.len() ==> first <= #[trigger] toks[i].line_number && toks[i].start_col
            < toks[i].end_col
    &&& forall|i: int, j: int|
        0 <= i <= j < toks.len() ==> #[trigger] toks[i].line_number <= #[trigger] toks[j].line_number
}

proof fn lemma_scan_well_placed(s: Seq<char>, pos: int)
    requires
        0 <= pos <= s.len(),
    ensures
        scan(s, pos) matches Ok(toks) ==> well_placed(toks, line_of(s, pos)),
    decreases s.len() - pos,
{
    if pos < s.len() {
        lemma_scan_step(s, pos);
        match step(s, pos) {
            Step::Skip(w) => {
                lemma_scan_well_placed(s, pos + w);
                lemma_line_of_grows(s, pos, pos + w);
            },
            Step::Emit(lexeme, w) => {
                lemma_scan_well_placed(s, pos + w);
                lemma_line_of_grows(s, pos, pos + w);
                if let Ok(rest) = scan(s, pos + w) {
                    let tok = spec_node(lexeme, s, pos, w);
                    let toks = seq![tok] + rest;
                    assert forall|i: int, j: int|
                        0 <= i <= j < toks.len() implies #[trigger] toks[i].line_number
                        <= #[trigger] toks[j].line_number by {
                        if i > 0 {
                            assert(toks[i] == rest[i - 1]);
                            assert(toks[j] == rest[j - 1]);
                        } else if j > 0 {
                            assert(toks[j] == rest[j - 1]);
                        }
                    }
                    assert forall|i: int| 0 <= i < toks.len() implies line_of(s, pos)
                        <= #[trigger] toks[i].line_number && toks[i].start_col
                        < toks[i].end_col by {
                        if i > 0 {
                            assert(toks[i] == rest[i - 1]);
                        }
                    }
                }
            },
            Step::Fail(_) => {},
        }
    }
}

/// Every token of a successful tokenization consumes at least one column
/// (`start_col < end_col`) and lies on line 1 or later, and line numbers
/// never decrease along the token sequence.
pub proof fn lemma_tokens_well_placed(s: Seq<char>)
    ensures
        tokenize(s) matches Ok(toks) ==> well_placed(toks, 1),
{
    lemma_scan_well_placed(s, 0);
}

/// Spaces, carriage returns and newlines: the whitespace that ends a word.
pub open spec fn is_separator(c: char) -> bool {
    c == ' ' || c == '\r' || c == '\n'
}

/// Characters that the scanner treats specially where a token starts.
pub open spec fn is_reserved(c: char) -> bool {
    is_terminal(c) || punctuation(c) is Some || c == '/'
}

/// `s` with its spaces, carriage returns and newlines taken out.
pub open spec fn without_separators(s: Seq<char>) -> Seq<char>
    decreases s.len(),
{
    if s.len() == 0 {
        seq![]
    } else if is_separator(s[0]) {
        without_separators(s.drop_first())
    } else {
        seq![s[0]] + without_separators(s.drop_first())
    }
}

/// The text that an identifier, number or keyword lexeme spells; nothing for
/// other lexemes.
pub open spec fn word_text(l: SpecLexeme) -> Seq<char> {
    match l {
        SpecLexeme::Identifier(t) => t,
        SpecLexeme::Keyword(k) => keyword_text(k),
        SpecLexeme::Number(n) => decimal_of(n as int),
        _ => seq![],
    }
}

/// The texts of the identifier, number and keyword tokens of `toks`, joined
/// in order.
pub open spec fn word_texts(toks: Seq<SpecNode>) -> Seq<char>
    decreases toks.len(),
{
    if toks.len() == 0 {
        seq![]
    } else {
        word_text(toks[0].lexeme) + word_texts(toks.drop_first())
    }
}

/// Whether `s[i..j]` is a whole word of `s`: a longest run of characters
/// that are not separators.
pub open spec fn is_word_at(s: Seq<char>, i: int, j: int) -> bool {
    &&& 0 <= i < j <= s.len()
    &&& (i == 0 || is_separator(s[i - 1]))
    &&& (j == s.len() || is_separator(s[j]))
    &&& forall|k: int| i <= k < j ==> !is_separator(#[trigger] s[k])
}

/// Whether a word that reads as a number is spelled as that number is
/// written back.
pub open spec fn number_round_trips(w: Seq<char>) -> bool {
    match parse_i64_spec(w) {
        Some(n) => decimal_of(n as int) == w,
        None => true,
    }
}

proof fn lemma_word_text_classify(w: Seq<char>)
    requires
        number_round_trips(w),
    ensures
        word_text(classify(w)) == w,
{
}

proof fn lemma_without_separators_run(s: Seq<char>, i: int, j: int)
    requires
        0 <= i <= j <= s.len(),
        forall|k: int| i <= k < j ==> !is_separator(#[trigger] s[k]),
    ensures
        without_separators(s.subrange(i, s.len() as int)) == s.subrange(i, j) + without_separators(
            s.subrange(j, s.len() as int),
        ),
    decreases j - i,
{
    if i < j {
        lemma_without_separators_run(s, i + 1, j);
        assert(s.subrange(i, s.len() as int).drop_first() =~= s.subrange(i + 1, s.len() as int));
        assert(s.subrange(i, j) =~= seq![s[i]] + s.subrange(i + 1, j));
    } else {
        assert(s.subrange(i, j) + without_separators(s.subrange(j, s.len() as int))
            =~= without_separators(s.subrange(j, s.len() as int)));
    }
}

proof fn lemma_scan_words(s: Seq<char>, pos: int)
    requires
        0 <= pos <= s.len(),
        pos == 0 || pos == s.len() || is_separator(s[pos - 1]) || is_separator(s[pos]),
        forall|i: int| 0 <= i < s.len() ==> !is_terminal(#[trigger] s[i]) || is_separator(s[i]),
        forall|i: int, j: int|
            #[trigger] is_word_at(s, i, j) ==> is_alphanumeric_char(s[i]) && !is_reserved(s[i])
                && number_round_trips(s.subrange(i, j)),
    ensures
        scan(s, pos) matches Ok(toks) && word_texts(toks) == without_separators(
            s.subrange(pos, s.len() as int),
        ),
    decreases s.len() - pos,
{
    let rest = s.subrange(pos, s.len() as int);
    if pos == s.len() {
        assert(rest =~= seq![]);
    } else if is_separator(s[pos]) {
        lemma_scan_words(s, pos + 1);
        assert(rest.drop_first() =~= s.subrange(pos + 1, s.len() as int));
    } else {
        let j = terminal_index(s, pos + 1);
        lemma_terminal_index_bounds(s, pos + 1);
        assert forall|k: int| pos <= k < j implies !is_separator(#[trigger] s[k]) by {
            if k > pos {
                assert(!is_terminal(s[k]));
            }
        }
        assert(j == s.len() || is_separator(s[j]));
        assert(is_word_at(s, pos, j));
        let w = s.subrange(pos, j);
        lemma_word_text_classify(w);
        lemma_scan_words(s, j);
        lemma_without_separators_run(s, pos, j);
        let tok = spec_node(classify(w), s, pos, (j - pos) as nat);
        let toks = scan(s, j)->Ok_0;
        assert((seq![tok] + toks).drop_first() =~= toks);
    }
}

/// Tokenizing text that holds no quote, parenthesis or other terminal
/// character besides spaces, carriage returns and newlines, then joining
/// the texts of its identifier, number and keyword tokens in order, gives
/// the text with its spaces, carriage returns and newlines taken out.
/// Left out, as the statement fails on them: text where a word starts with
/// a character that is not alphanumeric or that the scanner reserves, and
/// text with a word that reads as a number but is not spelled as that
/// number is written back (a leading zero, as in `007`).
pub proof fn lemma_tokenize_keeps_words(s: Seq<char>)
    requires
        forall|i: int| 0 <= i < s.len() ==> !is_terminal(#[trigger] s[i]) || is_separator(s[i]),
        forall|i: int, j: int|
            #[trigger] is_word_at(s, i, j) ==> is_alphanumeric_char(s[i]) && !is_reserved(s[i])
                && number_round_trips(s.subrange(i, j)),
    ensures
        tokenize(s) matches Ok(toks) && word_texts(toks) == without_separators(s),
{
    lemma_scan_words(s, 0);
    assert(s.subrange(0, s.len() as int) =~= s);
}

} // verus!
