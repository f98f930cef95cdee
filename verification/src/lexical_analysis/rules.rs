//! The rules of the lexer: the character classes, what stands at each
//! position of a text, and what a run over the text yields.

use crate::lexical_analysis::LexicalError;
use crate::lexical_analysis::tokens::PunctuationKind;
use crate::lexical_analysis::tokens::SpecialKind;
use crate::lexical_analysis::tokens::token_width;
use crate::lexical_analysis::tokens::TokenView;
use crate::lexical_analysis::tokens::WhitespaceKind;
use vstd::prelude::*;

verus! {

/// The characters that end a line.
pub open spec fn line_ending(c: char) -> bool {
    c == '\n' || c == '\r'
}

/// The characters that may stand in a comment: all but the line endings.
pub open spec fn comment_char(c: char) -> bool {
    !line_ending(c)
}

/// The whitespace characters. Outside a token they are dropped.
pub open spec fn ignorable(c: char) -> bool {
    c == '\r' || c == '\n' || c == ' ' || c == '\t'
}

/// The characters of an identifier: ASCII letters and digits, the
/// underscore, and the symbols `! # % & ? / \ @ | < > . * ^ ~ = + : ' -`.
pub open spec fn identifier_char(c: char) -> bool {
    ||| 'a' <= c <= 'z'
    ||| 'A' <= c <= 'Z'
    ||| '0' <= c <= '9'
    ||| c == '_'
    ||| c == '!'
    ||| c == '#'
    ||| c == '%'
    ||| c == '&'
    ||| c == '?'
    ||| c == '/'
    ||| c == '\\'
    ||| c == '@'
    ||| c == '|'
    ||| c == '<'
    ||| c == '>'
    ||| c == '.'
    ||| c == '*'
    ||| c == '^'
    ||| c == '~'
    ||| c == '='
    ||| c == '+'
    ||| c == ':'
    ||| c == '\''
    ||| c == '-'
}

/// The class of the characters of a comment, as a function.
pub open spec fn comment_class() -> spec_fn(char) -> bool {
    |c: char| comment_char(c)
}

/// The class of the characters of an identifier, as a function.
pub open spec fn identifier_class() -> spec_fn(char) -> bool {
    |c: char| identifier_char(c)
}

/// The length of the longest run of characters of `s` that starts at `from`
/// and holds only characters of the class `class`.
pub open spec fn run_length(s: Seq<char>, from: int, class: spec_fn(char) -> bool) -> nat
    decreases s.len() - from,
{
    if 0 <= from < s.len() && class(s[from]) {
        1 + run_length(s, from + 1, class)
    } else {
        0
    }
}

/// A run is what `run_length` says it is: it stays inside the text, every
/// character of it is of the class, and the character after it, if there is
/// one, is not.
pub proof fn lemma_run_length(s: Seq<char>, from: int, class: spec_fn(char) -> bool)
    requires
        0 <= from <= s.len(),
    ensures
        from + run_length(s, from, class) <= s.len(),
        forall|i: int| from <= i < from + run_length(s, from, class) ==> class(#[trigger] s[i]),
        from + run_length(s, from, class) < s.len() ==> !class(
            s[from + run_length(s, from, class)],
        ),
    decreases s.len() - from,
{
    if from < s.len() && class(s[from]) {
        lemma_run_length(s, from + 1, class);
    }
}

/// Only one length has the three properties of a run.
pub proof fn lemma_run_length_unique(
    s: Seq<char>,
    from: int,
    class: spec_fn(char) -> bool,
    n: nat,
)
    requires
        0 <= from,
        from + n <= s.len(),
        forall|i: int| from <= i < from + n ==> class(#[trigger] s[i]),
        from + n < s.len() ==> !class(s[from + n]),
    ensures
        run_length(s, from, class) == n,
    decreases n,
{
    if n > 0 {
        lemma_run_length_unique(s, from + 1, class, (n - 1) as nat);
    }
}

/// What the lexer does at one position of the text.
pub enum Step {
    /// It emits a token and moves on by the token's width.
    Emit(TokenView),
    /// It drops one whitespace character.
    Skip,
    /// It stops: no rule accepts the character.
    Fail,
}

/// Tells whether the character of `s` at index `i` exists and is `c`.
pub open spec fn char_at(s: Seq<char>, i: int, c: char) -> bool {
    0 <= i < s.len() && s[i] == c
}

/// The rules of the lexer at position `pos` of `s`, the first that applies
/// winning: a comment from `;` to the end of the line; brackets and `=`; the
/// two-character marks `::` and `->`; an identifier, as long as it can be; a
/// new line; four spaces of indentation; other whitespace, dropped.
pub open spec fn next_step(s: Seq<char>, pos: int) -> Step
    recommends
        0 <= pos < s.len(),
{
    let c = s[pos];
    if c == ';' {
        Step::Emit(
            TokenView::Comment(
                s.subrange(pos + 1, pos + 1 + run_length(s, pos + 1, comment_class())),
            ),
        )
    } else if c == '(' {
        Step::Emit(TokenView::Punctuation(PunctuationKind::LeftParen))
    } else if c == ')' {
        Step::Emit(TokenView::Punctuation(PunctuationKind::RightParen))
    } else if c == '[' {
        Step::Emit(TokenView::Punctuation(PunctuationKind::LeftBracket))
    } else if c == ']' {
        Step::Emit(TokenView::Punctuation(PunctuationKind::RightBracket))
    } else if c == '{' {
        Step::Emit(TokenView::Punctuation(PunctuationKind::LeftBrace))
    } else if c == '}' {
        Step::Emit(TokenView::Punctuation(PunctuationKind::RightBrace))
    } else if c == '=' {
        Step::Emit(TokenView::Punctuation(PunctuationKind::Equal))
    } else if c == ':' && char_at(s, pos + 1, ':') {
        Step::Emit(TokenView::Special(SpecialKind::SignatureStart))
    } else if c == '-' && char_at(s, pos + 1, '>') {
        Step::Emit(TokenView::Special(SpecialKind::SignatureArrow))
    } else if identifier_char(c) {
        Step::Emit(
            TokenView::Identifier(
                s.subrange(pos, pos + run_length(s, pos, identifier_class())),
            ),
        )
    } else if c == '\n' {
        Step::Emit(TokenView::Whitespace(WhitespaceKind::NewLine))
    } else if c == ' ' && char_at(s, pos + 1, ' ') && char_at(s, pos + 2, ' ') && char_at(
        s,
        pos + 3,
        ' ',
    ) {
        Step::Emit(TokenView::Whitespace(WhitespaceKind::Indentation))
    } else if ignorable(c) {
        Step::Skip
    } else {
        Step::Fail
    }
}

/// The position after one step from `pos`. A failed step does not move.
pub open spec fn step_end(s: Seq<char>, pos: int) -> int {
    match next_step(s, pos) {
        Step::Emit(token) => pos + token_width(token),
        Step::Skip => pos + 1,
        Step::Fail => pos,
    }
}

/// A step that does not fail moves forward and stays inside the text.
pub proof fn lemma_step_advances(s: Seq<char>, pos: int)
    requires
        0 <= pos < s.len(),
    ensures
        !(next_step(s, pos) is Fail) ==> pos < step_end(s, pos) <= s.len(),
{
    lemma_run_length(s, pos + 1, comment_class());
    lemma_run_length(s, pos, identifier_class());
}

/// What a run of the lexer from one position yields.
pub struct Scan {
    /// The tokens emitted, in order.
    pub tokens: Seq<TokenView>,
    /// The number of whitespace characters dropped.
    pub skipped: nat,
    /// Where the run stopped: the end of the text, or the position of the
    /// character that no rule accepts.
    pub stop: int,
}

/// The run of the lexer over `s` from position `pos` on.
pub open spec fn scan_from(s: Seq<char>, pos: int) -> Scan
    decreases s.len() - pos,
    when 0 <= pos
    via scan_from_decreases
{
    if pos >= s.len() {
        Scan { tokens: Seq::empty(), skipped: 0, stop: pos }
    } else {
        match next_step(s, pos) {
            Step::Emit(token) => {
                let rest = scan_from(s, pos + token_width(token));
                Scan { tokens: seq![token] + rest.tokens, skipped: rest.skipped, stop: rest.stop }
            },
            Step::Skip => {
                let rest = scan_from(s, pos + 1);
                Scan { tokens: rest.tokens, skipped: rest.skipped + 1, stop: rest.stop }
            },
            Step::Fail => Scan { tokens: Seq::empty(), skipped: 0, stop: pos },
        }
    }
}

#[via_fn]
proof fn scan_from_decreases(s: Seq<char>, pos: int) {
    if pos < s.len() {
        lemma_step_advances(s, pos);
    }
}

/// The number of whitespace characters of `s` that the lexer drops before
/// it stops.
pub open spec fn dropped(s: Seq<char>) -> nat {
    scan_from(s, 0).skipped
}

/// The tokens of the text `s`, or the first character that no rule accepts.
pub open spec fn lex_spec(s: Seq<char>) -> Result<Seq<TokenView>, LexicalError> {
    let scan = scan_from(s, 0);
    if scan.stop >= s.len() {
        Ok(scan.tokens)
    } else {
        Err(LexicalError { character: s[scan.stop], position: scan.stop as usize })
    }
}

} // verus!
