//! Lexical analysis: from source text to tokens.

pub mod laws;
pub mod rules;
pub mod tokens;

use crate::lexical_analysis::laws::lemma_round_trip_width;
use crate::lexical_analysis::rules::char_at;
use crate::lexical_analysis::rules::comment_char;
use crate::lexical_analysis::rules::comment_class;
use crate::lexical_analysis::rules::dropped;
use crate::lexical_analysis::rules::identifier_char;
use crate::lexical_analysis::rules::identifier_class;
use crate::lexical_analysis::rules::ignorable;
use crate::lexical_analysis::rules::lemma_run_length_unique;
use crate::lexical_analysis::rules::lemma_step_advances;
use crate::lexical_analysis::rules::lex_spec;
use crate::lexical_analysis::rules::line_ending;
use crate::lexical_analysis::rules::next_step;
use crate::lexical_analysis::rules::scan_from;
use crate::lexical_analysis::rules::Step;
use crate::lexical_analysis::tokens::PunctuationKind;
use crate::lexical_analysis::tokens::SpecialKind;
use crate::lexical_analysis::tokens::Token;
use crate::lexical_analysis::tokens::token_size;
use crate::lexical_analysis::tokens::token_views;
use crate::lexical_analysis::tokens::token_width;
use crate::lexical_analysis::tokens::total_width;
use crate::lexical_analysis::tokens::TokenView;
use crate::lexical_analysis::tokens::WhitespaceKind;
use vstd::prelude::*;

verus! {

/// Tells whether `c` is dropped where no token rule applies.
pub fn should_ignore(c: char) -> (r: bool)
    ensures
        r == ignorable(c),
{
    c == '\r' || c == '\n' || c == ' ' || c == '\t'
}

/// Tells whether `c` ends a line.
pub fn is_line_ending(c: char) -> (r: bool)
    ensures
        r == line_ending(c),
{
    c == '\n' || c == '\r'
}

/// Tells whether `c` may stand in a comment.
pub fn is_comment(c: char) -> (r: bool)
    ensures
        r == comment_char(c),
{
    !is_line_ending(c)
}

/// Tells whether `c` may stand in an identifier.
pub fn is_identifier(c: char) -> (r: bool)
    ensures
        r == identifier_char(c),
{
    ('a' <= c && c <= 'z') || ('A' <= c && c <= 'Z') || ('0' <= c && c <= '9') || c == '_'
        || c == '!' || c == '#' || c == '%' || c == '&' || c == '?' || c == '/' || c == '\\'
        || c == '@' || c == '|' || c == '<' || c == '>' || c == '.' || c == '*' || c == '^'
        || c == '~' || c == '=' || c == '+' || c == ':' || c == '\'' || c == '-'
}

/// Why a text has no tokens: a character of it starts no token and is no
/// whitespace.
#[derive(Debug, Clone, Copy, PartialEq, Eq, Structural)]
pub struct LexicalError {
    /// The character that no rule accepts.
    pub character: char,
    /// Its index in the source text, counted in characters.
    pub position: usize,
}

/// A lexer over one source text: the text, the position reached in it, and
/// the tokens emitted so far.
pub struct Lexer<'a> {
    position: usize,
    tokens: Vec<Token>,
    data: &'a str,
    chars: Vec<char>,
}

/// Appends the character `c` to `text`, with `String::push` of the standard
/// library. The contract claims what its documentation says: the text is
/// afterwards the text before with `c` at its end.
#[verifier::external_body]
fn push_char(text: &mut String, c: char)
    ensures
        final(text)@ == old(text)@.push(c),
{
    text.push(c)
}

/// The characters of `data`, in order.
fn characters(data: &str) -> (chars: Vec<char>)
    ensures
        chars@ == data@,
{
    let mut chars: Vec<char> = Vec::new();
    for c in it: data.chars()
        invariant
            it.seq() == data@,
            chars@ == it.history(),
    {
        chars.push(c);
    }
    assert(chars@ =~= data@);
    chars
}

impl<'a> Lexer<'a> {
    /// The source text.
    pub closed spec fn source(&self) -> Seq<char> {
        self.data@
    }

    /// The position reached: an index into the characters of the source.
    pub closed spec fn cursor(&self) -> int {
        self.position as int
    }

    /// The tokens emitted so far.
    pub closed spec fn emitted(&self) -> Seq<TokenView> {
        token_views(self.tokens@)
    }

    /// The lexer's invariant: the position is inside the text or at its end,
    /// and the tokens emitted so far, followed by what a run from the
    /// position yields, are what a run over the whole text yields.
    pub closed spec fn wf(&self) -> bool {
        &&& self.chars@ == self.data@
        &&& self.position <= self.data@.len() <= usize::MAX
        &&& scan_from(self.data@, 0).tokens == token_views(self.tokens@) + scan_from(
            self.data@,
            self.position as int,
        ).tokens
        &&& scan_from(self.data@, 0).stop == scan_from(self.data@, self.position as int).stop
    }

    /// A lexer at the start of `data`, with no token emitted.
    pub fn new(data: &'a str) -> (lexer: Lexer<'a>)
        ensures
            lexer.wf(),
            lexer.source() == data@,
            lexer.cursor() == 0,
            lexer.emitted() == Seq::<TokenView>::empty(),
    {
        let chars = characters(data);
        assert(chars@.len() == chars.len());
        let lexer = Lexer { position: 0, tokens: Vec::new(), data, chars };
        assert(token_views(lexer.tokens@) + scan_from(data@, 0).tokens =~= scan_from(
            data@,
            0,
        ).tokens);
        lexer
    }

    /// The position reached, counted in characters from the start.
    pub fn position(&self) -> (position: usize)
        ensures
            position == self.cursor(),
    {
        self.position
    }

    /// Tells whether the lexer has reached the end of the text. The tokens
    /// emitted are then the tokens of the text.
    pub fn finished(&self) -> (r: bool)
        requires
            self.wf(),
        ensures
            r == (self.cursor() == self.source().len()),
            r ==> lex_spec(self.source()) == Ok::<Seq<TokenView>, LexicalError>(self.emitted()),
    {
        assert(self.emitted() + Seq::<TokenView>::empty() =~= self.emitted());
        self.position >= self.chars.len()
    }

    /// Hands out the tokens emitted so far.
    pub fn into_tokens(self) -> (tokens: Vec<Token>)
        ensures
            token_views(tokens@) == self.emitted(),
    {
        self.tokens
    }

    /// Lexes what stands at the position: emits one token and moves past it,
    /// or drops one whitespace character, or fails on a character that no
    /// rule accepts and leaves the lexer as it was.
    pub fn process_next(&mut self) -> (r: Result<(), LexicalError>)
        requires
            old(self).wf(),
            old(self).cursor() < old(self).source().len(),
        ensures
            final(self).wf(),
            final(self).source() == old(self).source(),
            match next_step(old(self).source(), old(self).cursor()) {
                Step::Emit(token) => {
                    &&& r is Ok
                    &&& final(self).emitted() == old(self).emitted().push(token)
                    &&& final(self).cursor() == old(self).cursor() + token_width(token)
                },
                Step::Skip => {
                    &&& r is Ok
                    &&& final(self).emitted() == old(self).emitted()
                    &&& final(self).cursor() == old(self).cursor() + 1
                },
                Step::Fail => {
                    &&& r == Err::<(), LexicalError>(
                        LexicalError {
                            character: old(self).source()[old(self).cursor()],
                            position: old(self).cursor() as usize,
                        },
                    )
                    &&& final(self).emitted() == old(self).emitted()
                    &&& final(self).cursor() == old(self).cursor()
                },
            },
            r matches Err(error) ==> lex_spec(old(self).source()) == Err::<
                Seq<TokenView>,
                LexicalError,
            >(error),
    {
        let c = self.chars[self.position];
        match c {
            ';' => {
                let comment = self.take_string_while(self.position + 1, is_comment);
                proof {
                    lemma_run_length_unique(
                        self.data@,
                        self.position + 1,
                        comment_class(),
                        comment@.len(),
                    );
                }
                self.push(Token::Comment(comment));
                Ok(())
            },
            '(' => {
                self.push_punctuation(PunctuationKind::LeftParen);
                Ok(())
            },
            ')' => {
                self.push_punctuation(PunctuationKind::RightParen);
                Ok(())
            },
            '[' => {
                self.push_punctuation(PunctuationKind::LeftBracket);
                Ok(())
            },
            ']' => {
                self.push_punctuation(PunctuationKind::RightBracket);
                Ok(())
            },
            '{' => {
                self.push_punctuation(PunctuationKind::LeftBrace);
                Ok(())
            },
            '}' => {
                self.push_punctuation(PunctuationKind::RightBrace);
                Ok(())
            },
            '=' => {
                self.push_punctuation(PunctuationKind::Equal);
                Ok(())
            },
            ':' if self.follows(1, ':') => {
                self.push_special(SpecialKind::SignatureStart);
                Ok(())
            },
            '-' if self.follows(1, '>') => {
                self.push_special(SpecialKind::SignatureArrow);
                Ok(())
            },
            c if is_identifier(c) => {
                let name = self.take_string_while(self.position, is_identifier);
                proof {
                    lemma_run_length_unique(
                        self.data@,
                        self.position as int,
                        identifier_class(),
                        name@.len(),
                    );
                }
                self.push(Token::Identifier(name));
                Ok(())
            },
            '\n' => {
                self.push_whitespace(WhitespaceKind::NewLine);
                Ok(())
            },
            ' ' if self.follows(1, ' ') && self.follows(2, ' ') && self.follows(3, ' ') => {
                self.push_whitespace(WhitespaceKind::Indentation);
                Ok(())
            },
            c if should_ignore(c) => {
                proof {
                    lemma_step_advances(self.data@, self.position as int);
                }
                self.position += 1;
                Ok(())
            },
            c => Err(LexicalError { character: c, position: self.position }),
        }
    }

    /// The longest run of characters from `start` on that `predicate`
    /// accepts, as a string.
    fn take_string_while<P: Fn(char) -> bool>(&self, start: usize, predicate: P) -> (text: String)
        requires
            self.wf(),
            start <= self.source().len(),
            forall|c: char| call_requires(predicate, (c,)),
        ensures
            start + text@.len() <= self.source().len(),
            text@ == self.source().subrange(start as int, start + text@.len()),
            forall|i: int|
                start <= i < start + text@.len() ==> call_ensures(
                    predicate,
                    (#[trigger] self.source()[i],),
                    true,
                ),
            start + text@.len() < self.source().len() ==> call_ensures(
                predicate,
                (self.source()[start + text@.len()],),
                false,
            ),
    {
        let mut text = String::new();
        let mut end: usize = start;
        let mut accepted = end < self.chars.len() && predicate(self.chars[end]);
        while accepted
            invariant
                self.chars@ == self.data@,
                start <= end <= self.chars@.len() <= usize::MAX,
                forall|c: char| call_requires(predicate, (c,)),
                text@ == self.data@.subrange(start as int, end as int),
                forall|i: int|
                    start <= i < end ==> call_ensures(predicate, (#[trigger] self.data@[i],), true),
                accepted ==> end < self.chars@.len() && call_ensures(
                    predicate,
                    (self.data@[end as int],),
                    true,
                ),
                !accepted && end < self.chars@.len() ==> call_ensures(
                    predicate,
                    (self.data@[end as int],),
                    false,
                ),
            decreases self.chars@.len() - end,
        {
            push_char(&mut text, self.chars[end]);
            end += 1;
            accepted = end < self.chars.len() && predicate(self.chars[end]);
            assert(text@ =~= self.data@.subrange(start as int, end as int));
        }
        text
    }

    /// Emits the punctuation that stands at the position, and moves past it.
    fn push_punctuation(&mut self, token: PunctuationKind)
        requires
            old(self).wf(),
            old(self).cursor() < old(self).source().len(),
            next_step(old(self).source(), old(self).cursor()) == Step::Emit(
                TokenView::Punctuation(token),
            ),
        ensures
            final(self).wf(),
            final(self).source() == old(self).source(),
            final(self).emitted() == old(self).emitted().push(TokenView::Punctuation(token)),
            final(self).cursor() == old(self).cursor() + 1,
    {
        self.push(Token::Punctuation(token))
    }

    /// Emits the mark that stands at the position, and moves past it.
    fn push_special(&mut self, token: SpecialKind)
        requires
            old(self).wf(),
            old(self).cursor() < old(self).source().len(),
            next_step(old(self).source(), old(self).cursor()) == Step::Emit(
                TokenView::Special(token),
            ),
        ensures
            final(self).wf(),
            final(self).source() == old(self).source(),
            final(self).emitted() == old(self).emitted().push(TokenView::Special(token)),
            final(self).cursor() == old(self).cursor() + token_width(TokenView::Special(token)),
    {
        self.push(Token::Special(token))
    }

    /// Emits the whitespace token that stands at the position, and moves
    /// past it.
    fn push_whitespace(&mut self, token: WhitespaceKind)
        requires
            old(self).wf(),
            old(self).cursor() < old(self).source().len(),
            next_step(old(self).source(), old(self).cursor()) == Step::Emit(
                TokenView::Whitespace(token),
            ),
        ensures
            final(self).wf(),
            final(self).source() == old(self).source(),
            final(self).emitted() == old(self).emitted().push(TokenView::Whitespace(token)),
            final(self).cursor() == old(self).cursor() + token_width(TokenView::Whitespace(token)),
    {
        self.push(Token::Whitespace(token))
    }

    /// Emits `token`, which is the token that stands at the position, and
    /// moves past it.
    fn push(&mut self, token: Token)
        requires
            old(self).wf(),
            old(self).cursor() < old(self).source().len(),
            next_step(old(self).source(), old(self).cursor()) == Step::Emit(token@),
        ensures
            final(self).wf(),
            final(self).source() == old(self).source(),
            final(self).emitted() == old(self).emitted().push(token@),
            final(self).cursor() == old(self).cursor() + token_width(token@),
    {
        proof {
            lemma_step_advances(self.data@, self.position as int);
        }
        let ghost rest = scan_from(self.data@, self.position + token_width(token@)).tokens;
        self.position += token_size(&token);
        self.tokens.push(token);
        proof {
            let before = token_views(old(self).tokens@);
            assert(token_views(self.tokens@) =~= before.push(token@));
            assert(before.push(token@) + rest =~= before + (seq![token@] + rest));
        }
    }

    /// The character at the position, if the text has not ended there.
    pub fn peek(&self) -> (c: Option<char>)
        requires
            self.wf(),
        ensures
            c == if self.cursor() < self.source().len() {
                Some(self.source()[self.cursor()])
            } else {
                None
            },
    {
        self.peek_forward(0)
    }

    /// The character `n` places after the position, if the text reaches that
    /// far.
    pub fn peek_forward(&self, n: usize) -> (c: Option<char>)
        requires
            self.wf(),
        ensures
            c == if self.cursor() + n < self.source().len() {
                Some(self.source()[self.cursor() + n])
            } else {
                None
            },
    {
        if n < self.chars.len() - self.position {
            Some(self.chars[self.position + n])
        } else {
            None
        }
    }

    /// Tells whether the character `n` places after the position is `c`.
    fn follows(&self, n: usize, c: char) -> (r: bool)
        requires
            self.wf(),
        ensures
            r == char_at(self.source(), self.cursor() + n, c),
    {
        match self.peek_forward(n) {
            Some(found) => found == c,
            None => false,
        }
    }
}

/// Lexes the whole of `data`: its tokens in order, or the first character
/// that no rule accepts, with its position. Nothing of a text that lexes is
/// lost: the widths of its tokens and the number of characters dropped add
/// up to its length.
pub fn lex(data: &str) -> (r: Result<Vec<Token>, LexicalError>)
    ensures
        match r {
            Ok(tokens) => lex_spec(data@) == Ok::<Seq<TokenView>, LexicalError>(
                token_views(tokens@),
            ),
            Err(e) => lex_spec(data@) == Err::<Seq<TokenView>, LexicalError>(e),
        },
        r matches Ok(tokens) ==> total_width(token_views(tokens@)) + dropped(data@)
            == data@.len(),
{
    proof {
        lemma_round_trip_width(data@);
    }
    let mut lexer = Lexer::new(data);
    while !lexer.finished()
        invariant
            lexer.wf(),
            lexer.source() == data@,
        decreases lexer.source().len() - lexer.cursor(),
    {
        proof {
            lemma_step_advances(data@, lexer.position as int);
        }
        match lexer.process_next() {
            Ok(()) => {},
            Err(e) => {
                return Err(e);
            },
        }
    }
    Ok(lexer.into_tokens())
}

} // verus!
