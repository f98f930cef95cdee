//! What holds of every run of the lexer.

use crate::lexical_analysis::LexicalError;
use crate::lexical_analysis::rules::char_at;
use crate::lexical_analysis::rules::comment_class;
use crate::lexical_analysis::rules::dropped;
use crate::lexical_analysis::rules::identifier_char;
use crate::lexical_analysis::rules::identifier_class;
use crate::lexical_analysis::rules::lemma_run_length;
use crate::lexical_analysis::rules::lemma_run_length_unique;
use crate::lexical_analysis::rules::lemma_step_advances;
use crate::lexical_analysis::rules::lex_spec;
use crate::lexical_analysis::rules::line_ending;
use crate::lexical_analysis::rules::next_step;
use crate::lexical_analysis::rules::run_length;
use crate::lexical_analysis::rules::Scan;
use crate::lexical_analysis::rules::scan_from;
use crate::lexical_analysis::rules::Step;
use crate::lexical_analysis::rules::step_end;
use crate::lexical_analysis::tokens::token_width;
use crate::lexical_analysis::tokens::TokenView;
use crate::lexical_analysis::tokens::total_width;
use crate::lexical_analysis::tokens::WhitespaceKind;
use vstd::prelude::*;

verus! {

/// From any position on, the widths of the tokens emitted and the number of
/// characters dropped add up to the number of characters passed over.
pub proof fn lemma_scan_width(s: Seq<char>, pos: int)
    requires
        0 <= pos <= s.len(),
    ensures
        pos <= scan_from(s, pos).stop <= s.len(),
        total_width(scan_from(s, pos).tokens) + scan_from(s, pos).skipped == scan_from(s, pos).stop
            - pos,
    decreases s.len() - pos,
{
    if pos < s.len() {
        lemma_step_advances(s, pos);
        match next_step(s, pos) {
            Step::Emit(token) => {
                let rest = scan_from(s, pos + token_width(token));
                lemma_scan_width(s, pos + token_width(token));
                assert((seq![token] + rest.tokens).drop_first() =~= rest.tokens);
            },
            Step::Skip => {
                lemma_scan_width(s, pos + 1);
            },
            Step::Fail => {},
        }
    }
}

/// Nothing of the text is lost: for every text, the widths of all the tokens
/// emitted plus the number of characters dropped is the number of characters
/// consumed, and where lexing succeeds that is the length of the text.
pub proof fn lemma_round_trip_width(s: Seq<char>)
    ensures
        0 <= scan_from(s, 0).stop <= s.len(),
        total_width(scan_from(s, 0).tokens) + dropped(s) == scan_from(s, 0).stop,
        lex_spec(s) matches Ok(tokens) ==> total_width(tokens) + dropped(s) == s.len(),
        lex_spec(s) is Err ==> scan_from(s, 0).stop < s.len(),
{
    lemma_scan_width(s, 0);
}

/// Maximal munch: a text of identifier characters alone that begins with
/// none of `=`, `::` and `->` is one identifier, the whole text.
pub proof fn lemma_identifier_alone(s: Seq<char>)
    requires
        s.len() > 0,
        forall|i: int| 0 <= i < s.len() ==> identifier_char(#[trigger] s[i]),
        s[0] != '=',
        !(s[0] == ':' && char_at(s, 1, ':')),
        !(s[0] == '-' && char_at(s, 1, '>')),
    ensures
        lex_spec(s) == Ok::<Seq<TokenView>, LexicalError>(seq![TokenView::Identifier(s)]),
{
    lemma_run_length_unique(s, 0, identifier_class(), s.len());
    assert(s.subrange(0, s.len() as int) =~= s);
    assert(identifier_char(s[0]));
    assert(next_step(s, 0) == Step::Emit(TokenView::Identifier(s)));
    assert(scan_from(s, s.len() as int).tokens == Seq::<TokenView>::empty());
    assert(seq![TokenView::Identifier(s)] + Seq::<TokenView>::empty() =~= seq![
        TokenView::Identifier(s),
    ]);
}

/// The extent of a comment: from behind its `;` up to the next line ending,
/// which it leaves in the text, or to the end of the text.
pub proof fn lemma_comment_extent(s: Seq<char>, pos: int)
    requires
        0 <= pos < s.len(),
        s[pos] == ';',
    ensures
        next_step(s, pos) matches Step::Emit(TokenView::Comment(text)) && {
            &&& text == s.subrange(pos + 1, pos + 1 + text.len())
            &&& forall|i: int| 0 <= i < text.len() ==> !line_ending(#[trigger] text[i])
            &&& pos + 1 + text.len() == s.len() || line_ending(s[pos + 1 + text.len()])
        },
{
    lemma_run_length(s, pos + 1, comment_class());
}

/// Tells whether a text can be cut behind its last character without
/// cutting a token: it is empty, or it ends with a new line.
pub open spec fn whole_lines(s: Seq<char>) -> bool {
    s.len() == 0 || s.last() == '\n'
}

/// A run that ends inside the first of two texts is the same run in the two
/// put together.
proof fn lemma_run_in_prefix(
    first: Seq<char>,
    second: Seq<char>,
    from: int,
    class: spec_fn(char) -> bool,
)
    requires
        0 <= from <= first.len(),
        from + run_length(first, from, class) < first.len(),
    ensures
        run_length(first + second, from, class) == run_length(first, from, class),
    decreases first.len() - from,
{
    if from < first.len() && class(first[from]) {
        lemma_run_in_prefix(first, second, from + 1, class);
    }
}

/// A run in the second of two texts is the same run in the two put
/// together.
proof fn lemma_run_in_suffix(
    first: Seq<char>,
    second: Seq<char>,
    from: int,
    class: spec_fn(char) -> bool,
)
    requires
        0 <= from,
    ensures
        run_length(first + second, first.len() + from, class) == run_length(second, from, class),
    decreases second.len() - from,
{
    if from < second.len() && class(second[from]) {
        lemma_run_in_suffix(first, second, from + 1, class);
    }
}

/// The lexer does the same at a position of the second of two texts and at
/// that position in the two put together.
proof fn lemma_step_in_suffix(first: Seq<char>, second: Seq<char>, pos: int)
    requires
        0 <= pos < second.len(),
    ensures
        next_step(first + second, first.len() + pos) == next_step(second, pos),
{
    let whole = first + second;
    let at = first.len() + pos;
    lemma_run_in_suffix(first, second, pos + 1, comment_class());
    lemma_run_in_suffix(first, second, pos, identifier_class());
    lemma_run_length(second, pos + 1, comment_class());
    lemma_run_length(second, pos, identifier_class());
    let comment = run_length(second, pos + 1, comment_class());
    let name = run_length(second, pos, identifier_class());
    assert(whole.subrange(at + 1, at + 1 + comment) =~= second.subrange(pos + 1, pos + 1 + comment));
    assert(whole.subrange(at, at + name) =~= second.subrange(pos, pos + name));
}

/// A run of the lexer over the second of two texts is the same run in the
/// two put together, further on by the length of the first.
proof fn lemma_scan_in_suffix(first: Seq<char>, second: Seq<char>, pos: int)
    requires
        0 <= pos <= second.len(),
    ensures
        scan_from(first + second, first.len() + pos) == (Scan {
            tokens: scan_from(second, pos).tokens,
            skipped: scan_from(second, pos).skipped,
            stop: first.len() + scan_from(second, pos).stop,
        }),
    decreases second.len() - pos,
{
    if pos < second.len() {
        lemma_step_in_suffix(first, second, pos);
        lemma_step_advances(second, pos);
        match next_step(second, pos) {
            Step::Emit(token) => {
                lemma_scan_in_suffix(first, second, pos + token_width(token));
            },
            Step::Skip => {
                lemma_scan_in_suffix(first, second, pos + 1);
            },
            Step::Fail => {},
        }
    }
}

/// In a text that ends with a new line, the lexer looks at no character
/// behind that new line: it does the same at a position of the text
/// whatever follows the text, and no token reaches over the new line.
proof fn lemma_step_in_prefix(first: Seq<char>, second: Seq<char>, pos: int)
    requires
        first.len() > 0,
        first.last() == '\n',
        0 <= pos < first.len(),
    ensures
        next_step(first + second, pos) == next_step(first, pos),
        pos < first.len() - 1 ==> step_end(first, pos) <= first.len() - 1,
        pos == first.len() - 1 ==> next_step(first, pos) == Step::Emit(
            TokenView::Whitespace(WhitespaceKind::NewLine),
        ),
{
    let whole = first + second;
    let last = first.len() - 1;
    assert(whole[last] == '\n');
    assert(whole[pos] == first[pos]);
    lemma_run_length(first, pos, identifier_class());
    let name = run_length(first, pos, identifier_class());
    if pos + name > last {
        assert(identifier_class()(first[last]));
    }
    lemma_run_in_prefix(first, second, pos, identifier_class());
    assert(whole.subrange(pos, pos + name) =~= first.subrange(pos, pos + name));
    if pos < last {
        lemma_run_length(first, pos + 1, comment_class());
        let comment = run_length(first, pos + 1, comment_class());
        if pos + 1 + comment > last {
            assert(comment_class()(first[last]));
        }
        lemma_run_in_prefix(first, second, pos + 1, comment_class());
        assert(whole.subrange(pos + 1, pos + 1 + comment) =~= first.subrange(
            pos + 1,
            pos + 1 + comment,
        ));
        if pos + 1 < first.len() {
            assert(whole[pos + 1] == first[pos + 1]);
        }
        if pos + 2 < first.len() {
            assert(whole[pos + 2] == first[pos + 2]);
        }
        if pos + 3 < first.len() {
            assert(whole[pos + 3] == first[pos + 3]);
        }
    }
}

/// Two runs of the lexer, one after the other: where the first stopped
/// before `length`, the end of its text, it stands; else the second follows
/// it, further on by `length`.
pub open spec fn joined(first: Scan, length: int, second: Scan) -> Scan {
    if first.stop < length {
        first
    } else {
        Scan {
            tokens: first.tokens + second.tokens,
            skipped: first.skipped + second.skipped,
            stop: length + second.stop,
        }
    }
}

/// Lexing goes line by line: a run over a text of whole lines followed by
/// any text is the run over the lines, and then the run over what follows.
pub proof fn lemma_scan_lines(first: Seq<char>, second: Seq<char>, pos: int)
    requires
        whole_lines(first),
        0 <= pos <= first.len(),
    ensures
        scan_from(first + second, pos) == joined(
            scan_from(first, pos),
            first.len() as int,
            scan_from(second, 0),
        ),
    decreases first.len() - pos,
{
    if pos == first.len() {
        lemma_scan_in_suffix(first, second, 0);
        assert(Seq::<TokenView>::empty() + scan_from(second, 0).tokens =~= scan_from(
            second,
            0,
        ).tokens);
    } else {
        lemma_step_in_prefix(first, second, pos);
        lemma_step_advances(first, pos);
        lemma_scan_width(first, pos);
        match next_step(first, pos) {
            Step::Emit(token) => {
                let next = pos + token_width(token);
                lemma_scan_lines(first, second, next);
                lemma_scan_width(first, next);
                assert(seq![token] + (scan_from(first, next).tokens + scan_from(second, 0).tokens)
                    =~= (seq![token] + scan_from(first, next).tokens) + scan_from(
                    second,
                    0,
                ).tokens);
            },
            Step::Skip => {
                lemma_scan_lines(first, second, pos + 1);
                lemma_scan_width(first, pos + 1);
            },
            Step::Fail => {},
        }
    }
}

/// The tokens of a text that ends with a new line end with a new line: the
/// run from any position of it, where it reaches the end, emits that token
/// last.
pub proof fn lemma_last_token_of_lines(s: Seq<char>, pos: int)
    requires
        s.len() > 0,
        s.last() == '\n',
        0 <= pos < s.len(),
        scan_from(s, pos).stop == s.len(),
    ensures
        scan_from(s, pos).tokens.len() > 0,
        scan_from(s, pos).tokens.last() == TokenView::Whitespace(WhitespaceKind::NewLine),
    decreases s.len() - pos,
{
    lemma_step_in_prefix(s, Seq::empty(), pos);
    lemma_step_advances(s, pos);
    if pos < s.len() - 1 {
        lemma_last_token_of_lines(s, step_end(s, pos));
    }
}

} // verus!
