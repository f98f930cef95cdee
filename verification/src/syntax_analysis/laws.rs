//! What holds of every parse: where errors point, that a type signature
//! without a type is an error, and that blank lines and comment lines
//! between statements do not change the statements.

use crate::lexical_analysis::laws::lemma_last_token_of_lines;
use crate::lexical_analysis::laws::lemma_scan_lines;
use crate::lexical_analysis::laws::lemma_scan_width;
use crate::lexical_analysis::laws::whole_lines;
use crate::lexical_analysis::rules::lex_spec;
use crate::lexical_analysis::rules::scan_from;
use crate::lexical_analysis::tokens::SpecialKind;
use crate::lexical_analysis::tokens::TokenView;
use crate::lexical_analysis::tokens::WhitespaceKind;
use crate::syntax_analysis::AstView;
use crate::syntax_analysis::grammar::expression_spec;
use crate::syntax_analysis::grammar::followed_by;
use crate::syntax_analysis::grammar::function_definition_spec;
use crate::syntax_analysis::grammar::identifier_texts;
use crate::syntax_analysis::grammar::ignorable_token;
use crate::syntax_analysis::grammar::lemma_run_end;
use crate::syntax_analysis::grammar::line_class;
use crate::syntax_analysis::grammar::line_length;
use crate::syntax_analysis::grammar::name_class;
use crate::syntax_analysis::grammar::operand_class;
use crate::syntax_analysis::grammar::parse_spec;
use crate::syntax_analysis::grammar::run_end;
use crate::syntax_analysis::grammar::signature_class;
use crate::syntax_analysis::grammar::statements_spec;
use crate::syntax_analysis::grammar::type_signature_spec;
use crate::syntax_analysis::ParseErrorView;
use crate::syntax_analysis::StatementView;
use vstd::prelude::*;

verus! {

/// An error of the expression parser names a position in its tokens, or
/// their end.
pub proof fn lemma_expression_error_position(tokens: Seq<TokenView>)
    ensures
        expression_spec(tokens) matches Err(error) ==> 0 <= error.position() <= tokens.len(),
{
    if tokens.len() > 1 {
        lemma_run_end(tokens, 1, operand_class());
    }
}

/// An error of a statement parser names a position in its tokens, or their
/// end.
pub proof fn lemma_statement_error_position(tokens: Seq<TokenView>)
    ensures
        type_signature_spec(tokens) matches Err(error) ==> 0 <= error.position() <= tokens.len(),
        function_definition_spec(tokens) matches Err(error) ==> 0 <= error.position()
            <= tokens.len(),
{
    lemma_run_end(tokens, 0, signature_class());
    lemma_run_end(tokens, 0, name_class());
    let end = run_end(tokens, 0, name_class());
    let body_start = if end < tokens.len() {
        end + 1
    } else {
        end
    };
    lemma_expression_error_position(tokens.skip(body_start));
}

/// An error of the parser names a position in its tokens, or their end.
pub proof fn lemma_program_error_position(tokens: Seq<TokenView>)
    ensures
        statements_spec(tokens) matches Err(error) ==> 0 <= error.position() <= tokens.len(),
    decreases tokens.len(),
{
    if tokens.len() > 0 {
        let n = line_length(tokens);
        lemma_run_end(tokens, 0, line_class());
        lemma_run_end(tokens, 1, line_class());
        lemma_statement_error_position(tokens.take(n));
        if tokens[0] is Identifier || tokens[0] is Special {
            lemma_program_error_position(tokens.skip(n));
        }
        lemma_program_error_position(tokens.skip(1));
    }
}

/// A type signature without a type is an error, alone and at the start of
/// a program: `::` followed by the end of the tokens or by a new line.
pub proof fn lemma_empty_signature(rest: Seq<TokenView>)
    ensures
        type_signature_spec(seq![TokenView::Special(SpecialKind::SignatureStart)]) == Err::<
            StatementView,
            ParseErrorView,
        >(ParseErrorView::MissingRequiredElement { position: 1 }),
        statements_spec(seq![TokenView::Special(SpecialKind::SignatureStart)]) == Err::<
            Seq<StatementView>,
            ParseErrorView,
        >(ParseErrorView::MissingRequiredElement { position: 1 }),
        statements_spec(
            seq![
                TokenView::Special(SpecialKind::SignatureStart),
                TokenView::Whitespace(WhitespaceKind::NewLine),
            ] + rest,
        ) == Err::<Seq<StatementView>, ParseErrorView>(
            ParseErrorView::MissingRequiredElement { position: 1 },
        ),
{
    let start = TokenView::Special(SpecialKind::SignatureStart);
    let alone = seq![start];
    let line = seq![start, TokenView::Whitespace(WhitespaceKind::NewLine)] + rest;
    reveal_with_fuel(run_end, 3);
    assert(line_length(alone) == 1);
    assert(line_length(line) == 1);
    assert(alone.take(1) =~= alone);
    assert(line.take(1) =~= alone);
    assert(run_end(alone, 0, signature_class()) == 1);
    assert(identifier_texts(alone.take(1)) =~= Seq::<Seq<char>>::empty()) by {
        reveal_with_fuel(identifier_texts, 3);
        assert(alone.drop_last() =~= Seq::<TokenView>::empty());
    }
}

/// A run that ends inside the first of two sequences of tokens is the same
/// run in the two put together.
pub proof fn lemma_run_end_in_prefix(
    first: Seq<TokenView>,
    second: Seq<TokenView>,
    from: int,
    class: spec_fn(TokenView) -> bool,
)
    requires
        0 <= from <= first.len(),
        run_end(first, from, class) < first.len(),
    ensures
        run_end(first + second, from, class) == run_end(first, from, class),
    decreases first.len() - from,
{
    if from < first.len() && class(first[from]) {
        lemma_run_end_in_prefix(first, second, from + 1, class);
    }
}

/// A line that ends with its new line inside the first of two sequences of
/// tokens is the same line in the two put together.
proof fn lemma_line_in_prefix(first: Seq<TokenView>, second: Seq<TokenView>)
    requires
        first.len() > 0,
        first.last() == TokenView::Whitespace(WhitespaceKind::NewLine),
    ensures
        line_length(first) < first.len(),
        line_length(first + second) == line_length(first),
        (first + second).take(line_length(first)) == first.take(line_length(first)),
        (first + second).skip(line_length(first)) == first.skip(line_length(first)) + second,
{
    lemma_run_end(first, 0, line_class());
    let n = line_length(first);
    if n == first.len() {
        assert(line_class()(first[first.len() - 1]));
    }
    lemma_run_end_in_prefix(first, second, 0, line_class());
    assert((first + second).take(n) =~= first.take(n));
    assert((first + second).skip(n) =~= first.skip(n) + second);
}

/// Whitespace and comments before the first statement are passed over:
/// they change no statement, and move an error on by their number.
pub proof fn lemma_leading_filler(filler: Seq<TokenView>, after: Seq<TokenView>)
    requires
        forall|i: int| 0 <= i < filler.len() ==> ignorable_token(#[trigger] filler[i]),
    ensures
        statements_spec(filler + after) == followed_by(
            Seq::empty(),
            filler.len() as int,
            statements_spec(after),
        ),
    decreases filler.len(),
{
    let nothing = Seq::<StatementView>::empty();
    if filler.len() == 0 {
        assert(filler + after =~= after);
        match statements_spec(after) {
            Ok(statements) => {
                assert(nothing + statements =~= statements);
            },
            Err(error) => {},
        }
    } else {
        assert(ignorable_token(filler[0]));
        assert((filler + after).skip(1) =~= filler.drop_first() + after);
        lemma_leading_filler(filler.drop_first(), after);
        match statements_spec(after) {
            Ok(statements) => {
                assert(nothing + (nothing + statements) =~= nothing + statements);
            },
            Err(error) => {},
        }
    }
}

/// What parsing gives once `count` tokens of whitespace and comments are
/// put in after the first `at` tokens, where `at` is the start of a line:
/// the same statements, or the same error, which is moved on by `count`
/// where it lies behind them.
pub open spec fn with_filler(
    parsed: Result<Seq<StatementView>, ParseErrorView>,
    at: int,
    count: int,
) -> Result<Seq<StatementView>, ParseErrorView> {
    match parsed {
        Ok(statements) => Ok(statements),
        Err(error) => Err(
            if error.position() < at {
                error
            } else {
                error.shifted(count)
            },
        ),
    }
}

/// Blank lines and comment lines between statements change nothing. Where
/// `before` is empty or ends with a new line, and `filler` holds only
/// whitespace and comments, the tokens `before`, `filler`, `after` give the
/// statements that `before`, `after` give. Where these give an error, those
/// give the same error, at the place where its token now stands.
pub proof fn lemma_filler_between_lines(
    before: Seq<TokenView>,
    filler: Seq<TokenView>,
    after: Seq<TokenView>,
)
    requires
        before.len() == 0 || before.last() == TokenView::Whitespace(WhitespaceKind::NewLine),
        forall|i: int| 0 <= i < filler.len() ==> ignorable_token(#[trigger] filler[i]),
    ensures
        statements_spec(before + filler + after) == with_filler(
            statements_spec(before + after),
            before.len() as int,
            filler.len() as int,
        ),
    decreases before.len(),
{
    let with = before + filler + after;
    let without = before + after;
    if before.len() == 0 {
        assert(with =~= filler + after);
        assert(without =~= after);
        lemma_leading_filler(filler, after);
        lemma_program_error_position(after);
        match statements_spec(after) {
            Ok(statements) => {
                assert(Seq::<StatementView>::empty() + statements =~= statements);
            },
            Err(error) => {},
        }
    } else {
        let token = before[0];
        assert(with[0] == token && without[0] == token);
        assert(with =~= before + (filler + after));
        if token is Identifier || token == TokenView::Special(SpecialKind::SignatureStart) {
            let n = line_length(before);
            lemma_line_in_prefix(before, filler + after);
            lemma_line_in_prefix(before, after);
            lemma_run_end(before, 1, line_class());
            let rest = before.skip(n);
            assert(rest.last() == before.last());
            assert(with.skip(n) =~= rest + filler + after);
            lemma_filler_between_lines(rest, filler, after);
            lemma_statement_error_position(before.take(n));
            let statement = if token is Identifier {
                function_definition_spec(before.take(n))
            } else {
                type_signature_spec(before.take(n))
            };
            match statement {
                Ok(first) => {
                    match statements_spec(rest + after) {
                        Ok(more) => {},
                        Err(error) => {},
                    }
                },
                Err(error) => {},
            }
        } else if ignorable_token(token) {
            let rest = before.drop_first();
            assert(with.skip(1) =~= rest + filler + after);
            assert(without.skip(1) =~= rest + after);
            if rest.len() > 0 {
                assert(rest.last() == before.last());
            }
            lemma_filler_between_lines(rest, filler, after);
        }
    }
}

/// Blank lines and comment lines in the source change nothing. Where
/// `before` and `lines` are texts of whole lines, and `lines` holds only
/// whitespace and comments, the text `before`, `lines`, `after` lexes where
/// `before`, `after` does, and its tokens parse to the same program, or
/// fail to parse as those do.
pub proof fn lemma_blank_lines_in_text(before: Seq<char>, lines: Seq<char>, after: Seq<char>)
    requires
        whole_lines(before),
        whole_lines(lines),
        lex_spec(lines) matches Ok(filler) && forall|i: int|
            0 <= i < filler.len() ==> ignorable_token(#[trigger] filler[i]),
    ensures
        match lex_spec(before + after) {
            Ok(tokens) => {
                &&& lex_spec(before + lines + after) matches Ok(more)
                &&& match parse_spec(tokens) {
                    Ok(program) => parse_spec(more) == Ok::<AstView, ParseErrorView>(program),
                    Err(_) => parse_spec(more) is Err,
                }
            },
            Err(_) => lex_spec(before + lines + after) is Err,
        },
{
    let head = scan_from(before, 0);
    let filler = scan_from(lines, 0).tokens;
    let tail = scan_from(after, 0);
    assert(lex_spec(lines)->Ok_0 == filler);
    assert(before + lines + after =~= before + (lines + after));
    lemma_scan_lines(before, after, 0);
    lemma_scan_lines(before, lines + after, 0);
    lemma_scan_lines(lines, after, 0);
    lemma_scan_width(before, 0);
    lemma_scan_width(lines, 0);
    lemma_scan_width(after, 0);
    if head.stop == before.len() {
        if before.len() > 0 {
            lemma_last_token_of_lines(before, 0);
        }
        assert(head.tokens + (filler + tail.tokens) =~= head.tokens + filler + tail.tokens);
        lemma_filler_between_lines(head.tokens, filler, tail.tokens);
    }
}

} // verus!
