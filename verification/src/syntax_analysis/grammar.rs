//! The grammar: what expression, statement and program a sequence of
//! tokens stands for, or why it stands for none.

use crate::lexical_analysis::tokens::PunctuationKind;
use crate::lexical_analysis::tokens::SpecialKind;
use crate::lexical_analysis::tokens::TokenView;
use crate::lexical_analysis::tokens::WhitespaceKind;
use crate::syntax_analysis::AstView;
use crate::syntax_analysis::ExpressionView;
use crate::syntax_analysis::ParseErrorView;
use crate::syntax_analysis::StatementView;
use vstd::prelude::*;

verus! {

/// The expression that one token alone stands for: an identifier or a
/// literal. `position` is the token's index, for the error.
pub open spec fn operand_spec(token: TokenView, position: int) -> Result<
    ExpressionView,
    ParseErrorView,
> {
    match token {
        TokenView::Identifier(name) => Ok(ExpressionView::Identifier(name)),
        TokenView::Literal(kind, text) => Ok(ExpressionView::Literal(kind, text)),
        _ => Err(ParseErrorView::UnexpectedTokenInExpression { token, position }),
    }
}

/// Tells whether one token alone is an expression.
pub open spec fn operand(token: TokenView) -> bool {
    token is Identifier || token is Literal
}

/// The class of the operands, as a function.
pub open spec fn operand_class() -> spec_fn(TokenView) -> bool {
    |token: TokenView| operand(token)
}

/// The index of the first token from `from` on that is not of the class
/// `class`, or the number of tokens where all of them are.
pub open spec fn run_end(
    tokens: Seq<TokenView>,
    from: int,
    class: spec_fn(TokenView) -> bool,
) -> int
    decreases tokens.len() - from,
{
    if 0 <= from < tokens.len() && class(tokens[from]) {
        run_end(tokens, from + 1, class)
    } else {
        from
    }
}

/// A run is what `run_end` says it is: it ends inside the tokens or at
/// their end, every token of it is of the class, and the token at its end,
/// if there is one, is not.
pub proof fn lemma_run_end(tokens: Seq<TokenView>, from: int, class: spec_fn(TokenView) -> bool)
    requires
        0 <= from <= tokens.len(),
    ensures
        from <= run_end(tokens, from, class) <= tokens.len(),
        forall|i: int| from <= i < run_end(tokens, from, class) ==> class(#[trigger] tokens[i]),
        run_end(tokens, from, class) < tokens.len() ==> !class(
            tokens[run_end(tokens, from, class)],
        ),
    decreases tokens.len() - from,
{
    if from < tokens.len() && class(tokens[from]) {
        lemma_run_end(tokens, from + 1, class);
    }
}

/// The expression that `tokens` stand for, in prefix notation: one operand
/// alone, or the name of a function followed by its arguments, each of them
/// one operand.
pub open spec fn expression_spec(tokens: Seq<TokenView>) -> Result<ExpressionView, ParseErrorView> {
    if tokens.len() == 0 {
        Err(ParseErrorView::MissingRequiredElement { position: 0 })
    } else if tokens.len() == 1 {
        operand_spec(tokens[0], 0)
    } else {
        match tokens[0] {
            TokenView::Identifier(function) => {
                let stop = run_end(tokens, 1, operand_class());
                if stop < tokens.len() {
                    Err(
                        ParseErrorView::UnexpectedTokenInExpression {
                            token: tokens[stop],
                            position: stop,
                        },
                    )
                } else {
                    Ok(
                        ExpressionView::FunctionCall {
                            identifier: function,
                            parameters: Seq::new(
                                (tokens.len() - 1) as nat,
                                |i: int| operand_spec(tokens[i + 1], i + 1)->Ok_0,
                            ),
                        },
                    )
                }
            },
            token => Err(ParseErrorView::UnexpectedTokenInExpression { token, position: 0 }),
        }
    }
}

/// Tells whether a token may stand among the types of a type signature:
/// an identifier, or one of the marks `::` and `->`.
pub open spec fn signature_token(token: TokenView) -> bool {
    ||| token is Identifier
    ||| token == TokenView::Special(SpecialKind::SignatureStart)
    ||| token == TokenView::Special(SpecialKind::SignatureArrow)
}

/// The class of the tokens of a type signature, as a function.
pub open spec fn signature_class() -> spec_fn(TokenView) -> bool {
    |token: TokenView| signature_token(token)
}

/// The class of the identifiers, as a function.
pub open spec fn name_class() -> spec_fn(TokenView) -> bool {
    |token: TokenView| token is Identifier
}

/// Tells whether the parser passes over a token where no statement has
/// begun: whitespace and comments.
pub open spec fn ignorable_token(token: TokenView) -> bool {
    token is Comment || token is Whitespace
}

/// The texts of `tokens`, which are all identifiers, in order.
pub open spec fn identifier_names(tokens: Seq<TokenView>) -> Seq<Seq<char>> {
    tokens.map_values(|token: TokenView| token->Identifier_0)
}

/// The texts of the identifiers among `tokens`, in order.
pub open spec fn identifier_texts(tokens: Seq<TokenView>) -> Seq<Seq<char>>
    decreases tokens.len(),
{
    if tokens.len() == 0 {
        Seq::empty()
    } else {
        match tokens.last() {
            TokenView::Identifier(name) => identifier_texts(tokens.drop_last()).push(name),
            _ => identifier_texts(tokens.drop_last()),
        }
    }
}

/// The type signature that the tokens of one line stand for. Its types are
/// the identifiers up to the end of the line or to the first whitespace or
/// comment; the marks `::` and `->` among them are passed over. The last
/// type is the return type, the others are the parameter types.
pub open spec fn type_signature_spec(tokens: Seq<TokenView>) -> Result<
    StatementView,
    ParseErrorView,
> {
    let end = run_end(tokens, 0, signature_class());
    let types = identifier_texts(tokens.take(end));
    if end < tokens.len() && !ignorable_token(tokens[end]) {
        Err(ParseErrorView::UnexpectedTokenInStatement { token: tokens[end], position: end })
    } else if types.len() == 0 {
        Err(ParseErrorView::MissingRequiredElement { position: end })
    } else {
        Ok(
            StatementView::TypeSignature {
                parameter_types: types.drop_last(),
                return_type: types.last(),
            },
        )
    }
}

/// The function definition that the tokens of one line stand for: the
/// identifiers before the first `=` are the function's name and then its
/// parameters, and what follows the `=` is the body.
pub open spec fn function_definition_spec(tokens: Seq<TokenView>) -> Result<
    StatementView,
    ParseErrorView,
> {
    let end = run_end(tokens, 0, name_class());
    let body_start = if end < tokens.len() {
        end + 1
    } else {
        end
    };
    let names = identifier_names(tokens.take(end));
    if end < tokens.len() && tokens[end] != TokenView::Punctuation(PunctuationKind::Equal) {
        Err(ParseErrorView::UnexpectedTokenInStatement { token: tokens[end], position: end })
    } else if end == 0 {
        Err(ParseErrorView::MissingRequiredElement { position: 0 })
    } else {
        match expression_spec(tokens.skip(body_start)) {
            Ok(body) => Ok(
                StatementView::FunctionDefinition {
                    identifier: names.first(),
                    parameters: names.drop_first(),
                    body,
                },
            ),
            Err(error) => Err(error.shifted(body_start)),
        }
    }
}

/// A statement, or the error in its place, as a node of the tree.
pub open spec fn as_node(r: Result<StatementView, ParseErrorView>) -> Result<
    AstView,
    ParseErrorView,
> {
    match r {
        Ok(statement) => Ok(AstView::Statement(statement)),
        Err(error) => Err(error),
    }
}

/// The class of the tokens of a line: all but the new line, as a function.
pub open spec fn line_class() -> spec_fn(TokenView) -> bool {
    |token: TokenView| token != TokenView::Whitespace(WhitespaceKind::NewLine)
}

/// The number of tokens up to the first new line, or all of them.
pub open spec fn line_length(tokens: Seq<TokenView>) -> int {
    run_end(tokens, 0, line_class())
}

/// Statements followed by what parsing the rest gave. An error in the rest
/// is moved on by `offset`, the number of tokens before the rest.
pub open spec fn followed_by(
    statements: Seq<StatementView>,
    offset: int,
    rest: Result<Seq<StatementView>, ParseErrorView>,
) -> Result<Seq<StatementView>, ParseErrorView> {
    match rest {
        Ok(more) => Ok(statements + more),
        Err(error) => Err(error.shifted(offset)),
    }
}

/// One statement, or the error in its place, followed by what parsing the
/// `offset` tokens after it gave.
pub open spec fn then_rest(
    statement: Result<StatementView, ParseErrorView>,
    offset: int,
    rest: Result<Seq<StatementView>, ParseErrorView>,
) -> Result<Seq<StatementView>, ParseErrorView> {
    match statement {
        Ok(first) => followed_by(seq![first], offset, rest),
        Err(error) => Err(error),
    }
}

/// The statements that `tokens` stand for, in order. Whitespace and
/// comments between statements are passed over. `::` begins a type
/// signature and an identifier a function definition, each made of the
/// tokens up to the next new line.
pub open spec fn statements_spec(tokens: Seq<TokenView>) -> Result<
    Seq<StatementView>,
    ParseErrorView,
>
    decreases tokens.len(),
    via statements_spec_decreases
{
    if tokens.len() == 0 {
        Ok(Seq::empty())
    } else {
        let n = line_length(tokens);
        match tokens[0] {
            TokenView::Special(SpecialKind::SignatureStart) => then_rest(
                type_signature_spec(tokens.take(n)),
                n,
                statements_spec(tokens.skip(n)),
            ),
            TokenView::Identifier(_) => then_rest(
                function_definition_spec(tokens.take(n)),
                n,
                statements_spec(tokens.skip(n)),
            ),
            token => if ignorable_token(token) {
                followed_by(Seq::empty(), 1, statements_spec(tokens.skip(1)))
            } else {
                Err(ParseErrorView::UnexpectedTokenAtRoot { token, position: 0 })
            },
        }
    }
}

#[via_fn]
proof fn statements_spec_decreases(tokens: Seq<TokenView>) {
    if tokens.len() > 0 {
        lemma_run_end(tokens, 0, line_class());
        lemma_run_end(tokens, 1, line_class());
    }
}

/// The program that `tokens` stand for: its statements, in order.
pub open spec fn parse_spec(tokens: Seq<TokenView>) -> Result<AstView, ParseErrorView> {
    match statements_spec(tokens) {
        Ok(statements) => Ok(
            AstView::Program(statements.map_values(|s: StatementView| AstView::Statement(s))),
        ),
        Err(error) => Err(error),
    }
}

/// Statements, then one more, then the rest, is the statements with the one
/// more, then the rest.
pub(crate) proof fn lemma_followed_by(
    done: Seq<StatementView>,
    offset: int,
    first: StatementView,
    length: int,
    rest: Result<Seq<StatementView>, ParseErrorView>,
)
    ensures
        followed_by(done, offset, followed_by(seq![first], length, rest)) == followed_by(
            done.push(first),
            offset + length,
            rest,
        ),
{
    match rest {
        Ok(more) => {
            assert(done + (seq![first] + more) =~= done.push(first) + more);
        },
        Err(error) => {},
    }
}

/// Statements, then tokens that are passed over, then the rest, is the
/// statements, then the rest.
pub(crate) proof fn lemma_followed_by_nothing(
    done: Seq<StatementView>,
    offset: int,
    length: int,
    rest: Result<Seq<StatementView>, ParseErrorView>,
)
    ensures
        followed_by(done, offset, followed_by(Seq::empty(), length, rest)) == followed_by(
            done,
            offset + length,
            rest,
        ),
{
    match rest {
        Ok(more) => {
            assert(Seq::<StatementView>::empty() + more =~= more);
        },
        Err(error) => {},
    }
}

} // verus!
