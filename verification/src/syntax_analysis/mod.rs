//! Syntax analysis: from tokens to a syntax tree.

pub mod grammar;
pub mod laws;

use crate::lexical_analysis::tokens::PunctuationKind;
use crate::lexical_analysis::tokens::SpecialKind;
use crate::lexical_analysis::tokens::Token;
use crate::lexical_analysis::tokens::token_views;
use crate::lexical_analysis::tokens::TokenView;
use crate::lexical_analysis::tokens::WhitespaceKind;
use crate::lexical_analysis::tokens;
use crate::syntax_analysis::grammar::as_node;
use crate::syntax_analysis::grammar::expression_spec;
use crate::syntax_analysis::grammar::followed_by;
use crate::syntax_analysis::grammar::function_definition_spec;
use crate::syntax_analysis::grammar::identifier_names;
use crate::syntax_analysis::grammar::identifier_texts;
use crate::syntax_analysis::grammar::ignorable_token;
use crate::syntax_analysis::grammar::lemma_followed_by;
use crate::syntax_analysis::grammar::lemma_followed_by_nothing;
use crate::syntax_analysis::grammar::lemma_run_end;
use crate::syntax_analysis::grammar::line_class;
use crate::syntax_analysis::grammar::line_length;
use crate::syntax_analysis::grammar::name_class;
use crate::syntax_analysis::grammar::operand_class;
use crate::syntax_analysis::grammar::operand_spec;
use crate::syntax_analysis::grammar::parse_spec;
use crate::syntax_analysis::grammar::run_end;
use crate::syntax_analysis::grammar::signature_class;
use crate::syntax_analysis::grammar::statements_spec;
use crate::syntax_analysis::grammar::type_signature_spec;
use crate::syntax_analysis::laws::lemma_statement_error_position;
use vstd::prelude::*;
use vstd::slice::slice_subrange;

verus! {

/// The name of a type, as it stands in a type signature.
#[derive(Debug, PartialEq, Eq)]
pub struct Type(pub String);

/// The name of a function or of a parameter.
#[derive(Debug, PartialEq, Eq)]
pub struct Symbol(pub String);

/// A node of the syntax tree. The root is a `Program`, which holds the
/// statements of the source in order.
#[derive(Debug, PartialEq, Eq)]
pub enum AST {
    Program(Vec<AST>),
    Statement(Statement),
    Expression(Expression),
}

/// A statement: it takes up one line of the source.
#[derive(Debug, PartialEq, Eq)]
pub enum Statement {
    TypeSignature { parameter_types: Vec<Type>, return_type: Type },
    FunctionDefinition { identifier: Symbol, parameters: Vec<Symbol>, body: Expression },
}

/// An expression. The arguments of a call are identifiers and literals:
/// the grammar has no nested calls and no brackets.
#[derive(Debug, PartialEq, Eq)]
pub enum Expression {
    FunctionCall { identifier: Symbol, parameters: Vec<Expression> },
    Literal(LiteralKind),
    Identifier(Symbol),
}

/// A literal with its text as written.
#[derive(Debug, PartialEq, Eq)]
pub enum LiteralKind {
    StringLiteral(String),
    IntegerLiteral(String),
    DecimalLiteral(String),
    BooleanLiteral(String),
}

/// What an expression is, with names and texts as sequences of characters.
pub enum ExpressionView {
    FunctionCall { identifier: Seq<char>, parameters: Seq<ExpressionView> },
    Literal(tokens::LiteralKind, Seq<char>),
    Identifier(Seq<char>),
}

/// What a statement is.
pub enum StatementView {
    TypeSignature { parameter_types: Seq<Seq<char>>, return_type: Seq<char> },
    FunctionDefinition { identifier: Seq<char>, parameters: Seq<Seq<char>>, body: ExpressionView },
}

/// What a node of the syntax tree is.
pub enum AstView {
    Program(Seq<AstView>),
    Statement(StatementView),
    Expression(ExpressionView),
}

impl View for Type {
    type V = Seq<char>;

    open spec fn view(&self) -> Seq<char> {
        self.0@
    }
}

impl View for Symbol {
    type V = Seq<char>;

    open spec fn view(&self) -> Seq<char> {
        self.0@
    }
}

impl Clone for Type {
    fn clone(&self) -> (copy: Self)
        ensures
            copy == *self,
    {
        Type(self.0.clone())
    }
}

impl Clone for Symbol {
    fn clone(&self) -> (copy: Self)
        ensures
            copy == *self,
    {
        Symbol(self.0.clone())
    }
}

impl View for LiteralKind {
    type V = (tokens::LiteralKind, Seq<char>);

    open spec fn view(&self) -> (tokens::LiteralKind, Seq<char>) {
        match *self {
            LiteralKind::StringLiteral(s) => (tokens::LiteralKind::StringLiteral, s@),
            LiteralKind::IntegerLiteral(s) => (tokens::LiteralKind::IntegerLiteral, s@),
            LiteralKind::DecimalLiteral(s) => (tokens::LiteralKind::DecimalLiteral, s@),
            LiteralKind::BooleanLiteral(s) => (tokens::LiteralKind::BooleanLiteral, s@),
        }
    }
}

impl View for Expression {
    type V = ExpressionView;

    open spec fn view(&self) -> ExpressionView
        decreases self,
    {
        match self {
            Expression::FunctionCall { identifier, parameters } => ExpressionView::FunctionCall {
                identifier: identifier@,
                parameters: Seq::new(
                    parameters@.len(),
                    |i: int|
                        if 0 <= i < parameters@.len() {
                            parameters@[i].view()
                        } else {
                            arbitrary()
                        },
                ),
            },
            Expression::Literal(literal) => ExpressionView::Literal(literal@.0, literal@.1),
            Expression::Identifier(name) => ExpressionView::Identifier(name@),
        }
    }
}

/// The names of a sequence of types, in order.
pub open spec fn type_names(types: Seq<Type>) -> Seq<Seq<char>> {
    types.map_values(|t: Type| t@)
}

/// The names of a sequence of symbols, in order.
pub open spec fn symbol_names(symbols: Seq<Symbol>) -> Seq<Seq<char>> {
    symbols.map_values(|s: Symbol| s@)
}

impl View for Statement {
    type V = StatementView;

    open spec fn view(&self) -> StatementView {
        match self {
            Statement::TypeSignature { parameter_types, return_type } => {
                StatementView::TypeSignature {
                    parameter_types: type_names(parameter_types@),
                    return_type: return_type@,
                }
            },
            Statement::FunctionDefinition { identifier, parameters, body } => {
                StatementView::FunctionDefinition {
                    identifier: identifier@,
                    parameters: symbol_names(parameters@),
                    body: body@,
                }
            },
        }
    }
}

impl View for AST {
    type V = AstView;

    open spec fn view(&self) -> AstView
        decreases self,
    {
        match self {
            AST::Program(nodes) => AstView::Program(
                Seq::new(
                    nodes@.len(),
                    |i: int|
                        if 0 <= i < nodes@.len() {
                            nodes@[i].view()
                        } else {
                            arbitrary()
                        },
                ),
            ),
            AST::Statement(statement) => AstView::Statement(statement@),
            AST::Expression(expression) => AstView::Expression(expression@),
        }
    }
}

/// Why a sequence of tokens is no program. A position is an index into the
/// tokens that the function was given.
#[derive(Debug, PartialEq, Eq)]
pub enum ParseError {
    /// A token between statements that starts no statement and is neither
    /// whitespace nor a comment.
    UnexpectedTokenAtRoot { token: Token, position: usize },
    /// A token that has no place in the statement it stands in.
    UnexpectedTokenInStatement { token: Token, position: usize },
    /// A token that has no place in the expression it stands in.
    UnexpectedTokenInExpression { token: Token, position: usize },
    /// The tokens end, at `position`, before what had to come: the type of a
    /// type signature, the name of a function definition, or an expression.
    MissingRequiredElement { position: usize },
}

/// What a parse error is, with the token by its view.
pub enum ParseErrorView {
    UnexpectedTokenAtRoot { token: TokenView, position: int },
    UnexpectedTokenInStatement { token: TokenView, position: int },
    UnexpectedTokenInExpression { token: TokenView, position: int },
    MissingRequiredElement { position: int },
}

impl View for ParseError {
    type V = ParseErrorView;

    open spec fn view(&self) -> ParseErrorView {
        match *self {
            ParseError::UnexpectedTokenAtRoot { token, position } => {
                ParseErrorView::UnexpectedTokenAtRoot { token: token@, position: position as int }
            },
            ParseError::UnexpectedTokenInStatement { token, position } => {
                ParseErrorView::UnexpectedTokenInStatement {
                    token: token@,
                    position: position as int,
                }
            },
            ParseError::UnexpectedTokenInExpression { token, position } => {
                ParseErrorView::UnexpectedTokenInExpression {
                    token: token@,
                    position: position as int,
                }
            },
            ParseError::MissingRequiredElement { position } => {
                ParseErrorView::MissingRequiredElement { position: position as int }
            },
        }
    }
}

impl ParseErrorView {
    /// The position that the error names.
    pub open spec fn position(self) -> int {
        match self {
            ParseErrorView::UnexpectedTokenAtRoot { position, .. } => position,
            ParseErrorView::UnexpectedTokenInStatement { position, .. } => position,
            ParseErrorView::UnexpectedTokenInExpression { position, .. } => position,
            ParseErrorView::MissingRequiredElement { position } => position,
        }
    }

    /// The same error, `by` tokens further on.
    pub open spec fn shifted(self, by: int) -> ParseErrorView {
        match self {
            ParseErrorView::UnexpectedTokenAtRoot { token, position } => {
                ParseErrorView::UnexpectedTokenAtRoot { token, position: position + by }
            },
            ParseErrorView::UnexpectedTokenInStatement { token, position } => {
                ParseErrorView::UnexpectedTokenInStatement { token, position: position + by }
            },
            ParseErrorView::UnexpectedTokenInExpression { token, position } => {
                ParseErrorView::UnexpectedTokenInExpression { token, position: position + by }
            },
            ParseErrorView::MissingRequiredElement { position } => {
                ParseErrorView::MissingRequiredElement { position: position + by }
            },
        }
    }
}

impl ParseError {
    /// The same error, `by` tokens further on: what an error in a part of
    /// the tokens is in the whole.
    pub fn shifted(self, by: usize) -> (moved: ParseError)
        requires
            self@.position() + by <= usize::MAX,
        ensures
            moved@ == self@.shifted(by as int),
    {
        match self {
            ParseError::UnexpectedTokenAtRoot { token, position } => {
                ParseError::UnexpectedTokenAtRoot { token, position: position + by }
            },
            ParseError::UnexpectedTokenInStatement { token, position } => {
                ParseError::UnexpectedTokenInStatement { token, position: position + by }
            },
            ParseError::UnexpectedTokenInExpression { token, position } => {
                ParseError::UnexpectedTokenInExpression { token, position: position + by }
            },
            ParseError::MissingRequiredElement { position } => {
                ParseError::MissingRequiredElement { position: position + by }
            },
        }
    }
}

/// The value or the error of a result, each by its view.
pub open spec fn result_view<T: View, E: View>(r: Result<T, E>) -> Result<T::V, E::V> {
    match r {
        Ok(value) => Ok(value@),
        Err(error) => Err(error@),
    }
}

impl tokens::LiteralKind {
    /// The literal expression of this kind with the text `name`.
    pub fn to_expression(&self, name: String) -> (expression: Expression)
        ensures
            expression@ == ExpressionView::Literal(*self, name@),
    {
        Expression::Literal(
            match self {
                tokens::LiteralKind::StringLiteral => LiteralKind::StringLiteral(name),
                tokens::LiteralKind::IntegerLiteral => LiteralKind::IntegerLiteral(name),
                tokens::LiteralKind::DecimalLiteral => LiteralKind::DecimalLiteral(name),
                tokens::LiteralKind::BooleanLiteral => LiteralKind::BooleanLiteral(name),
            },
        )
    }
}

/// Parses an expression in prefix notation: one identifier or literal
/// alone, or the name of a function followed by its arguments, each of them
/// one identifier or literal.
pub fn parse_expression(tokens: &[Token]) -> (r: Result<Expression, ParseError>)
    ensures
        result_view(r) == expression_spec(token_views(tokens@)),
    decreases tokens@.len(),
{
    let ghost views = token_views(tokens@);
    if tokens.len() > 1 {
        match &tokens[0] {
            Token::Identifier(function) => {
                let mut parameters: Vec<Expression> = Vec::new();
                let mut position: usize = 1;
                while position < tokens.len()
                    invariant
                        views == token_views(tokens@),
                        views[0] is Identifier,
                        1 <= position <= tokens.len(),
                        parameters@.len() == position - 1,
                        run_end(views, 1, operand_class()) == run_end(
                            views,
                            position as int,
                            operand_class(),
                        ),
                        forall|i: int|
                            0 <= i < parameters@.len() ==> (#[trigger] parameters@[i])@
                                == operand_spec(views[i + 1], i + 1)->Ok_0,
                    decreases tokens.len() - position,
                {
                    let argument = slice_subrange(tokens, position, position + 1);
                    assert(token_views(argument@) =~= seq![views[position as int]]);
                    match parse_expression(argument) {
                        Ok(expression) => {
                            parameters.push(expression);
                        },
                        Err(error) => {
                            assert(error@ == operand_spec(views[position as int], 0)->Err_0);
                            assert(run_end(views, position as int, operand_class()) == position);
                            return Err(error.shifted(position));
                        },
                    }
                    position += 1;
                }
                let call = Expression::FunctionCall {
                    identifier: Symbol(function.clone()),
                    parameters,
                };
                assert(call@->FunctionCall_parameters =~= Seq::new(
                    (views.len() - 1) as nat,
                    |i: int| operand_spec(views[i + 1], i + 1)->Ok_0,
                ));
                Ok(call)
            },
            token => Err(
                ParseError::UnexpectedTokenInExpression { token: token.clone(), position: 0 },
            ),
        }
    } else if tokens.len() == 1 {
        match &tokens[0] {
            Token::Identifier(name) => Ok(Expression::Identifier(Symbol(name.clone()))),
            Token::Literal(kind, name) => Ok(kind.to_expression(name.clone())),
            token => Err(
                ParseError::UnexpectedTokenInExpression { token: token.clone(), position: 0 },
            ),
        }
    } else {
        Err(ParseError::MissingRequiredElement { position: 0 })
    }
}

/// Parses the tokens of one line as a type signature.
pub fn parse_type_signature(tokens: &[Token]) -> (r: Result<AST, ParseError>)
    ensures
        result_view(r) == as_node(type_signature_spec(token_views(tokens@))),
{
    let ghost views = token_views(tokens@);
    let mut types: Vec<Type> = Vec::new();
    let mut position: usize = 0;
    assert(views.take(0) =~= Seq::<TokenView>::empty());
    while position < tokens.len()
        invariant_except_break
            run_end(views, 0, signature_class()) == run_end(
                views,
                position as int,
                signature_class(),
            ),
        invariant
            views == token_views(tokens@),
            position <= tokens.len(),
            type_names(types@) == identifier_texts(views.take(position as int)),
        ensures
            run_end(views, 0, signature_class()) == position,
            position < tokens.len() ==> ignorable_token(views[position as int]),
        decreases tokens.len() - position,
    {
        proof {
            assert(views.take(position + 1).drop_last() =~= views.take(position as int));
        }
        match &tokens[position] {
            Token::Special(SpecialKind::SignatureArrow)
            | Token::Special(SpecialKind::SignatureStart) => {
                position += 1;
            },
            Token::Identifier(name) => {
                types.push(Type(name.clone()));
                assert(type_names(types@) =~= identifier_texts(
                    views.take(position as int),
                ).push(name@));
                position += 1;
            },
            Token::Whitespace(_) | Token::Comment(_) => {
                break;
            },
            token => {
                return Err(
                    ParseError::UnexpectedTokenInStatement { token: token.clone(), position },
                );
            },
        }
    }
    let ghost all = type_names(types@);
    match types.pop() {
        Some(return_type) => {
            assert(type_names(types@) =~= all.drop_last());
            Ok(AST::Statement(Statement::TypeSignature { parameter_types: types, return_type }))
        },
        None => Err(ParseError::MissingRequiredElement { position }),
    }
}

/// Parses the tokens of one line as a function definition.
pub fn parse_function_definition(tokens: &[Token]) -> (r: Result<AST, ParseError>)
    ensures
        result_view(r) == as_node(function_definition_spec(token_views(tokens@))),
{
    let ghost views = token_views(tokens@);
    let mut symbols: Vec<Symbol> = Vec::new();
    let mut position: usize = 0;
    while position < tokens.len()
        invariant_except_break
            run_end(views, 0, name_class()) == run_end(views, position as int, name_class()),
        invariant
            views == token_views(tokens@),
            position <= tokens.len(),
            symbol_names(symbols@) == identifier_names(views.take(position as int)),
        ensures
            run_end(views, 0, name_class()) == position,
            position < tokens.len() ==> views[position as int] == TokenView::Punctuation(
                PunctuationKind::Equal,
            ),
        decreases tokens.len() - position,
    {
        match &tokens[position] {
            Token::Identifier(name) => {
                let ghost before = symbols@;
                symbols.push(Symbol(name.clone()));
                position += 1;
                assert(symbol_names(symbols@) =~= symbol_names(before).push(name@));
                assert(identifier_names(views.take(position as int)) =~= identifier_names(
                    views.take(position - 1),
                ).push(name@));
            },
            Token::Punctuation(PunctuationKind::Equal) => {
                break;
            },
            token => {
                return Err(
                    ParseError::UnexpectedTokenInStatement { token: token.clone(), position },
                );
            },
        }
    }
    if symbols.len() == 0 {
        return Err(ParseError::MissingRequiredElement { position: 0 });
    }
    let body_start = if position < tokens.len() {
        position + 1
    } else {
        position
    };
    let rest = slice_subrange(tokens, body_start, tokens.len());
    assert(token_views(rest@) =~= views.skip(body_start as int));
    let body = match parse_expression(rest) {
        Ok(body) => body,
        Err(error) => {
            return Err(error.shifted(body_start));
        },
    };
    let ghost names = symbol_names(symbols@);
    let identifier = symbols.remove(0);
    assert(symbol_names(symbols@) =~= names.drop_first());
    Ok(AST::Statement(Statement::FunctionDefinition { identifier, parameters: symbols, body }))
}

/// Tells whether the parser passes over `t` where no statement has begun.
pub fn should_ignore(t: &Token) -> (r: bool)
    ensures
        r == ignorable_token(t@),
{
    match t {
        Token::Comment(_) => true,
        Token::Whitespace(_) => true,
        _ => false,
    }
}

/// The index of the first new line from `from` on, or the number of tokens.
fn line_end(tokens: &[Token], from: usize) -> (end: usize)
    requires
        from <= tokens@.len(),
    ensures
        from <= end <= tokens@.len(),
        end - from == line_length(token_views(tokens@).skip(from as int)),
{
    let ghost line = token_views(tokens@).skip(from as int);
    let mut end: usize = from;
    while end < tokens.len()
        invariant_except_break
            line_length(line) == run_end(line, end - from, line_class()),
        invariant
            line == token_views(tokens@).skip(from as int),
            from <= end <= tokens.len(),
        ensures
            line_length(line) == end - from,
        decreases tokens.len() - end,
    {
        assert(line[end - from] == tokens@[end as int]@);
        match &tokens[end] {
            Token::Whitespace(WhitespaceKind::NewLine) => {
                break;
            },
            _ => {
                end += 1;
            },
        }
    }
    end
}

/// Parses `tokens` into a program: the statements of the source, in order.
pub fn parse(tokens: &[Token]) -> (r: Result<AST, ParseError>)
    ensures
        result_view(r) == parse_spec(token_views(tokens@)),
{
    let ghost views = token_views(tokens@);
    let ghost mut done: Seq<StatementView> = Seq::empty();
    let mut statements: Vec<AST> = Vec::new();
    let mut position: usize = 0;
    assert(views.skip(0) =~= views);
    while position < tokens.len()
        invariant
            views == token_views(tokens@),
            position <= tokens.len(),
            statements@.len() == done.len(),
            forall|i: int|
                0 <= i < done.len() ==> (#[trigger] statements@[i])@ == AstView::Statement(done[i]),
            statements_spec(views) == followed_by(
                done,
                position as int,
                statements_spec(views.skip(position as int)),
            ),
        decreases tokens.len() - position,
    {
        let ghost rest = views.skip(position as int);
        assert(rest[0] == tokens@[position as int]@);
        match &tokens[position] {
            Token::Special(SpecialKind::SignatureStart) => {
                let end = line_end(tokens, position);
                let line = slice_subrange(tokens, position, end);
                assert(token_views(line@) =~= rest.take(end - position));
                assert(rest.skip(end - position) =~= views.skip(end as int));
                proof {
                    lemma_run_end(rest, 1, line_class());
                }
                match parse_type_signature(line) {
                    Ok(statement) => {
                        proof {
                            let first = type_signature_spec(rest.take(end - position))->Ok_0;
                            lemma_followed_by(
                                done,
                                position as int,
                                first,
                                end - position,
                                statements_spec(views.skip(end as int)),
                            );
                            done = done.push(first);
                        }
                        statements.push(statement);
                        position = end;
                    },
                    Err(error) => {
                        proof {
                            lemma_statement_error_position(rest.take(end - position));
                        }
                        return Err(error.shifted(position));
                    },
                }
            },
            Token::Identifier(_) => {
                let end = line_end(tokens, position);
                let line = slice_subrange(tokens, position, end);
                assert(token_views(line@) =~= rest.take(end - position));
                assert(rest.skip(end - position) =~= views.skip(end as int));
                proof {
                    lemma_run_end(rest, 1, line_class());
                }
                match parse_function_definition(line) {
                    Ok(statement) => {
                        proof {
                            let first = function_definition_spec(rest.take(end - position))->Ok_0;
                            lemma_followed_by(
                                done,
                                position as int,
                                first,
                                end - position,
                                statements_spec(views.skip(end as int)),
                            );
                            done = done.push(first);
                        }
                        statements.push(statement);
                        position = end;
                    },
                    Err(error) => {
                        proof {
                            lemma_statement_error_position(rest.take(end - position));
                        }
                        return Err(error.shifted(position));
                    },
                }
            },
            token => {
                if should_ignore(token) {
                    proof {
                        assert(rest.skip(1) =~= views.skip(position + 1));
                        lemma_followed_by_nothing(
                            done,
                            position as int,
                            1,
                            statements_spec(views.skip(position + 1)),
                        );
                    }
                    position += 1;
                } else {
                    return Err(
                        ParseError::UnexpectedTokenAtRoot { token: token.clone(), position },
                    );
                }
            },
        }
    }
    let program = AST::Program(statements);
    assert(program@->Program_0 =~= done.map_values(|s: StatementView| AstView::Statement(s)));
    assert(done + Seq::<StatementView>::empty() =~= done);
    Ok(program)
}

} // verus!
