use frontend::lexical_analysis::lex;
use frontend::lexical_analysis::tokens;
use frontend::lexical_analysis::tokens::PunctuationKind;
use frontend::lexical_analysis::tokens::SpecialKind;
use frontend::lexical_analysis::tokens::Token;
use frontend::lexical_analysis::tokens::WhitespaceKind;
use frontend::syntax_analysis::parse;
use frontend::syntax_analysis::parse_expression;
use frontend::syntax_analysis::parse_function_definition;
use frontend::syntax_analysis::parse_type_signature;
use frontend::syntax_analysis::should_ignore;
use frontend::syntax_analysis::Expression;
use frontend::syntax_analysis::LiteralKind;
use frontend::syntax_analysis::ParseError;
use frontend::syntax_analysis::Statement;
use frontend::syntax_analysis::Symbol;
use frontend::syntax_analysis::Type;
use frontend::syntax_analysis::AST;

fn identifier(text: &str) -> Token {
    Token::Identifier(text.to_string())
}

fn integer(text: &str) -> Token {
    Token::Literal(tokens::LiteralKind::IntegerLiteral, text.to_string())
}

fn equal() -> Token {
    Token::Punctuation(PunctuationKind::Equal)
}

fn start() -> Token {
    Token::Special(SpecialKind::SignatureStart)
}

fn arrow() -> Token {
    Token::Special(SpecialKind::SignatureArrow)
}

fn new_line() -> Token {
    Token::Whitespace(WhitespaceKind::NewLine)
}

fn indentation() -> Token {
    Token::Whitespace(WhitespaceKind::Indentation)
}

fn comment(text: &str) -> Token {
    Token::Comment(text.to_string())
}

fn symbol(text: &str) -> Symbol {
    Symbol(text.to_string())
}

fn name(text: &str) -> Expression {
    Expression::Identifier(symbol(text))
}

fn ty(text: &str) -> Type {
    Type(text.to_string())
}

fn signature(parameters: &[&str], result: &str) -> AST {
    AST::Statement(Statement::TypeSignature {
        parameter_types: parameters.iter().map(|t| ty(t)).collect(),
        return_type: ty(result),
    })
}

fn definition(identifier: &str, parameters: &[&str], body: Expression) -> AST {
    AST::Statement(Statement::FunctionDefinition {
        identifier: symbol(identifier),
        parameters: parameters.iter().map(|p| symbol(p)).collect(),
        body,
    })
}

fn call(function: &str, arguments: Vec<Expression>) -> Expression {
    Expression::FunctionCall { identifier: symbol(function), parameters: arguments }
}

fn parse_text(text: &str) -> Result<AST, ParseError> {
    parse(&lex(text).unwrap())
}

#[test]
fn type_signature_from_text() {
    assert_eq!(
        parse_text("::Int Int -> Int\n"),
        Ok(AST::Program(vec![signature(&["Int", "Int"], "Int")]))
    );
}

#[test]
fn type_signature_with_one_type_has_no_parameters() {
    assert_eq!(parse_type_signature(&[start(), identifier("Int")]), Ok(signature(&[], "Int")));
}

#[test]
fn type_signature_passes_over_marks_wherever_they_stand() {
    assert_eq!(
        parse_type_signature(&[arrow(), identifier("A"), start(), start(), identifier("B")]),
        Ok(signature(&["A"], "B"))
    );
}

#[test]
fn type_signature_stops_at_whitespace_and_comments() {
    assert_eq!(
        parse_type_signature(&[start(), identifier("A"), comment("c"), equal()]),
        Ok(signature(&[], "A"))
    );
    assert_eq!(
        parse_type_signature(&[start(), identifier("A"), indentation(), identifier("B")]),
        Ok(signature(&[], "A"))
    );
}

#[test]
fn type_signature_rejects_other_tokens() {
    assert_eq!(
        parse_type_signature(&[start(), identifier("A"), equal(), identifier("B")]),
        Err(ParseError::UnexpectedTokenInStatement { token: equal(), position: 2 })
    );
    assert_eq!(
        parse_type_signature(&[start(), integer("1")]),
        Err(ParseError::UnexpectedTokenInStatement { token: integer("1"), position: 1 })
    );
}

#[test]
fn empty_type_signature_is_an_error() {
    assert_eq!(
        parse_type_signature(&[start()]),
        Err(ParseError::MissingRequiredElement { position: 1 })
    );
    assert_eq!(parse_type_signature(&[]), Err(ParseError::MissingRequiredElement { position: 0 }));
    assert_eq!(
        parse_type_signature(&[start(), arrow(), comment("c"), identifier("A")]),
        Err(ParseError::MissingRequiredElement { position: 2 })
    );
}

#[test]
fn empty_type_signature_line_is_an_error_in_a_program() {
    assert_eq!(
        parse(&[start(), new_line()]),
        Err(ParseError::MissingRequiredElement { position: 1 })
    );
    assert_eq!(parse(&[start()]), Err(ParseError::MissingRequiredElement { position: 1 }));
    assert_eq!(
        parse_text("x = y\n::\n"),
        Err(ParseError::MissingRequiredElement { position: 5 })
    );
}

#[test]
fn function_definition_with_call_body() {
    assert_eq!(
        parse_function_definition(&lex("add x y = + x y").unwrap()),
        Ok(definition("add", &["x", "y"], call("+", vec![name("x"), name("y")])))
    );
}

#[test]
fn function_definition_without_parameters() {
    assert_eq!(
        parse_function_definition(&[identifier("one"), equal(), integer("1")]),
        Ok(definition(
            "one",
            &[],
            Expression::Literal(LiteralKind::IntegerLiteral("1".to_string()))
        ))
    );
}

#[test]
fn function_definition_rejects_other_tokens_before_the_equal() {
    assert_eq!(
        parse_function_definition(&[identifier("f"), integer("1"), equal(), identifier("x")]),
        Err(ParseError::UnexpectedTokenInStatement { token: integer("1"), position: 1 })
    );
    assert_eq!(
        parse_function_definition(&[identifier("f"), comment("c"), equal(), identifier("x")]),
        Err(ParseError::UnexpectedTokenInStatement { token: comment("c"), position: 1 })
    );
}

#[test]
fn function_definition_without_a_name_is_an_error() {
    assert_eq!(
        parse_function_definition(&[equal(), identifier("x")]),
        Err(ParseError::MissingRequiredElement { position: 0 })
    );
    assert_eq!(
        parse_function_definition(&[]),
        Err(ParseError::MissingRequiredElement { position: 0 })
    );
}

#[test]
fn function_definition_without_a_body_is_an_error() {
    assert_eq!(
        parse_function_definition(&[identifier("f"), identifier("x"), equal()]),
        Err(ParseError::MissingRequiredElement { position: 3 })
    );
    assert_eq!(
        parse_function_definition(&[identifier("f"), identifier("x")]),
        Err(ParseError::MissingRequiredElement { position: 2 })
    );
}

#[test]
fn error_in_the_body_names_the_position_in_the_line() {
    assert_eq!(
        parse_function_definition(&[
            identifier("f"),
            equal(),
            identifier("g"),
            identifier("x"),
            equal(),
        ]),
        Err(ParseError::UnexpectedTokenInExpression { token: equal(), position: 4 })
    );
    assert_eq!(
        parse_function_definition(&[identifier("f"), equal(), integer("1"), identifier("x")]),
        Err(ParseError::UnexpectedTokenInExpression { token: integer("1"), position: 2 })
    );
}

#[test]
fn expression_of_one_identifier() {
    assert_eq!(parse_expression(&[identifier("x")]), Ok(name("x")));
}

#[test]
fn expression_of_one_literal_keeps_kind_and_text() {
    let kinds = [
        (tokens::LiteralKind::StringLiteral, LiteralKind::StringLiteral("a b".to_string())),
        (tokens::LiteralKind::IntegerLiteral, LiteralKind::IntegerLiteral("a b".to_string())),
        (tokens::LiteralKind::DecimalLiteral, LiteralKind::DecimalLiteral("a b".to_string())),
        (tokens::LiteralKind::BooleanLiteral, LiteralKind::BooleanLiteral("a b".to_string())),
    ];
    for (kind, literal) in kinds {
        assert_eq!(
            parse_expression(&[Token::Literal(kind, "a b".to_string())]),
            Ok(Expression::Literal(literal))
        );
    }
}

#[test]
fn literal_kind_makes_its_expression() {
    assert_eq!(
        tokens::LiteralKind::BooleanLiteral.to_expression("true".to_string()),
        Expression::Literal(LiteralKind::BooleanLiteral("true".to_string()))
    );
    assert_eq!(
        tokens::LiteralKind::StringLiteral.to_expression("s".to_string()),
        Expression::Literal(LiteralKind::StringLiteral("s".to_string()))
    );
    assert_eq!(
        tokens::LiteralKind::IntegerLiteral.to_expression("7".to_string()),
        Expression::Literal(LiteralKind::IntegerLiteral("7".to_string()))
    );
    assert_eq!(
        tokens::LiteralKind::DecimalLiteral.to_expression("7.5".to_string()),
        Expression::Literal(LiteralKind::DecimalLiteral("7.5".to_string()))
    );
}

#[test]
fn expression_call_takes_each_token_as_one_argument() {
    assert_eq!(
        parse_expression(&[identifier("f"), integer("1"), identifier("g"), identifier("x")]),
        Ok(call(
            "f",
            vec![
                Expression::Literal(LiteralKind::IntegerLiteral("1".to_string())),
                name("g"),
                name("x"),
            ]
        ))
    );
}

#[test]
fn empty_expression_is_an_error() {
    assert_eq!(parse_expression(&[]), Err(ParseError::MissingRequiredElement { position: 0 }));
}

#[test]
fn expression_rejects_other_tokens() {
    assert_eq!(
        parse_expression(&[equal()]),
        Err(ParseError::UnexpectedTokenInExpression { token: equal(), position: 0 })
    );
    assert_eq!(
        parse_expression(&[integer("1"), identifier("x")]),
        Err(ParseError::UnexpectedTokenInExpression { token: integer("1"), position: 0 })
    );
    assert_eq!(
        parse_expression(&[identifier("f"), identifier("x"), comment("c"), equal()]),
        Err(ParseError::UnexpectedTokenInExpression { token: comment("c"), position: 2 })
    );
    assert_eq!(
        parse_expression(&[
            identifier("f"),
            Token::Punctuation(PunctuationKind::LeftParen),
            identifier("x"),
            Token::Punctuation(PunctuationKind::RightParen),
        ]),
        Err(ParseError::UnexpectedTokenInExpression {
            token: Token::Punctuation(PunctuationKind::LeftParen),
            position: 1
        })
    );
}

#[test]
fn empty_token_sequence_is_an_empty_program() {
    assert_eq!(parse(&[]), Ok(AST::Program(vec![])));
    assert_eq!(parse_text(" \n; nothing\n    \n"), Ok(AST::Program(vec![])));
}

#[test]
fn program_of_two_statements() {
    assert_eq!(
        parse_text("::Int Int -> Int\nadd x y = + x y\n"),
        Ok(AST::Program(vec![
            signature(&["Int", "Int"], "Int"),
            definition("add", &["x", "y"], call("+", vec![name("x"), name("y")])),
        ]))
    );
}

#[test]
fn last_line_needs_no_new_line() {
    assert_eq!(
        parse_text("f = x\ng = y"),
        Ok(AST::Program(vec![definition("f", &[], name("x")), definition("g", &[], name("y"))]))
    );
}

#[test]
fn blank_and_comment_lines_between_statements_change_nothing() {
    let plain = parse_text("::A -> B\nf a = g a\n");
    assert_eq!(
        plain,
        Ok(AST::Program(vec![
            signature(&["A"], "B"),
            definition("f", &["a"], call("g", vec![name("a")])),
        ]))
    );
    assert_eq!(parse_text("::A -> B\n\n\nf a = g a\n"), plain);
    assert_eq!(parse_text("::A -> B\n; about f\nf a = g a\n"), plain);
    assert_eq!(parse_text("\n; first\n::A -> B\n    \n; second\n\n    ; third\nf a = g a\n"), plain);
}

#[test]
fn indented_statement_is_parsed() {
    assert_eq!(parse_text("    f = x\n"), Ok(AST::Program(vec![definition("f", &[], name("x"))])));
}

#[test]
fn comment_after_a_type_signature_ends_it() {
    assert_eq!(
        parse_text("::A -> B ; a function\n"),
        Ok(AST::Program(vec![signature(&["A"], "B")]))
    );
}

#[test]
fn unexpected_token_at_root() {
    assert_eq!(
        parse(&[equal()]),
        Err(ParseError::UnexpectedTokenAtRoot { token: equal(), position: 0 })
    );
    assert_eq!(
        parse_text("f = x\n\n(y)\n"),
        Err(ParseError::UnexpectedTokenAtRoot {
            token: Token::Punctuation(PunctuationKind::LeftParen),
            position: 5
        })
    );
    assert_eq!(
        parse(&[new_line(), arrow()]),
        Err(ParseError::UnexpectedTokenAtRoot { token: arrow(), position: 1 })
    );
    assert_eq!(
        parse(&[integer("1")]),
        Err(ParseError::UnexpectedTokenAtRoot { token: integer("1"), position: 0 })
    );
}

#[test]
fn error_in_a_statement_names_the_position_in_the_program() {
    assert_eq!(
        parse_text("f = x\n::A = B\n"),
        Err(ParseError::UnexpectedTokenInStatement { token: equal(), position: 6 })
    );
    assert_eq!(
        parse_text("f = x\ng y = h = y\n"),
        Err(ParseError::UnexpectedTokenInExpression { token: equal(), position: 8 })
    );
    assert_eq!(
        parse_text("\n\nf x =\ng = x"),
        Err(ParseError::MissingRequiredElement { position: 5 })
    );
}

#[test]
fn first_error_wins() {
    assert_eq!(
        parse_text("f ( = x\n::\n"),
        Err(ParseError::UnexpectedTokenInStatement {
            token: Token::Punctuation(PunctuationKind::LeftParen),
            position: 1
        })
    );
}

#[test]
fn shifted_error_moves_its_position() {
    assert_eq!(
        ParseError::MissingRequiredElement { position: 2 }.shifted(3),
        ParseError::MissingRequiredElement { position: 5 }
    );
    assert_eq!(
        ParseError::UnexpectedTokenAtRoot { token: equal(), position: 0 }.shifted(4),
        ParseError::UnexpectedTokenAtRoot { token: equal(), position: 4 }
    );
    assert_eq!(
        ParseError::UnexpectedTokenInStatement { token: equal(), position: 1 }.shifted(1),
        ParseError::UnexpectedTokenInStatement { token: equal(), position: 2 }
    );
    assert_eq!(
        ParseError::UnexpectedTokenInExpression { token: equal(), position: 7 }.shifted(0),
        ParseError::UnexpectedTokenInExpression { token: equal(), position: 7 }
    );
}

#[test]
fn whitespace_and_comments_are_passed_over() {
    assert!(should_ignore(&comment("c")));
    assert!(should_ignore(&new_line()));
    assert!(should_ignore(&indentation()));
    assert!(!should_ignore(&identifier("x")));
    assert!(!should_ignore(&equal()));
    assert!(!should_ignore(&start()));
    assert!(!should_ignore(&integer("1")));
    assert!(!should_ignore(&Token::Keyword("k".to_string())));
}

#[test]
fn clones_of_names_are_equal_to_them() {
    assert_eq!(ty("Int").clone(), ty("Int"));
    assert_eq!(symbol("f").clone(), symbol("f"));
}
