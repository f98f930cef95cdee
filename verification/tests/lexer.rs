use frontend::lexical_analysis::tokens::PunctuationKind;
use frontend::lexical_analysis::tokens::SpecialKind;
use frontend::lexical_analysis::tokens::Token;
use frontend::lexical_analysis::tokens::WhitespaceKind;
use frontend::lexical_analysis::tokens::token_size;
use frontend::lexical_analysis::is_comment;
use frontend::lexical_analysis::is_identifier;
use frontend::lexical_analysis::is_line_ending;
use frontend::lexical_analysis::lex;
use frontend::lexical_analysis::should_ignore;
use frontend::lexical_analysis::Lexer;
use frontend::lexical_analysis::LexicalError;

fn identifier(text: &str) -> Token {
    Token::Identifier(text.to_string())
}

fn comment(text: &str) -> Token {
    Token::Comment(text.to_string())
}

fn new_line() -> Token {
    Token::Whitespace(WhitespaceKind::NewLine)
}

fn indentation() -> Token {
    Token::Whitespace(WhitespaceKind::Indentation)
}

fn punctuation(kind: PunctuationKind) -> Token {
    Token::Punctuation(kind)
}

/// The widths of the tokens of a text that lexes, added up, and the number
/// of characters that the lexer dropped, counted step by step.
fn widths_and_dropped(text: &str) -> (usize, usize) {
    let characters: Vec<char> = text.chars().collect();
    let mut lexer = Lexer::new(text);
    let mut dropped = 0;
    while !lexer.finished() {
        let before = lexer.position();
        let c = characters[before];
        assert_eq!(lexer.process_next(), Ok(()));
        if lexer.position() == before + 1 && (c == ' ' || c == '\t' || c == '\r') {
            dropped += 1;
        }
    }
    let widths = lexer.into_tokens().iter().map(token_size).sum();
    (widths, dropped)
}

#[test]
fn empty_text_has_no_tokens() {
    assert_eq!(lex(""), Ok(vec![]));
}

#[test]
fn maximal_munch_takes_the_whole_identifier() {
    assert_eq!(lex("abc123"), Ok(vec![identifier("abc123")]));
}

#[test]
fn comment_runs_to_the_end_of_the_line() {
    assert_eq!(lex("; hello\nx"), Ok(vec![comment(" hello"), new_line(), identifier("x")]));
}

#[test]
fn comment_stops_before_a_carriage_return() {
    assert_eq!(lex(";a\r\nb"), Ok(vec![comment("a"), new_line(), identifier("b")]));
}

#[test]
fn comment_at_the_end_of_the_text() {
    assert_eq!(lex("x ;"), Ok(vec![identifier("x"), comment("")]));
    assert_eq!(lex("; caf\u{e9} = (x)"), Ok(vec![comment(" caf\u{e9} = (x)")]));
}

#[test]
fn type_signature_line_lexes() {
    assert_eq!(
        lex("::Int Int -> Int\n"),
        Ok(vec![
            Token::Special(SpecialKind::SignatureStart),
            identifier("Int"),
            identifier("Int"),
            Token::Special(SpecialKind::SignatureArrow),
            identifier("Int"),
            new_line(),
        ])
    );
}

#[test]
fn function_definition_line_lexes() {
    assert_eq!(
        lex("add x y = + x y"),
        Ok(vec![
            identifier("add"),
            identifier("x"),
            identifier("y"),
            punctuation(PunctuationKind::Equal),
            identifier("+"),
            identifier("x"),
            identifier("y"),
        ])
    );
}

#[test]
fn brackets_are_punctuation() {
    assert_eq!(
        lex("()[]{}"),
        Ok(vec![
            punctuation(PunctuationKind::LeftParen),
            punctuation(PunctuationKind::RightParen),
            punctuation(PunctuationKind::LeftBracket),
            punctuation(PunctuationKind::RightBracket),
            punctuation(PunctuationKind::LeftBrace),
            punctuation(PunctuationKind::RightBrace),
        ])
    );
}

#[test]
fn equal_at_the_start_of_a_token_stands_alone() {
    assert_eq!(
        lex("=>"),
        Ok(vec![punctuation(PunctuationKind::Equal), identifier(">")])
    );
    assert_eq!(
        lex("=="),
        Ok(vec![punctuation(PunctuationKind::Equal), punctuation(PunctuationKind::Equal)])
    );
}

#[test]
fn equal_inside_an_identifier_belongs_to_it() {
    assert_eq!(lex("a=b"), Ok(vec![identifier("a=b")]));
    assert_eq!(lex("<="), Ok(vec![identifier("<=")]));
}

#[test]
fn two_character_marks_win_over_identifiers() {
    assert_eq!(
        lex("::a"),
        Ok(vec![Token::Special(SpecialKind::SignatureStart), identifier("a")])
    );
    assert_eq!(
        lex("->a"),
        Ok(vec![Token::Special(SpecialKind::SignatureArrow), identifier("a")])
    );
    assert_eq!(
        lex(":::"),
        Ok(vec![Token::Special(SpecialKind::SignatureStart), identifier(":")])
    );
}

#[test]
fn marks_inside_an_identifier_belong_to_it() {
    assert_eq!(lex("a::b"), Ok(vec![identifier("a::b")]));
    assert_eq!(lex("x->y"), Ok(vec![identifier("x->y")]));
}

#[test]
fn lone_colon_and_minus_are_identifiers() {
    assert_eq!(lex(":"), Ok(vec![identifier(":")]));
    assert_eq!(lex("-"), Ok(vec![identifier("-")]));
    assert_eq!(lex("- >"), Ok(vec![identifier("-"), identifier(">")]));
}

#[test]
fn every_symbol_of_the_identifier_set_lexes() {
    assert_eq!(lex("_!#%&?/\\@|<>.*^~+'"), Ok(vec![identifier("_!#%&?/\\@|<>.*^~+'")]));
}

#[test]
fn four_spaces_are_one_indentation() {
    assert_eq!(lex("    x"), Ok(vec![indentation(), identifier("x")]));
    assert_eq!(lex("        "), Ok(vec![indentation(), indentation()]));
}

#[test]
fn fewer_than_four_spaces_are_dropped() {
    assert_eq!(lex("   x"), Ok(vec![identifier("x")]));
    assert_eq!(lex("     x"), Ok(vec![indentation(), identifier("x")]));
    assert_eq!(lex("  \n  "), Ok(vec![new_line()]));
}

#[test]
fn tabs_and_carriage_returns_are_dropped() {
    assert_eq!(lex("\tx\r\n"), Ok(vec![identifier("x"), new_line()]));
    assert_eq!(lex(" \t \t"), Ok(vec![]));
}

#[test]
fn new_lines_are_tokens() {
    assert_eq!(lex("\n\n"), Ok(vec![new_line(), new_line()]));
}

#[test]
fn unknown_character_is_an_error_with_its_position() {
    assert_eq!(lex(","), Err(LexicalError { character: ',', position: 0 }));
    assert_eq!(lex("ab \"c\""), Err(LexicalError { character: '"', position: 3 }));
    assert_eq!(lex("x\n$"), Err(LexicalError { character: '$', position: 2 }));
}

#[test]
fn position_of_an_error_counts_characters() {
    assert_eq!(lex(";\u{e9}\n\u{e9}"), Err(LexicalError { character: '\u{e9}', position: 3 }));
    assert_eq!(lex("\u{3bb}x"), Err(LexicalError { character: '\u{3bb}', position: 0 }));
}

#[test]
fn widths_and_dropped_characters_add_up_to_the_length() {
    let text = "::Int -> Int ; sum\r\nadd x y = + x y\n\n     \tf = (g)\n";
    let (widths, dropped) = widths_and_dropped(text);
    assert_eq!(widths, 37);
    assert_eq!(dropped, 14);
    assert_eq!(widths + dropped, text.chars().count());
}

#[test]
fn widths_count_characters_in_comments() {
    let tokens = lex("; caf\u{e9}\nx").unwrap();
    assert_eq!(tokens, vec![comment(" caf\u{e9}"), new_line(), identifier("x")]);
    let widths: usize = tokens.iter().map(token_size).sum();
    assert_eq!(widths, 8);
}

#[test]
fn lexer_starts_at_the_beginning() {
    let lexer = Lexer::new("ab c");
    assert_eq!(lexer.position(), 0);
    assert!(!lexer.finished());
    assert_eq!(lexer.peek(), Some('a'));
    assert_eq!(lexer.peek_forward(1), Some('b'));
    assert_eq!(lexer.peek_forward(3), Some('c'));
    assert_eq!(lexer.peek_forward(4), None);
    assert_eq!(lexer.peek_forward(usize::MAX), None);
    assert_eq!(lexer.into_tokens(), vec![]);
}

#[test]
fn lexer_on_empty_text_is_finished() {
    let lexer = Lexer::new("");
    assert!(lexer.finished());
    assert_eq!(lexer.peek(), None);
}

#[test]
fn lexer_steps_token_by_token() {
    let mut lexer = Lexer::new("ab  ::\n");
    assert_eq!(lexer.process_next(), Ok(()));
    assert_eq!(lexer.position(), 2);
    assert_eq!(lexer.peek(), Some(' '));
    assert_eq!(lexer.process_next(), Ok(()));
    assert_eq!(lexer.position(), 3);
    assert_eq!(lexer.process_next(), Ok(()));
    assert_eq!(lexer.position(), 4);
    assert_eq!(lexer.process_next(), Ok(()));
    assert_eq!(lexer.position(), 6);
    assert_eq!(lexer.process_next(), Ok(()));
    assert_eq!(lexer.position(), 7);
    assert!(lexer.finished());
    assert_eq!(
        lexer.into_tokens(),
        vec![identifier("ab"), Token::Special(SpecialKind::SignatureStart), new_line()]
    );
}

#[test]
fn failed_step_leaves_the_lexer_as_it_was() {
    let mut lexer = Lexer::new("a,");
    assert_eq!(lexer.process_next(), Ok(()));
    assert_eq!(lexer.process_next(), Err(LexicalError { character: ',', position: 1 }));
    assert_eq!(lexer.position(), 1);
    assert_eq!(lexer.process_next(), Err(LexicalError { character: ',', position: 1 }));
    assert_eq!(lexer.into_tokens(), vec![identifier("a")]);
}

#[test]
fn character_classes() {
    assert!(is_line_ending('\n'));
    assert!(is_line_ending('\r'));
    assert!(!is_line_ending(' '));
    assert!(is_comment(' '));
    assert!(is_comment(';'));
    assert!(!is_comment('\n'));
    assert!(!is_comment('\r'));
    assert!(should_ignore(' '));
    assert!(should_ignore('\t'));
    assert!(should_ignore('\r'));
    assert!(should_ignore('\n'));
    assert!(!should_ignore('a'));
    assert!(!should_ignore('\u{a0}'));
    assert!(is_identifier('a'));
    assert!(is_identifier('Z'));
    assert!(is_identifier('0'));
    assert!(is_identifier('_'));
    assert!(is_identifier('\\'));
    assert!(is_identifier('\''));
    assert!(is_identifier('-'));
    assert!(!is_identifier(','));
    assert!(!is_identifier('"'));
    assert!(!is_identifier('('));
    assert!(!is_identifier(';'));
    assert!(!is_identifier(' '));
    assert!(!is_identifier('$'));
    assert!(!is_identifier('`'));
    assert!(!is_identifier('\u{e9}'));
}
