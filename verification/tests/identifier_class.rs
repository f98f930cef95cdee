use frontend::lexical_analysis::is_identifier;
use regex::Regex;

#[test]
fn identifier_class_is_the_character_class_of_the_pattern() {
    let pattern = Regex::new(r"[a-zA-Z0-9_!#%&?/\\@|<>.*^~=+:'-]").unwrap();
    let mut buffer = [0u8; 4];
    let mut code = 0u32;
    while code <= 0x10FFFF {
        if let Some(c) = char::from_u32(code) {
            let text: &str = c.encode_utf8(&mut buffer);
            assert_eq!(is_identifier(c), pattern.is_match(text), "character {:?}", c);
        }
        code += 1;
    }
}
