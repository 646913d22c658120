use script_lexer::lexer::{classify_match, judge_match, LexError, Lexer, MatchType, Selection};
use script_lexer::operators::get_operator_regex;
use script_lexer::token::{Token, TokenType};

fn tok(text: &str, kind: TokenType) -> Token {
    Token::new(String::from(text), kind)
}

fn lex(text: &str) -> Result<Vec<Token>, LexError> {
    Lexer::new().unwrap().tokenize(String::from(text))
}

#[test]
fn texts_of_tokens_rebuild_the_input() {
    let inputs = [
        "abc + de * 0.5",
        "#note\n/*block\n*/ x_1 += 0xFF;\t'str\ning' \"q\"",
        "   ",
        "#é\nx /*ü*/",
    ];
    for input in inputs.iter() {
        let tokens = lex(input).unwrap();
        let joined: String = tokens.iter().map(|t| t.lexeme()).collect();
        assert_eq!(joined, *input);
        assert!(tokens.iter().all(|t| !t.lexeme().is_empty()));
    }
}

#[test]
fn empty_input_gives_no_tokens() {
    assert_eq!(lex("").unwrap(), vec![]);
}

#[test]
fn longer_operator_wins_over_its_prefix() {
    assert_eq!(
        lex("a++;").unwrap(),
        vec![
            tok("a", TokenType::Identifier),
            tok("++", TokenType::Operator),
            tok(";", TokenType::EndStatement),
        ]
    );
}

#[test]
fn hex_literal_is_one_token() {
    assert_eq!(lex("0xaa5").unwrap(), vec![tok("0xaa5", TokenType::HexNumber)]);
}

#[test]
fn trailing_dot_is_left_unrecognised() {
    assert_eq!(
        lex("58."),
        Err(LexError::UnrecognizedCharacter { position: 2, character: '.' })
    );
}

#[test]
fn leading_dot_is_not_a_number() {
    assert_eq!(
        lex(".5"),
        Err(LexError::UnrecognizedCharacter { position: 0, character: '.' })
    );
}

#[test]
fn line_comment_stops_at_newline() {
    assert_eq!(
        lex("#Comment test\n abc++").unwrap(),
        vec![
            tok("#Comment test", TokenType::LineComment),
            tok("\n ", TokenType::Whitespace),
            tok("abc", TokenType::Identifier),
            tok("++", TokenType::Operator),
        ]
    );
}

#[test]
fn block_comment_spans_lines() {
    assert_eq!(
        lex("/*Multi\n line\n comment\n test*/abc++").unwrap(),
        vec![
            tok("/*Multi\n line\n comment\n test*/", TokenType::BlockComment),
            tok("abc", TokenType::Identifier),
            tok("++", TokenType::Operator),
        ]
    );
}

#[test]
fn block_comment_runs_to_the_last_closing_marker() {
    assert_eq!(
        lex("/*a*/b/*c*/").unwrap(),
        vec![tok("/*a*/b/*c*/", TokenType::BlockComment)]
    );
}

#[test]
fn string_literals_in_both_quotes() {
    assert_eq!(
        lex("'a b' \"c\nd\"").unwrap(),
        vec![
            tok("'a b'", TokenType::StringLiteral),
            tok(" ", TokenType::Whitespace),
            tok("\"c\nd\"", TokenType::StringLiteral),
        ]
    );
    assert_eq!(
        lex("\"x\"").unwrap(),
        vec![tok("\"x\"", TokenType::StringLiteral)]
    );
}

#[test]
fn brackets_and_assignment_are_unrecognised() {
    for (input, c) in [("(", '('), (")", ')'), ("{", '{'), ("}", '}'), ("[", '['), ("]", ']'), ("=", '=')] {
        assert_eq!(
            lex(input),
            Err(LexError::UnrecognizedCharacter { position: 0, character: c })
        );
    }
}

#[test]
fn triple_equals_stops_after_double() {
    assert_eq!(
        lex("a===b"),
        Err(LexError::UnrecognizedCharacter { position: 3, character: '=' })
    );
}

#[test]
fn error_position_counts_characters() {
    assert_eq!(
        lex("/*é*/ ("),
        Err(LexError::UnrecognizedCharacter { position: 6, character: '(' })
    );
}

#[test]
fn one_lexer_gives_the_same_results_again() {
    let lexer = Lexer::new().unwrap();
    let first = lexer.tokenize(String::from("x += 1;")).unwrap();
    let other = lexer.tokenize(String::from("0x1f")).unwrap();
    let failed = lexer.tokenize(String::from("a(b"));
    assert_eq!(lexer.tokenize(String::from("x += 1;")).unwrap(), first);
    assert_eq!(lexer.tokenize(String::from("0x1f")).unwrap(), other);
    assert_eq!(lexer.tokenize(String::from("a(b")), failed);
    assert_eq!(failed, Err(LexError::UnrecognizedCharacter { position: 1, character: '(' }));
    assert_eq!(other, vec![tok("0x1f", TokenType::HexNumber)]);
}

#[test]
fn operator_pattern_text() {
    assert_eq!(
        get_operator_regex(),
        r"\A((==)|(!=)|(<=)|(>=)|(>)|(<)|(\+\+)|(--)|(\+=)|(-=)|(\*=)|(/=)|(\+)|(-)|(/)|(\*)|(!))(\b|\B|$)"
    );
}

#[test]
fn kinds_without_templates_report_no_regex() {
    let lexer = Lexer::new().unwrap();
    assert_eq!(lexer.matches_token(TokenType::Keyword, &String::from("if")), MatchType::NoRegex);
    assert_eq!(lexer.matches_token(TokenType::OpenPar, &String::from("(")), MatchType::NoRegex);
    assert_eq!(lexer.matches_token(TokenType::EndStatement, &String::from(";")), MatchType::Match);
    assert_eq!(lexer.matches_token(TokenType::EndStatement, &String::from(" ;")), MatchType::NoMatch);
}

#[test]
fn match_results_are_judged_in_order() {
    assert_eq!(judge_match(TokenType::Number, None), None);
    assert_eq!(judge_match(TokenType::Number, Some((0, 0))), None);
    assert_eq!(
        judge_match(TokenType::Number, Some((0, 3))),
        Some(Selection::Emit { kind: TokenType::Number, end: 3 })
    );
    assert_eq!(
        judge_match(TokenType::EndStatement, Some((2, 3))),
        Some(Selection::Unanchored { kind: TokenType::EndStatement })
    );
}

#[test]
fn match_results_are_classified() {
    assert_eq!(classify_match(None, 4), MatchType::NoMatch);
    assert_eq!(classify_match(Some((1, 4)), 4), MatchType::NoMatch);
    assert_eq!(classify_match(Some((0, 4)), 4), MatchType::Match);
    assert_eq!(classify_match(Some((0, 2)), 4), MatchType::WrongLen(2));
}

#[test]
fn token_accessors() {
    let t = tok("abc", TokenType::Identifier);
    assert_eq!(t.lexeme(), "abc");
    assert_eq!(t.token_type(), TokenType::Identifier);
}

#[test]
fn bracket_fails_whatever_follows() {
    assert_eq!(
        lex("(;"),
        Err(LexError::UnrecognizedCharacter { position: 0, character: '(' })
    );
    assert_eq!(
        lex("=x"),
        Err(LexError::UnrecognizedCharacter { position: 0, character: '=' })
    );
}
