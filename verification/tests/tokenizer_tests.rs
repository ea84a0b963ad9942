use genine::tokenizer::Attribute;
use genine::tokenizer::Token;
use genine::tokenizer::parse_attributes;
use genine::tokenizer::tokenize;
use genine::tokenizer::try_parse_attributes;
use genine::tokenizer::try_tokenize;

fn attr(name: &str, value: &str) -> Attribute {
    Attribute::new(name.to_string(), value.to_string())
}

#[test]
fn tokenize_simple_element() {
    let tokens = tokenize("<p>hi</p>".to_string());
    assert_eq!(
        tokens,
        vec![
            Token::Start,
            Token::OpeningTag("p".to_string(), vec![]),
            Token::Text("hi".to_string()),
            Token::ClosingTag("p".to_string()),
            Token::End,
        ]
    );
}

#[test]
fn tokenize_nested_with_attribute() {
    let tokens = tokenize("<div id=\"a\"><span>x</span></div>".to_string());
    assert_eq!(
        tokens,
        vec![
            Token::Start,
            Token::OpeningTag("div".to_string(), vec![attr("id", "a")]),
            Token::OpeningTag("span".to_string(), vec![]),
            Token::Text("x".to_string()),
            Token::ClosingTag("span".to_string()),
            Token::ClosingTag("div".to_string()),
            Token::End,
        ]
    );
}

#[test]
fn tokenize_empty_input() {
    let tokens = tokenize(String::new());
    assert_eq!(tokens, vec![Token::Start, Token::End]);
}

#[test]
fn tokenize_text_only_is_trimmed() {
    let tokens = tokenize("  hi there \n".to_string());
    assert_eq!(
        tokens,
        vec![Token::Start, Token::Text("hi there".to_string()), Token::End]
    );
}

#[test]
fn tokenize_whitespace_only_text_dropped() {
    let tokens = tokenize("<a>\n  </a>".to_string());
    assert_eq!(
        tokens,
        vec![
            Token::Start,
            Token::OpeningTag("a".to_string(), vec![]),
            Token::ClosingTag("a".to_string()),
            Token::End,
        ]
    );
    assert!(!tokens.iter().any(|t| matches!(t, Token::Text(_))));
}

#[test]
fn tokenize_repeated_calls_identical() {
    let first = tokenize("<div id=\"a\"><span>x</span></div>".to_string());
    let second = tokenize("<div id=\"a\"><span>x</span></div>".to_string());
    assert_eq!(first, second);
}

#[test]
fn tokenize_closing_tag_strips_slash() {
    let tokens = tokenize("</p>".to_string());
    assert_eq!(
        tokens,
        vec![Token::Start, Token::ClosingTag("p".to_string()), Token::End]
    );
}

#[test]
fn try_tokenize_close_outside_tag_fails() {
    assert_eq!(try_tokenize(">"), None);
    assert_eq!(try_tokenize("a > b"), None);
}

#[test]
fn attributes_quoted_space_and_unquoted_pair() {
    let attrs = parse_attributes("class=\"a b\" id=x");
    assert_eq!(attrs, vec![attr("class", "a b"), attr("id", "x")]);
}

#[test]
fn attributes_bare_name_dropped() {
    let attrs = parse_attributes("disabled");
    assert_eq!(attrs, vec![]);
}

#[test]
fn attributes_empty_input() {
    let attrs = parse_attributes("");
    assert_eq!(attrs, vec![]);
}

#[test]
fn attributes_mid_pair_keeps_empty_value() {
    let attrs = parse_attributes("a= b=c");
    assert_eq!(attrs, vec![attr("a", ""), attr("b", "c")]);
}

#[test]
fn attributes_trailing_empty_value_dropped() {
    let attrs = parse_attributes("foo=\"\"");
    assert_eq!(attrs, vec![]);
}

#[test]
fn attributes_surrounding_whitespace_trimmed() {
    let attrs = parse_attributes("  id=x");
    assert_eq!(attrs, vec![attr("id", "x")]);
}

#[test]
fn try_parse_attributes_unterminated_quote_fails() {
    assert_eq!(try_parse_attributes("a=\"b"), None);
}

#[test]
fn try_parse_attributes_bare_name_before_space_fails() {
    assert_eq!(try_parse_attributes("disabled id=x"), None);
}

#[test]
fn try_parse_attributes_quote_in_name_fails() {
    assert_eq!(try_parse_attributes("\"a\"=b"), None);
}

#[test]
fn attribute_accessors() {
    let a = attr("id", "main");
    assert_eq!(a.name().as_str(), "id");
    assert_eq!(a.value().as_str(), "main");
}
