use dsl_lexer::lexer::Lexer;
use dsl_lexer::lexer::ScanError;
use dsl_lexer::lexer::Token;

fn scan(input: &str) -> Vec<Token> {
    let mut lexer = Lexer::new(input.to_string()).expect("non-empty input");
    lexer.parse().clone()
}

fn check(input: &str, expected: &[(&str, &str)]) {
    let tokens = scan(input);
    assert_eq!(
        tokens.len(),
        expected.len(),
        "token count for {:?}: got {:?}",
        input,
        tokens
    );
    for (token, (value, kind)) in tokens.iter().zip(expected.iter()) {
        assert_eq!(&token.value, value, "value in {:?}", input);
        assert_eq!(&token.kind, kind, "kind in {:?}", input);
    }
}

#[test]
fn empty_input_is_rejected() {
    let result = Lexer::new(String::new());
    assert!(matches!(result, Err(ScanError::InvalidInput)));
}

#[test]
fn each_keyword_alone() {
    for keyword in ["var", "val", "out", "in", "use"] {
        check(keyword, &[(keyword, "keyword")]);
    }
}

#[test]
fn each_type_name_alone() {
    for name in ["any", "int", "bit", "str", "ray", "map"] {
        check(name, &[(name, "type")]);
    }
}

#[test]
fn unknown_words_are_names() {
    check("foo", &[("foo", "name")]);
    check("Variable", &[("Variable", "name")]);
    check("vars", &[("vars", "name")]);
    check("x_y", &[("x_y", "name")]);
}

#[test]
fn integer_literal() {
    check("12", &[("12", "int")]);
    check("0", &[("0", "int")]);
}

#[test]
fn decimal_literal_is_num() {
    check("12.5", &[("12.5F", "num")]);
    // A lone period never starts a number run: it is skipped, and the
    // digit after it starts a fresh one.
    check(".5", &[("5", "int")]);
    check("-", &[("-", "int")]);
}

#[test]
fn permissive_number_run_is_one_lexeme() {
    check("1-2.3.4", &[("1-2.3.4F", "num")]);
    check("1-2", &[("1-2", "int")]);
}

#[test]
fn arrows() {
    check("<-", &[("<-", "arrow")]);
    check("->", &[("->", "arrow")]);
    check("x<-y", &[("x", "name"), ("<-", "arrow"), ("y", "name")]);
    check("a<-", &[("a", "name"), ("<-", "arrow")]);
}

#[test]
fn lone_angle_bracket_is_skipped() {
    check("<", &[]);
    check("<x", &[("x", "name")]);
}

#[test]
fn minus_that_is_no_arrow_starts_a_number() {
    check("a-b", &[("a", "name"), ("-", "int"), ("b", "name")]);
    check("-5", &[("-5", "int")]);
}

#[test]
fn separators() {
    check("\n", &[("", "")]);
    check(";", &[("", "")]);
    check(";x", &[("", ""), ("x", "name")]);
    check("a;b", &[("a", "name"), ("", ""), ("b", "name")]);
}

#[test]
fn statement_sequence() {
    check(
        "var int x\nx <- 0",
        &[
            ("var", "keyword"),
            ("int", "type"),
            ("x", "name"),
            ("", ""),
            ("x", "name"),
            ("<-", "arrow"),
            ("0", "int"),
        ],
    );
}

#[test]
fn quoted_string() {
    check("\"abc\"", &[("abc", "str")]);
    check("\"\"", &[("", "str")]);
    check("\"a b\"x", &[("a b", "str"), ("x", "name")]);
}

#[test]
fn string_may_hold_separator_characters() {
    check("\"a\nb\"", &[("a\nb", "str")]);
}

#[test]
fn unterminated_string_is_not_an_error() {
    check("\"abc", &[("abc", "str")]);
    check("\"", &[("", "str")]);
}

#[test]
fn flat_symbols() {
    for symbol in ["*", "+", "&", "^", "|"] {
        check(symbol, &[(symbol, "flat")]);
    }
    check("a*b", &[("a", "name"), ("*", "flat"), ("b", "name")]);
}

#[test]
fn unrecognized_characters_are_skipped() {
    check(" ", &[]);
    check("\t", &[]);
    check("?", &[]);
    check("a b", &[("a", "name"), ("b", "name")]);
}

#[test]
fn scanning_twice_yields_identical_tokens() {
    let input = "var int x\nx <- 0; \"s\" a*1.5";
    let first = scan(input);
    let second = scan(input);
    assert_eq!(first.len(), second.len());
    for (a, b) in first.iter().zip(second.iter()) {
        assert_eq!(a.value, b.value);
        assert_eq!(a.kind, b.kind);
    }
}

#[test]
fn token_new_keeps_its_fields() {
    let token = Token::new("abc".to_string(), "name".to_string());
    assert_eq!(token.value, "abc");
    assert_eq!(token.kind, "name");
}
