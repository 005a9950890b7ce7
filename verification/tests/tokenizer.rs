use proto_bridge::token::{tokenize, Token};

fn word(s: &str) -> Token {
    Token::Word(s.to_string())
}

fn tokens(input: &str) -> Vec<Token> {
    match tokenize(input) {
        Ok(ts) => ts,
        Err(e) => panic!("tokenize failed: {:?}", e),
    }
}

#[test]
fn tokenize_class_declaration() {
    let input = "class Messaging {\n  send(msg: Text, to: User) async -> (Status);\n}\n";
    let expected = vec![
        Token::Class,
        Token::Whitespace,
        word("Messaging"),
        Token::CurlyOpen,
        Token::Whitespace,
        word("send"),
        Token::ParenOpen,
        word("msg"),
        Token::Colon,
        Token::Whitespace,
        word("Text"),
        Token::Comma,
        Token::Whitespace,
        word("to"),
        Token::Colon,
        Token::Whitespace,
        word("User"),
        Token::ParenClose,
        Token::Whitespace,
        Token::Async,
        Token::Whitespace,
        Token::Arrow,
        Token::Whitespace,
        Token::ParenOpen,
        word("Status"),
        Token::ParenClose,
        Token::Semicolon,
        Token::Whitespace,
        Token::CurlyClose,
        Token::Whitespace,
    ];
    assert_eq!(tokens(input), expected);
}

#[test]
fn tokenize_message_block() {
    let input = "message Foo { int32 a = 1; }";
    let expected = vec![
        Token::Message,
        Token::Whitespace,
        word("Foo"),
        Token::CurlyOpen,
        Token::Whitespace,
        word("int32"),
        word("a"),
        Token::Whitespace,
        Token::EqSign,
        Token::Whitespace,
        word("1"),
        Token::Semicolon,
        Token::Whitespace,
        Token::CurlyClose,
    ];
    assert_eq!(tokens(input), expected);
}

#[test]
fn tokenize_empty_input() {
    assert_eq!(tokens(""), Vec::<Token>::new());
}

#[test]
fn tokenize_drops_trailing_word() {
    assert_eq!(tokens("abc"), Vec::<Token>::new());
    assert_eq!(tokens("abc;def"), vec![word("abc"), Token::Semicolon]);
}

#[test]
fn tokenize_generic_close_and_arrow() {
    assert_eq!(tokens("a>b"), vec![word("a"), Token::GenericClose]);
    assert_eq!(tokens("x->y"), vec![word("x"), Token::Arrow]);
    assert_eq!(tokens("->;"), vec![Token::Arrow, Token::Semicolon]);
    assert_eq!(tokens("Vec<T>;"), vec![word("Vec"), Token::GenericOpen, word("T"), Token::GenericClose, Token::Semicolon]);
}

#[test]
fn tokenize_lone_greater_than_is_dropped() {
    assert_eq!(tokens(">;"), vec![Token::Semicolon]);
    assert_eq!(tokens("( >)"), vec![Token::ParenOpen, Token::Whitespace, Token::ParenClose]);
}

#[test]
fn tokenize_keywords() {
    assert_eq!(tokens("enum{"), vec![Token::Enum, Token::CurlyOpen]);
    assert_eq!(tokens("async;"), vec![Token::Async, Token::Semicolon]);
    assert_eq!(tokens("classy;"), vec![word("classy"), Token::Semicolon]);
    assert_eq!(tokens("class."), vec![Token::Class, Token::Dot]);
    assert_eq!(tokens("message/"), vec![Token::Message, Token::Slash]);
}

#[test]
fn tokenize_all_delimiters() {
    assert_eq!(
        tokens("(=/.:){};,<"),
        vec![
            Token::ParenOpen,
            Token::EqSign,
            Token::Slash,
            Token::Dot,
            Token::Colon,
            Token::ParenClose,
            Token::CurlyOpen,
            Token::CurlyClose,
            Token::Semicolon,
            Token::Comma,
            Token::GenericOpen,
        ]
    );
}

#[test]
fn tokenize_word_characters() {
    assert_eq!(tokens("a_b-c9é;"), vec![word("a_b-c9é"), Token::Semicolon]);
    assert_eq!(tokens("a#b;"), vec![word("ab"), Token::Semicolon]);
}

#[test]
fn tokenize_whitespace_runs() {
    assert_eq!(tokens(";  \n\t;"), vec![Token::Semicolon, Token::Whitespace, Token::Semicolon]);
    assert_eq!(tokens("a b c;"), vec![word("a"), Token::Whitespace, word("b"), word("c"), Token::Semicolon]);
}

#[test]
fn law_no_adjacent_whitespace_on_sample() {
    let ts = tokens("  a \n\n b\t\t c ;  ; \r\n");
    for pair in ts.windows(2) {
        assert!(!(pair[0] == Token::Whitespace && pair[1] == Token::Whitespace));
    }
}

#[test]
fn law_words_well_formed_on_sample() {
    let ts = tokens("foo(bar: Baz_1, q-x: é) -> (Out);");
    for t in &ts {
        if let Token::Word(w) = t {
            assert!(!w.is_empty());
            assert!(w.chars().all(|c| c.is_alphanumeric() || c == '-' || c == '_'));
        }
    }
}

#[test]
fn law_delimiter_count_on_sample() {
    let input = "f(a:(b),c) { (x) ; } ((";
    let ts = tokens(input);
    let opens = ts.iter().filter(|t| **t == Token::ParenOpen).count();
    assert_eq!(opens, input.chars().filter(|c| *c == '(').count());
    let commas = ts.iter().filter(|t| **t == Token::Comma).count();
    assert_eq!(commas, 1);
}

#[test]
fn token_to_string() {
    assert_eq!(Token::Semicolon.to_string(), ";\n");
    assert_eq!(Token::Whitespace.to_string(), " ");
    assert_eq!(Token::Arrow.to_string(), "->");
    assert_eq!(Token::Class.to_string(), "class");
    assert_eq!(Token::Message.to_string(), "message");
    assert_eq!(Token::Async.to_string(), "async");
    assert_eq!(Token::Enum.to_string(), "enum");
    assert_eq!(Token::CurlyOpen.to_string(), "{");
    assert_eq!(Token::CurlyClose.to_string(), "}");
    assert_eq!(Token::GenericOpen.to_string(), "<");
    assert_eq!(Token::GenericClose.to_string(), ">");
    assert_eq!(word("abc").to_string(), "abc");
}

fn is_delimiter_token(t: &Token) -> bool {
    matches!(
        t,
        Token::ParenOpen
            | Token::EqSign
            | Token::Slash
            | Token::Dot
            | Token::Colon
            | Token::ParenClose
            | Token::CurlyOpen
            | Token::CurlyClose
            | Token::Semicolon
            | Token::Comma
            | Token::GenericOpen
    )
}

fn delimiter_of(c: char) -> Option<Token> {
    match c {
        '(' => Some(Token::ParenOpen),
        '=' => Some(Token::EqSign),
        '/' => Some(Token::Slash),
        '.' => Some(Token::Dot),
        ':' => Some(Token::Colon),
        ')' => Some(Token::ParenClose),
        '{' => Some(Token::CurlyOpen),
        '}' => Some(Token::CurlyClose),
        ';' => Some(Token::Semicolon),
        ',' => Some(Token::Comma),
        '<' => Some(Token::GenericOpen),
        _ => None,
    }
}

#[test]
fn law_delimiters_in_order_on_sample() {
    let input = "class A { f(a: B<C>, d: e.f/g) -> (R); } x = { ; }";
    let ts = tokens(input);
    let from_tokens: Vec<Token> = ts.into_iter().filter(is_delimiter_token).collect();
    let from_chars: Vec<Token> = input.chars().filter_map(delimiter_of).collect();
    assert_eq!(from_tokens, from_chars);
}

#[test]
fn law_closing_tokens_bounded_on_sample() {
    let input = "> a> ->b >> c-> Vec<T> -> x";
    let ts = tokens(input);
    let closing = ts.iter().filter(|t| **t == Token::Arrow || **t == Token::GenericClose).count();
    let gts = input.chars().filter(|c| *c == '>').count();
    assert!(closing <= gts);
    assert_eq!(closing, 5);
}

#[test]
fn law_display_reads_back_on_all_tokens() {
    let all = vec![
        Token::Class,
        Token::Message,
        word("Messaging"),
        word("x9"),
        word("é"),
        Token::CurlyOpen,
        Token::CurlyClose,
        Token::Comma,
        Token::Dot,
        Token::Slash,
        Token::ParenOpen,
        Token::GenericOpen,
        Token::Arrow,
        Token::Async,
        Token::ParenClose,
        Token::Semicolon,
        Token::Colon,
        Token::EqSign,
        Token::Enum,
    ];
    for t in all {
        let text = format!("{} ", t.to_string());
        assert_eq!(tokens(&text), vec![t.clone(), Token::Whitespace], "token {:?}", t);
    }
}

#[test]
fn law_words_not_keywords_on_sample() {
    let input = "class\u{3000}enum\u{a0}async;message-x enumerate classy class->";
    let ts = tokens(input);
    for t in &ts {
        if let Token::Word(w) = t {
            assert!(!["class", "message", "async", "enum"].contains(&w.as_str()), "{:?}", w);
        }
    }
    assert_eq!(ts[0], Token::Class);
    assert!(ts.contains(&Token::Enum));
    assert!(ts.contains(&Token::Async));
    assert!(ts.contains(&Token::Message));
}
