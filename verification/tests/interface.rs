use proto_bridge::builder::{Interface, InterfaceBuilder};
use proto_bridge::interface::{Function, FunctionParam};
use proto_bridge::token::{tokenize, Token};

fn parse(input: &str) -> Interface {
    let ts = tokenize(input).unwrap();
    let mut b = InterfaceBuilder::new();
    b.parse_token_stream(ts)
}

fn s(x: &str) -> String {
    x.to_string()
}

fn param(name: &str, ty: &str) -> FunctionParam {
    FunctionParam { param_name: s(name), param_type: s(ty) }
}

fn param_pairs(f: &Function) -> Vec<(String, String)> {
    f.input.iter().map(|p| (p.param_name.clone(), p.param_type.clone())).collect()
}

#[test]
fn parse_class_with_async_function() {
    let i = parse("class Messaging {\n  send(msg: Text, to: User) async -> (Status);\n}\n");
    assert_eq!(i.names(), vec![s("Messaging")]);
    let class = i.get(&s("Messaging")).unwrap();
    assert_eq!(class.names(), vec![s("send")]);
    let f = class.get(&s("send")).unwrap();
    assert!(f.is_async);
    assert_eq!(param_pairs(f), vec![(s("msg"), s("Text")), (s("to"), s("User"))]);
    assert_eq!(f.output, vec![s("Status")]);
}

#[test]
fn parse_skips_message_blocks() {
    let i = parse("message Foo { int32 a = 1; message Bar { } }\nclass A { f() -> (); g(x: X) -> (R1, R2); }");
    assert_eq!(i.names(), vec![s("A")]);
    let class = i.get(&s("A")).unwrap();
    assert_eq!(class.len(), 2);
    let f = class.get(&s("f")).unwrap();
    assert!(!f.is_async);
    assert!(f.input.is_empty());
    assert!(f.output.is_empty());
    let g = class.get(&s("g")).unwrap();
    assert_eq!(param_pairs(g), vec![(s("x"), s("X"))]);
    assert_eq!(g.output, vec![s("R1"), s("R2")]);
}

#[test]
fn parse_two_classes() {
    let i = parse("class A { f() -> (); }\nclass B { }\n");
    assert_eq!(i.len(), 2);
    assert_eq!(i.get(&s("A")).unwrap().len(), 1);
    assert!(i.get(&s("B")).unwrap().is_empty());
    assert!(i.get(&s("C")).is_none());
}

#[test]
fn parse_redeclared_function_replaces() {
    let i = parse("class A { f() -> (X); f() async -> (Y); }");
    let f = i.get(&s("A")).unwrap().get(&s("f")).unwrap();
    assert!(f.is_async);
    assert_eq!(f.output, vec![s("Y")]);
}

#[test]
fn parse_stops_at_unexpected_token() {
    let i = parse("class A { f(; } class B { }");
    assert!(i.is_empty());
    let i = parse("class A }");
    assert!(i.is_empty());
}

#[test]
fn parse_state_persists_between_calls() {
    let mut b = InterfaceBuilder::new();
    let first = b.parse_token_stream(vec![Token::Class, Token::Comma]);
    assert!(first.is_empty());
    let second = b.parse_token_stream(vec![Token::Word(s("A")), Token::CurlyOpen, Token::CurlyClose]);
    assert_eq!(second.names(), vec![s("A")]);
}

#[test]
fn law_whitespace_ignored_on_sample() {
    let ts = tokenize("class A {\n  f(a: B) async -> (C);\n}\n").unwrap();
    let stripped: Vec<Token> = ts.iter().filter(|t| **t != Token::Whitespace).cloned().collect();
    assert_ne!(ts.len(), stripped.len());
    let mut b1 = InterfaceBuilder::new();
    let mut b2 = InterfaceBuilder::new();
    let r1 = b1.parse_token_stream(ts);
    let r2 = b2.parse_token_stream(stripped);
    assert_eq!(format!("{:?}", r1), format!("{:?}", r2));
    assert_eq!(format!("{:?}", b1), format!("{:?}", b2));
}

#[test]
fn law_classes_kept_on_sample() {
    let mut b = InterfaceBuilder::new();
    let first = b.parse_token_stream(tokenize("class A { } ").unwrap());
    assert_eq!(first.names(), vec![s("A")]);
    let second = b.parse_token_stream(tokenize("class B { } class").unwrap());
    assert!(second.get(&s("A")).is_some());
    assert!(second.get(&s("B")).is_some());
}

#[test]
fn law_depth_zero_outside_messages_on_sample() {
    let mut b = InterfaceBuilder::new();
    b.parse_token_stream(tokenize("message M { a { b } } ").unwrap());
    let dbg = format!("{:?}", b);
    assert!(dbg.contains("state: State0"));
    assert!(dbg.contains("protobuf_depth: 0"));
}

#[test]
fn codegen_bridge_and_trait() {
    let f = Function {
        is_async: true,
        input: vec![param("msg", "Text"), param("to", "User")],
        output: vec![s("Status"), s("Code")],
    };
    assert_eq!(f.codegen_rs_trait("send"), "async fn send(msg: Text, to: User) -> (Status, Code) {}");
    assert_eq!(
        f.codegen_rs_bridge("Messaging", "send"),
        "pub extern \"C\" fn _internal_Messaging_send(msg: MessageFatPointer, to: MessageFatPointer) -> (Status, Code) {}"
    );
}

#[test]
fn codegen_without_params() {
    let f = Function { is_async: false, input: vec![], output: vec![] };
    assert_eq!(f.codegen_rs_trait("ping"), "fn ping() -> () {}");
    let f = Function { is_async: false, input: vec![], output: vec![] };
    assert_eq!(f.codegen_rs_bridge("A", "ping"), "pub extern \"C\" fn _internal_A_ping() -> () {}");
}

#[test]
fn function_param_to_string() {
    assert_eq!(param("a", "B").to_string(), "a: B");
}

fn is_word(w: &str) -> bool {
    w.chars().all(|c| c.is_alphanumeric() || c == '-' || c == '_')
}

#[test]
fn law_parsed_names_are_words_on_sample() {
    let i = parse("class A$b { f%(x&: T!) -> (R?); }");
    assert_eq!(i.names(), vec![s("Ab")]);
    for class_name in i.names() {
        assert!(is_word(&class_name));
        let class = i.get(&class_name).unwrap();
        for fname in class.names() {
            assert!(is_word(&fname));
            let f = class.get(&fname).unwrap();
            for p in &f.input {
                assert!(is_word(&p.param_name) && is_word(&p.param_type));
            }
            for o in &f.output {
                assert!(is_word(o));
            }
        }
    }
    let f = i.get(&s("Ab")).unwrap().get(&s("f")).unwrap();
    assert_eq!(param_pairs(f), vec![(s("x"), s("T"))]);
    assert_eq!(f.output, vec![s("R")]);
}

#[test]
fn law_stops_at_unexpected_token_on_sample() {
    let ts = tokenize("class A { f() -> (); g( ; } class B { }").unwrap();
    let k = ts.iter().position(|t| *t == Token::Semicolon).unwrap();
    let k = k + ts[k + 1..].iter().position(|t| *t == Token::Semicolon).unwrap() + 1;
    let prefix: Vec<Token> = ts[..k].to_vec();
    let mut b1 = InterfaceBuilder::new();
    let mut b2 = InterfaceBuilder::new();
    let r1 = b1.parse_token_stream(ts);
    let r2 = b2.parse_token_stream(prefix);
    assert_eq!(format!("{:?}", r1), format!("{:?}", r2));
    assert_eq!(b1.state(), b2.state());
    assert_eq!(b1.protobuf_depth(), b2.protobuf_depth());
    assert_eq!(b1.state(), proto_bridge::builder::StateMachine::ParsingFunctionArgsWord);
    assert_eq!(b1.unexpected_at(), Some(k));
    assert_eq!(b2.unexpected_at(), None);
}

#[test]
fn builder_depth_and_state_getters() {
    let mut b = InterfaceBuilder::new();
    assert_eq!(b.protobuf_depth(), 0);
    assert_eq!(b.state(), proto_bridge::builder::StateMachine::State0);
    b.parse_token_stream(tokenize("message M { a { ").unwrap());
    assert_eq!(b.protobuf_depth(), 2);
    assert_eq!(b.state(), proto_bridge::builder::StateMachine::ProtoBuf);
}

#[test]
fn unexpected_at_is_reset_by_each_call() {
    let mut b = InterfaceBuilder::new();
    b.parse_token_stream(vec![Token::Class, Token::Whitespace, Token::Comma]);
    assert_eq!(b.unexpected_at(), Some(2));
    b.parse_token_stream(vec![Token::Word(s("A"))]);
    assert_eq!(b.unexpected_at(), None);
}
