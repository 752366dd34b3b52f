use mana::lang::lexer::{is_term, is_term_lead};
use mana::lang::parser::{ParseError, ParseErrorKind};
use mana::lang::span::Span;
use mana::lang::token::{Token, TokenKind, TokenValue};
use mana::vm::env::Env;
use mana::vm::stack::Stack;
use mana::vm::value::{deep_clone, deep_eq, value_to_text, FunctionRef, MetaValue, Table, Value};
use mana::vm::RuntimeError;

#[test]
fn test_deep_eq_is_structural() {
    let a = MetaValue::list(vec![MetaValue::integer(1), MetaValue::bool(true)]);
    let b = MetaValue::list(vec![MetaValue::integer(1), MetaValue::bool(true)]);
    let c = MetaValue::list(vec![MetaValue::integer(1), MetaValue::bool(false)]);
    assert!(deep_eq(&a, &b));
    assert!(!deep_eq(&a, &c));
    assert!(!deep_eq(&a, &MetaValue::integer(1)));
}

#[test]
fn test_deep_eq_sees_the_meta_table() {
    let plain = MetaValue::integer(1);
    let mut meta = Table::new();
    meta.insert(MetaValue::bool(true), MetaValue::bool(true));
    let decorated = MetaValue {
        value: Value::Int(1),
        meta,
    };
    assert!(!deep_eq(&plain, &decorated));
}

#[test]
fn test_deep_clone_copies_structure() {
    let mut t = Table::new();
    t.insert(MetaValue::integer(1), MetaValue::bool(true));
    let v = MetaValue::list(vec![MetaValue::table(t), MetaValue::integer(2)]);
    let c = deep_clone(&v);
    assert!(deep_eq(&v, &c));
    assert_eq!(v, c);
}

#[test]
fn test_table_insert_replaces_in_place() {
    let mut t = Table::new();
    t.insert(MetaValue::integer(1), MetaValue::bool(true));
    t.insert(MetaValue::integer(2), MetaValue::bool(true));
    t.insert(MetaValue::integer(1), MetaValue::bool(false));
    assert_eq!(t.len(), 2);
    assert_eq!(t.get(&MetaValue::integer(1)), Some(&MetaValue::bool(false)));
    assert_eq!(t.get(&MetaValue::integer(3)), None);
    let keys = t.keys();
    assert_eq!(keys, vec![MetaValue::integer(1), MetaValue::integer(2)]);
}

#[test]
fn test_kind_names() {
    assert_eq!(MetaValue::bool(true).kind_name(), "Bool");
    assert_eq!(MetaValue::integer(1).kind_name(), "Int");
    assert_eq!(MetaValue::list(vec![]).kind_name(), "List");
    assert_eq!(MetaValue::table(Table::new()).kind_name(), "Table");
    let f = MetaValue::function_ref(FunctionRef::of_name("f".into()));
    assert_eq!(f.kind_name(), "FunctionRef");
    assert!(MetaValue::bool(true).is_bool());
    assert!(!MetaValue::bool(true).is_int());
    assert!(MetaValue::integer(1).is_int());
}

#[test]
fn test_stack_typed_pops() {
    let mut s = Stack::new();
    s.push_int(3);
    s.push_bool(true);
    assert_eq!(s.pop_bool(), Ok(true));
    // A typed pop on the wrong kind consumes the value.
    assert_eq!(s.pop_bool(), Err(RuntimeError::TypeError("Int".to_string())));
    assert_eq!(s.pop(), Err(RuntimeError::EmptyStack));
    s.push_list(vec![MetaValue::integer(1)]);
    assert_eq!(s.pop_list(), Ok(vec![MetaValue::integer(1)]));
    s.push_table(Table::new());
    assert_eq!(s.pop_table(), Ok(Table::new()));
    s.push_function_ref(FunctionRef::of_name("f".into()));
    assert_eq!(s.pop_function_ref(), Ok(FunctionRef::of_name("f".into())));
    s.push(MetaValue::integer(9));
    assert_eq!(s.pop_int(), Ok(9));
}

#[test]
fn test_env_reserve_load_store() {
    let mut env = Env::empty();
    env.reserve(2);
    assert_eq!(env.get_local(0), Err(RuntimeError::LocalNotInitialized));
    assert_eq!(env.get_local(5), Err(RuntimeError::LocalNotFound));
    assert_eq!(env.set_local(1, MetaValue::integer(7)), Ok(()));
    assert_eq!(env.get_local(1), Ok(MetaValue::integer(7)));
    assert_eq!(
        env.set_local(2, MetaValue::integer(7)),
        Err(RuntimeError::LocalNotFound)
    );
}

#[test]
fn test_span_and_tokens() {
    let span = Span::new(3, 4);
    assert_eq!(span.start, 3);
    assert_eq!(span.length, 4);
    let t = Token::new(span, TokenKind::Def);
    assert_eq!(t.kind, TokenKind::Def);
    assert_eq!(t.value, None);
    let t = Token::of(TokenKind::Eof).with_span(span);
    assert_eq!(t.span, span);
    let t = Token::with_int(TokenKind::Int, 42);
    assert_eq!(t.value_int(), Some(42));
    assert_eq!(t.value_char(), None);
    let t = Token::with_char(TokenKind::Char, 'x');
    assert_eq!(t.value_char(), Some('x'));
    let t = Token::with_string(TokenKind::Term, "abc".to_string());
    assert_eq!(t.value_string(), Some("abc".to_string()));
    let t = Token::with(TokenKind::Term, TokenValue::Int(1));
    assert_eq!(t.value_string(), None);
}

#[test]
fn test_parse_error_new() {
    let e = ParseError::new(Some(Span::new(0, 1)), ParseErrorKind::ExpectedDigit);
    assert_eq!(e.span, Some(Span::new(0, 1)));
    assert_eq!(e.source, ParseErrorKind::ExpectedDigit);
}

#[test]
fn test_term_character_classes() {
    assert!(is_term_lead('a'));
    assert!(is_term_lead('Z'));
    assert!(is_term_lead('+'));
    assert!(!is_term_lead('3'));
    assert!(!is_term_lead(' '));
    assert!(!is_term_lead('{'));
    assert!(is_term('3'));
    assert!(is_term('~'));
    assert!(!is_term('#'));
    assert!(!is_term('\n'));
}

#[test]
fn test_to_text_renders_values() {
    assert_eq!(MetaValue::integer(-42).to_text(), "-42");
    assert_eq!(MetaValue::integer(100).to_text(), "100");
    assert_eq!(MetaValue::bool(true).to_text(), "true");
    assert_eq!(
        MetaValue::integer(i64::MIN).to_text(),
        "-9223372036854775808"
    );
    let l = MetaValue::list(vec![MetaValue::integer(5), MetaValue::bool(false)]);
    assert_eq!(l.to_text(), "[5,false]");
    let mut t = Table::new();
    t.insert(MetaValue::integer(1), MetaValue::integer(2));
    t.insert(MetaValue::bool(true), MetaValue::list(vec![]));
    assert_eq!(MetaValue::table(t).to_text(), "[1:2,true:[]]");
    assert_eq!(
        MetaValue::function_ref(FunctionRef::of_name("fact".into())).to_text(),
        "fact"
    );
    assert_eq!(value_to_text(&Value::Int(0)), "0");
}
