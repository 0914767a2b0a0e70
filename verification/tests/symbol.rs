use clingo::{f0, Error, Fun, Symbol, SymbolType, SymbolValue, Symbolic, F0};
use std::collections::HashSet;

#[test]
fn number() {
    let s = Symbol::number(42);
    assert_eq!(s.symbol_type(), SymbolType::Number);
    assert_eq!(s.as_number(), Some(42));
    assert_eq!(s.name(), None);
    assert_eq!(s.to_string_lossy().unwrap(), "42");
}

#[test]
fn id() {
    let s = Symbol::id("abc", true).unwrap();
    assert_eq!(s.symbol_type(), SymbolType::Function);
    assert_eq!(s.name(), Some("abc"));
    assert_eq!(s.arguments(), Some(vec![]));
    assert_eq!(s.is_positive(), Some(true));
    assert_eq!(s.to_string_lossy().unwrap(), "abc");
}

#[test]
fn function() {
    let a = Symbol::id("a", true).unwrap();
    let b = Symbol::number(1);
    let f = Symbol::function("edge", &[a.clone(), b.clone()], true).unwrap();
    assert_eq!(f.symbol_type(), SymbolType::Function);
    assert_eq!(f.name(), Some("edge"));
    assert_eq!(f.arguments(), Some(vec![a, b]));
    assert_eq!(f.to_string_lossy().unwrap(), "edge(a,1)");
}

#[test]
fn negated() {
    let s = Symbol::id("foo", false).unwrap();
    assert_eq!(s.is_positive(), Some(false));
    assert_eq!(s.to_string_lossy().unwrap(), "-foo");
}

#[test]
fn string() {
    let s = Symbol::string("hello world").unwrap();
    assert_eq!(s.symbol_type(), SymbolType::String);
    assert_eq!(s.as_string(), Some("hello world"));
    assert_eq!(s.to_string_lossy().unwrap(), "\"hello world\"");
}

#[test]
fn eq_hash() {
    let a1 = Symbol::id("a", true).unwrap();
    let a2 = Symbol::id("a", true).unwrap();
    let b = Symbol::id("b", true).unwrap();
    assert_eq!(a1, a2);
    assert_ne!(a1, b);

    let mut set = HashSet::new();
    set.insert(a1);
    set.insert(a2);
    set.insert(b);
    assert_eq!(set.len(), 2);
}

#[test]
fn value() {
    assert_eq!(Symbol::infimum().value(), SymbolValue::Infimum);
    assert_eq!(Symbol::supremum().value(), SymbolValue::Supremum);
    assert_eq!(Symbol::number(7).value(), SymbolValue::Number(7));
    assert_eq!(
        Symbol::string("hi").unwrap().value(),
        SymbolValue::String("hi".to_string()),
    );

    let a = Symbol::id("a", true).unwrap();
    let f = Symbol::function("edge", &[a.clone(), Symbol::number(1)], true).unwrap();
    assert_eq!(
        f.value(),
        SymbolValue::Function {
            name: "edge".to_string(),
            arguments: vec![a, Symbol::number(1)],
            positive: true,
        },
    );

    let neg = Symbol::id("foo", false).unwrap();
    assert_eq!(
        neg.value(),
        SymbolValue::Function {
            name: "foo".to_string(),
            arguments: vec![],
            positive: false,
        },
    );
}

#[test]
fn as_fun() {
    let a = Symbol::id("a", true).unwrap();
    let b = Symbol::number(1);
    let f = Symbol::function("edge", &[a.clone(), b.clone()], true).unwrap();

    let fixed = f.as_fun::<(F0, i32)>().unwrap();
    assert_eq!(fixed, Fun("edge".to_string(), (f0("a"), 1)));
    let fixed = f.as_fun::<[Symbol; 2]>().unwrap();
    assert_eq!(fixed.0, "edge");
    assert_eq!(fixed.1, [a, b]);

    // wrong arity
    assert!(f.as_fun::<[Symbol; 0]>().is_none());
    assert!(f.as_fun::<[Symbol; 1]>().is_none());
    assert!(f.as_fun::<[Symbol; 3]>().is_none());

    // not a function
    assert!(Symbol::number(1).as_fun::<[Symbol; 0]>().is_none());

    // negative
    let neg = Symbol::id("foo", false).unwrap();
    assert!(neg.as_fun::<[Symbol; 0]>().is_none());

    // zero-arity positive id
    let id = Symbol::id("c", true).unwrap();
    let fixed: Fun<[Symbol; 0]> = id.as_fun().unwrap();
    assert_eq!(fixed.0, "c");
    assert_eq!(fixed.1, []);
}

#[test]
fn nul_byte_in_names_and_strings() {
    match Symbol::string("ab\0cd") {
        Err(Error::NulByte(p)) => assert_eq!(p, 2),
        other => panic!("expected a nul byte error, got {other:?}"),
    }
    match Symbol::id("\0", true) {
        Err(Error::NulByte(p)) => assert_eq!(p, 0),
        other => panic!("expected a nul byte error, got {other:?}"),
    }
    // the offset counts bytes, not characters
    match Symbol::function("é\0x", &[], true) {
        Err(Error::NulByte(p)) => assert_eq!(p, 2),
        other => panic!("expected a nul byte error, got {other:?}"),
    }
}

#[test]
fn render_special_terms() {
    assert_eq!(Symbol::infimum().to_string_lossy().unwrap(), "#inf");
    assert_eq!(Symbol::supremum().to_string_lossy().unwrap(), "#sup");
    assert_eq!(Symbol::number(-17).to_string_lossy().unwrap(), "-17");
    assert_eq!(
        Symbol::number(i32::MIN).to_string_lossy().unwrap(),
        "-2147483648"
    );
    assert_eq!(
        Symbol::string("a\"b\\c\nd").unwrap().to_string_lossy().unwrap(),
        "\"a\\\"b\\\\c\\nd\""
    );
    let one = Symbol::number(1);
    let two = Symbol::number(2);
    let pair = Symbol::function("", &[one.clone(), two], true).unwrap();
    assert_eq!(pair.to_string_lossy().unwrap(), "(1,2)");
    let single = Symbol::function("", &[one], true).unwrap();
    assert_eq!(single.to_string_lossy().unwrap(), "(1,)");
    let unit = Symbol::function("", &[], true).unwrap();
    assert_eq!(unit.to_string_lossy().unwrap(), "()");
    let neg = Symbol::function("p", &[Symbol::number(3)], false).unwrap();
    assert_eq!(neg.to_string_lossy().unwrap(), "-p(3)");
}

#[test]
fn round_trip_of_values() {
    let value = Fun("edge".to_string(), (3, "x".to_string()));
    let sym = value.to_symbol();
    assert_eq!(sym.to_string_lossy().unwrap(), "edge(3,\"x\")");
    assert_eq!(Fun::<(i32, String)>::from_symbol(sym), Some(value));

    let n = 42i32;
    assert_eq!(i32::from_symbol(n.to_symbol()), Some(42));
}

#[test]
fn from_symbol_result_error() {
    let sym = Symbol::function(
        "edge",
        &[Symbol::number(1), Symbol::number(2), Symbol::number(3)],
        true,
    )
    .unwrap();
    let result = Fun::<(i32, i32)>::from_symbol_result(sym);
    match result {
        Err(Error::TypeMismatch(s)) => {
            let msg = Error::TypeMismatch(s).to_string();
            assert!(msg.contains("edge(1,2,3)"), "message was: {msg}");
        }
        other => panic!("expected TypeMismatch, got: {other:?}"),
    }
}
