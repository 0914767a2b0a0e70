use clingo::{ModelCache, Symbol};

fn fun(name: &str, args: &[i32]) -> Symbol {
    let args: Vec<Symbol> = args.iter().map(|&n| Symbol::number(n)).collect();
    Symbol::function(name, &args, true).unwrap()
}

fn make_cache(syms: &[(&str, &[i32])]) -> ModelCache {
    let symbols: Vec<Symbol> = syms.iter().map(|(n, a)| fun(n, a)).collect();
    ModelCache::from_symbols(symbols)
}

#[test]
fn empty_cache() {
    let cache = ModelCache::from_symbols(vec![]);
    assert_eq!(cache.symbols().len(), 0);
    assert!(cache.get_pred("anything", 0).is_empty());
}

#[test]
fn get_pred_groups_by_name_and_arity() {
    let cache = make_cache(&[("edge", &[1, 2]), ("edge", &[3, 4]), ("node", &[1])]);

    assert_eq!(cache.get_pred("edge", 2).len(), 2);
    assert_eq!(cache.get_pred("node", 1).len(), 1);
    assert!(cache.get_pred("edge", 1).is_empty());
    assert!(cache.get_pred("missing", 0).is_empty());
}

#[test]
fn symbols_returns_all() {
    let cache = make_cache(&[("a", &[1]), ("b", &[2]), ("a", &[3])]);
    assert_eq!(cache.symbols().len(), 3);
}

#[test]
fn clone_is_independent() {
    let cache = make_cache(&[("foo", &[1]), ("foo", &[2])]);
    let clone = cache.clone();

    assert_eq!(cache.get_pred("foo", 1).len(), 2);
    assert_eq!(clone.get_pred("foo", 1).len(), 2);
}

#[test]
fn get_pred_keeps_order_and_content() {
    let cache = make_cache(&[("p", &[1]), ("q", &[9, 9]), ("p", &[2]), ("p", &[3])]);
    let ps = cache.get_pred("p", 1);
    assert_eq!(ps, &[fun("p", &[1]), fun("p", &[2]), fun("p", &[3])][..]);
    assert_eq!(cache.get_pred("q", 2), &[fun("q", &[9, 9])][..]);
    let all = cache.symbols();
    assert_eq!(
        all,
        vec![fun("p", &[1]), fun("p", &[2]), fun("p", &[3]), fun("q", &[9, 9])]
    );
}
