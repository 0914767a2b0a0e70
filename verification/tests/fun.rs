use clingo::{atoms_named, f0, Fun, Symbol, Symbolic, SymbolicArgs, F0};

fn num(n: i32) -> Symbol {
    Symbol::number(n)
}

#[test]
fn f0_is_a_constant() {
    let c: F0 = f0("a");
    assert_eq!(c, Fun("a".to_string(), ()));
    assert_eq!(c.to_symbol(), Symbol::id("a", true).unwrap());
}

#[test]
fn tuples_check_length_and_shape() {
    assert_eq!(<(i32, i32)>::from_symbols(vec![num(1), num(2)]), Some((1, 2)));
    assert_eq!(<(i32, i32)>::from_symbols(vec![num(1)]), None);
    assert_eq!(<(i32, i32)>::from_symbols(vec![num(1), num(2), num(3)]), None);
    assert_eq!(<(i32, String)>::from_symbols(vec![num(1), num(2)]), None);
    assert_eq!(<()>::from_symbols(vec![]), Some(()));
    assert_eq!(<()>::from_symbols(vec![num(1)]), None);
    assert_eq!(<(i32,)>::from_symbols(vec![num(4)]), Some((4,)));
    assert_eq!(i32::from_symbols(vec![num(4)]), Some(4));
    assert_eq!(i32::from_symbols(vec![]), None);
}

#[test]
fn twelve_arguments() {
    let syms: Vec<Symbol> = (1..=12).map(num).collect();
    let t = <(i32, i32, i32, i32, i32, i32, i32, i32, i32, i32, i32, i32)>::from_symbols(syms).unwrap();
    assert_eq!(t, (1, 2, 3, 4, 5, 6, 7, 8, 9, 10, 11, 12));
    assert_eq!(t.to_symbols().len(), 12);
}

#[test]
fn arrays_read_in_order() {
    assert_eq!(<[i32; 3]>::from_symbols(vec![num(7), num(8), num(9)]), Some([7, 8, 9]));
    assert_eq!(<[i32; 2]>::from_symbols(vec![num(7), num(8), num(9)]), None);
    assert_eq!(<[i32; 2]>::from_symbols(vec![num(7), Symbol::string("s").unwrap()]), None);
    assert_eq!([1, 2].to_symbols(), vec![num(1), num(2)]);
}

#[test]
fn fun_reads_negative_functions_too() {
    let neg = Symbol::function("p", &[num(1)], false).unwrap();
    assert_eq!(Fun::<i32>::from_symbol(neg.clone()), Some(Fun("p".to_string(), 1)));
    assert!(neg.as_fun::<i32>().is_none());
}

#[test]
fn strings_and_symbols() {
    let s = Symbol::string("hi").unwrap();
    assert_eq!(String::from_symbol(s.clone()), Some("hi".to_string()));
    assert_eq!(i32::from_symbol(s.clone()), None);
    assert_eq!(Symbol::from_symbol(s.clone()), Some(s.clone()));
    assert_eq!("hi".to_string().to_symbol(), s);
}

#[test]
fn atoms_by_name() {
    let atoms = vec![
        Symbol::function("edge", &[num(1), num(2)], true).unwrap(),
        Symbol::function("node", &[num(1)], true).unwrap(),
        Symbol::function("edge", &[num(2), num(3)], true).unwrap(),
        Symbol::function("edge", &[num(4), num(5)], false).unwrap(),
        Symbol::function("edge", &[num(9)], true).unwrap(),
    ];
    let edges: Vec<(i32, i32)> = atoms_named(atoms.clone(), "edge");
    assert_eq!(edges, vec![(1, 2), (2, 3)]);
    let nodes: Vec<i32> = atoms_named(atoms.clone(), "node");
    assert_eq!(nodes, vec![1]);
    let none: Vec<i32> = atoms_named(atoms, "nonexistent");
    assert!(none.is_empty());
}

#[test]
fn atoms_with_symbol_arguments() {
    let atoms: Vec<Symbol> = [("a", 1), ("b", 2), ("c", 3)]
        .iter()
        .map(|(c, n)| Symbol::function("f", &[Symbol::id(c, true).unwrap(), num(*n)], true).unwrap())
        .collect();
    let funs: Vec<(F0, i32)> = atoms_named(atoms, "f");
    assert_eq!(funs.len(), 3);
    assert_eq!(funs[1], (f0("b"), 2));
}
