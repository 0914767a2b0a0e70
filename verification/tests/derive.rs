// The types below carry, as plain functions, the bodies that `derive_text`
// writes for them (checked by `derived_text_of_struct` and
// `derived_text_of_enum`); the tests run those bodies on the library.

use clingo::{derive_text, enum_variant, struct_arguments, Fields, Shape, Symbol, Symbolic};

#[derive(Debug, PartialEq)]
struct MyPred(i32, i32);

impl MyPred {
    fn from_symbol(sym: Symbol) -> Option<Self> {
        let mut args = struct_arguments(&sym, "my_pred", 2)?.into_iter();
        Some(MyPred(Symbolic::from_symbol(args.next()?)?, Symbolic::from_symbol(args.next()?)?))
    }

    fn to_symbol(&self) -> Symbol {
        Symbol::function("my_pred", &[self.0.to_symbol(), self.1.to_symbol()], true).unwrap()
    }
}

#[derive(Debug, PartialEq)]
enum Cell {
    Coords(i32, i32),
    NoCell,
}

impl Cell {
    fn from_symbol(sym: Symbol) -> Option<Self> {
        let variants: Vec<(String, usize)> =
            vec![(String::from("coords"), 2), (String::from("no_cell"), 0)];
        let (k, args) = enum_variant(&sym, &variants)?;
        let mut args = args.into_iter();
        match k {
            0 => Some(Cell::Coords(
                Symbolic::from_symbol(args.next()?)?,
                Symbolic::from_symbol(args.next()?)?,
            )),
            1 => Some(Cell::NoCell),
            _ => None,
        }
    }

    fn to_symbol(&self) -> Symbol {
        match self {
            Cell::Coords(f0, f1) => {
                Symbol::function("coords", &[f0.to_symbol(), f1.to_symbol()], true).unwrap()
            }
            Cell::NoCell => Symbol::function("no_cell", &[], true).unwrap(),
        }
    }
}

#[derive(Debug, PartialEq)]
struct MyFn(i32, i32);

impl MyFn {
    fn from_symbol(sym: Symbol) -> Option<Self> {
        let mut args = struct_arguments(&sym, "my_fn", 2)?.into_iter();
        Some(MyFn(Symbolic::from_symbol(args.next()?)?, Symbolic::from_symbol(args.next()?)?))
    }

    fn to_symbol(&self) -> Symbol {
        Symbol::function("my_fn", &[self.0.to_symbol(), self.1.to_symbol()], true).unwrap()
    }
}

#[derive(Debug, PartialEq)]
struct MyPredNested(MyFn, i32);

impl MyPredNested {
    fn from_symbol(sym: Symbol) -> Option<Self> {
        let mut args = struct_arguments(&sym, "my_pred_nested", 2)?.into_iter();
        Some(MyPredNested(MyFn::from_symbol(args.next()?)?, Symbolic::from_symbol(args.next()?)?))
    }

    fn to_symbol(&self) -> Symbol {
        Symbol::function("my_pred_nested", &[self.0.to_symbol(), self.1.to_symbol()], true)
            .unwrap()
    }
}

fn fun(name: &str, args: &[Symbol]) -> Symbol {
    Symbol::function(name, args, true).unwrap()
}

fn int_symbol(n: i32) -> Symbol {
    Symbol::number(n)
}

#[test]
fn struct_to_symbol() {
    let pred = MyPred(3, 16);
    let sym = pred.to_symbol();
    assert_eq!(sym.to_string_lossy().unwrap(), "my_pred(3,16)");
}

#[test]
fn struct_from_symbol() {
    let sym = fun("my_pred", &[int_symbol(3), int_symbol(16)]);
    let pred = MyPred::from_symbol(sym).unwrap();
    assert_eq!(pred, MyPred(3, 16));
}

#[test]
fn struct_roundtrip() {
    let pred = MyPred(42, -7);
    let recovered = MyPred::from_symbol(pred.to_symbol()).unwrap();
    assert_eq!(recovered, pred);
}

#[test]
fn enum_tuple_variant() {
    let cell = Cell::Coords(2, 3);
    let sym = cell.to_symbol();
    assert_eq!(sym.to_string_lossy().unwrap(), "coords(2,3)");

    let recovered = Cell::from_symbol(sym).unwrap();
    assert_eq!(recovered, Cell::Coords(2, 3));
}

#[test]
fn enum_unit_variant() {
    let cell = Cell::NoCell;
    let sym = cell.to_symbol();
    assert_eq!(sym.to_string_lossy().unwrap(), "no_cell");

    let recovered = Cell::from_symbol(sym).unwrap();
    assert_eq!(recovered, Cell::NoCell);
}

#[test]
fn enum_from_parsed() {
    let sym = fun("coords", &[int_symbol(2), int_symbol(3)]);
    assert_eq!(Cell::from_symbol(sym).unwrap(), Cell::Coords(2, 3));

    let sym = Symbol::id("no_cell", true).unwrap();
    assert_eq!(Cell::from_symbol(sym).unwrap(), Cell::NoCell);
}

#[test]
fn wrong_name_returns_none() {
    let sym = fun("other", &[int_symbol(1), int_symbol(2)]);
    assert!(MyPred::from_symbol(sym.clone()).is_none());
    assert!(Cell::from_symbol(sym).is_none());
}

#[test]
fn wrong_arity_returns_none() {
    let sym = fun("my_pred", &[int_symbol(1)]);
    assert!(MyPred::from_symbol(sym).is_none());
}

#[test]
fn nested_struct_to_symbol() {
    let pred = MyPredNested(MyFn(1, 2), 16);
    let sym = pred.to_symbol();
    assert_eq!(sym.to_string_lossy().unwrap(), "my_pred_nested(my_fn(1,2),16)");
}

#[test]
fn nested_struct_from_parsed() {
    let sym = fun("my_pred_nested", &[fun("my_fn", &[int_symbol(1), int_symbol(2)]), int_symbol(16)]);
    let pred = MyPredNested::from_symbol(sym).unwrap();
    assert_eq!(pred, MyPredNested(MyFn(1, 2), 16));
}

#[test]
fn number_returns_none() {
    let sym = Symbol::number(42);
    assert!(MyPred::from_symbol(sym.clone()).is_none());
    assert!(Cell::from_symbol(sym).is_none());
}

#[test]
fn negative_function_is_no_struct() {
    let sym = Symbol::function("my_pred", &[int_symbol(1), int_symbol(2)], false).unwrap();
    assert_eq!(struct_arguments(&sym, "my_pred", 2), None);
    let variants = vec![(String::from("my_pred"), 2)];
    assert_eq!(enum_variant(&sym, &variants), None);
}

#[test]
fn first_matching_variant_wins() {
    let sym = fun("a", &[int_symbol(7)]);
    let variants = vec![
        (String::from("a"), 0),
        (String::from("b"), 1),
        (String::from("a"), 1),
        (String::from("a"), 1),
    ];
    assert_eq!(enum_variant(&sym, &variants), Some((2, vec![int_symbol(7)])));
    assert_eq!(struct_arguments(&sym, "a", 1), Some(vec![int_symbol(7)]));
    assert_eq!(struct_arguments(&sym, "a", 2), None);
}

#[test]
fn derived_text_of_struct() {
    let shape = Shape::Struct { name: "MyPred".to_string(), fields: Fields::Unnamed(2) };
    let expected = "#[allow(unused_mut, unused_variables)]
impl Symbolic for MyPred {
    fn from_symbol(sym: clingo::Symbol) -> Option<Self> {
        let mut args = clingo::deriving::struct_arguments(&sym, \"my_pred\", 2)?.into_iter();
        Some(MyPred(Symbolic::from_symbol(args.next()?)?, Symbolic::from_symbol(args.next()?)?, ))
    }
    fn to_symbol(&self) -> clingo::Symbol {
        clingo::Symbol::function(\"my_pred\", &[self.0.to_symbol(), self.1.to_symbol(), ], true).unwrap()
    }
}
";
    assert_eq!(derive_text(&shape), expected);
}

#[test]
fn derived_text_of_named_struct() {
    let shape = Shape::Struct {
        name: "EdgeCost".to_string(),
        fields: Fields::Named(vec!["from".to_string(), "cost".to_string()]),
    };
    let expected = "#[allow(unused_mut, unused_variables)]
impl Symbolic for EdgeCost {
    fn from_symbol(sym: clingo::Symbol) -> Option<Self> {
        let mut args = clingo::deriving::struct_arguments(&sym, \"edge_cost\", 2)?.into_iter();
        Some(EdgeCost { from: Symbolic::from_symbol(args.next()?)?, cost: Symbolic::from_symbol(args.next()?)?, })
    }
    fn to_symbol(&self) -> clingo::Symbol {
        clingo::Symbol::function(\"edge_cost\", &[self.from.to_symbol(), self.cost.to_symbol(), ], true).unwrap()
    }
}
";
    assert_eq!(derive_text(&shape), expected);
}

#[test]
fn derived_text_of_enum() {
    let shape = Shape::Enum {
        name: "Cell".to_string(),
        variants: vec![
            ("Coords".to_string(), Fields::Unnamed(2)),
            ("NoCell".to_string(), Fields::Unit),
        ],
    };
    let expected = "#[allow(unused_mut, unused_variables)]
impl Symbolic for Cell {
    fn from_symbol(sym: clingo::Symbol) -> Option<Self> {
        let variants: Vec<(String, usize)> = vec![(String::from(\"coords\"), 2), (String::from(\"no_cell\"), 0), ];
        let (k, args) = clingo::deriving::enum_variant(&sym, &variants)?;
        let mut args = args.into_iter();
        match k {
            0 => Some(Cell::Coords(Symbolic::from_symbol(args.next()?)?, Symbolic::from_symbol(args.next()?)?, )),
            1 => Some(Cell::NoCell),
            _ => None,
        }
    }
    fn to_symbol(&self) -> clingo::Symbol {
        match self {
            Cell::Coords(f0, f1, ) => clingo::Symbol::function(\"coords\", &[f0.to_symbol(), f1.to_symbol(), ], true).unwrap(),
            Cell::NoCell => clingo::Symbol::function(\"no_cell\", &[], true).unwrap(),
        }
    }
}
";
    assert_eq!(derive_text(&shape), expected);
}
