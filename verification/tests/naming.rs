use clingo::{snake_case_from, to_snake_case};

#[test]
fn pascal_case_to_snake_case() {
    assert_eq!(to_snake_case("MyPred"), "my_pred");
    assert_eq!(to_snake_case("MyPredNested"), "my_pred_nested");
    assert_eq!(to_snake_case("NoCell"), "no_cell");
    assert_eq!(to_snake_case("Coords"), "coords");
    assert_eq!(to_snake_case("MyFn"), "my_fn");
}

#[test]
fn snake_case_edge_cases() {
    assert_eq!(to_snake_case(""), "");
    assert_eq!(to_snake_case("already_snake"), "already_snake");
    assert_eq!(to_snake_case("ABC"), "a_b_c");
    assert_eq!(to_snake_case("ÉtéÀ"), "été_à");
}

#[test]
fn snake_case_from_given_classification() {
    let cs: Vec<char> = "AbC".chars().collect();
    let upper = vec![true, false, true];
    let lower = vec!['x', 'b', 'y'];
    assert_eq!(snake_case_from(&cs, &upper, &lower), "xb_y");
    let none: Vec<char> = vec![];
    assert_eq!(snake_case_from(&none, &vec![], &vec![]), "");
}

#[test]
fn snake_case_laws_on_ascii() {
    for s in ["MyPredNested", "ABC", "already_snake", "X", "", "aB1C"] {
        let r = to_snake_case(s);
        assert!(!r.chars().any(|c| c.is_ascii_uppercase()));
        let inner = s.chars().skip(1).filter(|c| c.is_ascii_uppercase()).count();
        assert_eq!(r.len(), s.len() + inner);
        assert_eq!(to_snake_case(&r), r);
    }
    assert_eq!(to_snake_case("my_pred_nested"), "my_pred_nested");
}
