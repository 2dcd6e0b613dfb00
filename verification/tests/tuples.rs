use axiom_profiler::items::VarNames;
use axiom_profiler::tuples::{gobble_tuples, gobble_var_names_list};

fn words(list: &[&str]) -> Vec<Vec<u8>> {
    list.iter().map(|w| w.as_bytes().to_vec()).collect()
}

fn pairs(list: &[(&str, &str)]) -> Vec<(Vec<u8>, Vec<u8>)> {
    list.iter().map(|(a, b)| (a.as_bytes().to_vec(), b.as_bytes().to_vec())).collect()
}

fn tuples_of(list: &[&str]) -> Option<Vec<(Vec<u8>, Vec<u8>)>> {
    let tokens = words(list);
    gobble_tuples(&tokens, 0, tokens.len())
}

fn var_names_of(list: &[&str]) -> Option<VarNames> {
    let tokens = words(list);
    gobble_var_names_list(&tokens, 0, tokens.len())
}

#[test]
fn pairs_in_one_token() {
    assert_eq!(tuples_of(&["(a;b)", "(c;d)"]), Some(pairs(&[("a", "b"), ("c", "d")])));
    assert_eq!(tuples_of(&["(;)"]), Some(pairs(&[("", "")])));
}

#[test]
fn pairs_in_two_tokens() {
    assert_eq!(tuples_of(&["(#1", "#2)", "(#3", "#4)"]), Some(pairs(&[("#1", "#2"), ("#3", "#4")])));
}

#[test]
fn pairs_in_three_tokens() {
    assert_eq!(tuples_of(&["(a", ";", "b)"]), Some(pairs(&[("a", "b")])));
    assert_eq!(
        tuples_of(&["(|x|", ";", "|Int|)", "(|y|", ";", "|Bool|)"]),
        Some(pairs(&[("|x|", "|Int|"), ("|y|", "|Bool|")]))
    );
}

#[test]
fn no_tokens_spell_no_pairs() {
    assert_eq!(tuples_of(&[]), Some(Vec::new()));
}

#[test]
fn a_range_of_the_tokens_is_read() {
    let tokens = words(&["x", "(a", "b)", ";", "y"]);
    assert_eq!(gobble_tuples(&tokens, 1, 3), Some(pairs(&[("a", "b")])));
    assert_eq!(gobble_tuples(&tokens, 3, 3), Some(Vec::new()));
}

#[test]
fn mixed_forms_are_refused() {
    assert_eq!(tuples_of(&["(a;b)", "(c", "d)"]), None);
    assert_eq!(tuples_of(&["(a", "b)", "(c;d)"]), None);
    assert_eq!(tuples_of(&["(a", "b)", "(c", ";", "d)"]), None);
    assert_eq!(tuples_of(&["(a", ";", "b)", "(c", "d)"]), None);
}

#[test]
fn broken_pairs_are_refused() {
    assert_eq!(tuples_of(&["(a"]), None);
    assert_eq!(tuples_of(&["(a", ";"]), None);
    assert_eq!(tuples_of(&["a;b)"]), None);
    assert_eq!(tuples_of(&["(a)"]), None);
    assert_eq!(tuples_of(&["a", "b)"]), None);
    assert_eq!(tuples_of(&["(a", "b"]), None);
    assert_eq!(tuples_of(&["(a;b;c)"]), None);
}

#[test]
fn types_alone() {
    assert_eq!(
        var_names_of(&["(;Int)", "(;Bool)"]),
        Some(VarNames::TypeOnly(vec![b"Int".to_vec(), b"Bool".to_vec()]))
    );
}

#[test]
fn names_and_types() {
    assert_eq!(
        var_names_of(&["(|x|", ";", "|Int|)", "(|y|", ";", "|Bool|)"]),
        Some(VarNames::NameAndType(pairs(&[("x", "Int"), ("y", "Bool")])))
    );
    assert_eq!(
        var_names_of(&["(|x|;|Int|)"]),
        Some(VarNames::NameAndType(pairs(&[("x", "Int")])))
    );
    assert_eq!(var_names_of(&["(||;||)"]), Some(VarNames::NameAndType(pairs(&[("", "")]))));
}

#[test]
fn a_variable_list_is_not_empty() {
    assert_eq!(var_names_of(&[]), None);
}

#[test]
fn a_variable_list_is_of_one_kind() {
    assert_eq!(var_names_of(&["(;Int)", "(|x|;|Int|)"]), None);
    assert_eq!(var_names_of(&["(|x|;|Int|)", "(;Int)"]), None);
}

#[test]
fn names_and_types_stand_between_bars() {
    assert_eq!(var_names_of(&["(x;Int)"]), None);
    assert_eq!(var_names_of(&["(|x|;Int)"]), None);
    assert_eq!(var_names_of(&["(|;|Int|)"]), None);
}
