use axiom_profiler::colours::QuantIdxToColourMap;
use axiom_profiler::graph_state::{GUIAction, GraphState};
use axiom_profiler::idx_map::IdxMap;
use axiom_profiler::items::{DiscoveredId, EqualityExpl, TermKind};
use axiom_profiler::resolve::{check_term_id, parse_existing_id};
use axiom_profiler::worker::{fib_checked, handle_input, WorkerInput, WorkerOutput};
use std::collections::BTreeMap;

#[test]
fn fibonacci_numbers() {
    assert_eq!(fib_checked(0), Some(1));
    assert_eq!(fib_checked(1), Some(1));
    assert_eq!(fib_checked(2), Some(2));
    assert_eq!(fib_checked(3), Some(3));
    assert_eq!(fib_checked(10), Some(89));
    assert_eq!(fib_checked(46), Some(2_971_215_073));
}

#[test]
fn fibonacci_numbers_that_do_not_fit() {
    assert_eq!(fib_checked(47), None);
    assert_eq!(fib_checked(1000), None);
    assert_eq!(fib_checked(u32::MAX), None);
}

#[test]
fn the_worker_answers_with_input_and_value() {
    assert_eq!(handle_input(WorkerInput { n: 5 }), Some(WorkerOutput { input: 5, value: 8 }));
    assert_eq!(handle_input(WorkerInput { n: 47 }), None);
}

#[test]
fn the_multiplier_is_the_first_prime_from_13_that_does_not_divide() {
    assert_eq!(QuantIdxToColourMap::find_coprime(1), 13);
    assert_eq!(QuantIdxToColourMap::find_coprime(12), 13);
    assert_eq!(QuantIdxToColourMap::find_coprime(13), 17);
    assert_eq!(QuantIdxToColourMap::find_coprime(26), 17);
    assert_eq!(QuantIdxToColourMap::find_coprime(13 * 17), 19);
    assert_eq!(QuantIdxToColourMap::find_coprime(13 * 17 * 19 * 23), 29);
    assert_eq!(QuantIdxToColourMap::find_coprime(17), 13);
}

#[test]
fn the_multiplier_for_no_quantifiers_is_one() {
    assert_eq!(QuantIdxToColourMap::find_coprime(0), 1);
    let map = QuantIdxToColourMap::from(0);
    assert_eq!(map, QuantIdxToColourMap { total_nr_of_quants: 0, coprime: 1, shift: 0 });
}

#[test]
fn hues_are_spread_over_the_wheel() {
    let map = QuantIdxToColourMap::from(10);
    assert_eq!(map, QuantIdxToColourMap { total_nr_of_quants: 10, coprime: 13, shift: 0 });
    let places: Vec<usize> = (0..10).map(|i| map.hue_index(i)).collect();
    assert_eq!(places, vec![0, 3, 6, 9, 2, 5, 8, 1, 4, 7]);
    let shifted = QuantIdxToColourMap { total_nr_of_quants: 10, coprime: 13, shift: 4 };
    assert_eq!(shifted.hue_index(1), 7);
    let huge = QuantIdxToColourMap { total_nr_of_quants: usize::MAX, coprime: 13, shift: 0 };
    assert_eq!(huge.hue_index(usize::MAX - 1), usize::MAX - 13);
}

#[test]
fn the_page_state_starts_empty() {
    let state = GraphState::default();
    assert!(!state.parsed_log);
    assert!(state.svg_text.is_empty());
    assert!(state.line_nr_of_node.is_empty());
    assert_eq!(state.max_line_nr, i32::MAX);
    assert_eq!(state.input, i32::MAX);
}

#[test]
fn actions_change_their_part_of_the_page_state() {
    let mut lines = BTreeMap::new();
    lines.insert(0, 12);
    let state = GraphState::default()
        .reduce(GUIAction::SetMaxLineNr(100))
        .reduce(GUIAction::ReadInput(7));
    assert_eq!(state.max_line_nr, 100);
    assert_eq!(state.input, 7);
    assert!(!state.parsed_log);
    let state = state.reduce(GUIAction::ParseResult(true, String::from("<svg/>"), lines.clone()));
    assert_eq!(
        state,
        GraphState {
            parsed_log: true,
            svg_text: String::from("<svg/>"),
            line_nr_of_node: lines.clone(),
            max_line_nr: 100,
            input: 7
        }
    );
    let state = state.reduce(GUIAction::ReadInput(-1));
    assert_eq!(state.input, -1);
    assert_eq!(state.svg_text, "<svg/>");
    assert_eq!(state.line_nr_of_node, lines);
}

#[test]
fn identifiers_are_bound_and_bound_again() {
    let mut map = IdxMap::new();
    assert_eq!(map.get_term(b"#1"), None);
    map.register_term(b"#1".to_vec(), 4);
    map.register_term(b"datatype#2".to_vec(), 5);
    assert_eq!(map.get_term(b"#1"), Some(4));
    assert_eq!(map.get_term(b"datatype#2"), Some(5));
    assert_eq!(map.get_term(b"#2"), None);
    map.register_term(b"#1".to_vec(), 9);
    assert_eq!(map.get_term(b"#1"), Some(9));
    assert_eq!(map.get_term(b"datatype#2"), Some(5));
}

#[test]
fn discovery_keys_are_made_once() {
    let mut map = IdxMap::new();
    assert_eq!(map.discovered_quant(DiscoveredId::MBQI, || 3), 3);
    assert_eq!(map.discovered_quant(DiscoveredId::MBQI, || 8), 3);
    let arith = DiscoveredId::TheorySolving(b"arith#".to_vec());
    assert_eq!(map.discovered_quant(arith.clone(), || 4), 4);
    assert_eq!(map.discovered_quant(arith, || 9), 4);
    assert_eq!(map.discovered_quant(DiscoveredId::TheorySolving(b"basic#".to_vec()), || 5), 5);
    assert_eq!(map.get_term(b"arith#"), None);
}

#[test]
fn identifiers_have_a_hash_sign() {
    assert!(check_term_id(b"#1"));
    assert!(check_term_id(b"datatype#12"));
    assert!(check_term_id(b"arith#"));
    assert!(check_term_id(b"#"));
    assert!(!check_term_id(b""));
    assert!(!check_term_id(b"12"));
    assert!(!check_term_id(b";"));
}

#[test]
fn an_identifier_is_looked_up() {
    let mut map = IdxMap::new();
    map.register_term(b"#7".to_vec(), 2);
    assert_eq!(parse_existing_id(&map, b"#7"), Ok(2));
    assert_eq!(
        parse_existing_id(&map, b"#8"),
        Err(axiom_profiler::items::ParseError::UnresolvedReference)
    );
    assert_eq!(parse_existing_id(&map, b"7"), Err(axiom_profiler::items::ParseError::Malformed));
}

#[test]
fn the_ends_of_explanations() {
    assert_eq!(EqualityExpl::Root { id: 3 }.from_to(), (3, 3));
    assert_eq!(EqualityExpl::Literal { from: 1, eq: 9, to: 2 }.from_to(), (1, 2));
    assert_eq!(EqualityExpl::Axiom { from: 4, to: 5 }.from_to(), (4, 5));
    assert_eq!(TermKind::Quant(7).quant_idx(), Some(7));
    assert_eq!(TermKind::Var(7).quant_idx(), None);
}
