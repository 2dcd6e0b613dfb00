use axiom_profiler::items::{BlamedTermItem, DepType, ParseError, QuantKind, TermKind};
use axiom_profiler::parser::ParseFailure;
use axiom_profiler::state::Z3Parser;

fn parse(log: &str) -> (Z3Parser, Result<(), ParseFailure>) {
    let mut parser = Z3Parser::new();
    let r = parser.process_log(log.as_bytes());
    (parser, r)
}

const TWO_INSTANCES: &str = "[tool-version] Z3 4.12.2
[mk-app] #1 true
[mk-var] #2 0
[mk-app] #3 f #2
[mk-app] #4 pattern #3
[mk-quant] #5 Q 1 #4 #3
[mk-app] #6 a
[mk-app] #7 f #6
[new-match] 0x1f #5 #4 #6 ;
[instance] 0x1f #1 ; 1
[attach-enode] #7 1
[end-of-instance]
[mk-app] #8 f #7
[new-match] 0x2a #5 #4 #7 ; #7
[instance] 0x2a #1 ; 2
[attach-enode] #8 2
[end-of-instance]";

#[test]
fn two_instances_give_two_records_and_one_cause() {
    let (parser, r) = parse(TWO_INSTANCES);
    assert_eq!(r, Ok(()));
    assert_eq!(parser.lines, 17);
    assert_eq!(parser.instantiations.len(), 2);
    assert!(parser.inst_stack.is_empty());
    let first = &parser.instantiations[0];
    let second = &parser.instantiations[1];
    assert_eq!(first.match_line_no, 9);
    assert_eq!(first.line_no, Some(10));
    assert_eq!(first.fingerprint, 0x1f);
    assert_eq!(first.z3_gen, Some(1));
    assert_eq!(first.resulting_term, Some(0));
    assert_eq!(first.yields_terms, vec![6]);
    assert_eq!(first.bound_terms, vec![5]);
    assert!(first.blamed_terms.is_empty());
    assert!(first.dep_instantiations.is_empty());
    assert_eq!(second.line_no, Some(15));
    assert_eq!(second.blamed_terms, vec![BlamedTermItem::Single(6)]);
    assert_eq!(second.dep_instantiations, vec![0]);
    assert_eq!(parser.dependencies.len(), 2);
    let root = parser.dependencies[0];
    assert_eq!(root.dep_type, DepType::Root);
    assert_eq!(root.from, 9);
    assert_eq!(root.to, Some(10));
    assert_eq!(root.blamed, None);
    let cause = parser.dependencies[1];
    assert_eq!(cause.dep_type, DepType::Term);
    assert_eq!(cause.from, 10);
    assert_eq!(cause.to, Some(15));
    assert_eq!(cause.blamed, Some(6));
    assert_eq!(cause.quant, 0);
    assert!(!cause.quant_discovered);
    assert_eq!(parser.quantifiers.len(), 1);
    assert_eq!(parser.quantifiers[0].kind, QuantKind::NamedQuant(b"Q".to_vec()));
    assert_eq!(parser.quantifiers[0].instances, vec![0, 1]);
    assert_eq!(parser.quantifiers[0].cost, 2);
    assert_eq!(parser.quantifiers[0].num_vars, 1);
    assert_eq!(parser.quantifiers[0].term, Some(4));
    assert_eq!(parser.terms[4].kind, TermKind::Quant(0));
    assert_eq!(parser.terms[2].dep_term_ids, vec![3, 4]);
    assert!(parser.matches.is_empty());
    assert!(parser.temp_dependencies.is_empty());
}

#[test]
fn version_line_is_kept() {
    let (parser, r) = parse("[tool-version] Z3 4.12.2");
    assert_eq!(r, Ok(()));
    let info = parser.version_info().unwrap();
    assert_eq!(info.solver, b"Z3".to_vec());
    assert_eq!(info.version.major, 4);
    assert_eq!(info.version.minor, 12);
    assert_eq!(info.version.patch, 2);
    assert!(info.version.pre.is_empty());
}

#[test]
fn version_that_is_no_semantic_version_is_malformed() {
    let (parser, r) = parse("[tool-version] Z3 4.12");
    assert_eq!(r, Err(ParseFailure { line: 1, error: ParseError::Malformed }));
    assert!(parser.version_info().is_none());
}

#[test]
fn end_of_instance_without_instance_underflows() {
    let (parser, r) = parse("[mk-app] #1 true\n[end-of-instance]\n[mk-app] #2 false");
    assert_eq!(r, Err(ParseFailure { line: 2, error: ParseError::StackUnderflow }));
    assert_eq!(parser.lines, 1);
    assert_eq!(parser.terms.len(), 1);
}
