use axiom_profiler::items::{
    BlamedTermItem, DepType, Dependency, EqualityExpl, Meaning, ParseError, QuantKind, TermKind,
    VarNames,
};
use axiom_profiler::parser::ParseFailure;
use axiom_profiler::state::Z3Parser;

fn read(log: &str) -> (Z3Parser, Result<(), ParseFailure>) {
    let mut parser = Z3Parser::new();
    let r = parser.process_log(log.as_bytes());
    (parser, r)
}

fn refused(line: usize, error: ParseError) -> Result<(), ParseFailure> {
    Err(ParseFailure { line, error })
}

#[test]
fn a_new_parser_has_read_nothing() {
    let parser = Z3Parser::new();
    assert_eq!(parser.lines, 0);
    assert!(parser.terms.is_empty());
    assert!(parser.quantifiers.is_empty());
    assert!(parser.instantiations.is_empty());
    assert!(parser.dependencies.is_empty());
    assert!(parser.inst_stack.is_empty());
    assert!(parser.version_info().is_none());
    assert_eq!(parser.finish(), Ok(()));
}

#[test]
fn a_line_is_read_alone() {
    let mut parser = Z3Parser::new();
    assert_eq!(parser.process_line(b"[mk-var] #1 3"), Ok(()));
    assert_eq!(parser.lines, 1);
    assert_eq!(parser.terms.len(), 1);
    assert_eq!(parser.terms[0].id, b"#1".to_vec());
    assert_eq!(parser.terms[0].kind, TermKind::Var(3));
    assert_eq!(parser.idx_map.get_term(b"#1"), Some(0));
}

#[test]
fn a_refused_line_changes_nothing() {
    let mut parser = Z3Parser::new();
    assert_eq!(parser.process_line(b"[mk-var] #1 0"), Ok(()));
    assert_eq!(parser.process_line(b"[mk-app] #2 f #1 #9"), Err(ParseError::UnresolvedReference));
    assert_eq!(parser.lines, 1);
    assert_eq!(parser.terms.len(), 1);
    assert!(parser.terms[0].dep_term_ids.is_empty());
    assert_eq!(parser.idx_map.get_term(b"#2"), None);
}

#[test]
fn lines_with_other_tags_are_passed_over() {
    let (parser, r) = read("[assign] #1 justification\n\n[push] 1\nnonsense");
    assert_eq!(r, Ok(()));
    assert_eq!(parser.lines, 4);
    assert!(parser.terms.is_empty());
}

#[test]
fn version_needs_exactly_two_tokens() {
    assert_eq!(read("[tool-version] Z3").1, refused(1, ParseError::Malformed));
    assert_eq!(read("[tool-version] Z3 4.8.7 extra").1, refused(1, ParseError::Malformed));
    assert_eq!(read("[tool-version] Z3 4.8.x").1, refused(1, ParseError::Malformed));
}

#[test]
fn version_with_prerelease_and_build() {
    let (parser, r) = read("[tool-version] Z3 4.8.7-rc.1+build5");
    assert_eq!(r, Ok(()));
    let info = parser.version_info().unwrap();
    assert_eq!(info.version.major, 4);
    assert_eq!(info.version.minor, 8);
    assert_eq!(info.version.patch, 7);
    assert_eq!(info.version.pre, b"rc.1".to_vec());
    assert_eq!(info.version.build, b"build5".to_vec());
}

#[test]
fn variable_declaration_must_be_well_shaped() {
    assert_eq!(read("[mk-var] #1").1, refused(1, ParseError::Malformed));
    assert_eq!(read("[mk-var] #1 0 1").1, refused(1, ParseError::Malformed));
    assert_eq!(read("[mk-var] x 0").1, refused(1, ParseError::Malformed));
    assert_eq!(read("[mk-var] #1 a").1, refused(1, ParseError::Malformed));
}

#[test]
fn applications_and_proofs_know_their_children() {
    let (parser, r) = read("[mk-app] #1 a\n[mk-app] #2 b\n[mk-app] #3 f #1 #2 #1\n[mk-proof] #4 refl #3");
    assert_eq!(r, Ok(()));
    assert_eq!(parser.terms.len(), 4);
    assert_eq!(
        parser.terms[2].kind,
        TermKind::ProofOrApp { is_proof: false, name: b"f".to_vec() }
    );
    assert_eq!(parser.terms[2].child_ids, vec![0, 1, 0]);
    assert_eq!(
        parser.terms[3].kind,
        TermKind::ProofOrApp { is_proof: true, name: b"refl".to_vec() }
    );
    assert_eq!(parser.terms[0].dep_term_ids, vec![2, 2]);
    assert_eq!(parser.terms[1].dep_term_ids, vec![2]);
    assert_eq!(parser.terms[2].dep_term_ids, vec![3]);
    assert!(parser.terms[3].dep_term_ids.is_empty());
    assert_eq!(parser.terms[3].meaning, None);
    assert_eq!(parser.terms[3].resp_inst, None);
}

#[test]
fn application_needs_an_identifier_and_a_name() {
    assert_eq!(read("[mk-app] #1").1, refused(1, ParseError::Malformed));
    assert_eq!(read("[mk-app] one f").1, refused(1, ParseError::Malformed));
}

#[test]
fn an_unknown_child_is_unresolved() {
    assert_eq!(read("[mk-app] #1 a\n[mk-app] #2 f #1 #7").1, refused(2, ParseError::UnresolvedReference));
    assert_eq!(read("[mk-app] #1 a\n[mk-app] #2 f seven").1, refused(2, ParseError::Malformed));
}

#[test]
fn a_term_cannot_be_its_own_child() {
    assert_eq!(read("[mk-app] #1 f #1").1, refused(1, ParseError::UnresolvedReference));
}

#[test]
fn a_reused_identifier_names_the_later_term() {
    let (parser, r) = read("[mk-app] #1 a\n[mk-app] #1 b\n[mk-app] #2 f #1");
    assert_eq!(r, Ok(()));
    assert_eq!(parser.idx_map.get_term(b"#1"), Some(1));
    assert_eq!(parser.terms[2].child_ids, vec![1]);
    assert!(parser.terms[0].dep_term_ids.is_empty());
    assert_eq!(parser.terms[1].dep_term_ids, vec![2]);
}

#[test]
fn quantifier_declaration_makes_term_and_record() {
    let (parser, r) = read("[mk-app] #1 body\n[mk-quant] #2 my_axiom 3 #1\n[mk-lambda] #3 <null> 1 #1 #2");
    assert_eq!(r, Ok(()));
    assert_eq!(parser.terms[1].kind, TermKind::Quant(0));
    assert_eq!(parser.terms[2].kind, TermKind::Quant(1));
    assert_eq!(parser.quantifiers.len(), 2);
    let q = &parser.quantifiers[0];
    assert_eq!(q.kind, QuantKind::NamedQuant(b"my_axiom".to_vec()));
    assert_eq!(q.num_vars, 3);
    assert_eq!(q.term, Some(1));
    assert!(q.instances.is_empty());
    assert_eq!(q.cost, 0);
    assert_eq!(q.vars, None);
    assert_eq!(parser.quantifiers[1].term, Some(2));
    assert_eq!(parser.terms[0].dep_term_ids, vec![1, 2]);
}

#[test]
fn quantifier_without_child_is_malformed() {
    assert_eq!(read("[mk-quant] #2 q 1").1, refused(1, ParseError::Malformed));
    assert_eq!(read("[mk-app] #1 a\n[mk-quant] #2 q x #1").1, refused(2, ParseError::Malformed));
    assert_eq!(read("[mk-quant] #2 q 1 #1").1, refused(1, ParseError::UnresolvedReference));
}

#[test]
fn meaning_is_attached_once() {
    let (parser, r) = read("[mk-app] #1 x\n[attach-meaning] #1 arith 1 2  3\n[attach-meaning] #1 arith 1 2  3");
    assert_eq!(r, Ok(()));
    assert_eq!(
        parser.terms[0].meaning,
        Some(Meaning { theory: b"arith".to_vec(), value: b"1 2  3".to_vec() })
    );
}

#[test]
fn meaning_without_value_is_empty() {
    let (parser, r) = read("[mk-app] #1 x\n[attach-meaning] #1 bv");
    assert_eq!(r, Ok(()));
    assert_eq!(parser.terms[0].meaning, Some(Meaning { theory: b"bv".to_vec(), value: Vec::new() }));
}

#[test]
fn another_meaning_is_inconsistent() {
    let log = "[mk-app] #1 x\n[attach-meaning] #1 arith 1\n[attach-meaning] #1 arith 2";
    let (parser, r) = read(log);
    assert_eq!(r, refused(3, ParseError::Inconsistent));
    assert_eq!(parser.terms[0].meaning, Some(Meaning { theory: b"arith".to_vec(), value: b"1".to_vec() }));
    assert_eq!(read("[mk-app] #1 x\n[attach-meaning] #1 arith 1\n[attach-meaning] #1 bv 1").1, refused(3, ParseError::Inconsistent));
}

#[test]
fn meaning_needs_a_known_term_and_a_theory() {
    assert_eq!(read("[attach-meaning] #1").1, refused(1, ParseError::Malformed));
    assert_eq!(read("[attach-meaning] #1 arith 1").1, refused(1, ParseError::UnresolvedReference));
}

#[test]
fn variable_names_are_attached_once() {
    let log = "[mk-app] #1 body\n[mk-quant] #2 q 2 #1\n[attach-var-names] #2 (|x| ; |Int|) (|y| ; |Bool|)";
    let (parser, r) = read(log);
    assert_eq!(r, Ok(()));
    assert_eq!(
        parser.quantifiers[0].vars,
        Some(VarNames::NameAndType(vec![
            (b"x".to_vec(), b"Int".to_vec()),
            (b"y".to_vec(), b"Bool".to_vec())
        ]))
    );
    let again = format!("{}\n[attach-var-names] #2 (;Int)", log);
    assert_eq!(read(&again).1, refused(4, ParseError::Inconsistent));
}

#[test]
fn variable_types_alone_are_attached() {
    let (parser, r) = read("[mk-app] #1 body\n[mk-quant] #2 q 2 #1\n[attach-var-names] #2 (;Int) (;Bool)");
    assert_eq!(r, Ok(()));
    assert_eq!(
        parser.quantifiers[0].vars,
        Some(VarNames::TypeOnly(vec![b"Int".to_vec(), b"Bool".to_vec()]))
    );
}

#[test]
fn variable_names_need_a_quantifier_and_a_list() {
    assert_eq!(read("[mk-app] #1 a\n[attach-var-names] #1 (;Int)").1, refused(2, ParseError::Malformed));
    assert_eq!(read("[mk-app] #1 a\n[mk-quant] #2 q 1 #1\n[attach-var-names] #2").1, refused(3, ParseError::Malformed));
    assert_eq!(read("[mk-app] #1 a\n[mk-quant] #2 q 1 #1\n[attach-var-names] #2 (;Int) (|x| ; |Int|)").1, refused(3, ParseError::Malformed));
    assert_eq!(read("[attach-var-names] #2 (;Int)").1, refused(1, ParseError::UnresolvedReference));
    assert_eq!(read("[attach-var-names]").1, refused(1, ParseError::Malformed));
}

#[test]
fn enode_outside_an_instance_changes_nothing() {
    let (parser, r) = read("[mk-app] #1 a\n[attach-enode] #1 0");
    assert_eq!(r, Ok(()));
    assert_eq!(parser.lines, 2);
    assert_eq!(parser.terms[0].resp_inst, None);
}

#[test]
fn enode_must_be_well_shaped() {
    assert_eq!(read("[mk-app] #1 a\n[attach-enode] #1").1, refused(2, ParseError::Malformed));
    assert_eq!(read("[mk-app] #1 a\n[attach-enode] #1 x").1, refused(2, ParseError::Malformed));
    assert_eq!(read("[mk-app] #1 a\n[attach-enode] #1 0 0").1, refused(2, ParseError::Malformed));
    assert_eq!(read("[mk-app] #1 a\n[attach-enode] #2 0").1, refused(2, ParseError::UnresolvedReference));
}

const TERMS: &str = "[mk-app] #1 a\n[mk-app] #2 b\n[mk-app] #3 c\n[mk-app] #4 eq #1 #2";

#[test]
fn explanations_of_each_kind() {
    let log = format!(
        "{}\n[eq-expl] #1 root\n[eq-expl] #1 lit #4 ; #2\n[eq-expl] #2 cg (#1 #2) (#2 #3) ; #3\n[eq-expl] #3 th arith ; #1\n[eq-expl] #3 ax ; #2\n[eq-expl] #2 unk x y ; #1",
        TERMS
    );
    let (parser, r) = read(&log);
    assert_eq!(r, Ok(()));
    assert_eq!(
        parser.terms[0].equality_expls,
        vec![EqualityExpl::Root { id: 0 }, EqualityExpl::Literal { from: 0, eq: 3, to: 1 }]
    );
    assert_eq!(
        parser.terms[1].equality_expls,
        vec![
            EqualityExpl::Congruence { from: 1, arg_eqs: vec![(0, 1), (1, 2)], to: 2 },
            EqualityExpl::Unknown {
                kind: b"unk".to_vec(),
                from: 1,
                args: vec![b"x".to_vec(), b"y".to_vec()],
                to: 0
            }
        ]
    );
    assert_eq!(
        parser.terms[2].equality_expls,
        vec![
            EqualityExpl::Theory { from: 2, theory: b"arith".to_vec(), to: 0 },
            EqualityExpl::Axiom { from: 2, to: 1 }
        ]
    );
}

#[test]
fn the_same_explanation_is_kept_once() {
    let log = format!("{}\n[eq-expl] #1 lit #4 ; #2\n[eq-expl] #1 lit #4 ; #2\n[eq-expl] #1 lit #4 ; #3", TERMS);
    let (parser, r) = read(&log);
    assert_eq!(r, Ok(()));
    assert_eq!(
        parser.terms[0].equality_expls,
        vec![
            EqualityExpl::Literal { from: 0, eq: 3, to: 1 },
            EqualityExpl::Literal { from: 0, eq: 3, to: 2 }
        ]
    );
}

#[test]
fn congruence_without_arguments() {
    let log = format!("{}\n[eq-expl] #1 cg ; #2", TERMS);
    let (parser, r) = read(&log);
    assert_eq!(r, Ok(()));
    assert_eq!(
        parser.terms[0].equality_expls,
        vec![EqualityExpl::Congruence { from: 0, arg_eqs: Vec::new(), to: 1 }]
    );
}

#[test]
fn explanations_must_be_well_shaped() {
    let bad = [
        "[eq-expl] #1",
        "[eq-expl] #1 root #2",
        "[eq-expl] #1 lit #4 #2",
        "[eq-expl] #1 lit ; #2",
        "[eq-expl] #1 lit #4 #4 ; #2",
        "[eq-expl] #1 lit #4 ;",
        "[eq-expl] #1 lit #4 ; #2 #3",
        "[eq-expl] #1 cg (#1 #2) (#2;#3) ; #3",
        "[eq-expl] #1 th ; #2",
        "[eq-expl] #1 ax x ; #2",
        "[eq-expl] #1 unk x y #2",
    ];
    for line in bad {
        let log = format!("{}\n{}", TERMS, line);
        let (parser, r) = read(&log);
        assert_eq!(r, refused(5, ParseError::Malformed));
        assert!(parser.terms[0].equality_expls.is_empty());
    }
}

#[test]
fn explanations_name_known_terms() {
    let bad = [
        "[eq-expl] #9 root",
        "[eq-expl] #1 lit #9 ; #2",
        "[eq-expl] #1 lit #4 ; #9",
        "[eq-expl] #1 cg (#1 #9) ; #2",
        "[eq-expl] #1 th arith ; #9",
        "[eq-expl] #1 ax ; #9",
        "[eq-expl] #1 unk ; #9",
    ];
    for line in bad {
        let log = format!("{}\n{}", TERMS, line);
        assert_eq!(read(&log).1, refused(5, ParseError::UnresolvedReference));
    }
}

const QUANT: &str = "[mk-app] #1 a\n[mk-app] #2 b\n[mk-app] #3 pat #1\n[mk-quant] #4 q 1 #3 #1\n[mk-app] #5 eq #1 #2";

#[test]
fn a_match_waits_for_its_instance() {
    let log = format!("{}\n[new-match] 0xabc #4 #3 #1 #2 ; #1 (#1 #2) (#2 #2)", QUANT);
    let (parser, r) = read(&log);
    assert_eq!(r, Ok(()));
    assert!(parser.instantiations.is_empty());
    assert_eq!(parser.matches.len(), 1);
    let m = &parser.matches[&0xabc];
    assert_eq!(m.match_line_no, 6);
    assert_eq!(m.line_no, None);
    assert_eq!(m.fingerprint, 0xabc);
    assert_eq!(m.quant, 0);
    assert!(!m.quant_discovered);
    assert_eq!(m.pattern, Some(2));
    assert_eq!(m.bound_terms, vec![0, 1]);
    assert_eq!(
        m.blamed_terms,
        vec![BlamedTermItem::Single(0), BlamedTermItem::Pair(0, 1), BlamedTermItem::Pair(1, 1)]
    );
    assert_eq!(m.equality_expls, vec![0]);
    assert!(m.dep_instantiations.is_empty());
    assert!(m.yields_terms.is_empty());
    assert_eq!(m.cost, 1);
    assert_eq!(m.resulting_term, None);
    assert_eq!(m.z3_gen, None);
    assert_eq!(
        parser.temp_dependencies[&6],
        vec![Dependency {
            from: 6,
            to: None,
            blamed: None,
            dep_type: DepType::Root,
            quant: 0,
            quant_discovered: false
        }]
    );
}

#[test]
fn a_match_without_semicolon_has_only_bound_terms() {
    let log = format!("{}\n[new-match] 0x1 #4 #3 #1 #2", QUANT);
    let (parser, r) = read(&log);
    assert_eq!(r, Ok(()));
    let m = &parser.matches[&1];
    assert_eq!(m.bound_terms, vec![0, 1]);
    assert!(m.blamed_terms.is_empty());
}

#[test]
fn a_match_must_be_well_shaped() {
    let bad = [
        "[new-match] 0x1 #4",
        "[new-match] zz #4 #3 ;",
        "[new-match] 0x1 #3 #3 ;",
        "[new-match] 0x1 #4 #3 ; (#1",
        "[new-match] 0x1 #4 #3 ; (#1 #2",
        "[new-match] 0x1 #4 #3 ; (x #2)",
        "[new-match] 0x1 #4 #3 x ;",
    ];
    for line in bad {
        let log = format!("{}\n{}", QUANT, line);
        let (parser, r) = read(&log);
        assert_eq!(r, refused(6, ParseError::Malformed));
        assert!(parser.matches.is_empty());
        assert!(parser.temp_dependencies.is_empty());
    }
}

#[test]
fn a_match_names_known_terms() {
    let bad = [
        "[new-match] 0x1 #9 #3 ;",
        "[new-match] 0x1 #4 #9 ;",
        "[new-match] 0x1 #4 #3 #9 ;",
        "[new-match] 0x1 #4 #3 ; #9",
        "[new-match] 0x1 #4 #3 ; (#1 #9)",
        "[new-match] 0x1 #4 #3 ; (#9 #1)",
    ];
    for line in bad {
        let log = format!("{}\n{}", QUANT, line);
        assert_eq!(read(&log).1, refused(6, ParseError::UnresolvedReference));
    }
}

#[test]
fn an_instance_needs_a_waiting_match() {
    let log = format!("{}\n[instance] 0x1", QUANT);
    let (parser, r) = read(&log);
    assert_eq!(r, refused(6, ParseError::UnresolvedReference));
    assert!(parser.instantiations.is_empty());
    assert!(parser.inst_stack.is_empty());
}

#[test]
fn a_match_is_used_by_one_instance() {
    let log = format!("{}\n[new-match] 0x1 #4 #3 ;\n[instance] 0x1\n[end-of-instance]\n[instance] 0x1", QUANT);
    let (parser, r) = read(&log);
    assert_eq!(r, refused(9, ParseError::UnresolvedReference));
    assert_eq!(parser.instantiations.len(), 1);
}

#[test]
fn an_instance_must_be_well_shaped() {
    let bad = [
        "[instance]",
        "[instance] 0xq",
        "[instance] 0x1 #1 ;",
        "[instance] 0x1 ; x",
        "[instance] 0x1 #1 ; 1 2",
        "[instance] 0x1 x",
        "[instance] 0x1 #1 #2",
    ];
    for line in bad {
        let log = format!("{}\n[new-match] 0x1 #4 #3 ;\n{}", QUANT, line);
        let (parser, r) = read(&log);
        assert_eq!(r, refused(7, ParseError::Malformed));
        assert!(parser.instantiations.is_empty());
        assert_eq!(parser.matches.len(), 1);
    }
}

#[test]
fn an_instance_names_a_known_term() {
    let log = format!("{}\n[new-match] 0x1 #4 #3 ;\n[instance] 0x1 #9", QUANT);
    let (parser, r) = read(&log);
    assert_eq!(r, refused(7, ParseError::UnresolvedReference));
    assert_eq!(parser.matches.len(), 1);
    assert!(parser.instantiations.is_empty());
}

#[test]
fn an_instance_without_term_and_generation() {
    let log = format!("{}\n[new-match] 0x1 #4 #3 ;\n[instance] 0x1\n[end-of-instance]", QUANT);
    let (parser, r) = read(&log);
    assert_eq!(r, Ok(()));
    let inst = &parser.instantiations[0];
    assert_eq!(inst.line_no, Some(7));
    assert_eq!(inst.match_line_no, 6);
    assert_eq!(inst.resulting_term, None);
    assert_eq!(inst.z3_gen, None);
    assert_eq!(parser.quantifiers[0].instances, vec![0]);
    assert_eq!(parser.quantifiers[0].cost, 1);
}

#[test]
fn an_instance_with_generation_alone() {
    let log = format!("{}\n[new-match] 0x1 #4 #3 ;\n[instance] 0x1 ; 7\n[end-of-instance]", QUANT);
    let (parser, r) = read(&log);
    assert_eq!(r, Ok(()));
    assert_eq!(parser.instantiations[0].resulting_term, None);
    assert_eq!(parser.instantiations[0].z3_gen, Some(7));
}

#[test]
fn an_open_instance_at_the_end_is_an_error() {
    let log = format!("{}\n[new-match] 0x1 #4 #3 ;\n[instance] 0x1", QUANT);
    let (parser, r) = read(&log);
    assert_eq!(r, refused(7, ParseError::UnclosedInstance));
    assert_eq!(parser.lines, 7);
    assert_eq!(parser.inst_stack, vec![0]);
    assert_eq!(parser.finish(), Err(ParseError::UnclosedInstance));
    assert!(parser.dependencies.is_empty());
    assert_eq!(parser.temp_dependencies.len(), 1);
}

#[test]
fn instances_nest() {
    let log = format!(
        "{}\n[new-match] 0x1 #4 #3 ;\n[new-match] 0x2 #4 #3 ;\n[instance] 0x1\n[attach-enode] #1 0\n[instance] 0x2\n[attach-enode] #2 0\n[end-of-instance]\n[attach-enode] #5 0\n[end-of-instance]",
        QUANT
    );
    let (parser, r) = read(&log);
    assert_eq!(r, Ok(()));
    assert_eq!(parser.instantiations.len(), 2);
    assert_eq!(parser.instantiations[0].fingerprint, 1);
    assert_eq!(parser.instantiations[0].line_no, Some(8));
    assert_eq!(parser.instantiations[0].yields_terms, vec![0, 4]);
    assert_eq!(parser.instantiations[1].fingerprint, 2);
    assert_eq!(parser.instantiations[1].line_no, Some(10));
    assert_eq!(parser.instantiations[1].yields_terms, vec![1]);
    assert_eq!(parser.terms[0].resp_inst, Some(0));
    assert_eq!(parser.terms[1].resp_inst, Some(1));
    assert_eq!(parser.terms[4].resp_inst, Some(0));
    assert_eq!(parser.dependencies.len(), 2);
    assert_eq!(parser.dependencies[0].from, 7);
    assert_eq!(parser.dependencies[0].to, Some(10));
    assert_eq!(parser.dependencies[1].from, 6);
    assert_eq!(parser.dependencies[1].to, Some(8));
    assert!(parser.inst_stack.is_empty());
}

#[test]
fn blamed_equalities_lead_to_the_producer_of_the_literal() {
    let log = format!(
        "{}\n[new-match] 0x1 #4 #3 ;\n[instance] 0x1\n[attach-enode] #5 0\n[end-of-instance]\n[eq-expl] #1 lit #5 ; #2\n[eq-expl] #1 ax ; #2\n[eq-expl] #1 lit #5 ; #3\n[new-match] 0x2 #4 #3 ; (#1 #2) (#2 #1)\n[instance] 0x2\n[end-of-instance]",
        QUANT
    );
    let (parser, r) = read(&log);
    assert_eq!(r, Ok(()));
    let second = &parser.instantiations[1];
    assert_eq!(second.blamed_terms, vec![BlamedTermItem::Pair(0, 1), BlamedTermItem::Pair(1, 0)]);
    assert_eq!(second.equality_expls, vec![0, 1]);
    assert_eq!(second.dep_instantiations, vec![0]);
    assert_eq!(
        parser.dependencies[1],
        Dependency {
            from: 7,
            to: Some(14),
            blamed: Some(4),
            dep_type: DepType::Equality,
            quant: 0,
            quant_discovered: false
        }
    );
    assert_eq!(parser.dependencies.len(), 2);
}

#[test]
fn a_term_blamed_twice_gives_two_dependencies() {
    let log = format!(
        "{}\n[new-match] 0x1 #4 #3 ;\n[instance] 0x1\n[attach-enode] #5 0\n[end-of-instance]\n[new-match] 0x2 #4 #3 ; #5 #1 #5\n[instance] 0x2\n[end-of-instance]",
        QUANT
    );
    let (parser, r) = read(&log);
    assert_eq!(r, Ok(()));
    assert_eq!(parser.instantiations[1].dep_instantiations, vec![0, 0]);
    assert_eq!(parser.dependencies.len(), 3);
    assert_eq!(parser.dependencies[1].dep_type, DepType::Term);
    assert_eq!(parser.dependencies[2].dep_type, DepType::Term);
    assert_eq!(parser.dependencies[1].blamed, Some(4));
}

#[test]
fn a_reused_fingerprint_makes_an_instantiation_of_its_own() {
    let log = format!(
        "{}\n[new-match] 0x1 #4 #3 #1 ;\n[instance] 0x1 #1 ; 1\n[attach-enode] #5 0\n[end-of-instance]\n[new-match] 0x1 #4 #3 #2 ; #5\n[instance] 0x1 #2 ; 2\n[end-of-instance]",
        QUANT
    );
    let (parser, r) = read(&log);
    assert_eq!(r, Ok(()));
    assert_eq!(parser.instantiations.len(), 2);
    let first = &parser.instantiations[0];
    let second = &parser.instantiations[1];
    assert_eq!(first.fingerprint, 1);
    assert_eq!(second.fingerprint, 1);
    assert_eq!(first.bound_terms, vec![0]);
    assert_eq!(second.bound_terms, vec![1]);
    assert_eq!(first.line_no, Some(7));
    assert_eq!(second.line_no, Some(11));
    assert_eq!(first.resulting_term, Some(0));
    assert_eq!(second.resulting_term, Some(1));
    assert_eq!(first.yields_terms, vec![4]);
    assert!(second.yields_terms.is_empty());
    assert!(first.dep_instantiations.is_empty());
    assert_eq!(second.dep_instantiations, vec![0]);
    assert!(parser.matches.is_empty());
}

#[test]
fn a_later_match_replaces_one_that_waits() {
    let log = format!("{}\n[new-match] 0x1 #4 #3 #1 ;\n[new-match] 0x1 #4 #3 #2 ;\n[instance] 0x1\n[end-of-instance]", QUANT);
    let (parser, r) = read(&log);
    assert_eq!(r, Ok(()));
    assert_eq!(parser.instantiations.len(), 1);
    assert_eq!(parser.instantiations[0].match_line_no, 7);
    assert_eq!(parser.instantiations[0].bound_terms, vec![1]);
    assert_eq!(parser.dependencies.len(), 1);
    assert_eq!(parser.dependencies[0].from, 7);
    assert_eq!(parser.temp_dependencies.len(), 1);
}

#[test]
fn theory_solving_discovers_a_quantifier() {
    let log = format!(
        "{}\n[inst-discovered] theory-solving 0 arith# ; #1 #2\n[instance] 0 #5\n[end-of-instance]\n[inst-discovered] theory-solving 0 arith#\n[inst-discovered] theory-solving 0x5 basic# ;",
        QUANT
    );
    let (parser, r) = read(&log);
    assert_eq!(r, Ok(()));
    assert_eq!(parser.quantifiers.len(), 3);
    assert_eq!(parser.quantifiers[1].kind, QuantKind::Other(b"theory-solving".to_vec()));
    assert_eq!(parser.quantifiers[1].num_vars, 0);
    assert_eq!(parser.quantifiers[1].term, None);
    assert_eq!(parser.quantifiers[1].instances, vec![0]);
    assert_eq!(parser.quantifiers[1].cost, 1);
    assert!(parser.quantifiers[2].instances.is_empty());
    let inst = &parser.instantiations[0];
    assert!(inst.quant_discovered);
    assert_eq!(inst.quant, 1);
    assert_eq!(inst.pattern, None);
    assert!(inst.bound_terms.is_empty());
    assert_eq!(inst.blamed_terms, vec![BlamedTermItem::Single(0), BlamedTermItem::Single(1)]);
    assert!(inst.equality_expls.is_empty());
    assert_eq!(inst.resulting_term, Some(4));
    assert_eq!(
        parser.dependencies,
        vec![Dependency {
            from: 6,
            to: Some(7),
            blamed: None,
            dep_type: DepType::Root,
            quant: 1,
            quant_discovered: true
        }]
    );
    assert_eq!(parser.matches.len(), 2);
    assert_eq!(parser.matches[&0].quant, 1);
    assert_eq!(parser.matches[&5].quant, 2);
}

#[test]
fn model_based_instantiations_share_one_quantifier() {
    let log = format!("{}\n[inst-discovered] MBQI 0x1 #1 #2\n[inst-discovered] MBQI 0x2", QUANT);
    let (parser, r) = read(&log);
    assert_eq!(r, Ok(()));
    assert_eq!(parser.quantifiers.len(), 2);
    assert_eq!(parser.quantifiers[1].kind, QuantKind::Other(b"MBQI".to_vec()));
    assert_eq!(parser.matches[&1].quant, 1);
    assert_eq!(parser.matches[&2].quant, 1);
    assert_eq!(parser.matches[&1].bound_terms, vec![0, 1]);
    assert!(parser.matches[&1].blamed_terms.is_empty());
    assert!(parser.matches[&1].quant_discovered);
    assert!(parser.matches[&2].bound_terms.is_empty());
}

#[test]
fn a_discovery_must_be_well_shaped() {
    let bad = [
        "[inst-discovered] MBQI",
        "[inst-discovered] guessing 0x1",
        "[inst-discovered] MBQI zz",
        "[inst-discovered] theory-solving 0x1",
        "[inst-discovered] theory-solving 0x1 arith",
        "[inst-discovered] theory-solving 0x1 arith# #1",
        "[inst-discovered] MBQI 0x1 one",
    ];
    for line in bad {
        let log = format!("{}\n{}", QUANT, line);
        let (parser, r) = read(&log);
        assert_eq!(r, refused(6, ParseError::Malformed));
        assert_eq!(parser.quantifiers.len(), 1);
        assert!(parser.matches.is_empty());
    }
}

#[test]
fn a_discovery_names_known_terms() {
    let log = format!("{}\n[inst-discovered] theory-solving 0x1 arith# ; #9", QUANT);
    let (parser, r) = read(&log);
    assert_eq!(r, refused(6, ParseError::UnresolvedReference));
    assert_eq!(parser.quantifiers.len(), 1);
    let log = format!("{}\n[inst-discovered] MBQI 0x1 #9", QUANT);
    assert_eq!(read(&log).1, refused(6, ParseError::UnresolvedReference));
}

#[test]
fn dependencies_carry_the_quantifier_of_their_destination() {
    let log = format!(
        "{}\n[inst-discovered] MBQI 0x1\n[instance] 0x1\n[attach-enode] #5 0\n[end-of-instance]\n[new-match] 0x2 #4 #3 ; #5\n[instance] 0x2\n[end-of-instance]",
        QUANT
    );
    let (parser, r) = read(&log);
    assert_eq!(r, Ok(()));
    assert_eq!(
        parser.dependencies[1],
        Dependency {
            from: 7,
            to: Some(11),
            blamed: Some(4),
            dep_type: DepType::Term,
            quant: 0,
            quant_discovered: false
        }
    );
    assert_eq!(parser.dependencies[0].quant, 1);
    assert!(parser.dependencies[0].quant_discovered);
}

#[test]
fn reading_stops_at_the_first_refused_line() {
    let (parser, r) = read("[mk-app] #1 a\n[mk-app] #2 b\n[mk-app] #3 f #4\n[mk-app] #4 c");
    assert_eq!(r, refused(3, ParseError::UnresolvedReference));
    assert_eq!(parser.lines, 2);
    assert_eq!(parser.terms.len(), 2);
}

#[test]
fn a_log_can_be_read_in_parts() {
    let mut parser = Z3Parser::new();
    assert_eq!(parser.process_log(b"[mk-app] #1 a"), Ok(()));
    assert_eq!(parser.process_log(b"[mk-app] #2 f #1"), Ok(()));
    assert_eq!(parser.lines, 2);
    assert_eq!(parser.terms[1].child_ids, vec![0]);
}

#[test]
fn entities_are_found_by_index() {
    let log = format!("{}\n[new-match] 0x1 #4 #3 ;\n[instance] 0x1\n[end-of-instance]", QUANT);
    let (parser, r) = read(&log);
    assert_eq!(r, Ok(()));
    assert_eq!(parser.term(0).unwrap().id, b"#1".to_vec());
    assert_eq!(parser.term(4).unwrap().id, b"#5".to_vec());
    assert!(parser.term(5).is_none());
    assert_eq!(parser.quantifier(0).unwrap().num_vars, 1);
    assert!(parser.quantifier(1).is_none());
    assert_eq!(parser.instantiation(0).unwrap().line_no, Some(7));
    assert!(parser.instantiation(1).is_none());
    assert_eq!(parser.total_nr_of_quants(), 1);
    let fresh = Z3Parser::default();
    assert_eq!(fresh.lines, 0);
    assert!(fresh.term(0).is_none());
}

#[test]
fn every_instantiation_has_a_record_of_its_cause() {
    let log = format!(
        "{}\n[new-match] 0x1 #4 #3 ;\n[instance] 0x1\n[attach-enode] #5 0\n[new-match] 0x2 #4 #3 ; #5\n[instance] 0x2\n[end-of-instance]\n[end-of-instance]\n[inst-discovered] MBQI 0x3\n[instance] 0x3\n[end-of-instance]",
        QUANT
    );
    let (parser, r) = read(&log);
    assert_eq!(r, Ok(()));
    assert_eq!(parser.instantiations.len(), 3);
    for inst in parser.instantiations.iter() {
        assert!(inst.line_no.is_some());
        assert!(parser.dependencies.iter().any(|d| d.to == inst.line_no));
    }
    for d in &parser.dependencies {
        assert!(d.to.is_some());
    }
    assert!(parser.instantiations.len() <= parser.lines);
}

#[test]
fn a_handler_reads_a_line_of_its_kind() {
    let mut parser = Z3Parser::new();
    let line: Vec<Vec<u8>> = vec![b"[mk-var]".to_vec(), b"#1".to_vec(), b"2".to_vec()];
    assert_eq!(parser.mk_var(&line), Ok(()));
    assert_eq!(parser.lines, 1);
    assert_eq!(parser.terms[0].kind, TermKind::Var(2));
    let line: Vec<Vec<u8>> = vec![b"[mk-app]".to_vec(), b"#2".to_vec(), b"f".to_vec(), b"#1".to_vec()];
    assert_eq!(parser.mk_proof_app(&line, false), Ok(()));
    assert_eq!(parser.lines, 2);
    assert_eq!(parser.end_of_instance(), Err(ParseError::StackUnderflow));
    assert_eq!(parser.lines, 2);
    let line: Vec<Vec<u8>> = vec![b"[attach-enode]".to_vec(), b"#2".to_vec()];
    assert_eq!(parser.attach_enode(&line), Err(ParseError::Malformed));
    assert_eq!(parser.lines, 2);
    parser.count_line();
    assert_eq!(parser.lines, 3);
}
