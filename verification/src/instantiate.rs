//! The lines that make instantiations: a match or a discovery announces one
//! under a fingerprint, an instance line opens it, and an end line closes it
//! and settles its dependencies.

use crate::arena::{
    instantiation_arena, instantiation_at, next_instantiation_key, next_quantifier_key,
    push_instantiation, push_quantifier, quantifier_arena, quantifier_at_mut, term_at,
};
use crate::declare::{fresh_quantifier, outcome};
use crate::dependency::{
    blamed_deps, blamed_items, deps_of, equality_terms, gobble_blamed, insts_of, items_in_range,
    lemma_blamed_items_bound,
};
use crate::explain::{find_semicolon, first_semicolon};
use crate::idx_map::{fx_insert, fx_remove};
use crate::items::{
    inst_views, quant_of, quant_views, BlamedTermItem, DepType, Dependency, DiscoveredId,
    DiscoveredIdView, Fingerprint, InstIdx, Instantiation, InstantiationView, ParseError, QuantIdx,
    QuantKind, QuantKindView, Quantifier, QuantifierView, TermIdx,
};
use crate::resolve::{
    check_term_id, gobble_children, is_term_id, parse_existing_id, resolve, resolve_all,
};
use crate::state::{counted, match_ok, match_views, temp_views, ParserView, Z3Parser};
use crate::wellformed::{
    lemma_bump_wf, lemma_end_of_instance_wf, lemma_inst_discovered_wf, lemma_instance_wf,
    lemma_new_match_wf,
};
use crate::text::{
    decimal, hexadecimal, is_word, parse_decimal, parse_hexadecimal, to_owned_bytes, views, word,
};
use crate::tuples::is_semicolon;
use vstd::prelude::*;

verus! {

/// The record that only says that an instantiation depends on none.
pub open spec fn blank_dep(quant: QuantIdx, discovered: bool, match_line: usize) -> Dependency {
    Dependency {
        from: match_line,
        to: None,
        blamed: None,
        dep_type: DepType::Root,
        quant,
        quant_discovered: discovered,
    }
}

/// The instantiation that a match announces: it has no line of its own yet.
pub open spec fn match_record(
    match_line: usize,
    fingerprint: Fingerprint,
    quant: QuantIdx,
    discovered: bool,
    pattern: Option<TermIdx>,
    bound: Seq<TermIdx>,
    blamed: Seq<BlamedTermItem>,
    found: Seq<(InstIdx, Dependency)>,
) -> InstantiationView {
    InstantiationView {
        match_line_no: match_line,
        line_no: None,
        fingerprint,
        resulting_term: None,
        z3_gen: None,
        cost: 1,
        quant,
        quant_discovered: discovered,
        pattern,
        yields_terms: Seq::empty(),
        bound_terms: bound,
        blamed_terms: blamed,
        equality_expls: equality_terms(blamed),
        dep_instantiations: insts_of(found),
    }
}

/// The dependencies kept for a match: those found, or the one record that
/// says that there is none.
pub open spec fn pending_deps(
    found: Seq<(InstIdx, Dependency)>,
    quant: QuantIdx,
    discovered: bool,
    match_line: usize,
) -> Seq<Dependency> {
    if found.len() == 0 {
        seq![blank_dep(quant, discovered, match_line)]
    } else {
        deps_of(found)
    }
}

/// The state after a match on the next line: its record waits under the
/// fingerprint, in place of any that waited there, and its dependencies wait
/// under its line.
pub open spec fn with_match(
    s: ParserView,
    fingerprint: Fingerprint,
    quant: QuantIdx,
    discovered: bool,
    pattern: Option<TermIdx>,
    bound: Seq<TermIdx>,
    blamed: Seq<BlamedTermItem>,
) -> ParserView {
    let match_line = (s.lines + 1) as usize;
    let found = blamed_deps(s, blamed);
    ParserView {
        temp_dependencies: s.temp_dependencies.insert(
            match_line,
            pending_deps(found, quant, discovered, match_line),
        ),
        matches: s.matches.insert(
            fingerprint,
            match_record(match_line, fingerprint, quant, discovered, pattern, bound, blamed, found),
        ),
        ..s
    }
}

/// What follows the first lone semicolon of a run of tokens.
pub open spec fn after_semicolon(ts: Seq<Seq<u8>>) -> Seq<Seq<u8>> {
    let k = first_semicolon(ts);
    if k < ts.len() {
        ts.skip(k + 1)
    } else {
        Seq::empty()
    }
}

/// A match. The payload is a fingerprint, the identifier of the quantifier's
/// term, that of the pattern, the bound terms up to a semicolon, and the
/// blamed items.
pub open spec fn new_match_spec(s: ParserView, p: Seq<Seq<u8>>) -> Result<ParserView, ParseError> {
    if p.len() < 3 {
        Err(ParseError::Malformed)
    } else {
        match hexadecimal(p[0]) {
            None => Err(ParseError::Malformed),
            Some(fingerprint) => match resolve(s.term_ids, p[1]) {
                Err(e) => Err(e),
                Ok(idx) => match quant_of(s.terms[idx as int].kind) {
                    None => Err(ParseError::Malformed),
                    Some(quant) => match resolve(s.term_ids, p[2]) {
                        Err(e) => Err(e),
                        Ok(pattern) => {
                            let rest = p.skip(3);
                            match resolve_all(s.term_ids, rest.take(first_semicolon(rest))) {
                                Err(e) => Err(e),
                                Ok(bound) => match blamed_items(
                                    s.term_ids,
                                    after_semicolon(rest),
                                ) {
                                    Err(e) => Err(e),
                                    Ok(blamed) => Ok(
                                        with_match(
                                            s,
                                            fingerprint,
                                            quant,
                                            false,
                                            Some(pattern),
                                            bound,
                                            blamed,
                                        ),
                                    ),
                                },
                            }
                        },
                    },
                },
            },
        }
    }
}

/// The quantifier kept under a discovery key, and the state with it: where
/// the key is new, a quantifier named after the method is made for it.
pub open spec fn with_discovered(s: ParserView, key: DiscoveredIdView, method: Seq<u8>) -> (
    ParserView,
    QuantIdx,
) {
    if s.discovered.contains_key(key) {
        (s, s.discovered[key])
    } else {
        (
            ParserView {
                quantifiers: s.quantifiers.push(
                    fresh_quantifier(QuantKindView::Other(method), 0, None),
                ),
                discovered: s.discovered.insert(key, s.quantifiers.len() as usize),
                ..s
            },
            s.quantifiers.len() as usize,
        )
    }
}

/// A term as an item blamed alone.
pub open spec fn single(t: TermIdx) -> BlamedTermItem {
    BlamedTermItem::Single(t)
}

/// Each term as an item blamed alone.
pub open spec fn singles(ts: Seq<TermIdx>) -> Seq<BlamedTermItem> {
    ts.map_values(|t: TermIdx| single(t))
}

/// The tokens from position `k` on, or none where there are fewer.
pub open spec fn tail_from(ts: Seq<Seq<u8>>, k: int) -> Seq<Seq<u8>> {
    if k <= ts.len() {
        ts.skip(k)
    } else {
        Seq::empty()
    }
}

/// An instantiation that the solver discovered. The payload is the method, a
/// fingerprint and what the method asks for: for theory solving the
/// identifier of a theory term, then, after a semicolon, the blamed terms;
/// for model-based instantiation the bound terms.
pub open spec fn inst_discovered_spec(s: ParserView, p: Seq<Seq<u8>>) -> Result<
    ParserView,
    ParseError,
> {
    if p.len() < 2 {
        Err(ParseError::Malformed)
    } else {
        match hexadecimal(p[1]) {
            None => Err(ParseError::Malformed),
            Some(fingerprint) => if p[0] == word("theory-solving") {
                if p.len() < 3 || !is_term_id(p[2]) || (p.len() >= 4 && !is_semicolon(p[3])) {
                    Err(ParseError::Malformed)
                } else {
                    match resolve_all(s.term_ids, tail_from(p, 4)) {
                        Err(e) => Err(e),
                        Ok(blamed) => {
                            let (t, quant) = with_discovered(
                                s,
                                DiscoveredIdView::TheorySolving(p[2]),
                                p[0],
                            );
                            Ok(
                                with_match(
                                    t,
                                    fingerprint,
                                    quant,
                                    true,
                                    None,
                                    Seq::empty(),
                                    singles(blamed),
                                ),
                            )
                        },
                    }
                }
            } else if p[0] == word("MBQI") {
                match resolve_all(s.term_ids, p.skip(2)) {
                    Err(e) => Err(e),
                    Ok(bound) => {
                        let (t, quant) = with_discovered(s, DiscoveredIdView::MBQI, p[0]);
                        Ok(with_match(t, fingerprint, quant, true, None, bound, Seq::empty()))
                    },
                }
            } else {
                Err(ParseError::Malformed)
            },
        }
    }
}

/// A cost that has grown by one, unless it can grow no more.
pub open spec fn next_cost(cost: usize) -> usize {
    if cost < usize::MAX {
        (cost + 1) as usize
    } else {
        cost
    }
}

/// A quantifier with one more instance.
pub open spec fn with_instance_count(q: QuantifierView, inst: InstIdx) -> QuantifierView {
    QuantifierView { instances: q.instances.push(inst), cost: next_cost(q.cost), ..q }
}

/// The record of a match once its instance begins.
pub open spec fn promoted(
    m: InstantiationView,
    line: usize,
    resulting: Option<TermIdx>,
    generation: Option<usize>,
) -> InstantiationView {
    InstantiationView { line_no: Some(line), resulting_term: resulting, z3_gen: generation, ..m }
}

/// The state after the instance of a match began on the next line: the
/// record leaves the matches that wait, gets that line and becomes the last
/// of the arena and the innermost open instance, and its quantifier counts it.
pub open spec fn with_instance(
    s: ParserView,
    fingerprint: Fingerprint,
    resulting: Option<TermIdx>,
    generation: Option<usize>,
) -> ParserView {
    let inst = promoted(s.matches[fingerprint], (s.lines + 1) as usize, resulting, generation);
    let iidx = s.instantiations.len() as usize;
    ParserView {
        matches: s.matches.remove(fingerprint),
        instantiations: s.instantiations.push(inst),
        inst_stack: s.inst_stack.push(iidx),
        quantifiers: s.quantifiers.update(
            inst.quant as int,
            with_instance_count(s.quantifiers[inst.quant as int], iidx),
        ),
        ..s
    }
}

/// Whether the payload of an instance line names the resulting term.
pub open spec fn names_result(p: Seq<Seq<u8>>) -> bool {
    p.len() >= 2 && is_term_id(p[1])
}

/// What follows the fingerprint and the resulting term, if there is one.
pub open spec fn generation_part(p: Seq<Seq<u8>>) -> Seq<Seq<u8>> {
    if names_result(p) {
        p.skip(2)
    } else {
        p.skip(1)
    }
}

/// The resulting term that the payload of an instance line names, if it
/// names one.
pub open spec fn resulting_term(ids: Map<Seq<u8>, TermIdx>, p: Seq<Seq<u8>>) -> Result<
    Option<TermIdx>,
    ParseError,
> {
    if names_result(p) {
        match resolve(ids, p[1]) {
            Err(e) => Err(e),
            Ok(t) => Ok(Some(t)),
        }
    } else {
        Ok(None)
    }
}

/// The beginning of an instance. The payload is the fingerprint of a match
/// that waits, then, each of them optional, the identifier of the resulting
/// term, and a semicolon with the generation. A fingerprint under which no
/// match waits is refused as unresolved.
pub open spec fn instance_spec(s: ParserView, p: Seq<Seq<u8>>) -> Result<ParserView, ParseError> {
    if p.len() < 1 {
        Err(ParseError::Malformed)
    } else {
        let tail = generation_part(p);
        match hexadecimal(p[0]) {
            None => Err(ParseError::Malformed),
            Some(fingerprint) => if !(tail.len() == 0 || (tail.len() == 2 && is_semicolon(tail[0])
                && decimal(tail[1]) is Some)) {
                Err(ParseError::Malformed)
            } else {
                let generation = if tail.len() == 2 {
                    decimal(tail[1])
                } else {
                    None
                };
                match resulting_term(s.term_ids, p) {
                    Err(e) => Err(e),
                    Ok(resulting) => if s.matches.contains_key(fingerprint) {
                        Ok(with_instance(s, fingerprint, resulting, generation))
                    } else {
                        Err(ParseError::UnresolvedReference)
                    },
                }
            },
        }
    }
}

/// A dependency once the instance it leads to has ended: it gets the
/// instance's line as its destination, and the instance's quantifier.
pub open spec fn finalize(d: Dependency, inst: InstantiationView) -> Dependency {
    Dependency { to: inst.line_no, quant: inst.quant, quant_discovered: inst.quant_discovered, ..d }
}

/// The dependencies of a match once its instance has ended.
pub open spec fn finalized(pending: Seq<Dependency>, inst: InstantiationView) -> Seq<Dependency> {
    pending.map_values(|d: Dependency| finalize(d, inst))
}

/// The dependencies that wait under a line.
pub open spec fn pending_under(s: ParserView, match_line: usize) -> Seq<Dependency> {
    if s.temp_dependencies.contains_key(match_line) {
        s.temp_dependencies[match_line]
    } else {
        Seq::empty()
    }
}

/// The end of the innermost open instance: it is open no more, and the
/// dependencies that waited under the line of its match get their
/// destination and join those that are settled. With no instance open the
/// line is refused.
pub open spec fn end_of_instance_spec(s: ParserView) -> Result<ParserView, ParseError> {
    if s.inst_stack.len() == 0 {
        Err(ParseError::StackUnderflow)
    } else {
        let inst = s.instantiations[s.inst_stack.last() as int];
        Ok(
            ParserView {
                inst_stack: s.inst_stack.drop_last(),
                temp_dependencies: s.temp_dependencies.remove(inst.match_line_no),
                dependencies: s.dependencies + finalized(
                    pending_under(s, inst.match_line_no),
                    inst,
                ),
                ..s
            },
        )
    }
}

impl Z3Parser {
    /// Keeps a match that was read on the next line, with the dependencies
    /// that its blamed items give.
    pub fn record_match(
        &mut self,
        fingerprint: Fingerprint,
        quant: QuantIdx,
        discovered: bool,
        pattern: Option<TermIdx>,
        bound_terms: Vec<TermIdx>,
        blamed_terms: Vec<BlamedTermItem>,
    )
        requires
            old(self)@.wf(),
            old(self).lines < usize::MAX,
            items_in_range(blamed_terms@, old(self)@.terms.len() as int),
        ensures
            final(self)@ == with_match(
                old(self)@,
                fingerprint,
                quant,
                discovered,
                pattern,
                bound_terms@,
                blamed_terms@,
            ),
    {
        let match_line = self.lines + 1;
        let (found, equality_expls) = self.collect_dependencies(&blamed_terms);
        let mut deps: Vec<Dependency> = Vec::new();
        let mut dep_instantiations: Vec<InstIdx> = Vec::new();
        let mut i: usize = 0;
        assert(deps@ =~= deps_of(found@.take(0)));
        while i < found.len()
            invariant
                0 <= i <= found.len(),
                deps@ == deps_of(found@.take(i as int)),
                dep_instantiations@ == insts_of(found@.take(i as int)),
            decreases found.len() - i,
        {
            deps.push(found[i].1);
            dep_instantiations.push(found[i].0);
            i += 1;
        }
        assert(found@.take(found.len() as int) =~= found@);
        if found.len() == 0 {
            deps.push(
                Dependency {
                    from: match_line,
                    to: None,
                    blamed: None,
                    dep_type: DepType::Root,
                    quant,
                    quant_discovered: discovered,
                },
            );
        }
        let ghost temp_before = temp_views(self.temp_dependencies@);
        let ghost matches_before = match_views(self.matches@);
        let ghost dv = deps@;
        fx_insert(&mut self.temp_dependencies, match_line, deps);
        assert(temp_views(self.temp_dependencies@) =~= temp_before.insert(match_line, dv));
        let inst = Instantiation {
            match_line_no: match_line,
            line_no: None,
            fingerprint,
            resulting_term: None,
            z3_gen: None,
            cost: 1,
            quant,
            quant_discovered: discovered,
            pattern,
            yields_terms: Vec::new(),
            bound_terms,
            blamed_terms,
            equality_expls,
            dep_instantiations,
        };
        let ghost iv = inst@;
        fx_insert(&mut self.matches, fingerprint, inst);
        assert(match_views(self.matches@) =~= matches_before.insert(fingerprint, iv));
    }

    /// Reads a match.
    pub fn new_match(&mut self, tokens: &Vec<Vec<u8>>) -> (r: Result<(), ParseError>)
        requires
            tokens.len() >= 1,
            old(self)@.wf(),
            old(self).lines < usize::MAX,
        ensures
            outcome(
                *old(self),
                *final(self),
                r,
                counted(new_match_spec(old(self)@, views(tokens@).skip(1))),
            ),
            final(self)@.wf(),
    {
        proof {
            if new_match_spec(old(self)@, views(tokens@).skip(1)) is Ok {
                lemma_new_match_wf(old(self)@, views(tokens@).skip(1));
            }
        }
        let n = tokens.len();
        if n < 4 {
            return Err(ParseError::Malformed);
        }
        let ghost p = views(tokens@).skip(1);
        let ghost rest = p.skip(3);
        assert(rest =~= views(tokens@).subrange(4, n as int));
        let fingerprint = match parse_hexadecimal(tokens[1].as_slice()) {
            Some(f) => f,
            None => {
                return Err(ParseError::Malformed);
            },
        };
        let idx = match parse_existing_id(&self.idx_map, tokens[2].as_slice()) {
            Ok(idx) => idx,
            Err(e) => {
                return Err(e);
            },
        };
        let quant = match term_at(&self.terms, idx).kind.quant_idx() {
            Some(q) => q,
            None => {
                return Err(ParseError::Malformed);
            },
        };
        let pattern = match parse_existing_id(&self.idx_map, tokens[3].as_slice()) {
            Ok(idx) => idx,
            Err(e) => {
                return Err(e);
            },
        };
        let semi = find_semicolon(tokens, 4, n);
        assert(rest.take(semi - 4) =~= views(tokens@).subrange(4, semi as int));
        let bound = match gobble_children(&self.idx_map, tokens, 4, semi) {
            Ok(bound) => bound,
            Err(e) => {
                return Err(e);
            },
        };
        let from = if semi < n {
            semi + 1
        } else {
            n
        };
        assert(after_semicolon(rest) =~= views(tokens@).subrange(from as int, n as int));
        let blamed = match gobble_blamed(&self.idx_map, tokens, from, n) {
            Ok(blamed) => blamed,
            Err(e) => {
                return Err(e);
            },
        };
        proof {
            lemma_blamed_items_bound(
                self@.term_ids,
                after_semicolon(rest),
                self@.terms.len() as int,
            );
        }
        self.record_match(fingerprint, quant, false, Some(pattern), bound, blamed);
        self.count_line();
        Ok(())
    }

    /// The quantifier kept under a discovery key. Where the key is new, a
    /// quantifier named after the method is made for it.
    pub fn discovered_quant(&mut self, id: DiscoveredId, method: &[u8]) -> (r: QuantIdx)
        requires
            old(self)@.wf(),
        ensures
            (final(self)@, r) == with_discovered(old(self)@, id@, method@),
            final(self)@.wf(),
    {
        proof {
            crate::wellformed::lemma_discovered_wf(old(self)@, id@, method@);
        }
        let next = next_quantifier_key(&self.quantifiers);
        let fresh = || -> (q: QuantIdx)
            ensures
                q == next,
            { next };
        let q = self.idx_map.discovered_quant(id, fresh);
        if q == next {
            let quantifier = Quantifier {
                kind: QuantKind::Other(to_owned_bytes(method)),
                num_vars: 0,
                term: None,
                instances: Vec::new(),
                cost: 0,
                vars: None,
            };
            let ghost before = quant_views(quantifier_arena(self.quantifiers));
            let ghost qv = quantifier@;
            push_quantifier(&mut self.quantifiers, quantifier);
            assert(quant_views(quantifier_arena(self.quantifiers)) =~= before.push(qv));
        }
        q
    }

    /// Reads an instantiation that the solver discovered.
    pub fn inst_discovered(&mut self, tokens: &Vec<Vec<u8>>) -> (r: Result<(), ParseError>)
        requires
            tokens.len() >= 1,
            old(self)@.wf(),
            old(self).lines < usize::MAX,
        ensures
            outcome(
                *old(self),
                *final(self),
                r,
                counted(inst_discovered_spec(old(self)@, views(tokens@).skip(1))),
            ),
            final(self)@.wf(),
    {
        proof {
            if inst_discovered_spec(old(self)@, views(tokens@).skip(1)) is Ok {
                lemma_inst_discovered_wf(old(self)@, views(tokens@).skip(1));
            }
        }
        let n = tokens.len();
        if n < 3 {
            return Err(ParseError::Malformed);
        }
        let ghost p = views(tokens@).skip(1);
        let fingerprint = match parse_hexadecimal(tokens[2].as_slice()) {
            Some(f) => f,
            None => {
                return Err(ParseError::Malformed);
            },
        };
        let method = &tokens[1];
        if is_word(method.as_slice(), "theory-solving") {
            if n < 4 || !check_term_id(tokens[3].as_slice()) {
                return Err(ParseError::Malformed);
            }
            if n >= 5 {
                let t = &tokens[4];
                if !(t.len() == 1 && t[0] == crate::tuples::SEMICOLON) {
                    return Err(ParseError::Malformed);
                }
            }
            let from = if n >= 5 {
                5
            } else {
                n
            };
            assert(tail_from(p, 4) =~= views(tokens@).subrange(from as int, n as int));
            let terms = match gobble_children(&self.idx_map, tokens, from, n) {
                Ok(terms) => terms,
                Err(e) => {
                    return Err(e);
                },
            };
            proof {
                crate::declare::lemma_children_exist(self@, tail_from(p, 4));
            }
            let mut blamed: Vec<BlamedTermItem> = Vec::new();
            let mut i: usize = 0;
            while i < terms.len()
                invariant
                    0 <= i <= terms.len(),
                    blamed@ == singles(terms@.take(i as int)),
                decreases terms.len() - i,
            {
                blamed.push(BlamedTermItem::Single(terms[i]));
                i += 1;
            }
            assert(terms@.take(terms.len() as int) =~= terms@);
            let quant = self.discovered_quant(
                DiscoveredId::TheorySolving(to_owned_bytes(tokens[3].as_slice())),
                method.as_slice(),
            );
            self.record_match(fingerprint, quant, true, None, Vec::new(), blamed);
            self.count_line();
            Ok(())
        } else if is_word(method.as_slice(), "MBQI") {
            assert(p.skip(2) =~= views(tokens@).subrange(3, n as int));
            let bound = match gobble_children(&self.idx_map, tokens, 3, n) {
                Ok(bound) => bound,
                Err(e) => {
                    return Err(e);
                },
            };
            let quant = self.discovered_quant(DiscoveredId::MBQI, method.as_slice());
            self.record_match(fingerprint, quant, true, None, bound, Vec::new());
            self.count_line();
            Ok(())
        } else {
            Err(ParseError::Malformed)
        }
    }

    /// Reads the beginning of an instance.
    pub fn instance(&mut self, tokens: &Vec<Vec<u8>>) -> (r: Result<(), ParseError>)
        requires
            tokens.len() >= 1,
            old(self)@.wf(),
            old(self).lines < usize::MAX,
        ensures
            outcome(*old(self), *final(self), r, counted(instance_spec(old(self)@, views(tokens@).skip(1)))),
            final(self)@.wf(),
    {
        proof {
            if instance_spec(old(self)@, views(tokens@).skip(1)) is Ok {
                lemma_instance_wf(old(self)@, views(tokens@).skip(1));
            }
        }
        let n = tokens.len();
        if n < 2 {
            return Err(ParseError::Malformed);
        }
        let fingerprint = match parse_hexadecimal(tokens[1].as_slice()) {
            Some(f) => f,
            None => {
                return Err(ParseError::Malformed);
            },
        };
        let has_term = n >= 3 && check_term_id(tokens[2].as_slice());
        let from: usize = if has_term {
            3
        } else {
            2
        };
        let generation: Option<usize> = if n - from == 0 {
            None
        } else if n - from == 2 {
            let semi = &tokens[from];
            if !(semi.len() == 1 && semi[0] == crate::tuples::SEMICOLON) {
                return Err(ParseError::Malformed);
            }
            match parse_decimal(tokens[from + 1].as_slice()) {
                Some(g) => Some(g),
                None => {
                    return Err(ParseError::Malformed);
                },
            }
        } else {
            return Err(ParseError::Malformed);
        };
        let resulting: Option<TermIdx> = if has_term {
            match parse_existing_id(&self.idx_map, tokens[2].as_slice()) {
                Ok(t) => Some(t),
                Err(e) => {
                    return Err(e);
                },
            }
        } else {
            None
        };
        let ghost matches_before = match_views(self.matches@);
        let mut inst = match fx_remove(&mut self.matches, fingerprint) {
            Some(inst) => inst,
            None => {
                assert(match_views(self.matches@) =~= matches_before);
                return Err(ParseError::UnresolvedReference);
            },
        };
        assert(match_views(self.matches@) =~= matches_before.remove(fingerprint));
        assert(match_ok(old(self)@, fingerprint));
        inst.line_no = Some(self.lines + 1);
        inst.resulting_term = resulting;
        inst.z3_gen = generation;
        let q = inst.quant;
        let iidx = next_instantiation_key(&self.instantiations);
        let ghost insts_before = inst_views(instantiation_arena(self.instantiations));
        let ghost quants_before = quant_views(quantifier_arena(self.quantifiers));
        let ghost iv = inst@;
        push_instantiation(&mut self.instantiations, inst);
        assert(inst_views(instantiation_arena(self.instantiations)) =~= insts_before.push(iv));
        self.inst_stack.push(iidx);
        let quantifier = quantifier_at_mut(&mut self.quantifiers, q);
        quantifier.instances.push(iidx);
        if quantifier.cost < usize::MAX {
            quantifier.cost = quantifier.cost + 1;
        }
        assert(quant_views(quantifier_arena(self.quantifiers)) =~= quants_before.update(
            q as int,
            with_instance_count(quants_before[q as int], iidx),
        ));
        self.count_line();
        Ok(())
    }

    /// Reads the end of the innermost open instance.
    pub fn end_of_instance(&mut self) -> (r: Result<(), ParseError>)
        requires
            old(self)@.wf(),
            old(self).lines < usize::MAX,
        ensures
            outcome(*old(self), *final(self), r, counted(end_of_instance_spec(old(self)@))),
            final(self)@.wf(),
    {
        proof {
            if end_of_instance_spec(old(self)@) is Ok {
                lemma_end_of_instance_wf(old(self)@);
                lemma_bump_wf(end_of_instance_spec(old(self)@)->Ok_0);
            }
        }
        if self.inst_stack.len() == 0 {
            return Err(ParseError::StackUnderflow);
        }
        let iidx = self.inst_stack[self.inst_stack.len() - 1];
        self.inst_stack.pop();
        let inst = instantiation_at(&self.instantiations, iidx);
        let ghost iv = inst@;
        let match_line = inst.match_line_no;
        let line_no = inst.line_no;
        let quant = inst.quant;
        let quant_discovered = inst.quant_discovered;
        let ghost temp_before = temp_views(self.temp_dependencies@);
        let pending = fx_remove(&mut self.temp_dependencies, match_line);
        assert(temp_views(self.temp_dependencies@) =~= temp_before.remove(match_line));
        match pending {
            Some(deps) => {
                let mut i: usize = 0;
                while i < deps.len()
                    invariant
                        0 <= i <= deps.len(),
                        iv.line_no == line_no,
                        iv.quant == quant,
                        iv.quant_discovered == quant_discovered,
                        self.dependencies@ == old(self).dependencies@ + finalized(
                            deps@.take(i as int),
                            iv,
                        ),
                        self.version_info == old(self).version_info,
                        self.idx_map == old(self).idx_map,
                        self.terms == old(self).terms,
                        self.quantifiers == old(self).quantifiers,
                        self.matches == old(self).matches,
                        self.instantiations == old(self).instantiations,
                        self.inst_stack@ == old(self).inst_stack@.drop_last(),
                        temp_views(self.temp_dependencies@) == temp_before.remove(match_line),
                        self.lines == old(self).lines,
                    decreases deps.len() - i,
                {
                    let d = deps[i];
                    self.dependencies.push(
                        Dependency {
                            from: d.from,
                            to: line_no,
                            blamed: d.blamed,
                            dep_type: d.dep_type,
                            quant,
                            quant_discovered,
                        },
                    );
                    i += 1;
                }
                assert(deps@.take(deps.len() as int) =~= deps@);
            },
            None => {
            },
        }
        self.count_line();
        Ok(())
    }
}

} // verus!
