//! Finding the earlier instantiations that a match depends on: those that
//! produced the terms it blames, and those that produced the equalities
//! which explain the pairs it blames.

use crate::arena::{instantiation_at, term_at};
use crate::idx_map::IdxMap;
use crate::items::{
    from_to, BlamedTermItem, DepType, Dependency, EqualityExpl, EqualityExplView, InstIdx,
    ParseError, TermIdx,
};
use crate::resolve::{parse_existing_id, resolve};
use crate::state::{inst_ok, term_ok, ParserView, Z3Parser};
use crate::text::{copy_range, ends_with, starts_with, views};
use crate::tuples::{CLOSE, OPEN};
use vstd::prelude::*;

verus! {

/// The blamed items that a run of tokens spells: an identifier alone, or two
/// tokens `(A` and `B)` for a pair of terms that were found equal.
pub open spec fn blamed_items(ids: Map<Seq<u8>, TermIdx>, ts: Seq<Seq<u8>>) -> Result<
    Seq<BlamedTermItem>,
    ParseError,
>
    decreases ts.len(),
{
    if ts.len() == 0 {
        Ok(Seq::empty())
    } else if starts_with(ts[0], OPEN) {
        if ts.len() < 2 || !ends_with(ts[1], CLOSE) {
            Err(ParseError::Malformed)
        } else {
            match resolve(ids, ts[0].skip(1)) {
                Err(e) => Err(e),
                Ok(a) => match resolve(ids, ts[1].drop_last()) {
                    Err(e) => Err(e),
                    Ok(b) => match blamed_items(ids, ts.skip(2)) {
                        Err(e) => Err(e),
                        Ok(rest) => Ok(seq![BlamedTermItem::Pair(a, b)] + rest),
                    },
                },
            }
        }
    } else {
        match resolve(ids, ts[0]) {
            Err(e) => Err(e),
            Ok(a) => match blamed_items(ids, ts.skip(1)) {
                Err(e) => Err(e),
                Ok(rest) => Ok(seq![BlamedTermItem::Single(a)] + rest),
            },
        }
    }
}

/// Whether every term that the items name is below `n`.
pub open spec fn items_in_range(items: Seq<BlamedTermItem>, n: int) -> bool {
    forall|k: int| 0 <= k < items.len() ==> item_in_range(#[trigger] items[k], n)
}

/// Whether every term that the item names is below `n`.
pub open spec fn item_in_range(item: BlamedTermItem, n: int) -> bool {
    match item {
        BlamedTermItem::Single(a) => a < n,
        BlamedTermItem::Pair(a, b) => a < n && b < n,
    }
}

/// The items that a run spells name terms that the table binds.
pub proof fn lemma_blamed_items_bound(ids: Map<Seq<u8>, TermIdx>, ts: Seq<Seq<u8>>, n: int)
    requires
        blamed_items(ids, ts) is Ok,
        forall|id: Seq<u8>| ids.contains_key(id) ==> #[trigger] ids[id] < n,
    ensures
        items_in_range(blamed_items(ids, ts)->Ok_0, n),
    decreases ts.len(),
{
    if ts.len() > 0 {
        if starts_with(ts[0], OPEN) {
            lemma_blamed_items_bound(ids, ts.skip(2), n);
        } else {
            lemma_blamed_items_bound(ids, ts.skip(1), n);
        }
    }
}

/// The result of reading blamed items, as the sequence that was read.
pub open spec fn items_result(r: Result<Vec<BlamedTermItem>, ParseError>) -> Result<
    Seq<BlamedTermItem>,
    ParseError,
> {
    match r {
        Ok(v) => Ok(v@),
        Err(e) => Err(e),
    }
}

/// Reads the blamed items that the tokens from `start` up to `end` spell.
pub fn gobble_blamed(ids: &IdxMap, tokens: &Vec<Vec<u8>>, start: usize, end: usize) -> (r: Result<
    Vec<BlamedTermItem>,
    ParseError,
>)
    requires
        start <= end <= tokens.len(),
    ensures
        items_result(r) == blamed_items(
            ids.terms(),
            views(tokens@).subrange(start as int, end as int),
        ),
{
    let ghost all = views(tokens@).subrange(start as int, end as int);
    let mut out: Vec<BlamedTermItem> = Vec::new();
    let mut i: usize = start;
    assert(all.skip(0) =~= all);
    while i < end
        invariant
            start <= i <= end <= tokens.len(),
            all == views(tokens@).subrange(start as int, end as int),
            blamed_items(ids.terms(), all) == match blamed_items(
                ids.terms(),
                all.skip(i - start),
            ) {
                Ok(rest) => Ok::<Seq<BlamedTermItem>, ParseError>(out@ + rest),
                Err(e) => Err::<Seq<BlamedTermItem>, ParseError>(e),
            },
        decreases end - i,
    {
        let ghost here = all.skip(i - start);
        let first = &tokens[i];
        if first.len() > 0 && first[0] == OPEN {
            if end - i < 2 {
                return Err(ParseError::Malformed);
            }
            let second = &tokens[i + 1];
            if !(second.len() > 0 && second[second.len() - 1] == CLOSE) {
                return Err(ParseError::Malformed);
            }
            let a_id = copy_range(first.as_slice(), 1, first.len());
            let b_id = copy_range(second.as_slice(), 0, second.len() - 1);
            let a = match parse_existing_id(ids, a_id.as_slice()) {
                Ok(a) => a,
                Err(e) => {
                    return Err(e);
                },
            };
            let b = match parse_existing_id(ids, b_id.as_slice()) {
                Ok(b) => b,
                Err(e) => {
                    return Err(e);
                },
            };
            let ghost before = out@;
            out.push(BlamedTermItem::Pair(a, b));
            proof {
                assert(here.skip(2) =~= all.skip(i + 2 - start));
                assert forall|rest: Seq<BlamedTermItem>|
                    before + (seq![BlamedTermItem::Pair(a, b)] + rest) == #[trigger] (out@
                        + rest) by {
                }
            }
            i += 2;
        } else {
            let a = match parse_existing_id(ids, first.as_slice()) {
                Ok(a) => a,
                Err(e) => {
                    return Err(e);
                },
            };
            let ghost before = out@;
            out.push(BlamedTermItem::Single(a));
            proof {
                assert(here.skip(1) =~= all.skip(i + 1 - start));
                assert forall|rest: Seq<BlamedTermItem>|
                    before + (seq![BlamedTermItem::Single(a)] + rest) == #[trigger] (out@
                        + rest) by {
                }
            }
            i += 1;
        }
    }
    Ok(out)
}

/// The dependency on the instantiation that produced a term, if one did. Its
/// source is the line of that instantiation; its destination is not known
/// yet.
pub open spec fn dep_for(s: ParserView, term: TermIdx, ty: DepType) -> Option<
    (InstIdx, Dependency),
> {
    match s.terms[term as int].resp_inst {
        None => None,
        Some(inst) => Some(
            (
                inst,
                Dependency {
                    from: s.instantiations[inst as int].line_no->0,
                    to: None,
                    blamed: Some(term),
                    dep_type: ty,
                    quant: s.instantiations[inst as int].quant,
                    quant_discovered: s.instantiations[inst as int].quant_discovered,
                },
            ),
        ),
    }
}

/// The dependency that one explanation gives for the pair `(f, t)`: that on
/// the producer of the equality, where the explanation leads from `f` to `t`
/// by an asserted equality.
pub open spec fn literal_dep(s: ParserView, e: EqualityExplView, f: TermIdx, t: TermIdx) -> Option<
    (InstIdx, Dependency),
> {
    if from_to(e) == (f, t) {
        match e {
            EqualityExplView::Literal { eq, .. } => dep_for(s, eq, DepType::Equality),
            _ => None,
        }
    } else {
        None
    }
}

/// The dependencies that a term's explanations give for the pair `(f, t)`,
/// in the order of the explanations.
pub open spec fn literal_deps(s: ParserView, expls: Seq<EqualityExplView>, f: TermIdx, t: TermIdx)
    -> Seq<(InstIdx, Dependency)>
    decreases expls.len(),
{
    if expls.len() == 0 {
        Seq::empty()
    } else {
        let front = literal_deps(s, expls.drop_last(), f, t);
        match literal_dep(s, expls.last(), f, t) {
            Some(d) => front.push(d),
            None => front,
        }
    }
}

/// The dependencies that one blamed item gives.
pub open spec fn item_deps(s: ParserView, item: BlamedTermItem) -> Seq<(InstIdx, Dependency)> {
    match item {
        BlamedTermItem::Single(w) => match dep_for(s, w, DepType::Term) {
            Some(d) => seq![d],
            None => Seq::empty(),
        },
        BlamedTermItem::Pair(f, t) => if f != t {
            literal_deps(s, s.terms[f as int].equality_expls, f, t)
        } else {
            Seq::empty()
        },
    }
}

/// The dependencies that a list of blamed items gives, in the order of the
/// items.
pub open spec fn blamed_deps(s: ParserView, items: Seq<BlamedTermItem>) -> Seq<
    (InstIdx, Dependency),
>
    decreases items.len(),
{
    if items.len() == 0 {
        Seq::empty()
    } else {
        blamed_deps(s, items.drop_last()) + item_deps(s, items.last())
    }
}

/// The first terms of the pairs of different terms among the items.
pub open spec fn equality_terms(items: Seq<BlamedTermItem>) -> Seq<TermIdx>
    decreases items.len(),
{
    if items.len() == 0 {
        Seq::empty()
    } else {
        let front = equality_terms(items.drop_last());
        match items.last() {
            BlamedTermItem::Pair(f, t) => if f != t {
                front.push(f)
            } else {
                front
            },
            BlamedTermItem::Single(_) => front,
        }
    }
}

/// The instantiation that a dependency leads back to.
pub open spec fn inst_of(d: (InstIdx, Dependency)) -> InstIdx {
    d.0
}

/// The dependency without the instantiation it leads back to.
pub open spec fn dep_of(d: (InstIdx, Dependency)) -> Dependency {
    d.1
}

/// The instantiations that the dependencies lead back to.
pub open spec fn insts_of(found: Seq<(InstIdx, Dependency)>) -> Seq<InstIdx> {
    found.map_values(|d: (InstIdx, Dependency)| inst_of(d))
}

/// The dependencies without the instantiations they lead back to.
pub open spec fn deps_of(found: Seq<(InstIdx, Dependency)>) -> Seq<Dependency> {
    found.map_values(|d: (InstIdx, Dependency)| dep_of(d))
}

impl Z3Parser {
    /// The dependency on the instantiation that produced a term, if one did.
    pub fn add_dependency(&self, from_term: TermIdx, dep_type: DepType) -> (r: Option<
        (InstIdx, Dependency),
    >)
        requires
            self@.wf(),
            from_term < self@.terms.len(),
        ensures
            r == dep_for(self@, from_term, dep_type),
    {
        assert(term_ok(self@, from_term as int));
        match term_at(&self.terms, from_term).resp_inst {
            None => None,
            Some(inst) => {
                assert(inst_ok(self@, inst as int));
                let instantiation = instantiation_at(&self.instantiations, inst);
                let from = match instantiation.line_no {
                    Some(line) => line,
                    None => 0,
                };
                Some(
                    (
                        inst,
                        Dependency {
                            from,
                            to: None,
                            blamed: Some(from_term),
                            dep_type,
                            quant: instantiation.quant,
                            quant_discovered: instantiation.quant_discovered,
                        },
                    ),
                )
            },
        }
    }

    /// The dependencies that a list of blamed items gives, and the first
    /// terms of its pairs of different terms.
    pub fn collect_dependencies(&self, blamed: &Vec<BlamedTermItem>) -> (r: (
        Vec<(InstIdx, Dependency)>,
        Vec<TermIdx>,
    ))
        requires
            self@.wf(),
            items_in_range(blamed@, self@.terms.len() as int),
        ensures
            r.0@ == blamed_deps(self@, blamed@),
            r.1@ == equality_terms(blamed@),
    {
        let mut found: Vec<(InstIdx, Dependency)> = Vec::new();
        let mut eqs: Vec<TermIdx> = Vec::new();
        let mut i: usize = 0;
        while i < blamed.len()
            invariant
                0 <= i <= blamed.len(),
                self@.wf(),
                items_in_range(blamed@, self@.terms.len() as int),
                found@ == blamed_deps(self@, blamed@.take(i as int)),
                eqs@ == equality_terms(blamed@.take(i as int)),
            decreases blamed.len() - i,
        {
            let ghost next = blamed@.take(i + 1);
            assert(next.drop_last() =~= blamed@.take(i as int));
            let ghost before = found@;
            match blamed[i] {
                BlamedTermItem::Single(w) => {
                    match self.add_dependency(w, DepType::Term) {
                        Some(d) => {
                            found.push(d);
                        },
                        None => {
                        },
                    }
                },
                BlamedTermItem::Pair(f, t) => {
                    if f != t {
                        let expls = &term_at(&self.terms, f).equality_expls;
                        let ghost ev = crate::items::expl_views(expls@);
                        let mut k: usize = 0;
                        while k < expls.len()
                            invariant
                                0 <= k <= expls.len(),
                                self@.wf(),
                                f < self@.terms.len(),
                                ev == crate::items::expl_views(expls@),
                                ev == self@.terms[f as int].equality_expls,
                                found@ == before + literal_deps(self@, ev.take(k as int), f, t),
                            decreases expls.len() - k,
                        {
                            let ghost upto = ev.take(k + 1);
                            assert(upto.drop_last() =~= ev.take(k as int));
                            assert(term_ok(self@, f as int));
                            let e = &expls[k];
                            let ends = e.from_to();
                            if ends.0 == f && ends.1 == t {
                                match e {
                                    EqualityExpl::Literal { eq, .. } => {
                                        match self.add_dependency(*eq, DepType::Equality) {
                                            Some(d) => {
                                                found.push(d);
                                            },
                                            None => {},
                                        }
                                    },
                                    _ => {},
                                }
                            }
                            k += 1;
                        }
                        assert(ev.take(expls.len() as int) =~= ev);
                        eqs.push(f);
                    }
                },
            }
            i += 1;
        }
        assert(blamed@.take(blamed.len() as int) =~= blamed@);
        (found, eqs)
    }
}

} // verus!
