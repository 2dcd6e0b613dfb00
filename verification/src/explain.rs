//! The lines by which the solver explains why two terms are equal.

use crate::arena::{term_arena, term_at, term_at_mut};
use crate::declare::outcome;
use crate::idx_map::IdxMap;
use crate::items::{
    expl_views, term_views, EqualityExpl, EqualityExplView, ParseError, TermIdx, TermView,
};
use crate::resolve::{parse_existing_id, resolve};
use crate::state::{counted, ParserView, Z3Parser};
use crate::wellformed::{lemma_bump_wf, lemma_eq_expl_wf};
use crate::text::{bytes_eq, is_word, to_owned_bytes, views, word};
use crate::tuples::{gobble_tuples, is_semicolon, tuples, SEMICOLON};
use vstd::prelude::*;

verus! {

/// Position of the first lone semicolon among the tokens, or their number if
/// there is none.
pub open spec fn first_semicolon(ts: Seq<Seq<u8>>) -> int
    decreases ts.len(),
{
    if ts.len() == 0 {
        0
    } else if is_semicolon(ts[0]) {
        0
    } else {
        1 + first_semicolon(ts.drop_first())
    }
}

/// The first lone semicolon is the only one with none before it.
pub proof fn lemma_first_semicolon_unique(ts: Seq<Seq<u8>>, k: int)
    requires
        0 <= k <= ts.len(),
        forall|j: int| 0 <= j < k ==> !is_semicolon(#[trigger] ts[j]),
        k < ts.len() ==> is_semicolon(ts[k]),
    ensures
        first_semicolon(ts) == k,
    decreases ts.len(),
{
    if ts.len() > 0 && k > 0 {
        lemma_first_semicolon_unique(ts.drop_first(), k - 1);
    }
}

/// Finds the first lone semicolon among the tokens from `start` up to `end`.
pub fn find_semicolon(tokens: &Vec<Vec<u8>>, start: usize, end: usize) -> (k: usize)
    requires
        start <= end <= tokens.len(),
    ensures
        start <= k <= end,
        k - start == first_semicolon(views(tokens@).subrange(start as int, end as int)),
{
    let ghost all = views(tokens@).subrange(start as int, end as int);
    let mut i: usize = start;
    while i < end
        invariant
            start <= i <= end <= tokens.len(),
            all == views(tokens@).subrange(start as int, end as int),
            forall|j: int| 0 <= j < i - start ==> !is_semicolon(#[trigger] all[j]),
        decreases end - i,
    {
        let t = &tokens[i];
        if t.len() == 1 && t[0] == SEMICOLON {
            proof {
                lemma_first_semicolon_unique(all, i - start);
            }
            return i;
        }
        i += 1;
    }
    proof {
        lemma_first_semicolon_unique(all, end - start);
    }
    end
}

/// The pairs of terms that pairs of identifiers name, or what is wrong with
/// the first identifier that names none.
pub open spec fn resolve_pairs(ids: Map<Seq<u8>, TermIdx>, ps: Seq<(Seq<u8>, Seq<u8>)>) -> Result<
    Seq<(TermIdx, TermIdx)>,
    ParseError,
>
    decreases ps.len(),
{
    if ps.len() == 0 {
        Ok(Seq::empty())
    } else {
        match resolve_pairs(ids, ps.drop_last()) {
            Err(e) => Err(e),
            Ok(front) => match resolve(ids, ps.last().0) {
                Err(e) => Err(e),
                Ok(a) => match resolve(ids, ps.last().1) {
                    Err(e) => Err(e),
                    Ok(b) => Ok(front.push((a, b))),
                },
            },
        }
    }
}

/// Where a prefix of a list of pairs fails, the list fails in the same way.
pub proof fn lemma_resolve_pairs_prefix(
    ids: Map<Seq<u8>, TermIdx>,
    ps: Seq<(Seq<u8>, Seq<u8>)>,
    k: int,
)
    requires
        0 <= k <= ps.len(),
        resolve_pairs(ids, ps.take(k)) is Err,
    ensures
        resolve_pairs(ids, ps) == resolve_pairs(ids, ps.take(k)),
    decreases ps.len(),
{
    if k == ps.len() {
        assert(ps.take(k) =~= ps);
    } else {
        assert(ps.drop_last().take(k) =~= ps.take(k));
        lemma_resolve_pairs_prefix(ids, ps.drop_last(), k);
    }
}

/// Every term of the pairs that a list resolves to is bound in the table.
pub proof fn lemma_resolve_pairs_bound(
    ids: Map<Seq<u8>, TermIdx>,
    ps: Seq<(Seq<u8>, Seq<u8>)>,
    n: int,
)
    requires
        resolve_pairs(ids, ps) is Ok,
        forall|id: Seq<u8>| ids.contains_key(id) ==> #[trigger] ids[id] < n,
    ensures
        forall|k: int|
            0 <= k < resolve_pairs(ids, ps)->Ok_0.len() ==> (#[trigger] resolve_pairs(
                ids,
                ps,
            )->Ok_0[k]).0 < n && resolve_pairs(ids, ps)->Ok_0[k].1 < n,
    decreases ps.len(),
{
    if ps.len() > 0 {
        lemma_resolve_pairs_bound(ids, ps.drop_last(), n);
    }
}

/// Finds the pairs of terms that the pairs written from `start` up to `end`
/// name.
pub fn gobble_id_pairs(ids: &IdxMap, tokens: &Vec<Vec<u8>>, start: usize, end: usize) -> (r: Result<
    Vec<(TermIdx, TermIdx)>,
    ParseError,
>)
    requires
        start <= end <= tokens.len(),
    ensures
        seq_result(r) == id_pairs(ids.terms(), views(tokens@).subrange(start as int, end as int)),
{
    let pairs = match gobble_tuples(tokens, start, end) {
        Some(pairs) => pairs,
        None => {
            return Err(ParseError::Malformed);
        },
    };
    let ghost ps = crate::items::pair_views(pairs@);
    let mut out: Vec<(TermIdx, TermIdx)> = Vec::new();
    let mut i: usize = 0;
    while i < pairs.len()
        invariant
            0 <= i <= pairs.len(),
            start <= end <= tokens.len(),
            ps == crate::items::pair_views(pairs@),
            tuples(views(tokens@).subrange(start as int, end as int)) == Some(ps),
            resolve_pairs(ids.terms(), ps.take(i as int)) == Ok::<
                Seq<(TermIdx, TermIdx)>,
                ParseError,
            >(out@),
        decreases pairs.len() - i,
    {
        let ghost next = ps.take(i + 1);
        assert(next.drop_last() =~= ps.take(i as int));
        let a = match parse_existing_id(ids, pairs[i].0.as_slice()) {
            Ok(a) => a,
            Err(e) => {
                proof {
                    lemma_resolve_pairs_prefix(ids.terms(), ps, i + 1);
                }
                return Err(e);
            },
        };
        let b = match parse_existing_id(ids, pairs[i].1.as_slice()) {
            Ok(b) => b,
            Err(e) => {
                proof {
                    lemma_resolve_pairs_prefix(ids.terms(), ps, i + 1);
                }
                return Err(e);
            },
        };
        out.push((a, b));
        i += 1;
    }
    assert(ps.take(pairs.len() as int) =~= ps);
    Ok(out)
}

/// Whether two lists of pairs of terms are the same.
fn same_pairs(a: &Vec<(TermIdx, TermIdx)>, b: &Vec<(TermIdx, TermIdx)>) -> (r: bool)
    ensures
        r == (a@ == b@),
{
    if a.len() != b.len() {
        return false;
    }
    let mut i: usize = 0;
    while i < a.len()
        invariant
            a.len() == b.len(),
            0 <= i <= a.len(),
            forall|j: int| 0 <= j < i ==> a@[j] == b@[j],
        decreases a.len() - i,
    {
        if a[i].0 != b[i].0 || a[i].1 != b[i].1 {
            return false;
        }
        i += 1;
    }
    assert(a@ =~= b@);
    true
}

/// Whether two lists of tokens are the same.
fn same_tokens(a: &Vec<Vec<u8>>, b: &Vec<Vec<u8>>) -> (r: bool)
    ensures
        r == (views(a@) == views(b@)),
{
    if a.len() != b.len() {
        return false;
    }
    let mut i: usize = 0;
    while i < a.len()
        invariant
            a.len() == b.len(),
            0 <= i <= a.len(),
            forall|j: int| 0 <= j < i ==> views(a@)[j] == views(b@)[j],
        decreases a.len() - i,
    {
        if !bytes_eq(a[i].as_slice(), b[i].as_slice()) {
            assert(views(a@)[i as int] != views(b@)[i as int]);
            return false;
        }
        i += 1;
    }
    assert(views(a@) =~= views(b@));
    true
}

/// Whether two explanations say the same.
pub fn same_expl(a: &EqualityExpl, b: &EqualityExpl) -> (r: bool)
    ensures
        r == (a@ == b@),
{
    match (a, b) {
        (EqualityExpl::Root { id: x }, EqualityExpl::Root { id: y }) => *x == *y,
        (
            EqualityExpl::Literal { from: f1, eq: e1, to: t1 },
            EqualityExpl::Literal { from: f2, eq: e2, to: t2 },
        ) => *f1 == *f2 && *e1 == *e2 && *t1 == *t2,
        (
            EqualityExpl::Congruence { from: f1, arg_eqs: a1, to: t1 },
            EqualityExpl::Congruence { from: f2, arg_eqs: a2, to: t2 },
        ) => *f1 == *f2 && *t1 == *t2 && same_pairs(a1, a2),
        (
            EqualityExpl::Theory { from: f1, theory: h1, to: t1 },
            EqualityExpl::Theory { from: f2, theory: h2, to: t2 },
        ) => *f1 == *f2 && *t1 == *t2 && bytes_eq(h1.as_slice(), h2.as_slice()),
        (EqualityExpl::Axiom { from: f1, to: t1 }, EqualityExpl::Axiom { from: f2, to: t2 }) => *f1
            == *f2 && *t1 == *t2,
        (
            EqualityExpl::Unknown { kind: k1, from: f1, args: a1, to: t1 },
            EqualityExpl::Unknown { kind: k2, from: f2, args: a2, to: t2 },
        ) => *f1 == *f2 && *t1 == *t2 && bytes_eq(k1.as_slice(), k2.as_slice()) && same_tokens(
            a1,
            a2,
        ),
        _ => false,
    }
}

/// The pairs of terms that a run of tokens names.
pub open spec fn id_pairs(ids: Map<Seq<u8>, TermIdx>, ts: Seq<Seq<u8>>) -> Result<
    Seq<(TermIdx, TermIdx)>,
    ParseError,
> {
    match tuples(ts) {
        None => Err(ParseError::Malformed),
        Some(ps) => resolve_pairs(ids, ps),
    }
}

/// The result of a function that gives a vector, as the sequence it holds.
pub open spec fn seq_result<T>(r: Result<Vec<T>, ParseError>) -> Result<Seq<T>, ParseError> {
    match r {
        Ok(v) => Ok(v@),
        Err(e) => Err(e),
    }
}

/// The explanation of a kind that needs a destination: what stands before
/// the semicolon depends on the kind, the destination follows it.
pub open spec fn expl_of_kind(
    ids: Map<Seq<u8>, TermIdx>,
    kind: Seq<u8>,
    from: TermIdx,
    info: Seq<Seq<u8>>,
    target: Seq<u8>,
) -> Result<EqualityExplView, ParseError> {
    if kind == word("lit") {
        if info.len() != 1 {
            Err(ParseError::Malformed)
        } else {
            match resolve(ids, info[0]) {
                Err(e) => Err(e),
                Ok(eq) => match resolve(ids, target) {
                    Err(e) => Err(e),
                    Ok(to) => Ok(EqualityExplView::Literal { from, eq, to }),
                },
            }
        }
    } else if kind == word("cg") {
        match id_pairs(ids, info) {
            Err(e) => Err(e),
            Ok(arg_eqs) => match resolve(ids, target) {
                Err(e) => Err(e),
                Ok(to) => Ok(EqualityExplView::Congruence { from, arg_eqs, to }),
            },
        }
    } else if kind == word("th") {
        if info.len() != 1 {
            Err(ParseError::Malformed)
        } else {
            match resolve(ids, target) {
                Err(e) => Err(e),
                Ok(to) => Ok(EqualityExplView::Theory { from, theory: info[0], to }),
            }
        }
    } else if kind == word("ax") {
        if info.len() != 0 {
            Err(ParseError::Malformed)
        } else {
            match resolve(ids, target) {
                Err(e) => Err(e),
                Ok(to) => Ok(EqualityExplView::Axiom { from, to }),
            }
        }
    } else {
        match resolve(ids, target) {
            Err(e) => Err(e),
            Ok(to) => Ok(EqualityExplView::Unknown { kind, from, args: info, to }),
        }
    }
}

/// The explanation that a payload spells: an identifier, a kind, and for all
/// kinds but `root` what the kind asks for, a semicolon and the destination.
pub open spec fn parse_expl(ids: Map<Seq<u8>, TermIdx>, p: Seq<Seq<u8>>) -> Result<
    EqualityExplView,
    ParseError,
> {
    if p.len() < 2 {
        Err(ParseError::Malformed)
    } else {
        match resolve(ids, p[0]) {
            Err(e) => Err(e),
            Ok(from) => {
                let rest = p.skip(2);
                if p[1] == word("root") {
                    if rest.len() == 0 {
                        Ok(EqualityExplView::Root { id: from })
                    } else {
                        Err(ParseError::Malformed)
                    }
                } else {
                    let k = first_semicolon(rest);
                    if rest.len() != k + 2 {
                        Err(ParseError::Malformed)
                    } else {
                        expl_of_kind(ids, p[1], from, rest.take(k), rest[k + 1])
                    }
                }
            },
        }
    }
}

/// What an explanation is recorded under: the term it starts from.
pub open spec fn expl_owner(e: EqualityExplView) -> TermIdx {
    crate::items::from_to(e).0
}

/// A term with one more explanation.
pub open spec fn with_expl(t: TermView, e: EqualityExplView) -> TermView {
    TermView { equality_expls: t.equality_expls.push(e), ..t }
}

/// Recording an explanation under its term, unless the term has the same
/// explanation already.
pub open spec fn eq_expl_spec(s: ParserView, p: Seq<Seq<u8>>) -> Result<ParserView, ParseError> {
    match parse_expl(s.term_ids, p) {
        Err(e) => Err(e),
        Ok(expl) => {
            let idx = expl_owner(expl) as int;
            if s.terms[idx].equality_expls.contains(expl) {
                Ok(s)
            } else {
                Ok(ParserView { terms: s.terms.update(idx, with_expl(s.terms[idx], expl)), ..s })
            }
        },
    }
}

/// The result of reading an explanation, as the explanation that was read.
pub open spec fn expl_result(r: Result<EqualityExpl, ParseError>) -> Result<
    EqualityExplView,
    ParseError,
> {
    match r {
        Ok(e) => Ok(e@),
        Err(e) => Err(e),
    }
}

/// Reads the explanation that a line spells.
pub fn parse_eq_expl(ids: &IdxMap, tokens: &Vec<Vec<u8>>) -> (r: Result<EqualityExpl, ParseError>)
    requires
        tokens.len() >= 1,
    ensures
        expl_result(r) == parse_expl(ids.terms(), views(tokens@).skip(1)),
{
    let n = tokens.len();
    if n < 3 {
        return Err(ParseError::Malformed);
    }
    let ghost p = views(tokens@).skip(1);
    let ghost rest = p.skip(2);
    assert(rest =~= views(tokens@).subrange(3, n as int));
    let from = match parse_existing_id(ids, tokens[1].as_slice()) {
        Ok(from) => from,
        Err(e) => {
            return Err(e);
        },
    };
    let kind = &tokens[2];
    if is_word(kind.as_slice(), "root") {
        if n == 3 {
            return Ok(EqualityExpl::Root { id: from });
        } else {
            return Err(ParseError::Malformed);
        }
    }
    let semi = find_semicolon(tokens, 3, n);
    if n - semi != 2 {
        return Err(ParseError::Malformed);
    }
    let ghost info = rest.take(semi - 3);
    assert(info =~= views(tokens@).subrange(3, semi as int));
    let target = &tokens[n - 1];
    if is_word(kind.as_slice(), "lit") {
        if semi - 3 != 1 {
            return Err(ParseError::Malformed);
        }
        let eq = match parse_existing_id(ids, tokens[3].as_slice()) {
            Ok(eq) => eq,
            Err(e) => {
                return Err(e);
            },
        };
        match parse_existing_id(ids, target.as_slice()) {
            Ok(to) => Ok(EqualityExpl::Literal { from, eq, to }),
            Err(e) => Err(e),
        }
    } else if is_word(kind.as_slice(), "cg") {
        let arg_eqs = match gobble_id_pairs(ids, tokens, 3, semi) {
            Ok(arg_eqs) => arg_eqs,
            Err(e) => {
                return Err(e);
            },
        };
        match parse_existing_id(ids, target.as_slice()) {
            Ok(to) => Ok(EqualityExpl::Congruence { from, arg_eqs, to }),
            Err(e) => Err(e),
        }
    } else if is_word(kind.as_slice(), "th") {
        if semi - 3 != 1 {
            return Err(ParseError::Malformed);
        }
        match parse_existing_id(ids, target.as_slice()) {
            Ok(to) => Ok(
                EqualityExpl::Theory { from, theory: to_owned_bytes(tokens[3].as_slice()), to },
            ),
            Err(e) => Err(e),
        }
    } else if is_word(kind.as_slice(), "ax") {
        if semi - 3 != 0 {
            return Err(ParseError::Malformed);
        }
        match parse_existing_id(ids, target.as_slice()) {
            Ok(to) => Ok(EqualityExpl::Axiom { from, to }),
            Err(e) => Err(e),
        }
    } else {
        match parse_existing_id(ids, target.as_slice()) {
            Ok(to) => {
                let mut args: Vec<Vec<u8>> = Vec::new();
                let mut i: usize = 3;
                while i < semi
                    invariant
                        3 <= i <= semi <= tokens.len(),
                        views(args@) == views(tokens@).subrange(3, i as int),
                    decreases semi - i,
                {
                    let ghost before = views(args@);
                    args.push(to_owned_bytes(tokens[i].as_slice()));
                    assert(views(args@) =~= before.push(tokens@[i as int]@));
                    i += 1;
                }
                Ok(
                    EqualityExpl::Unknown {
                        kind: to_owned_bytes(kind.as_slice()),
                        from,
                        args,
                        to,
                    },
                )
            },
            Err(e) => Err(e),
        }
    }
}

impl Z3Parser {
    /// Reads the line that explains an equality.
    pub fn eq_expl(&mut self, tokens: &Vec<Vec<u8>>) -> (r: Result<(), ParseError>)
        requires
            tokens.len() >= 1,
            old(self)@.wf(),
            old(self).lines < usize::MAX,
        ensures
            outcome(*old(self), *final(self), r, counted(eq_expl_spec(old(self)@, views(tokens@).skip(1)))),
            final(self)@.wf(),
    {
        proof {
            if eq_expl_spec(old(self)@, views(tokens@).skip(1)) is Ok {
                lemma_eq_expl_wf(old(self)@, views(tokens@).skip(1));
                lemma_bump_wf(eq_expl_spec(old(self)@, views(tokens@).skip(1))->Ok_0);
            }
        }
        let expl = match parse_eq_expl(&self.idx_map, tokens) {
            Ok(expl) => expl,
            Err(e) => {
                return Err(e);
            },
        };
        let idx = expl.from_to().0;
        let ghost ev = expl@;
        let ghost known = self@.terms[idx as int].equality_expls;
        let mut i: usize = 0;
        while i < term_at(&self.terms, idx).equality_expls.len()
            invariant
                idx < self@.terms.len(),
                *self == *old(self),
                self.lines < usize::MAX,
                counted(eq_expl_spec(old(self)@, views(tokens@).skip(1))) matches Ok(t) ==> t.wf(),
                ev == expl@,
                known == self@.terms[idx as int].equality_expls,
                0 <= i <= known.len(),
                forall|j: int| 0 <= j < i ==> known[j] != ev,
                eq_expl_spec(old(self)@, views(tokens@).skip(1)) == if known.contains(ev) {
                    Ok::<ParserView, ParseError>(old(self)@)
                } else {
                    Ok::<ParserView, ParseError>(
                        ParserView {
                            terms: old(self)@.terms.update(
                                idx as int,
                                with_expl(old(self)@.terms[idx as int], ev),
                            ),
                            ..old(self)@
                        },
                    )
                },
            decreases known.len() - i,
        {
            if same_expl(&term_at(&self.terms, idx).equality_expls[i], &expl) {
                assert(known[i as int] == ev);
                self.count_line();
                return Ok(());
            }
            i += 1;
        }
        let ghost before = term_views(term_arena(self.terms));
        term_at_mut(&mut self.terms, idx).equality_expls.push(expl);
        proof {
            assert(expl_views(term_arena(self.terms)[idx as int].equality_expls@) =~= known.push(ev));
            assert(term_views(term_arena(self.terms)) =~= before.update(
                idx as int,
                with_expl(before[idx as int], ev),
            ));
        }
        self.count_line();
        Ok(())
    }
}

/// The term that an explanation is recorded under is the one that the first
/// identifier of the payload names.
pub proof fn lemma_parse_expl_owner(ids: Map<Seq<u8>, TermIdx>, p: Seq<Seq<u8>>)
    requires
        parse_expl(ids, p) is Ok,
    ensures
        ids.contains_key(p[0]),
        expl_owner(parse_expl(ids, p)->Ok_0) == ids[p[0]],
{
}

} // verus!
