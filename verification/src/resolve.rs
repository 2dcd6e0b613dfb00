//! Reading identifiers off a line and finding the terms that they name.

use crate::idx_map::IdxMap;
use crate::items::{ParseError, TermIdx};
use crate::text::{find, views};
use vstd::prelude::*;

verus! {

/// The byte `#`, which every term identifier holds.
pub const HASH: u8 = 35;

/// Whether a token has the shape of a term identifier: a namespace, which
/// may be empty, then `#`, then what numbers the term in its namespace.
pub open spec fn is_term_id(t: Seq<u8>) -> bool {
    find(t, HASH) < t.len()
}

/// The term that a token names. A token that is no identifier is refused as
/// malformed; an identifier that names nothing, as unresolved.
pub open spec fn resolve(ids: Map<Seq<u8>, TermIdx>, t: Seq<u8>) -> Result<TermIdx, ParseError> {
    if !is_term_id(t) {
        Err(ParseError::Malformed)
    } else if ids.contains_key(t) {
        Ok(ids[t])
    } else {
        Err(ParseError::UnresolvedReference)
    }
}

/// The terms that a run of tokens names, or what is wrong with the first
/// token that names none.
pub open spec fn resolve_all(ids: Map<Seq<u8>, TermIdx>, ts: Seq<Seq<u8>>) -> Result<
    Seq<TermIdx>,
    ParseError,
>
    decreases ts.len(),
{
    if ts.len() == 0 {
        Ok(Seq::empty())
    } else {
        match resolve_all(ids, ts.drop_last()) {
            Err(e) => Err(e),
            Ok(front) => match resolve(ids, ts.last()) {
                Err(e) => Err(e),
                Ok(i) => Ok(front.push(i)),
            },
        }
    }
}

/// Where a prefix of a run fails, the run fails in the same way.
pub proof fn lemma_resolve_all_prefix(ids: Map<Seq<u8>, TermIdx>, ts: Seq<Seq<u8>>, k: int)
    requires
        0 <= k <= ts.len(),
        resolve_all(ids, ts.take(k)) is Err,
    ensures
        resolve_all(ids, ts) == resolve_all(ids, ts.take(k)),
    decreases ts.len(),
{
    if k == ts.len() {
        assert(ts.take(k) =~= ts);
    } else {
        assert(ts.drop_last().take(k) =~= ts.take(k));
        lemma_resolve_all_prefix(ids, ts.drop_last(), k);
    }
}

/// Every term that a run resolves to is bound in the table, and there is one
/// for each token.
pub proof fn lemma_resolve_all_bound(ids: Map<Seq<u8>, TermIdx>, ts: Seq<Seq<u8>>)
    requires
        resolve_all(ids, ts) is Ok,
    ensures
        resolve_all(ids, ts)->Ok_0.len() == ts.len(),
        forall|k: int|
            0 <= k < ts.len() ==> ids.contains_key(#[trigger] ts[k]) && resolve_all(
                ids,
                ts,
            )->Ok_0[k] == ids[ts[k]],
    decreases ts.len(),
{
    if ts.len() > 0 {
        lemma_resolve_all_bound(ids, ts.drop_last());
        let front = resolve_all(ids, ts.drop_last())->Ok_0;
        let all = resolve_all(ids, ts)->Ok_0;
        assert forall|k: int| 0 <= k < ts.len() implies ids.contains_key(#[trigger] ts[k])
            && all[k] == ids[ts[k]] by {
            if k < ts.len() - 1 {
                assert(ts.drop_last()[k] == ts[k]);
            }
        }
    }
}

/// Whether a token has the shape of a term identifier.
pub fn check_term_id(t: &[u8]) -> (r: bool)
    ensures
        r == is_term_id(t@),
{
    let mut i: usize = 0;
    while i < t.len()
        invariant
            0 <= i <= t.len(),
            forall|j: int| 0 <= j < i ==> t@[j] != HASH,
        decreases t.len() - i,
    {
        if t[i] == HASH {
            proof {
                crate::text::lemma_find_unique(t@, HASH, i as int);
            }
            return true;
        }
        i += 1;
    }
    proof {
        crate::text::lemma_find_unique(t@, HASH, t.len() as int);
    }
    false
}

/// Finds the term that a token names.
pub fn parse_existing_id(ids: &IdxMap, t: &[u8]) -> (r: Result<TermIdx, ParseError>)
    ensures
        r == resolve(ids.terms(), t@),
{
    if !check_term_id(t) {
        return Err(ParseError::Malformed);
    }
    match ids.get_term(t) {
        Some(i) => Ok(i),
        None => Err(ParseError::UnresolvedReference),
    }
}

/// Finds the terms that the tokens from `start` up to `end` name.
pub fn gobble_children(ids: &IdxMap, tokens: &Vec<Vec<u8>>, start: usize, end: usize) -> (r: Result<
    Vec<TermIdx>,
    ParseError,
>)
    requires
        start <= end <= tokens.len(),
    ensures
        match r {
            Ok(v) => resolve_all(ids.terms(), views(tokens@).subrange(start as int, end as int))
                == Ok::<Seq<TermIdx>, ParseError>(v@),
            Err(e) => resolve_all(ids.terms(), views(tokens@).subrange(start as int, end as int))
                == Err::<Seq<TermIdx>, ParseError>(e),
        },
{
    let ghost all = views(tokens@).subrange(start as int, end as int);
    let mut out: Vec<TermIdx> = Vec::new();
    let mut i: usize = start;
    while i < end
        invariant
            start <= i <= end <= tokens.len(),
            all == views(tokens@).subrange(start as int, end as int),
            resolve_all(ids.terms(), all.take(i - start)) == Ok::<Seq<TermIdx>, ParseError>(out@),
        decreases end - i,
    {
        let ghost next = all.take(i + 1 - start);
        assert(next.drop_last() =~= all.take(i - start));
        match parse_existing_id(ids, tokens[i].as_slice()) {
            Ok(idx) => {
                out.push(idx);
            },
            Err(e) => {
                proof {
                    lemma_resolve_all_prefix(ids.terms(), all, i + 1 - start);
                }
                return Err(e);
            },
        }
        i += 1;
    }
    assert(all.take(end - start) =~= all);
    Ok(out)
}

} // verus!
