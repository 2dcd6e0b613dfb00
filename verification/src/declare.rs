//! The lines that declare terms: quantifiers, bound variables, applications
//! and proof steps.

use crate::arena::{
    next_quantifier_key, next_term_key, push_quantifier, push_term, quantifier_arena, term_arena,
    term_at_mut,
};
use crate::items::{
    ParseError, QuantKind, QuantKindView, Quantifier, QuantifierView, Term, TermIdx, TermKind,
    TermKindView, TermView, term_views, quant_views,
};
use crate::resolve::{check_term_id, gobble_children, is_term_id, resolve_all};
use crate::state::{counted, ParserView, Z3Parser};
use crate::wellformed::{lemma_bump_wf, lemma_mk_proof_app_wf, lemma_mk_quant_wf, lemma_mk_var_wf};
use crate::text::{decimal, parse_decimal, to_owned_bytes, views};
use vstd::prelude::*;

verus! {

/// A term with one more term that depends on it.
pub open spec fn push_dep(t: TermView, idx: TermIdx) -> TermView {
    TermView { dep_term_ids: t.dep_term_ids.push(idx), ..t }
}

/// The arena after each of the children, in turn, was told of its new parent.
pub open spec fn add_parent(ts: Seq<TermView>, children: Seq<TermIdx>, idx: TermIdx) -> Seq<
    TermView,
>
    decreases children.len(),
{
    if children.len() == 0 {
        ts
    } else {
        let prev = add_parent(ts, children.drop_last(), idx);
        let c = children.last() as int;
        if c < prev.len() {
            prev.update(c, push_dep(prev[c], idx))
        } else {
            prev
        }
    }
}

/// The state after a term was added under an identifier: the term is the
/// last of the arena, its children know it, and the identifier names it from
/// now on.
pub open spec fn with_new_term(s: ParserView, id: Seq<u8>, t: TermView) -> ParserView {
    ParserView {
        terms: add_parent(s.terms, t.child_ids, s.terms.len() as usize).push(t),
        term_ids: s.term_ids.insert(id, s.terms.len() as usize),
        ..s
    }
}

/// Telling children of a new parent adds no term and takes none away.
pub proof fn lemma_add_parent_len(ts: Seq<TermView>, children: Seq<TermIdx>, idx: TermIdx)
    ensures
        add_parent(ts, children, idx).len() == ts.len(),
    decreases children.len(),
{
    if children.len() > 0 {
        lemma_add_parent_len(ts, children.drop_last(), idx);
    }
}

/// A term as it is when it is declared: nothing attached to it yet.
pub open spec fn fresh_term(id: Seq<u8>, kind: TermKindView, children: Seq<TermIdx>) -> TermView {
    TermView {
        id,
        kind,
        meaning: None,
        child_ids: children,
        dep_term_ids: Seq::empty(),
        resp_inst: None,
        equality_expls: Seq::empty(),
    }
}

/// A quantifier as it is when it is declared: no instance yet.
pub open spec fn fresh_quantifier(kind: QuantKindView, num_vars: usize, term: Option<TermIdx>)
    -> QuantifierView {
    QuantifierView { kind, num_vars, term, instances: Seq::empty(), cost: 0, vars: None }
}

/// What a line's handler returns and leaves behind, against what is expected
/// of it: the state that is expected, or the error that is expected and the
/// state as it was.
pub open spec fn outcome(
    before: Z3Parser,
    after: Z3Parser,
    r: Result<(), ParseError>,
    expected: Result<ParserView, ParseError>,
) -> bool {
    match r {
        Ok(_) => expected == Ok::<ParserView, ParseError>(after@),
        Err(e) => expected == Err::<ParserView, ParseError>(e) && after@ == before@,
    }
}

/// Declaring a bound variable. The payload is an identifier and the number
/// of the variable.
pub open spec fn mk_var_spec(s: ParserView, p: Seq<Seq<u8>>) -> Result<ParserView, ParseError> {
    if p.len() != 2 || !is_term_id(p[0]) {
        Err(ParseError::Malformed)
    } else {
        match decimal(p[1]) {
            None => Err(ParseError::Malformed),
            Some(n) => Ok(
                with_new_term(s, p[0], fresh_term(p[0], TermKindView::Var(n), Seq::empty())),
            ),
        }
    }
}

/// Declaring an application or a proof step. The payload is an identifier, a
/// name, and the identifiers of the children, which must all be known.
pub open spec fn mk_proof_app_spec(s: ParserView, p: Seq<Seq<u8>>, is_proof: bool) -> Result<
    ParserView,
    ParseError,
> {
    if p.len() < 2 || !is_term_id(p[0]) {
        Err(ParseError::Malformed)
    } else {
        match resolve_all(s.term_ids, p.skip(2)) {
            Err(e) => Err(e),
            Ok(children) => Ok(
                with_new_term(
                    s,
                    p[0],
                    fresh_term(p[0], TermKindView::ProofOrApp { is_proof, name: p[1] }, children),
                ),
            ),
        }
    }
}

/// Declaring a quantifier. The payload is an identifier, a name, the number
/// of variables, and the identifiers of the children, of which there is at
/// least one. The term and the quantifier's record are made together.
pub open spec fn mk_quant_spec(s: ParserView, p: Seq<Seq<u8>>) -> Result<ParserView, ParseError> {
    if p.len() < 4 || !is_term_id(p[0]) {
        Err(ParseError::Malformed)
    } else {
        match decimal(p[2]) {
            None => Err(ParseError::Malformed),
            Some(num_vars) => match resolve_all(s.term_ids, p.skip(3)) {
                Err(e) => Err(e),
                Ok(children) => {
                    let t = with_new_term(
                        s,
                        p[0],
                        fresh_term(
                            p[0],
                            TermKindView::Quant(s.quantifiers.len() as usize),
                            children,
                        ),
                    );
                    Ok(
                        ParserView {
                            quantifiers: s.quantifiers.push(
                                fresh_quantifier(
                                    QuantKindView::NamedQuant(p[1]),
                                    num_vars,
                                    Some(s.terms.len() as usize),
                                ),
                            ),
                            ..t
                        },
                    )
                },
            },
        }
    }
}

/// The children that a payload names exist, in a state that is well formed.
pub proof fn lemma_children_exist(s: ParserView, ts: Seq<Seq<u8>>)
    requires
        s.wf(),
        resolve_all(s.term_ids, ts) is Ok,
    ensures
        forall|k: int|
            0 <= k < resolve_all(s.term_ids, ts)->Ok_0.len() ==> #[trigger] resolve_all(
                s.term_ids,
                ts,
            )->Ok_0[k] < s.terms.len(),
{
    crate::resolve::lemma_resolve_all_bound(s.term_ids, ts);
    let r = resolve_all(s.term_ids, ts)->Ok_0;
    assert forall|k: int| 0 <= k < r.len() implies #[trigger] r[k] < s.terms.len() by {
        assert(s.term_ids.contains_key(ts[k]));
    }
}

impl Z3Parser {
    /// Adds a term to the arena under an identifier, and gives its index.
    pub fn new_term(&mut self, id: Vec<u8>, term: Term) -> (idx: TermIdx)
        requires
            forall|k: int|
                0 <= k < term.child_ids@.len() ==> #[trigger] term.child_ids@[k] < old(
                    self,
                )@.terms.len(),
        ensures
            idx == old(self)@.terms.len(),
            final(self)@ == with_new_term(old(self)@, id@, term@),
    {
        let idx = next_term_key(&self.terms);
        let mut k: usize = 0;
        while k < term.child_ids.len()
            invariant
                0 <= k <= term.child_ids.len(),
                idx == old(self)@.terms.len(),
                self@.terms.len() == idx,
                forall|j: int|
                    0 <= j < term.child_ids@.len() ==> #[trigger] term.child_ids@[j] < idx,
                term_views(term_arena(self.terms)) == add_parent(
                    term_views(term_arena(old(self).terms)),
                    term.child_ids@.take(k as int),
                    idx,
                ),
                self.version_info == old(self).version_info,
                self.idx_map == old(self).idx_map,
                self.quantifiers == old(self).quantifiers,
                self.matches == old(self).matches,
                self.instantiations == old(self).instantiations,
                self.inst_stack == old(self).inst_stack,
                self.temp_dependencies == old(self).temp_dependencies,
                self.dependencies == old(self).dependencies,
                self.lines == old(self).lines,
            decreases term.child_ids.len() - k,
        {
            let c = term.child_ids[k];
            term_at_mut(&mut self.terms, c).dep_term_ids.push(idx);
            proof {
                let next = term.child_ids@.take(k + 1);
                assert(next.drop_last() =~= term.child_ids@.take(k as int));
            }
            k += 1;
        }
        assert(term.child_ids@.take(term.child_ids@.len() as int) =~= term.child_ids@);
        let ghost before = term_views(term_arena(self.terms));
        let ghost tv = term@;
        push_term(&mut self.terms, term);
        assert(term_views(term_arena(self.terms)) =~= before.push(tv));
        self.idx_map.register_term(id, idx);
        idx
    }

    /// Reads the declaration of a bound variable.
    pub fn mk_var(&mut self, tokens: &Vec<Vec<u8>>) -> (r: Result<(), ParseError>)
        requires
            tokens.len() >= 1,
            old(self)@.wf(),
            old(self).lines < usize::MAX,
        ensures
            outcome(*old(self), *final(self), r, counted(mk_var_spec(old(self)@, views(tokens@).skip(1)))),
            final(self)@.wf(),
    {
        proof {
            if mk_var_spec(old(self)@, views(tokens@).skip(1)) is Ok {
                lemma_mk_var_wf(old(self)@, views(tokens@).skip(1));
                lemma_bump_wf(mk_var_spec(old(self)@, views(tokens@).skip(1))->Ok_0);
            }
        }
        if tokens.len() != 3 || !check_term_id(tokens[1].as_slice()) {
            return Err(ParseError::Malformed);
        }
        let n = match parse_decimal(tokens[2].as_slice()) {
            Some(n) => n,
            None => {
                return Err(ParseError::Malformed);
            },
        };
        let term = Term {
            id: to_owned_bytes(tokens[1].as_slice()),
            kind: TermKind::Var(n),
            meaning: None,
            child_ids: Vec::new(),
            dep_term_ids: Vec::new(),
            resp_inst: None,
            equality_expls: Vec::new(),
        };
        assert(term@ =~= fresh_term(tokens@[1]@, TermKindView::Var(n), Seq::empty())) by {
            assert(term@.equality_expls =~= Seq::empty());
        }
        self.new_term(to_owned_bytes(tokens[1].as_slice()), term);
        self.count_line();
        Ok(())
    }

    /// Reads the declaration of an application or a proof step.
    pub fn mk_proof_app(&mut self, tokens: &Vec<Vec<u8>>, is_proof: bool) -> (r: Result<
        (),
        ParseError,
    >)
        requires
            tokens.len() >= 1,
            old(self)@.wf(),
            old(self).lines < usize::MAX,
        ensures
            outcome(
                *old(self),
                *final(self),
                r,
                counted(mk_proof_app_spec(old(self)@, views(tokens@).skip(1), is_proof)),
            ),
            final(self)@.wf(),
    {
        proof {
            if mk_proof_app_spec(old(self)@, views(tokens@).skip(1), is_proof) is Ok {
                lemma_mk_proof_app_wf(old(self)@, views(tokens@).skip(1), is_proof);
                lemma_bump_wf(mk_proof_app_spec(old(self)@, views(tokens@).skip(1), is_proof)->Ok_0);
            }
        }
        if tokens.len() < 3 || !check_term_id(tokens[1].as_slice()) {
            return Err(ParseError::Malformed);
        }
        let ghost p = views(tokens@).skip(1);
        assert(p.skip(2) =~= views(tokens@).subrange(3, tokens.len() as int));
        let children = match gobble_children(&self.idx_map, tokens, 3, tokens.len()) {
            Ok(children) => children,
            Err(e) => {
                return Err(e);
            },
        };
        proof {
            lemma_children_exist(self@, p.skip(2));
        }
        let ghost kind = TermKindView::ProofOrApp { is_proof, name: tokens@[2]@ };
        let ghost kids = children@;
        let term = Term {
            id: to_owned_bytes(tokens[1].as_slice()),
            kind: TermKind::ProofOrApp { is_proof, name: to_owned_bytes(tokens[2].as_slice()) },
            meaning: None,
            child_ids: children,
            dep_term_ids: Vec::new(),
            resp_inst: None,
            equality_expls: Vec::new(),
        };
        assert(term@ =~= fresh_term(tokens@[1]@, kind, kids)) by {
            assert(term@.equality_expls =~= Seq::empty());
        }
        self.new_term(to_owned_bytes(tokens[1].as_slice()), term);
        self.count_line();
        Ok(())
    }

    /// Reads the declaration of a quantifier.
    pub fn mk_quant(&mut self, tokens: &Vec<Vec<u8>>) -> (r: Result<(), ParseError>)
        requires
            tokens.len() >= 1,
            old(self)@.wf(),
            old(self).lines < usize::MAX,
        ensures
            outcome(*old(self), *final(self), r, counted(mk_quant_spec(old(self)@, views(tokens@).skip(1)))),
            final(self)@.wf(),
    {
        proof {
            if mk_quant_spec(old(self)@, views(tokens@).skip(1)) is Ok {
                lemma_mk_quant_wf(old(self)@, views(tokens@).skip(1));
                lemma_bump_wf(mk_quant_spec(old(self)@, views(tokens@).skip(1))->Ok_0);
            }
        }
        if tokens.len() < 5 || !check_term_id(tokens[1].as_slice()) {
            return Err(ParseError::Malformed);
        }
        let ghost p = views(tokens@).skip(1);
        let num_vars = match parse_decimal(tokens[3].as_slice()) {
            Some(n) => n,
            None => {
                return Err(ParseError::Malformed);
            },
        };
        assert(p.skip(3) =~= views(tokens@).subrange(4, tokens.len() as int));
        let children = match gobble_children(&self.idx_map, tokens, 4, tokens.len()) {
            Ok(children) => children,
            Err(e) => {
                return Err(e);
            },
        };
        proof {
            lemma_children_exist(self@, p.skip(3));
        }
        let qidx = next_quantifier_key(&self.quantifiers);
        let ghost kids = children@;
        let term = Term {
            id: to_owned_bytes(tokens[1].as_slice()),
            kind: TermKind::Quant(qidx),
            meaning: None,
            child_ids: children,
            dep_term_ids: Vec::new(),
            resp_inst: None,
            equality_expls: Vec::new(),
        };
        assert(term@ =~= fresh_term(tokens@[1]@, TermKindView::Quant(qidx), kids)) by {
            assert(term@.equality_expls =~= Seq::empty());
        }
        let tidx = self.new_term(to_owned_bytes(tokens[1].as_slice()), term);
        let q = Quantifier {
            kind: QuantKind::NamedQuant(to_owned_bytes(tokens[2].as_slice())),
            num_vars,
            term: Some(tidx),
            instances: Vec::new(),
            cost: 0,
            vars: None,
        };
        let ghost before = quant_views(quantifier_arena(self.quantifiers));
        let ghost qv = q@;
        push_quantifier(&mut self.quantifiers, q);
        assert(quant_views(quantifier_arena(self.quantifiers)) =~= before.push(qv));
        self.count_line();
        Ok(())
    }
}

} // verus!
