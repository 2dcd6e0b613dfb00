//! Why every state that the parser reaches is well formed.

use crate::attach::{
    attach_enode_spec, attach_meaning_spec, attach_var_names_spec, tool_version_spec,
};
use crate::declare::{
    add_parent, fresh_term, lemma_add_parent_len, lemma_children_exist, mk_proof_app_spec,
    mk_quant_spec, mk_var_spec, with_new_term,
};
use crate::dependency::{
    blamed_deps, blamed_items, dep_for, item_deps, items_in_range, lemma_blamed_items_bound,
    literal_deps,
};
use crate::explain::{eq_expl_spec, lemma_parse_expl_owner, lemma_resolve_pairs_bound, parse_expl};
use crate::instantiate::{
    after_semicolon, end_of_instance_spec, inst_discovered_spec, instance_spec, new_match_spec,
    pending_under, singles, tail_from, with_discovered, with_instance, with_match,
};
use crate::items::{
    expl_in_range, quant_of, BlamedTermItem, DepType, Dependency, DiscoveredIdView,
    EqualityExplView, Fingerprint, InstIdx, QuantIdx, TermIdx, TermKindView, TermView,
};
use crate::resolve::{resolve, resolve_all};
use crate::state::{
    bump, dep_ok, has_line, inst_ok, lines_increase, match_ok, pending_dep_ok, temp_ok, term_ok,
    ParserView,
};
use vstd::prelude::*;

verus! {

/// Whether `t` keeps the instantiations of `s`, with their lines, and has
/// read no fewer lines.
pub open spec fn extends(s: ParserView, t: ParserView) -> bool {
    &&& s.lines <= t.lines
    &&& s.instantiations.len() <= t.instantiations.len()
    &&& forall|i: int|
        0 <= i < s.instantiations.len() ==> (#[trigger] t.instantiations[i]).line_no
            == s.instantiations[i].line_no
}

/// A line on which an instantiation began stays one.
pub proof fn lemma_has_line(s: ParserView, t: ParserView, line: usize)
    requires
        extends(s, t),
        has_line(s, line),
    ensures
        has_line(t, line),
{
    let w = choose|i: int|
        0 <= i < s.instantiations.len() && (#[trigger] s.instantiations[i]).line_no == Some(line);
    assert(t.instantiations[w].line_no == Some(line));
}

/// Dependencies that are in order stay so while instantiations are added.
pub proof fn lemma_deps_extend(s: ParserView, t: ParserView)
    requires
        extends(s, t),
    ensures
        forall|d: Dependency| dep_ok(s, d) ==> #[trigger] dep_ok(t, d),
        forall|d: Dependency, m: usize|
            pending_dep_ok(s, d, m) ==> #[trigger] pending_dep_ok(t, d, m),
{
    assert forall|d: Dependency| dep_ok(s, d) implies #[trigger] dep_ok(t, d) by {
        lemma_has_line(s, t, d.to->0);
        if d.dep_type != DepType::Root {
            lemma_has_line(s, t, d.from);
        }
    }
    assert forall|d: Dependency, m: usize| pending_dep_ok(s, d, m) implies #[trigger] pending_dep_ok(
        t,
        d,
        m,
    ) by {
        if d.dep_type != DepType::Root {
            lemma_has_line(s, t, d.from);
        }
    }
}

/// What a well-formed state keeps when only its terms, quantifiers, version
/// or tables change, or lines are read: all that speaks of instantiations,
/// matches and dependencies.
pub proof fn lemma_frame(s: ParserView, t: ParserView)
    requires
        s.wf(),
        s.lines <= t.lines,
        t.instantiations == s.instantiations,
        t.inst_stack == s.inst_stack,
        t.matches == s.matches,
        t.temp_dependencies == s.temp_dependencies,
        t.dependencies == s.dependencies,
        s.quantifiers.len() <= t.quantifiers.len(),
    ensures
        forall|i: int| 0 <= i < t.instantiations.len() ==> #[trigger] inst_ok(t, i),
        lines_increase(t),
        forall|k: int|
            0 <= k < t.inst_stack.len() ==> #[trigger] t.inst_stack[k] < t.instantiations.len(),
        forall|fp: Fingerprint| t.matches.contains_key(fp) ==> #[trigger] match_ok(t, fp),
        forall|m: usize| t.temp_dependencies.contains_key(m) ==> #[trigger] temp_ok(t, m),
        forall|k: int| 0 <= k < t.dependencies.len() ==> #[trigger] dep_ok(t, t.dependencies[k]),
{
    lemma_deps_extend(s, t);
    assert forall|i: int| 0 <= i < t.instantiations.len() implies #[trigger] inst_ok(t, i) by {
        assert(inst_ok(s, i));
    }
    assert forall|fp: Fingerprint| t.matches.contains_key(fp) implies #[trigger] match_ok(
        t,
        fp,
    ) by {
        assert(match_ok(s, fp));
    }
    assert forall|m: usize| t.temp_dependencies.contains_key(m) implies #[trigger] temp_ok(
        t,
        m,
    ) by {
        assert(temp_ok(s, m));
    }
}

/// Reading a line keeps a state well formed.
pub proof fn lemma_bump_wf(s: ParserView)
    requires
        s.wf(),
        s.lines < usize::MAX,
    ensures
        bump(s).wf(),
{
    let t = bump(s);
    lemma_frame(s, t);
    assert forall|i: int| 0 <= i < t.terms.len() implies #[trigger] term_ok(t, i) by {
        assert(term_ok(s, i));
    }
}

/// Looking up a discovery key keeps the state well formed, and leaves the
/// terms and the instantiations as they were.
pub proof fn lemma_discovered_wf(s: ParserView, key: DiscoveredIdView, method: Seq<u8>)
    requires
        s.wf(),
    ensures
        with_discovered(s, key, method).0.wf(),
        with_discovered(s, key, method).0.terms == s.terms,
        with_discovered(s, key, method).0.term_ids == s.term_ids,
        with_discovered(s, key, method).0.instantiations == s.instantiations,
        with_discovered(s, key, method).0.lines == s.lines,
        with_discovered(s, key, method).1 < with_discovered(s, key, method).0.quantifiers.len(),
{
    let t = with_discovered(s, key, method).0;
    if !s.discovered.contains_key(key) {
        lemma_frame(s, t);
        assert forall|i: int| 0 <= i < t.terms.len() implies #[trigger] term_ok(t, i) by {
            assert(term_ok(s, i));
        }
    }
}

/// Telling children of a new parent changes nothing else about a term.
pub proof fn lemma_add_parent_keeps(
    ts: Seq<TermView>,
    children: Seq<TermIdx>,
    idx: TermIdx,
    i: int,
)
    requires
        0 <= i < ts.len(),
    ensures
        add_parent(ts, children, idx).len() == ts.len(),
        add_parent(ts, children, idx)[i].id == ts[i].id,
        add_parent(ts, children, idx)[i].kind == ts[i].kind,
        add_parent(ts, children, idx)[i].meaning == ts[i].meaning,
        add_parent(ts, children, idx)[i].child_ids == ts[i].child_ids,
        add_parent(ts, children, idx)[i].resp_inst == ts[i].resp_inst,
        add_parent(ts, children, idx)[i].equality_expls == ts[i].equality_expls,
    decreases children.len(),
{
    lemma_add_parent_len(ts, children, idx);
    if children.len() > 0 {
        lemma_add_parent_keeps(ts, children.drop_last(), idx, i);
        lemma_add_parent_len(ts, children.drop_last(), idx);
    }
}

/// An explanation whose terms exist still has them when terms are added.
pub proof fn lemma_expl_in_range_grows(e: EqualityExplView, n: int, m: int)
    requires
        expl_in_range(e, n),
        n <= m,
    ensures
        expl_in_range(e, m),
{
}

/// Adding a term whose children exist, and whose quantifier exists if it is
/// one, keeps the state well formed.
pub proof fn lemma_new_term_wf(s: ParserView, id: Seq<u8>, kind: TermKindView, children: Seq<TermIdx>)
    requires
        s.wf(),
        forall|k: int| 0 <= k < children.len() ==> #[trigger] children[k] < s.terms.len(),
        quant_of(kind) matches Some(q) ==> q < s.quantifiers.len(),
    ensures
        with_new_term(s, id, fresh_term(id, kind, children)).wf(),
{
    let t = with_new_term(s, id, fresh_term(id, kind, children));
    let n = s.terms.len() as int;
    lemma_add_parent_len(s.terms, children, n as usize);
    lemma_frame(s, t);
    assert forall|i: int| 0 <= i < t.terms.len() implies #[trigger] term_ok(t, i) by {
        if i < n {
            lemma_add_parent_keeps(s.terms, children, n as usize, i);
            assert(term_ok(s, i));
            assert forall|k: int| 0 <= k < t.terms[i].equality_expls.len() implies expl_in_range(
                #[trigger] t.terms[i].equality_expls[k],
                t.terms.len() as int,
            ) by {
                lemma_expl_in_range_grows(s.terms[i].equality_expls[k], n, n + 1);
            }
        }
    }
}

/// Declaring a bound variable keeps the state well formed.
pub proof fn lemma_mk_var_wf(s: ParserView, p: Seq<Seq<u8>>)
    requires
        s.wf(),
        mk_var_spec(s, p) is Ok,
    ensures
        mk_var_spec(s, p)->Ok_0.wf(),
{
    lemma_new_term_wf(s, p[0], TermKindView::Var(crate::text::decimal(p[1])->0), Seq::empty());
}

/// Declaring an application or a proof step keeps the state well formed.
pub proof fn lemma_mk_proof_app_wf(s: ParserView, p: Seq<Seq<u8>>, is_proof: bool)
    requires
        s.wf(),
        mk_proof_app_spec(s, p, is_proof) is Ok,
    ensures
        mk_proof_app_spec(s, p, is_proof)->Ok_0.wf(),
{
    lemma_children_exist(s, p.skip(2));
    lemma_new_term_wf(
        s,
        p[0],
        TermKindView::ProofOrApp { is_proof, name: p[1] },
        resolve_all(s.term_ids, p.skip(2))->Ok_0,
    );
}

/// Declaring a quantifier keeps the state well formed.
pub proof fn lemma_mk_quant_wf(s: ParserView, p: Seq<Seq<u8>>)
    requires
        s.wf(),
        mk_quant_spec(s, p) is Ok,
    ensures
        mk_quant_spec(s, p)->Ok_0.wf(),
{
    let children = resolve_all(s.term_ids, p.skip(3))->Ok_0;
    lemma_children_exist(s, p.skip(3));
    // The term alone, in a state that already has room for its quantifier.
    let t = mk_quant_spec(s, p)->Ok_0;
    let n = s.terms.len() as int;
    lemma_add_parent_len(s.terms, children, n as usize);
    lemma_frame(s, t);
    assert forall|i: int| 0 <= i < t.terms.len() implies #[trigger] term_ok(t, i) by {
        if i < n {
            lemma_add_parent_keeps(s.terms, children, n as usize, i);
            assert(term_ok(s, i));
            assert forall|k: int| 0 <= k < t.terms[i].equality_expls.len() implies expl_in_range(
                #[trigger] t.terms[i].equality_expls[k],
                t.terms.len() as int,
            ) by {
                lemma_expl_in_range_grows(s.terms[i].equality_expls[k], n, n + 1);
            }
        }
    }
}

/// A state that differs from a well-formed one only in the solver's name and
/// version is well formed.
pub proof fn lemma_version_wf(s: ParserView, t: ParserView)
    requires
        s.wf(),
        t == (ParserView { version_info: t.version_info, ..s }),
    ensures
        t.wf(),
{
    lemma_frame(s, t);
    assert forall|i: int| 0 <= i < t.terms.len() implies #[trigger] term_ok(t, i) by {
        assert(term_ok(s, i));
    }
}

/// Naming the solver keeps the state well formed.
pub proof fn lemma_tool_version_wf(s: ParserView, p: Seq<Seq<u8>>)
    requires
        s.wf(),
        tool_version_spec(s, p) is Ok,
    ensures
        tool_version_spec(s, p)->Ok_0.wf(),
{
    lemma_version_wf(s, tool_version_spec(s, p)->Ok_0);
}

/// Attaching a meaning keeps the state well formed.
pub proof fn lemma_attach_meaning_wf(s: ParserView, p: Seq<Seq<u8>>)
    requires
        s.wf(),
        attach_meaning_spec(s, p) is Ok,
    ensures
        attach_meaning_spec(s, p)->Ok_0.wf(),
{
    let t = attach_meaning_spec(s, p)->Ok_0;
    lemma_frame(s, t);
    assert forall|i: int| 0 <= i < t.terms.len() implies #[trigger] term_ok(t, i) by {
        assert(term_ok(s, i));
    }
}

/// Attaching the variables of a quantifier keeps the state well formed.
pub proof fn lemma_attach_var_names_wf(s: ParserView, p: Seq<Seq<u8>>)
    requires
        s.wf(),
        attach_var_names_spec(s, p) is Ok,
    ensures
        attach_var_names_spec(s, p)->Ok_0.wf(),
{
    let t = attach_var_names_spec(s, p)->Ok_0;
    assert(term_ok(s, s.term_ids[p[0]] as int));
    lemma_frame(s, t);
    assert forall|i: int| 0 <= i < t.terms.len() implies #[trigger] term_ok(t, i) by {
        assert(term_ok(s, i));
    }
}

/// Attaching a term to the open instance keeps the state well formed.
pub proof fn lemma_attach_enode_wf(s: ParserView, p: Seq<Seq<u8>>)
    requires
        s.wf(),
        attach_enode_spec(s, p) is Ok,
    ensures
        attach_enode_spec(s, p)->Ok_0.wf(),
{
    let t = attach_enode_spec(s, p)->Ok_0;
    if s.inst_stack.len() > 0 {
        lemma_deps_extend(s, t);
        assert forall|i: int| 0 <= i < t.terms.len() implies #[trigger] term_ok(t, i) by {
            assert(term_ok(s, i));
        }
        assert forall|i: int| 0 <= i < t.instantiations.len() implies #[trigger] inst_ok(
            t,
            i,
        ) by {
            assert(inst_ok(s, i));
        }
        assert forall|fp: Fingerprint| t.matches.contains_key(fp) implies #[trigger] match_ok(
            t,
            fp,
        ) by {
            assert(match_ok(s, fp));
        }
        assert forall|m: usize| t.temp_dependencies.contains_key(m) implies #[trigger] temp_ok(
            t,
            m,
        ) by {
            assert(temp_ok(s, m));
        }
    }
}

/// The terms that an explanation names are bound in the table.
pub proof fn lemma_parse_expl_in_range(ids: Map<Seq<u8>, TermIdx>, p: Seq<Seq<u8>>, n: int)
    requires
        parse_expl(ids, p) is Ok,
        forall|id: Seq<u8>| ids.contains_key(id) ==> #[trigger] ids[id] < n,
    ensures
        expl_in_range(parse_expl(ids, p)->Ok_0, n),
{
    let rest = p.skip(2);
    if p[1] != crate::text::word("root") {
        let k = crate::explain::first_semicolon(rest);
        let info = rest.take(k);
        if p[1] != crate::text::word("lit") && p[1] == crate::text::word("cg") {
            lemma_resolve_pairs_bound(ids, crate::tuples::tuples(info)->0, n);
        }
    }
}

/// Recording an explanation keeps the state well formed.
pub proof fn lemma_eq_expl_wf(s: ParserView, p: Seq<Seq<u8>>)
    requires
        s.wf(),
        eq_expl_spec(s, p) is Ok,
    ensures
        eq_expl_spec(s, p)->Ok_0.wf(),
{
    let t = eq_expl_spec(s, p)->Ok_0;
    lemma_parse_expl_owner(s.term_ids, p);
    lemma_parse_expl_in_range(s.term_ids, p, s.terms.len() as int);
    lemma_frame(s, t);
    assert forall|i: int| 0 <= i < t.terms.len() implies #[trigger] term_ok(t, i) by {
        assert(term_ok(s, i));
    }
}

/// What holds of a dependency when it is found: its source is a line already
/// read, on which an instantiation began, and it has no destination yet.
pub open spec fn found_ok(s: ParserView, d: (InstIdx, Dependency)) -> bool {
    &&& has_line(s, d.1.from)
    &&& d.1.from <= s.lines
    &&& d.1.to is None
}

/// Each dependency that blamed items give comes from an instantiation that
/// began on a line already read.
pub proof fn lemma_blamed_deps_ok(s: ParserView, items: Seq<BlamedTermItem>, k: int)
    requires
        s.wf(),
        items_in_range(items, s.terms.len() as int),
        0 <= k < blamed_deps(s, items).len(),
    ensures
        found_ok(s, blamed_deps(s, items)[k]),
    decreases items.len(),
{
    if items.len() > 0 {
        let front = blamed_deps(s, items.drop_last());
        if k < front.len() {
            lemma_blamed_deps_ok(s, items.drop_last(), k);
        } else {
            lemma_item_deps_ok(s, items.last(), k - front.len());
        }
    }
}

/// Each dependency that one blamed item gives comes from an instantiation
/// that began on a line already read.
pub proof fn lemma_item_deps_ok(s: ParserView, item: BlamedTermItem, k: int)
    requires
        s.wf(),
        crate::dependency::item_in_range(item, s.terms.len() as int),
        0 <= k < item_deps(s, item).len(),
    ensures
        found_ok(s, item_deps(s, item)[k]),
{
    match item {
        BlamedTermItem::Single(w) => {
            lemma_dep_for_ok(s, w, DepType::Term);
        },
        BlamedTermItem::Pair(f, t) => {
            assert(term_ok(s, f as int));
            lemma_literal_deps_ok(s, s.terms[f as int].equality_expls, f, t, k);
        },
    }
}

/// The dependency on the producer of a term comes from an instantiation that
/// began on a line already read.
pub proof fn lemma_dep_for_ok(s: ParserView, term: TermIdx, ty: DepType)
    requires
        s.wf(),
        term < s.terms.len(),
        dep_for(s, term, ty) is Some,
    ensures
        found_ok(s, dep_for(s, term, ty)->0),
{
    assert(term_ok(s, term as int));
    let inst = s.terms[term as int].resp_inst->0;
    assert(inst_ok(s, inst as int));
}

/// Each dependency that explanations give comes from an instantiation that
/// began on a line already read.
pub proof fn lemma_literal_deps_ok(
    s: ParserView,
    expls: Seq<EqualityExplView>,
    f: TermIdx,
    t: TermIdx,
    k: int,
)
    requires
        s.wf(),
        forall|j: int| 0 <= j < expls.len() ==> expl_in_range(
            #[trigger] expls[j],
            s.terms.len() as int,
        ),
        0 <= k < literal_deps(s, expls, f, t).len(),
    ensures
        found_ok(s, literal_deps(s, expls, f, t)[k]),
    decreases expls.len(),
{
    if expls.len() > 0 {
        let front = literal_deps(s, expls.drop_last(), f, t);
        if k < front.len() {
            lemma_literal_deps_ok(s, expls.drop_last(), f, t, k);
        } else {
            match expls.last() {
                EqualityExplView::Literal { eq, .. } => {
                    lemma_dep_for_ok(s, eq, DepType::Equality);
                },
                _ => {},
            }
        }
    }
}

/// Keeping a match that was read on the next line keeps the state well
/// formed, once that line counts as read.
pub proof fn lemma_with_match_wf(
    s: ParserView,
    fingerprint: Fingerprint,
    quant: QuantIdx,
    discovered: bool,
    pattern: Option<TermIdx>,
    bound: Seq<TermIdx>,
    blamed: Seq<BlamedTermItem>,
)
    requires
        s.wf(),
        s.lines < usize::MAX,
        quant < s.quantifiers.len(),
        items_in_range(blamed, s.terms.len() as int),
    ensures
        bump(with_match(s, fingerprint, quant, discovered, pattern, bound, blamed)).wf(),
{
    let t = bump(with_match(s, fingerprint, quant, discovered, pattern, bound, blamed));
    let m = (s.lines + 1) as usize;
    let found = blamed_deps(s, blamed);
    lemma_deps_extend(s, t);
    assert forall|i: int| 0 <= i < t.terms.len() implies #[trigger] term_ok(t, i) by {
        assert(term_ok(s, i));
    }
    assert forall|i: int| 0 <= i < t.instantiations.len() implies #[trigger] inst_ok(t, i) by {
        assert(inst_ok(s, i));
    }
    assert forall|fp: Fingerprint| t.matches.contains_key(fp) implies #[trigger] match_ok(
        t,
        fp,
    ) by {
        if fp != fingerprint {
            assert(match_ok(s, fp));
        }
    }
    assert forall|key: usize| t.temp_dependencies.contains_key(key) implies #[trigger] temp_ok(
        t,
        key,
    ) by {
        if key != m {
            assert(temp_ok(s, key));
        } else {
            assert forall|k: int| 0 <= k < t.temp_dependencies[key].len() implies pending_dep_ok(
                t,
                #[trigger] t.temp_dependencies[key][k],
                key,
            ) by {
                if found.len() > 0 {
                    lemma_blamed_deps_ok(s, blamed, k);
                    lemma_has_line(s, t, found[k].1.from);
                }
            }
        }
    }
}

/// A match keeps the state well formed, once its line counts as read.
pub proof fn lemma_new_match_wf(s: ParserView, p: Seq<Seq<u8>>)
    requires
        s.wf(),
        s.lines < usize::MAX,
        new_match_spec(s, p) is Ok,
    ensures
        bump(new_match_spec(s, p)->Ok_0).wf(),
{
    let idx = resolve(s.term_ids, p[1])->Ok_0;
    assert(term_ok(s, idx as int));
    let quant = quant_of(s.terms[idx as int].kind)->0;
    let rest = p.skip(3);
    lemma_blamed_items_bound(s.term_ids, after_semicolon(rest), s.terms.len() as int);
    let pattern = resolve(s.term_ids, p[2])->Ok_0;
    let bound = resolve_all(s.term_ids, rest.take(crate::explain::first_semicolon(rest)))->Ok_0;
    let blamed = blamed_items(s.term_ids, after_semicolon(rest))->Ok_0;
    lemma_with_match_wf(
        s,
        crate::text::hexadecimal(p[0])->0,
        quant,
        false,
        Some(pattern),
        bound,
        blamed,
    );
}

/// Terms that exist, each blamed alone, are items in range.
pub proof fn lemma_singles_in_range(ts: Seq<TermIdx>, n: int)
    requires
        forall|k: int| 0 <= k < ts.len() ==> #[trigger] ts[k] < n,
    ensures
        items_in_range(singles(ts), n),
{
}

/// A discovered instantiation keeps the state well formed, once its line
/// counts as read.
pub proof fn lemma_inst_discovered_wf(s: ParserView, p: Seq<Seq<u8>>)
    requires
        s.wf(),
        s.lines < usize::MAX,
        inst_discovered_spec(s, p) is Ok,
    ensures
        bump(inst_discovered_spec(s, p)->Ok_0).wf(),
{
    let fingerprint = crate::text::hexadecimal(p[1])->0;
    if p[0] == crate::text::word("theory-solving") {
        let key = DiscoveredIdView::TheorySolving(p[2]);
        let blamed = resolve_all(s.term_ids, tail_from(p, 4))->Ok_0;
        lemma_children_exist(s, tail_from(p, 4));
        lemma_singles_in_range(blamed, s.terms.len() as int);
        lemma_discovered_wf(s, key, p[0]);
        let (t, quant) = with_discovered(s, key, p[0]);
        lemma_with_match_wf(t, fingerprint, quant, true, None, Seq::empty(), singles(blamed));
    } else {
        let key = DiscoveredIdView::MBQI;
        let bound = resolve_all(s.term_ids, p.skip(2))->Ok_0;
        lemma_discovered_wf(s, key, p[0]);
        let (t, quant) = with_discovered(s, key, p[0]);
        lemma_with_match_wf(t, fingerprint, quant, true, None, bound, Seq::empty());
    }
}

/// The beginning of an instance keeps the state well formed, once its line
/// counts as read.
pub proof fn lemma_with_instance_wf(
    s: ParserView,
    fingerprint: Fingerprint,
    resulting: Option<TermIdx>,
    generation: Option<usize>,
)
    requires
        s.wf(),
        s.lines < usize::MAX,
        s.matches.contains_key(fingerprint),
    ensures
        bump(with_instance(s, fingerprint, resulting, generation)).wf(),
{
    let t = bump(with_instance(s, fingerprint, resulting, generation));
    let n = s.instantiations.len() as int;
    assert(match_ok(s, fingerprint));
    lemma_deps_extend(s, t);
    assert forall|i: int| 0 <= i < t.terms.len() implies #[trigger] term_ok(t, i) by {
        assert(term_ok(s, i));
    }
    assert forall|i: int| 0 <= i < t.instantiations.len() implies #[trigger] inst_ok(t, i) by {
        if i < n {
            assert(inst_ok(s, i));
        }
    }
    assert(lines_increase(t)) by {
        assert forall|i: int, j: int| 0 <= i < j < t.instantiations.len() implies (
        #[trigger] t.instantiations[i]).line_no->0 < (#[trigger] t.instantiations[j]).line_no->0 by {
            assert(inst_ok(s, i));
        }
    }
    assert forall|fp: Fingerprint| t.matches.contains_key(fp) implies #[trigger] match_ok(
        t,
        fp,
    ) by {
        assert(match_ok(s, fp));
    }
    assert forall|m: usize| t.temp_dependencies.contains_key(m) implies #[trigger] temp_ok(
        t,
        m,
    ) by {
        assert(temp_ok(s, m));
    }
}

/// The beginning of an instance keeps the state well formed, once its line
/// counts as read.
pub proof fn lemma_instance_wf(s: ParserView, p: Seq<Seq<u8>>)
    requires
        s.wf(),
        s.lines < usize::MAX,
        instance_spec(s, p) is Ok,
    ensures
        bump(instance_spec(s, p)->Ok_0).wf(),
{
    let fingerprint = crate::text::hexadecimal(p[0])->0;
    let tail = crate::instantiate::generation_part(p);
    let generation = if tail.len() == 2 {
        crate::text::decimal(tail[1])
    } else {
        None
    };
    let resulting = crate::instantiate::resulting_term(s.term_ids, p)->Ok_0;
    lemma_with_instance_wf(s, fingerprint, resulting, generation);
}

/// The end of an instance keeps the state well formed.
pub proof fn lemma_end_of_instance_wf(s: ParserView)
    requires
        s.wf(),
        end_of_instance_spec(s) is Ok,
    ensures
        end_of_instance_spec(s)->Ok_0.wf(),
{
    let t = end_of_instance_spec(s)->Ok_0;
    let iidx = s.inst_stack.last() as int;
    let inst = s.instantiations[iidx];
    let m = inst.match_line_no;
    let pending = pending_under(s, m);
    assert(inst_ok(s, iidx));
    lemma_deps_extend(s, t);
    assert forall|i: int| 0 <= i < t.terms.len() implies #[trigger] term_ok(t, i) by {
        assert(term_ok(s, i));
    }
    assert forall|i: int| 0 <= i < t.instantiations.len() implies #[trigger] inst_ok(t, i) by {
        assert(inst_ok(s, i));
    }
    assert forall|fp: Fingerprint| t.matches.contains_key(fp) implies #[trigger] match_ok(
        t,
        fp,
    ) by {
        assert(match_ok(s, fp));
    }
    assert forall|key: usize| t.temp_dependencies.contains_key(key) implies #[trigger] temp_ok(
        t,
        key,
    ) by {
        assert(temp_ok(s, key));
    }
    assert forall|k: int| 0 <= k < t.dependencies.len() implies #[trigger] dep_ok(
        t,
        t.dependencies[k],
    ) by {
        if !(k < s.dependencies.len()) {
            let j = k - s.dependencies.len();
            let d = pending[j];
            assert(temp_ok(s, m));
            lemma_has_line(s, t, inst.line_no->0);
            if d.dep_type != DepType::Root {
                lemma_has_line(s, t, d.from);
            }
        }
    }
}

} // verus!
