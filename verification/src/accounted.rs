//! Why no instantiation is left without a record of where it comes from:
//! dependencies wait for every match and for every open instance, and every
//! instance that has ended has a dependency that leads to it, be it only
//! the record that marks a root.

use crate::attach::SPACE;
use crate::instantiate::{
    after_semicolon, finalize, generation_part, pending_under, resulting_term, singles, tail_from,
    with_discovered, with_instance, with_match,
};
use crate::items::{BlamedTermItem, DiscoveredIdView, Fingerprint, QuantIdx, TermIdx};
use crate::parser::{run, step, verdict};
use crate::resolve::{resolve, resolve_all};
use crate::state::{bump, inst_ok, match_ok, ParserView};
use crate::text::{split, word};
use vstd::prelude::*;

verus! {

/// Whether dependencies wait under a line.
pub open spec fn waiting(s: ParserView, line: usize) -> bool {
    s.temp_dependencies.contains_key(line) && s.temp_dependencies[line].len() >= 1
}

/// The line of the match that waits under a fingerprint.
pub open spec fn match_line(s: ParserView, fp: Fingerprint) -> usize {
    s.matches[fp].match_line_no
}

/// The line of the match of an open instance, by its place on the stack.
pub open spec fn open_line(s: ParserView, k: int) -> usize {
    s.instantiations[s.inst_stack[k] as int].match_line_no
}

/// Whether a dependency leads to an instantiation.
pub open spec fn has_record(s: ParserView, i: int) -> bool {
    exists|k: int|
        0 <= k < s.dependencies.len() && (#[trigger] s.dependencies[k]).to
            == s.instantiations[i].line_no
}

/// What holds of every state that the parser reaches, beside its being well
/// formed: dependencies wait under the line of each match and of each open
/// instance, these lines all differ, and a dependency leads to each
/// instantiation that is open no more.
pub open spec fn accounted(s: ParserView) -> bool {
    &&& forall|fp: Fingerprint|
        s.matches.contains_key(fp) ==> waiting(s, #[trigger] match_line(s, fp))
    &&& forall|k: int| 0 <= k < s.inst_stack.len() ==> waiting(s, #[trigger] open_line(s, k))
    &&& forall|f1: Fingerprint, f2: Fingerprint|
        s.matches.contains_key(f1) && s.matches.contains_key(f2) && f1 != f2 ==> #[trigger] match_line(
            s,
            f1,
        ) != #[trigger] match_line(s, f2)
    &&& forall|k1: int, k2: int|
        0 <= k1 < k2 < s.inst_stack.len() ==> #[trigger] open_line(s, k1) != #[trigger] open_line(
            s,
            k2,
        )
    &&& forall|fp: Fingerprint, k: int|
        s.matches.contains_key(fp) && 0 <= k < s.inst_stack.len() ==> #[trigger] match_line(s, fp)
            != #[trigger] open_line(s, k)
    &&& forall|i: int|
        0 <= i < s.instantiations.len() && !s.inst_stack.contains(i as usize)
            ==> #[trigger] has_record(s, i)
}

/// What leaves matches, open instances and dependencies alone, and the
/// lines of the instantiations, keeps the account.
pub proof fn lemma_accounted_frame(s: ParserView, t: ParserView)
    requires
        accounted(s),
        t.matches == s.matches,
        t.inst_stack == s.inst_stack,
        t.temp_dependencies == s.temp_dependencies,
        t.dependencies == s.dependencies,
        t.instantiations.len() == s.instantiations.len(),
        forall|i: int|
            0 <= i < s.instantiations.len() ==> (#[trigger] t.instantiations[i]).line_no
                == s.instantiations[i].line_no && t.instantiations[i].match_line_no
                == s.instantiations[i].match_line_no,
        forall|k: int|
            0 <= k < s.inst_stack.len() ==> #[trigger] s.inst_stack[k] < s.instantiations.len(),
    ensures
        accounted(t),
{
    assert forall|fp: Fingerprint| t.matches.contains_key(fp) implies waiting(
        t,
        #[trigger] match_line(t, fp),
    ) by {
        assert(waiting(s, match_line(s, fp)));
    }
    assert forall|k: int| 0 <= k < t.inst_stack.len() implies waiting(
        t,
        #[trigger] open_line(t, k),
    ) by {
        assert(waiting(s, open_line(s, k)));
    }
    assert forall|f1: Fingerprint, f2: Fingerprint|
        t.matches.contains_key(f1) && t.matches.contains_key(f2) && f1 != f2 implies #[trigger] match_line(
        t,
        f1,
    ) != #[trigger] match_line(t, f2) by {
        assert(match_line(s, f1) != match_line(s, f2));
    }
    assert forall|k1: int, k2: int| 0 <= k1 < k2 < t.inst_stack.len() implies #[trigger] open_line(
        t,
        k1,
    ) != #[trigger] open_line(t, k2) by {
        assert(open_line(s, k1) != open_line(s, k2));
    }
    assert forall|fp: Fingerprint, k: int|
        t.matches.contains_key(fp) && 0 <= k < t.inst_stack.len() implies #[trigger] match_line(
        t,
        fp,
    ) != #[trigger] open_line(t, k) by {
        assert(match_line(s, fp) != open_line(s, k));
    }
    assert forall|i: int|
        0 <= i < t.instantiations.len() && !t.inst_stack.contains(
            i as usize,
        ) implies #[trigger] has_record(t, i) by {
        assert(has_record(s, i));
    }
}

/// A match keeps the account, once its line counts as read.
pub proof fn lemma_with_match_accounted(
    s: ParserView,
    fingerprint: Fingerprint,
    quant: QuantIdx,
    discovered: bool,
    pattern: Option<TermIdx>,
    bound: Seq<TermIdx>,
    blamed: Seq<BlamedTermItem>,
)
    requires
        s.wf(),
        accounted(s),
        s.lines < usize::MAX,
    ensures
        accounted(bump(with_match(s, fingerprint, quant, discovered, pattern, bound, blamed))),
{
    let t = bump(with_match(s, fingerprint, quant, discovered, pattern, bound, blamed));
    let m = (s.lines + 1) as usize;
    assert forall|fp: Fingerprint| t.matches.contains_key(fp) implies waiting(
        t,
        #[trigger] match_line(t, fp),
    ) by {
        if fp != fingerprint {
            assert(waiting(s, match_line(s, fp)));
        }
    }
    assert forall|k: int| 0 <= k < t.inst_stack.len() implies waiting(
        t,
        #[trigger] open_line(t, k),
    ) by {
        assert(waiting(s, open_line(s, k)));
    }
    assert forall|f1: Fingerprint, f2: Fingerprint|
        t.matches.contains_key(f1) && t.matches.contains_key(f2) && f1 != f2 implies #[trigger] match_line(
        t,
        f1,
    ) != #[trigger] match_line(t, f2) by {
        if f1 != fingerprint {
            assert(match_ok(s, f1));
        }
        if f2 != fingerprint {
            assert(match_ok(s, f2));
        }
        if f1 != fingerprint && f2 != fingerprint {
            assert(match_line(s, f1) != match_line(s, f2));
        }
    }
    assert forall|k1: int, k2: int| 0 <= k1 < k2 < t.inst_stack.len() implies #[trigger] open_line(
        t,
        k1,
    ) != #[trigger] open_line(t, k2) by {
        assert(open_line(s, k1) != open_line(s, k2));
    }
    assert forall|fp: Fingerprint, k: int|
        t.matches.contains_key(fp) && 0 <= k < t.inst_stack.len() implies #[trigger] match_line(
        t,
        fp,
    ) != #[trigger] open_line(t, k) by {
        assert(inst_ok(s, s.inst_stack[k] as int));
        if fp != fingerprint {
            assert(match_line(s, fp) != open_line(s, k));
        }
    }
    assert forall|i: int|
        0 <= i < t.instantiations.len() && !t.inst_stack.contains(
            i as usize,
        ) implies #[trigger] has_record(t, i) by {
        assert(has_record(s, i));
    }
}

/// The beginning of an instance keeps the account, once its line counts as
/// read.
pub proof fn lemma_with_instance_accounted(
    s: ParserView,
    fingerprint: Fingerprint,
    resulting: Option<TermIdx>,
    generation: Option<usize>,
)
    requires
        s.wf(),
        accounted(s),
        s.lines < usize::MAX,
        s.matches.contains_key(fingerprint),
    ensures
        accounted(bump(with_instance(s, fingerprint, resulting, generation))),
{
    let t = bump(with_instance(s, fingerprint, resulting, generation));
    let n = s.instantiations.len() as int;
    let depth = s.inst_stack.len() as int;
    assert(t.inst_stack[depth] == n);
    assert(t.instantiations[n].match_line_no == match_line(s, fingerprint));
    assert forall|k: int| 0 <= k < depth implies open_line(t, k) == open_line(s, k) by {
    }
    assert forall|fp: Fingerprint| t.matches.contains_key(fp) implies waiting(
        t,
        #[trigger] match_line(t, fp),
    ) by {
        assert(waiting(s, match_line(s, fp)));
    }
    assert forall|f1: Fingerprint, f2: Fingerprint|
        t.matches.contains_key(f1) && t.matches.contains_key(f2) && f1 != f2 implies #[trigger] match_line(
        t,
        f1,
    ) != #[trigger] match_line(t, f2) by {
        assert(match_line(s, f1) != match_line(s, f2));
    }
    assert forall|fp: Fingerprint, k: int|
        t.matches.contains_key(fp) && 0 <= k < t.inst_stack.len() implies #[trigger] match_line(
        t,
        fp,
    ) != #[trigger] open_line(t, k) by {
        if !(k < depth) {
            assert(match_line(s, fp) != match_line(s, fingerprint));
        }
    }
    assert forall|i: int|
        0 <= i < t.instantiations.len() && !t.inst_stack.contains(
            i as usize,
        ) implies #[trigger] has_record(t, i) by {
        if !(i == n) {
            if s.inst_stack.contains(i as usize) {
                let k = choose|k: int| 0 <= k < s.inst_stack.len() && s.inst_stack[k] == i as usize;
                assert(t.inst_stack[k] == i as usize);
            }
            assert(has_record(s, i));
        }
    }
}

/// The end of an instance keeps the account: the dependencies that waited
/// for it are the record of the instance.
pub proof fn lemma_end_of_instance_accounted(s: ParserView)
    requires
        s.wf(),
        accounted(s),
        s.inst_stack.len() > 0,
    ensures
        accounted(crate::instantiate::end_of_instance_spec(s)->Ok_0),
{
    let t = crate::instantiate::end_of_instance_spec(s)->Ok_0;
    let depth = s.inst_stack.len() - 1;
    let top = s.inst_stack.last() as int;
    let inst = s.instantiations[top];
    let m = inst.match_line_no;
    assert(open_line(s, depth) == m);
    let pending = pending_under(s, m);
    assert forall|fp: Fingerprint| t.matches.contains_key(fp) implies waiting(
        t,
        #[trigger] match_line(t, fp),
    ) by {
        assert(waiting(s, match_line(s, fp)));
    }
    assert forall|k: int| 0 <= k < t.inst_stack.len() implies waiting(
        t,
        #[trigger] open_line(t, k),
    ) by {
        assert(waiting(s, open_line(s, k)));
    }
    assert forall|f1: Fingerprint, f2: Fingerprint|
        t.matches.contains_key(f1) && t.matches.contains_key(f2) && f1 != f2 implies #[trigger] match_line(
        t,
        f1,
    ) != #[trigger] match_line(t, f2) by {
        assert(match_line(s, f1) != match_line(s, f2));
    }
    assert forall|k1: int, k2: int| 0 <= k1 < k2 < t.inst_stack.len() implies #[trigger] open_line(
        t,
        k1,
    ) != #[trigger] open_line(t, k2) by {
        assert(open_line(s, k1) != open_line(s, k2));
    }
    assert forall|fp: Fingerprint, k: int|
        t.matches.contains_key(fp) && 0 <= k < t.inst_stack.len() implies #[trigger] match_line(
        t,
        fp,
    ) != #[trigger] open_line(t, k) by {
        assert(match_line(s, fp) != open_line(s, k));
    }
    assert forall|i: int|
        0 <= i < t.instantiations.len() && !t.inst_stack.contains(
            i as usize,
        ) implies #[trigger] has_record(t, i) by {
        if i == top {
            let k = s.dependencies.len() as int;
            assert(t.dependencies[k] == finalize(pending[0], inst));
        } else {
            if s.inst_stack.contains(i as usize) {
                let k = choose|k: int| 0 <= k < s.inst_stack.len() && s.inst_stack[k] == i as usize;
                assert(t.inst_stack[k] == i as usize);
            }
            assert(has_record(s, i));
            let k = choose|k: int|
                0 <= k < s.dependencies.len() && (#[trigger] s.dependencies[k]).to
                    == s.instantiations[i].line_no;
            assert(t.dependencies[k].to == t.instantiations[i].line_no);
        }
    }
}

/// Every line keeps the account.
pub proof fn lemma_step_accounted(s: ParserView, line: Seq<u8>)
    requires
        s.wf(),
        accounted(s),
        step(s, line) is Ok,
    ensures
        accounted(step(s, line)->Ok_0),
{
    let tokens = split(line, SPACE);
    let tag = tokens[0];
    let p = tokens.skip(1);
    let t = step(s, line)->Ok_0;
    if tag == word("[tool-version]") {
        lemma_accounted_frame(s, t);
    } else if tag == word("[mk-quant]") || tag == word("[mk-lambda]") {
        lemma_accounted_frame(s, t);
    } else if tag == word("[mk-var]") {
        lemma_accounted_frame(s, t);
    } else if tag == word("[mk-proof]") {
        lemma_accounted_frame(s, t);
    } else if tag == word("[mk-app]") {
        lemma_accounted_frame(s, t);
    } else if tag == word("[attach-meaning]") {
        lemma_accounted_frame(s, t);
    } else if tag == word("[attach-var-names]") {
        lemma_accounted_frame(s, t);
    } else if tag == word("[attach-enode]") {
        lemma_accounted_frame(s, t);
    } else if tag == word("[eq-expl]") {
        lemma_accounted_frame(s, t);
    } else if tag == word("[new-match]") {
        let idx = resolve(s.term_ids, p[1])->Ok_0;
        let quant = crate::items::quant_of(s.terms[idx as int].kind)->0;
        let rest = p.skip(3);
        lemma_with_match_accounted(
            s,
            crate::text::hexadecimal(p[0])->0,
            quant,
            false,
            Some(resolve(s.term_ids, p[2])->Ok_0),
            resolve_all(s.term_ids, rest.take(crate::explain::first_semicolon(rest)))->Ok_0,
            crate::dependency::blamed_items(s.term_ids, after_semicolon(rest))->Ok_0,
        );
    } else if tag == word("[inst-discovered]") {
        let fingerprint = crate::text::hexadecimal(p[1])->0;
        if p[0] == word("theory-solving") {
            let key = DiscoveredIdView::TheorySolving(p[2]);
            let blamed = resolve_all(s.term_ids, tail_from(p, 4))->Ok_0;
            crate::wellformed::lemma_discovered_wf(s, key, p[0]);
            let (d, quant) = with_discovered(s, key, p[0]);
            lemma_accounted_frame(s, d);
            lemma_with_match_accounted(d, fingerprint, quant, true, None, Seq::empty(), singles(blamed));
        } else {
            let key = DiscoveredIdView::MBQI;
            let bound = resolve_all(s.term_ids, p.skip(2))->Ok_0;
            crate::wellformed::lemma_discovered_wf(s, key, p[0]);
            let (d, quant) = with_discovered(s, key, p[0]);
            lemma_accounted_frame(s, d);
            lemma_with_match_accounted(d, fingerprint, quant, true, None, bound, Seq::empty());
        }
    } else if tag == word("[instance]") {
        let fingerprint = crate::text::hexadecimal(p[0])->0;
        let tail = generation_part(p);
        let generation = if tail.len() == 2 {
            crate::text::decimal(tail[1])
        } else {
            None
        };
        lemma_with_instance_accounted(
            s,
            fingerprint,
            resulting_term(s.term_ids, p)->Ok_0,
            generation,
        );
    } else if tag == word("[end-of-instance]") {
        let e = crate::instantiate::end_of_instance_spec(s)->Ok_0;
        lemma_end_of_instance_accounted(s);
        crate::wellformed::lemma_end_of_instance_wf(s);
        lemma_accounted_frame(e, t);
    } else {
        lemma_accounted_frame(s, t);
    }
}

/// The lines of a log keep the account.
pub proof fn lemma_run_accounted(s: ParserView, lines: Seq<Seq<u8>>)
    requires
        s.wf(),
        accounted(s),
    ensures
        accounted(run(s, lines).0),
    decreases lines.len(),
{
    if lines.len() > 0 {
        if step(s, lines[0]) is Ok {
            crate::parser::lemma_step_wf(s, lines[0]);
            lemma_step_accounted(s, lines[0]);
            lemma_run_accounted(step(s, lines[0])->Ok_0, lines.drop_first());
        }
    }
}

/// After a log that is accepted, a dependency leads to every
/// instantiation: one that names an earlier instantiation as its cause, or
/// the record that marks the instantiation as a root.
pub proof fn lemma_every_instantiation_has_a_record(lines: Seq<Seq<u8>>, i: int)
    requires
        verdict(run(ParserView::initial(), lines)) is Ok,
        0 <= i < run(ParserView::initial(), lines).0.instantiations.len(),
    ensures
        has_record(run(ParserView::initial(), lines).0, i),
{
    crate::parser::lemma_initial_wf();
    lemma_run_accounted(ParserView::initial(), lines);
}

} // verus!
