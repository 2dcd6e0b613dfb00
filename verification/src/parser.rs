//! Reading a log line by line. Each line begins with a tag that says which
//! event it is; the rest of the line, split at single spaces, is the
//! payload. A line with a tag that is not known is passed over.

use crate::attach::{
    attach_enode_spec, attach_meaning_spec, attach_var_names_spec, tool_version_spec, SPACE,
};
use crate::declare::{mk_proof_app_spec, mk_quant_spec, mk_var_spec};
use crate::explain::eq_expl_spec;
use crate::instantiate::{end_of_instance_spec, inst_discovered_spec, instance_spec, new_match_spec};
use crate::items::ParseError;
use crate::state::{bump, ParserView, Z3Parser};
use crate::text::{is_word, split, split_line, views, word};
use crate::wellformed::{
    lemma_attach_enode_wf, lemma_attach_meaning_wf, lemma_attach_var_names_wf, lemma_bump_wf,
    lemma_end_of_instance_wf, lemma_eq_expl_wf, lemma_inst_discovered_wf, lemma_instance_wf,
    lemma_mk_proof_app_wf, lemma_mk_quant_wf, lemma_mk_var_wf, lemma_new_match_wf,
    lemma_tool_version_wf,
};
use vstd::prelude::*;

verus! {

/// The byte that ends a line.
pub const NEWLINE: u8 = 10;

/// What an event does to the state, given its tag and payload.
pub open spec fn event(s: ParserView, tag: Seq<u8>, p: Seq<Seq<u8>>) -> Result<
    ParserView,
    ParseError,
> {
    if tag == word("[tool-version]") {
        tool_version_spec(s, p)
    } else if tag == word("[mk-quant]") || tag == word("[mk-lambda]") {
        mk_quant_spec(s, p)
    } else if tag == word("[mk-var]") {
        mk_var_spec(s, p)
    } else if tag == word("[mk-proof]") {
        mk_proof_app_spec(s, p, true)
    } else if tag == word("[mk-app]") {
        mk_proof_app_spec(s, p, false)
    } else if tag == word("[attach-meaning]") {
        attach_meaning_spec(s, p)
    } else if tag == word("[attach-var-names]") {
        attach_var_names_spec(s, p)
    } else if tag == word("[attach-enode]") {
        attach_enode_spec(s, p)
    } else if tag == word("[eq-expl]") {
        eq_expl_spec(s, p)
    } else if tag == word("[new-match]") {
        new_match_spec(s, p)
    } else if tag == word("[inst-discovered]") {
        inst_discovered_spec(s, p)
    } else if tag == word("[instance]") {
        instance_spec(s, p)
    } else if tag == word("[end-of-instance]") {
        end_of_instance_spec(s)
    } else {
        Ok(s)
    }
}

/// What a line does to the state: what its event does, and the line counts
/// as read. A line that is refused leaves the state as it was. Lines are
/// counted in a machine word, and a line past its end is refused.
pub open spec fn step(s: ParserView, line: Seq<u8>) -> Result<ParserView, ParseError> {
    if s.lines >= usize::MAX {
        Err(ParseError::Malformed)
    } else {
        let tokens = split(line, SPACE);
        match event(s, tokens[0], tokens.skip(1)) {
            Ok(t) => Ok(bump(t)),
            Err(e) => Err(e),
        }
    }
}

/// Every line keeps a well-formed state well formed.
pub proof fn lemma_step_wf(s: ParserView, line: Seq<u8>)
    requires
        s.wf(),
        step(s, line) is Ok,
    ensures
        step(s, line)->Ok_0.wf(),
{
    let tokens = split(line, SPACE);
    let tag = tokens[0];
    let p = tokens.skip(1);
    let t = event(s, tag, p)->Ok_0;
    if tag == word("[tool-version]") {
        lemma_tool_version_wf(s, p);
        lemma_bump_wf(t);
    } else if tag == word("[mk-quant]") || tag == word("[mk-lambda]") {
        lemma_mk_quant_wf(s, p);
        lemma_bump_wf(t);
    } else if tag == word("[mk-var]") {
        lemma_mk_var_wf(s, p);
        lemma_bump_wf(t);
    } else if tag == word("[mk-proof]") {
        lemma_mk_proof_app_wf(s, p, true);
        lemma_bump_wf(t);
    } else if tag == word("[mk-app]") {
        lemma_mk_proof_app_wf(s, p, false);
        lemma_bump_wf(t);
    } else if tag == word("[attach-meaning]") {
        lemma_attach_meaning_wf(s, p);
        lemma_bump_wf(t);
    } else if tag == word("[attach-var-names]") {
        lemma_attach_var_names_wf(s, p);
        lemma_bump_wf(t);
    } else if tag == word("[attach-enode]") {
        lemma_attach_enode_wf(s, p);
        lemma_bump_wf(t);
    } else if tag == word("[eq-expl]") {
        lemma_eq_expl_wf(s, p);
        lemma_bump_wf(t);
    } else if tag == word("[new-match]") {
        lemma_new_match_wf(s, p);
    } else if tag == word("[inst-discovered]") {
        lemma_inst_discovered_wf(s, p);
    } else if tag == word("[instance]") {
        lemma_instance_wf(s, p);
    } else if tag == word("[end-of-instance]") {
        lemma_end_of_instance_wf(s);
        lemma_bump_wf(t);
    } else {
        lemma_bump_wf(t);
    }
}

/// The state after the lines of a log, up to the first that is refused, and
/// the error of that line.
pub open spec fn run(s: ParserView, lines: Seq<Seq<u8>>) -> (ParserView, Option<ParseError>)
    decreases lines.len(),
{
    if lines.len() == 0 {
        (s, None)
    } else {
        match step(s, lines[0]) {
            Err(e) => (s, Some(e)),
            Ok(t) => run(t, lines.drop_first()),
        }
    }
}

/// The lines of a log keep a well-formed state well formed.
pub proof fn lemma_run_wf(s: ParserView, lines: Seq<Seq<u8>>)
    requires
        s.wf(),
    ensures
        run(s, lines).0.wf(),
    decreases lines.len(),
{
    if lines.len() > 0 {
        if step(s, lines[0]) is Ok {
            lemma_step_wf(s, lines[0]);
            lemma_run_wf(step(s, lines[0])->Ok_0, lines.drop_first());
        }
    }
}

/// The state before the first line is well formed.
pub proof fn lemma_initial_wf()
    ensures
        ParserView::initial().wf(),
{
}

/// After the lines of any log, every instantiation of the arena has the
/// line on which it began; and where the log is accepted, no instance is
/// open after its last line and no line was refused.
pub proof fn lemma_instantiations_have_lines(lines: Seq<Seq<u8>>)
    ensures
        forall|i: int|
            0 <= i < run(ParserView::initial(), lines).0.instantiations.len() ==> (#[trigger] run(
                ParserView::initial(),
                lines,
            ).0.instantiations[i]).line_no is Some,
        verdict(run(ParserView::initial(), lines)) is Ok ==> run(
            ParserView::initial(),
            lines,
        ).0.inst_stack.len() == 0 && run(ParserView::initial(), lines).1 is None,
{
    lemma_run_wf(ParserView::initial(), lines);
    let end = run(ParserView::initial(), lines).0;
    assert forall|i: int| 0 <= i < end.instantiations.len() implies (
    #[trigger] end.instantiations[i]).line_no is Some by {
        assert(crate::state::inst_ok(end, i));
    }
}

/// After the lines of any log, every dependency of an instance that has
/// ended has its destination: the line of that instance.
pub proof fn lemma_dependencies_are_resolved(lines: Seq<Seq<u8>>)
    ensures
        forall|k: int|
            0 <= k < run(ParserView::initial(), lines).0.dependencies.len() ==> (#[trigger] run(
                ParserView::initial(),
                lines,
            ).0.dependencies[k]).to is Some,
{
    lemma_run_wf(ParserView::initial(), lines);
    let end = run(ParserView::initial(), lines).0;
    assert forall|k: int| 0 <= k < end.dependencies.len() implies (
    #[trigger] end.dependencies[k]).to is Some by {
        assert(crate::state::dep_ok(end, end.dependencies[k]));
    }
}

/// An instantiation that is open no more is never changed again: whatever
/// line is read, it stays as it is, and at its place.
pub proof fn lemma_closed_instantiation_is_kept(s: ParserView, line: Seq<u8>, i: int)
    requires
        s.wf(),
        step(s, line) is Ok,
        0 <= i < s.instantiations.len(),
        !s.inst_stack.contains(i as usize),
    ensures
        i < step(s, line)->Ok_0.instantiations.len(),
        step(s, line)->Ok_0.instantiations[i] == s.instantiations[i],
{
}

/// A match under a fingerprint that was used before is a match of its own:
/// the state after it is the same whether or not a match waited under the
/// fingerprint.
pub proof fn lemma_reused_fingerprint(s: ParserView, p: Seq<Seq<u8>>)
    requires
        new_match_spec(s, p) is Ok,
    ensures
        new_match_spec(
            ParserView { matches: s.matches.remove(crate::text::hexadecimal(p[0])->0), ..s },
            p,
        ) == new_match_spec(s, p),
{
    let fp = crate::text::hexadecimal(p[0])->0;
    let r = ParserView { matches: s.matches.remove(fp), ..s };
    let a = new_match_spec(s, p)->Ok_0;
    let b = new_match_spec(r, p)->Ok_0;
    lemma_blamed_deps_read(
        s,
        r,
        crate::dependency::blamed_items(
            s.term_ids,
            crate::instantiate::after_semicolon(p.skip(3)),
        )->Ok_0,
    );
    assert(a.matches =~= b.matches);
}

/// The dependencies that blamed items give are read off the terms and the
/// instantiations alone.
pub proof fn lemma_blamed_deps_read(
    s: ParserView,
    r: ParserView,
    items: Seq<crate::items::BlamedTermItem>,
)
    requires
        s.terms == r.terms,
        s.instantiations == r.instantiations,
    ensures
        crate::dependency::blamed_deps(s, items) == crate::dependency::blamed_deps(r, items),
    decreases items.len(),
{
    if items.len() > 0 {
        lemma_blamed_deps_read(s, r, items.drop_last());
        match items.last() {
            crate::items::BlamedTermItem::Single(_) => {},
            crate::items::BlamedTermItem::Pair(f, t) => {
                lemma_literal_deps_read(s, r, s.terms[f as int].equality_expls, f, t);
            },
        }
    }
}

/// The dependencies that explanations give are read off the terms and the
/// instantiations alone.
pub proof fn lemma_literal_deps_read(
    s: ParserView,
    r: ParserView,
    expls: Seq<crate::items::EqualityExplView>,
    f: usize,
    t: usize,
)
    requires
        s.terms == r.terms,
        s.instantiations == r.instantiations,
    ensures
        crate::dependency::literal_deps(s, expls, f, t) == crate::dependency::literal_deps(
            r,
            expls,
            f,
            t,
        ),
    decreases expls.len(),
{
    if expls.len() > 0 {
        lemma_literal_deps_read(s, r, expls.drop_last(), f, t);
    }
}

/// Where a log was refused: the number of the line, counted from 1, and why.
#[derive(Debug, Clone, Copy, PartialEq, Eq, Structural)]
pub struct ParseFailure {
    pub line: usize,
    pub error: ParseError,
}

/// The number of the line after those that were read, as far as a machine
/// word counts.
pub open spec fn next_line(lines: usize) -> usize {
    if lines < usize::MAX {
        (lines + 1) as usize
    } else {
        lines
    }
}

/// How reading a whole log ends: with the error of the first line that is
/// refused, under the number of that line; else, where an instance is still
/// open after the last line, with that error under the number of the last
/// line; else well.
pub open spec fn verdict(end: (ParserView, Option<ParseError>)) -> Result<(), ParseFailure> {
    match end.1 {
        Some(e) => Err(ParseFailure { line: next_line(end.0.lines), error: e }),
        None => if end.0.inst_stack.len() > 0 {
            Err(ParseFailure { line: end.0.lines, error: ParseError::UnclosedInstance })
        } else {
            Ok(())
        },
    }
}

impl Z3Parser {
    /// Reads one line. A line that is refused leaves the parser as it was.
    pub fn process_line(&mut self, line: &[u8]) -> (r: Result<(), ParseError>)
        requires
            old(self)@.wf(),
        ensures
            crate::declare::outcome(*old(self), *final(self), r, step(old(self)@, line@)),
            final(self)@.wf(),
    {
        if self.lines >= usize::MAX {
            return Err(ParseError::Malformed);
        }
        let tokens = split_line(line, SPACE);
        let tag = tokens[0].as_slice();
        if is_word(tag, "[tool-version]") {
            self.tool_version(&tokens)
        } else if is_word(tag, "[mk-quant]") || is_word(tag, "[mk-lambda]") {
            self.mk_quant(&tokens)
        } else if is_word(tag, "[mk-var]") {
            self.mk_var(&tokens)
        } else if is_word(tag, "[mk-proof]") {
            self.mk_proof_app(&tokens, true)
        } else if is_word(tag, "[mk-app]") {
            self.mk_proof_app(&tokens, false)
        } else if is_word(tag, "[attach-meaning]") {
            self.attach_meaning(&tokens)
        } else if is_word(tag, "[attach-var-names]") {
            self.attach_var_names(&tokens)
        } else if is_word(tag, "[attach-enode]") {
            self.attach_enode(&tokens)
        } else if is_word(tag, "[eq-expl]") {
            self.eq_expl(&tokens)
        } else if is_word(tag, "[new-match]") {
            self.new_match(&tokens)
        } else if is_word(tag, "[inst-discovered]") {
            self.inst_discovered(&tokens)
        } else if is_word(tag, "[instance]") {
            self.instance(&tokens)
        } else if is_word(tag, "[end-of-instance]") {
            self.end_of_instance()
        } else {
            proof {
                lemma_bump_wf(self@);
            }
            self.count_line();
            Ok(())
        }
    }

    /// Whether the log may end here: it may not while an instance is open.
    pub fn finish(&self) -> (r: Result<(), ParseError>)
        ensures
            r == if self@.inst_stack.len() > 0 {
                Err::<(), ParseError>(ParseError::UnclosedInstance)
            } else {
                Ok::<(), ParseError>(())
            },
    {
        if self.inst_stack.len() > 0 {
            Err(ParseError::UnclosedInstance)
        } else {
            Ok(())
        }
    }

    /// Reads a whole log, line by line, and stops at the first line that is
    /// refused. What was read before stays.
    pub fn process_log(&mut self, log: &[u8]) -> (r: Result<(), ParseFailure>)
        requires
            old(self)@.wf(),
        ensures
            final(self)@ == run(old(self)@, split(log@, NEWLINE)).0,
            r == verdict(run(old(self)@, split(log@, NEWLINE))),
            final(self)@.wf(),
    {
        let lines = split_line(log, NEWLINE);
        let ghost all = views(lines@);
        let mut i: usize = 0;
        assert(all.skip(0) =~= all);
        while i < lines.len()
            invariant
                0 <= i <= lines.len(),
                all == views(lines@),
                all == split(log@, NEWLINE),
                self@.wf(),
                run(old(self)@, all) == run(self@, all.skip(i as int)),
            decreases lines.len() - i,
        {
            let ghost here = all.skip(i as int);
            let ghost before = self@;
            proof {
                assert(here.drop_first() =~= all.skip(i + 1));
            }
            match self.process_line(lines[i].as_slice()) {
                Ok(()) => {},
                Err(error) => {
                    let line = if self.lines < usize::MAX {
                        self.lines + 1
                    } else {
                        self.lines
                    };
                    return Err(ParseFailure { line, error });
                },
            }
            i += 1;
        }
        match self.finish() {
            Ok(()) => Ok(()),
            Err(error) => Err(ParseFailure { line: self.lines, error }),
        }
    }
}

} // verus!
