//! What the parser knows after some lines of a log: the arenas of terms,
//! quantifiers and instantiations, the matches that wait for their instance,
//! the instances that are open, and the dependencies found so far.

use crate::arena::{
    instantiation_arena, new_instantiations, new_quantifiers, new_terms, quantifier_arena,
    term_arena,
};
use crate::idx_map::IdxMap;
use crate::items::{
    expl_in_range, inst_views, quant_of, quant_views, term_views, Dependency, DepType,
    DiscoveredIdView, Fingerprint, InstIdx, Instantiation, InstantiationView, QuantIdx, Quantifier,
    QuantifierView, Term, TermIdx, TermView,
};
use crate::version::{version_info_view, VersionInfo, VersionInfoView};
use fxhash::FxHashMap;
use typed_index_collections::TiVec;
use vstd::prelude::*;

verus! {

/// The state of a parser.
#[derive(Debug)]
pub struct Z3Parser {
    pub version_info: Option<VersionInfo>,
    pub idx_map: IdxMap,
    pub terms: TiVec<TermIdx, Term>,
    pub quantifiers: TiVec<QuantIdx, Quantifier>,
    pub matches: FxHashMap<Fingerprint, Instantiation>,
    pub instantiations: TiVec<InstIdx, Instantiation>,
    pub inst_stack: Vec<InstIdx>,
    pub temp_dependencies: FxHashMap<usize, Vec<Dependency>>,
    pub dependencies: Vec<Dependency>,
    pub lines: usize,
}

/// The state of a parser as a mathematical value.
pub struct ParserView {
    /// The solver and its version, once a line gave them.
    pub version_info: Option<VersionInfoView>,
    /// The term that each identifier names now.
    pub term_ids: Map<Seq<u8>, TermIdx>,
    /// The quantifier kept under each discovery key.
    pub discovered: Map<DiscoveredIdView, QuantIdx>,
    pub terms: Seq<TermView>,
    pub quantifiers: Seq<QuantifierView>,
    /// The matches that wait for their instance, by fingerprint.
    pub matches: Map<Fingerprint, InstantiationView>,
    pub instantiations: Seq<InstantiationView>,
    /// The instances that are open, the innermost last.
    pub inst_stack: Seq<InstIdx>,
    /// The dependencies of each match, by its line, until its instance ends.
    pub temp_dependencies: Map<usize, Seq<Dependency>>,
    /// The dependencies of the instances that have ended.
    pub dependencies: Seq<Dependency>,
    /// How many lines were read.
    pub lines: usize,
}

/// An instantiation as a mathematical value.
pub open spec fn inst_view(i: Instantiation) -> InstantiationView {
    i@
}

/// The dependencies that a vector holds.
pub open spec fn dep_seq(v: Vec<Dependency>) -> Seq<Dependency> {
    v@
}

/// The matches that wait, as mathematical values.
pub open spec fn match_views(m: Map<Fingerprint, Instantiation>) -> Map<
    Fingerprint,
    InstantiationView,
> {
    m.map_values(|i: Instantiation| inst_view(i))
}

/// The dependencies that wait under each line.
pub open spec fn temp_views(m: Map<usize, Vec<Dependency>>) -> Map<usize, Seq<Dependency>> {
    m.map_values(|v: Vec<Dependency>| dep_seq(v))
}

impl View for Z3Parser {
    type V = ParserView;

    open spec fn view(&self) -> ParserView {
        ParserView {
            version_info: version_info_view(self.version_info),
            term_ids: self.idx_map.terms(),
            discovered: self.idx_map.discovered(),
            terms: term_views(term_arena(self.terms)),
            quantifiers: quant_views(quantifier_arena(self.quantifiers)),
            matches: match_views(self.matches@),
            instantiations: inst_views(instantiation_arena(self.instantiations)),
            inst_stack: self.inst_stack@,
            temp_dependencies: temp_views(self.temp_dependencies@),
            dependencies: self.dependencies@,
            lines: self.lines,
        }
    }
}

/// Whether some instantiation began on the given line.
pub open spec fn has_line(s: ParserView, line: usize) -> bool {
    exists|i: int|
        0 <= i < s.instantiations.len() && (#[trigger] s.instantiations[i]).line_no == Some(line)
}

/// A term names only what exists: its children came before it, and the
/// instantiation that produced it, its quantifier and the terms of its
/// equality explanations are there.
pub open spec fn term_ok(s: ParserView, i: int) -> bool {
    let t = s.terms[i];
    &&& forall|k: int| 0 <= k < t.child_ids.len() ==> #[trigger] t.child_ids[k] < i
    &&& t.resp_inst matches Some(r) ==> r < s.instantiations.len()
    &&& quant_of(t.kind) matches Some(q) ==> q < s.quantifiers.len()
    &&& forall|k: int|
        0 <= k < t.equality_expls.len() ==> expl_in_range(
            #[trigger] t.equality_expls[k],
            s.terms.len() as int,
        )
}

/// An instantiation in the arena has its line, which comes after that of its
/// match and is no later than the last line read.
pub open spec fn inst_ok(s: ParserView, i: int) -> bool {
    let x = s.instantiations[i];
    &&& x.line_no is Some
    &&& x.match_line_no < x.line_no->0 <= s.lines
    &&& x.quant < s.quantifiers.len()
}

/// A match that waits for its instance has no line of its own yet.
pub open spec fn match_ok(s: ParserView, fp: Fingerprint) -> bool {
    let x = s.matches[fp];
    &&& x.line_no is None
    &&& x.match_line_no <= s.lines
    &&& x.quant < s.quantifiers.len()
}

/// A dependency that waits for its destination: unless it only marks a root,
/// it comes from an instantiation that began before the match.
pub open spec fn pending_dep_ok(s: ParserView, d: Dependency, match_line: usize) -> bool {
    d.dep_type != DepType::Root ==> d.from < match_line && has_line(s, d.from)
}

/// A dependency of an instance that has ended: its destination is the line of
/// that instance, and unless it only marks a root it comes from an
/// instantiation that began earlier.
pub open spec fn dep_ok(s: ParserView, d: Dependency) -> bool {
    &&& d.to is Some
    &&& has_line(s, d.to->0)
    &&& d.dep_type != DepType::Root ==> d.from < d.to->0 && has_line(s, d.from)
}

/// The dependencies that wait under the line of a match were found on or
/// before that line.
pub open spec fn temp_ok(s: ParserView, m: usize) -> bool {
    &&& m <= s.lines
    &&& forall|k: int|
        0 <= k < s.temp_dependencies[m].len() ==> pending_dep_ok(
            s,
            #[trigger] s.temp_dependencies[m][k],
            m,
        )
}

/// The instantiations began on lines that grow with their index.
pub open spec fn lines_increase(s: ParserView) -> bool {
    forall|i: int, j: int|
        0 <= i < j < s.instantiations.len() ==> (#[trigger] s.instantiations[i]).line_no->0 < (
        #[trigger] s.instantiations[j]).line_no->0
}

impl ParserView {
    /// What holds of every state that the parser reaches.
    pub open spec fn wf(self) -> bool {
        &&& forall|i: int| 0 <= i < self.terms.len() ==> #[trigger] term_ok(self, i)
        &&& forall|i: int| 0 <= i < self.instantiations.len() ==> #[trigger] inst_ok(self, i)
        &&& self.instantiations.len() <= self.lines
        &&& lines_increase(self)
        &&& forall|k: int|
            0 <= k < self.inst_stack.len() ==> #[trigger] self.inst_stack[k]
                < self.instantiations.len()
        &&& forall|id: Seq<u8>|
            self.term_ids.contains_key(id) ==> #[trigger] self.term_ids[id] < self.terms.len()
        &&& forall|k: DiscoveredIdView|
            self.discovered.contains_key(k) ==> #[trigger] self.discovered[k]
                < self.quantifiers.len()
        &&& forall|fp: Fingerprint| self.matches.contains_key(fp) ==> #[trigger] match_ok(self, fp)
        &&& forall|m: usize| self.temp_dependencies.contains_key(m) ==> #[trigger] temp_ok(self, m)
        &&& forall|k: int|
            0 <= k < self.dependencies.len() ==> #[trigger] dep_ok(self, self.dependencies[k])
    }

    /// The state before the first line.
    pub open spec fn initial() -> ParserView {
        ParserView {
            version_info: None,
            term_ids: Map::empty(),
            discovered: Map::empty(),
            terms: Seq::empty(),
            quantifiers: Seq::empty(),
            matches: Map::empty(),
            instantiations: Seq::empty(),
            inst_stack: Seq::empty(),
            temp_dependencies: Map::empty(),
            dependencies: Seq::empty(),
            lines: 0,
        }
    }
}

/// The state with one more line read.
pub open spec fn bump(s: ParserView) -> ParserView {
    ParserView { lines: (s.lines + 1) as usize, ..s }
}

/// What a line of some kind comes to once it counts as read.
pub open spec fn counted(r: Result<ParserView, crate::items::ParseError>) -> Result<
    ParserView,
    crate::items::ParseError,
> {
    match r {
        Ok(t) => Ok(bump(t)),
        Err(e) => Err(e),
    }
}

impl Default for Z3Parser {
    /// A parser that has read nothing.
    fn default() -> (r: Z3Parser)
        ensures
            r@ == ParserView::initial(),
            r@.wf(),
            r.lines == 0,
    {
        Z3Parser::new()
    }
}

impl Z3Parser {
    /// A parser that has read nothing.
    pub fn new() -> (r: Z3Parser)
        ensures
            r@ == ParserView::initial(),
            r@.wf(),
            r.lines == 0,
    {
        let r = Z3Parser {
            version_info: None,
            idx_map: IdxMap::new(),
            terms: new_terms(),
            quantifiers: new_quantifiers(),
            matches: FxHashMap::default(),
            instantiations: new_instantiations(),
            inst_stack: Vec::new(),
            temp_dependencies: FxHashMap::default(),
            dependencies: Vec::new(),
            lines: 0,
        };
        proof {
            assert(r@.terms =~= Seq::empty());
            assert(r@.quantifiers =~= Seq::empty());
            assert(r@.instantiations =~= Seq::empty());
            assert(r@.matches =~= Map::empty());
            assert(r@.temp_dependencies =~= Map::empty());
        }
        r
    }

    /// Counts one more line as read.
    pub fn count_line(&mut self)
        requires
            old(self).lines < usize::MAX,
        ensures
            final(self)@ == bump(old(self)@),
    {
        self.lines = self.lines + 1;
    }

    /// The term under an index, if there is one.
    pub fn term(&self, idx: TermIdx) -> (r: Option<&Term>)
        ensures
            match r {
                Some(t) => idx < self@.terms.len() && t@ == self@.terms[idx as int],
                None => idx >= self@.terms.len(),
            },
    {
        if idx < crate::arena::next_term_key(&self.terms) {
            Some(crate::arena::term_at(&self.terms, idx))
        } else {
            None
        }
    }

    /// The quantifier under an index, if there is one.
    pub fn quantifier(&self, idx: QuantIdx) -> (r: Option<&Quantifier>)
        ensures
            match r {
                Some(q) => idx < self@.quantifiers.len() && q@ == self@.quantifiers[idx as int],
                None => idx >= self@.quantifiers.len(),
            },
    {
        if idx < crate::arena::next_quantifier_key(&self.quantifiers) {
            Some(crate::arena::quantifier_at(&self.quantifiers, idx))
        } else {
            None
        }
    }

    /// The instantiation under an index, if there is one.
    pub fn instantiation(&self, idx: InstIdx) -> (r: Option<&Instantiation>)
        ensures
            match r {
                Some(i) => idx < self@.instantiations.len() && i@
                    == self@.instantiations[idx as int],
                None => idx >= self@.instantiations.len(),
            },
    {
        if idx < crate::arena::next_instantiation_key(&self.instantiations) {
            Some(crate::arena::instantiation_at(&self.instantiations, idx))
        } else {
            None
        }
    }

    /// How many quantifiers there are, declared and discovered.
    pub fn total_nr_of_quants(&self) -> (r: usize)
        ensures
            r == self@.quantifiers.len(),
    {
        crate::arena::next_quantifier_key(&self.quantifiers)
    }

    /// The solver and its version, once a line gave them.
    pub fn version_info(&self) -> (r: Option<&VersionInfo>)
        ensures
            match r {
                Some(v) => self.version_info == Some(*v),
                None => self.version_info is None,
            },
    {
        self.version_info.as_ref()
    }
}

} // verus!
