//! The entities that a trace log describes: terms, quantifiers,
//! instantiations, equality explanations and dependencies, each with the
//! mathematical value that contracts speak of.

use vstd::prelude::*;

verus! {

/// Index of a term in the term arena.
pub type TermIdx = usize;

/// Index of a quantifier in the quantifier arena.
pub type QuantIdx = usize;

/// Index of an instantiation in the instantiation arena.
pub type InstIdx = usize;

/// The key by which the solver links a match to its later instance.
pub type Fingerprint = u64;

/// What was attached to a term as its meaning in some theory.
#[derive(Debug, Clone, PartialEq, Eq)]
pub struct Meaning {
    pub theory: Vec<u8>,
    pub value: Vec<u8>,
}

/// A meaning as a mathematical value.
pub struct MeaningView {
    pub theory: Seq<u8>,
    pub value: Seq<u8>,
}

impl View for Meaning {
    type V = MeaningView;

    open spec fn view(&self) -> MeaningView {
        MeaningView { theory: self.theory@, value: self.value@ }
    }
}

/// What kind of node a term is.
#[derive(Debug, Clone, PartialEq, Eq)]
pub enum TermKind {
    /// A bound variable, with its de Bruijn number.
    Var(usize),
    /// A function application or a proof step, with its name.
    ProofOrApp { is_proof: bool, name: Vec<u8> },
    /// A quantifier, with the index of its record.
    Quant(QuantIdx),
}

/// The kind of a term as a mathematical value.
pub enum TermKindView {
    Var(usize),
    ProofOrApp { is_proof: bool, name: Seq<u8> },
    Quant(QuantIdx),
}

impl View for TermKind {
    type V = TermKindView;

    open spec fn view(&self) -> TermKindView {
        match *self {
            TermKind::Var(n) => TermKindView::Var(n),
            TermKind::ProofOrApp { is_proof, name } => TermKindView::ProofOrApp {
                is_proof,
                name: name@,
            },
            TermKind::Quant(q) => TermKindView::Quant(q),
        }
    }
}

impl TermKind {
    /// The quantifier record of a quantifier term.
    pub fn quant_idx(&self) -> (r: Option<QuantIdx>)
        ensures
            r == quant_of(self@),
    {
        match self {
            TermKind::Quant(q) => Some(*q),
            _ => None,
        }
    }
}

/// The quantifier record that a kind names, if it is a quantifier.
pub open spec fn quant_of(kind: TermKindView) -> Option<QuantIdx> {
    match kind {
        TermKindView::Quant(q) => Some(q),
        _ => None,
    }
}

/// Why two terms are equal, as the solver explained it.
#[derive(Debug, Clone, PartialEq, Eq)]
pub enum EqualityExpl {
    /// The term is the root of its equivalence class.
    Root { id: TermIdx },
    /// An asserted equality.
    Literal { from: TermIdx, eq: TermIdx, to: TermIdx },
    /// Congruence: the arguments are pairwise equal.
    Congruence { from: TermIdx, arg_eqs: Vec<(TermIdx, TermIdx)>, to: TermIdx },
    /// A theory said so.
    Theory { from: TermIdx, theory: Vec<u8>, to: TermIdx },
    /// An axiom.
    Axiom { from: TermIdx, to: TermIdx },
    /// A kind that is not known; its tokens are kept as they came.
    Unknown { kind: Vec<u8>, from: TermIdx, args: Vec<Vec<u8>>, to: TermIdx },
}

/// An explanation as a mathematical value.
pub enum EqualityExplView {
    Root { id: TermIdx },
    Literal { from: TermIdx, eq: TermIdx, to: TermIdx },
    Congruence { from: TermIdx, arg_eqs: Seq<(TermIdx, TermIdx)>, to: TermIdx },
    Theory { from: TermIdx, theory: Seq<u8>, to: TermIdx },
    Axiom { from: TermIdx, to: TermIdx },
    Unknown { kind: Seq<u8>, from: TermIdx, args: Seq<Seq<u8>>, to: TermIdx },
}

impl View for EqualityExpl {
    type V = EqualityExplView;

    open spec fn view(&self) -> EqualityExplView {
        match *self {
            EqualityExpl::Root { id } => EqualityExplView::Root { id },
            EqualityExpl::Literal { from, eq, to } => EqualityExplView::Literal { from, eq, to },
            EqualityExpl::Congruence { from, arg_eqs, to } => EqualityExplView::Congruence {
                from,
                arg_eqs: arg_eqs@,
                to,
            },
            EqualityExpl::Theory { from, theory, to } => EqualityExplView::Theory {
                from,
                theory: theory@,
                to,
            },
            EqualityExpl::Axiom { from, to } => EqualityExplView::Axiom { from, to },
            EqualityExpl::Unknown { kind, from, args, to } => EqualityExplView::Unknown {
                kind: kind@,
                from,
                args: crate::text::views(args@),
                to,
            },
        }
    }
}

/// The two ends of an explanation; a root explains itself.
pub open spec fn from_to(e: EqualityExplView) -> (TermIdx, TermIdx) {
    match e {
        EqualityExplView::Root { id } => (id, id),
        EqualityExplView::Literal { from, to, .. } => (from, to),
        EqualityExplView::Congruence { from, to, .. } => (from, to),
        EqualityExplView::Theory { from, to, .. } => (from, to),
        EqualityExplView::Axiom { from, to } => (from, to),
        EqualityExplView::Unknown { from, to, .. } => (from, to),
    }
}

/// The terms that an explanation names; all of them must exist.
pub open spec fn expl_in_range(e: EqualityExplView, n: int) -> bool {
    &&& from_to(e).0 < n
    &&& from_to(e).1 < n
    &&& e matches EqualityExplView::Literal { eq, .. } ==> eq < n
    &&& e matches EqualityExplView::Congruence { arg_eqs, .. } ==> forall|i: int|
        0 <= i < arg_eqs.len() ==> (#[trigger] arg_eqs[i]).0 < n && arg_eqs[i].1 < n
}

impl EqualityExpl {
    /// The two ends of the explanation.
    pub fn from_to(&self) -> (r: (TermIdx, TermIdx))
        ensures
            r == from_to(self@),
    {
        match self {
            EqualityExpl::Root { id } => (*id, *id),
            EqualityExpl::Literal { from, to, .. } => (*from, *to),
            EqualityExpl::Congruence { from, to, .. } => (*from, *to),
            EqualityExpl::Theory { from, to, .. } => (*from, *to),
            EqualityExpl::Axiom { from, to } => (*from, *to),
            EqualityExpl::Unknown { from, to, .. } => (*from, *to),
        }
    }
}

/// A solver expression node.
#[derive(Debug, Clone, PartialEq, Eq)]
pub struct Term {
    pub id: Vec<u8>,
    pub kind: TermKind,
    pub meaning: Option<Meaning>,
    pub child_ids: Vec<TermIdx>,
    pub dep_term_ids: Vec<TermIdx>,
    pub resp_inst: Option<InstIdx>,
    pub equality_expls: Vec<EqualityExpl>,
}

/// A term as a mathematical value.
pub struct TermView {
    pub id: Seq<u8>,
    pub kind: TermKindView,
    pub meaning: Option<MeaningView>,
    pub child_ids: Seq<TermIdx>,
    pub dep_term_ids: Seq<TermIdx>,
    pub resp_inst: Option<InstIdx>,
    pub equality_expls: Seq<EqualityExplView>,
}

/// The explanations as mathematical values.
pub open spec fn expl_views(s: Seq<EqualityExpl>) -> Seq<EqualityExplView> {
    s.map_values(|e: EqualityExpl| e@)
}

/// The meaning, if there is one, as a mathematical value.
pub open spec fn meaning_view(m: Option<Meaning>) -> Option<MeaningView> {
    match m {
        Some(m) => Some(m@),
        None => None,
    }
}

impl View for Term {
    type V = TermView;

    open spec fn view(&self) -> TermView {
        TermView {
            id: self.id@,
            kind: self.kind@,
            meaning: meaning_view(self.meaning),
            child_ids: self.child_ids@,
            dep_term_ids: self.dep_term_ids@,
            resp_inst: self.resp_inst,
            equality_expls: expl_views(self.equality_expls@),
        }
    }
}

/// The terms as mathematical values.
pub open spec fn term_views(s: Seq<Term>) -> Seq<TermView> {
    s.map_values(|t: Term| t@)
}

/// Where a quantifier comes from.
#[derive(Debug, Clone, PartialEq, Eq)]
pub enum QuantKind {
    /// A quantifier that the log declares, under its name.
    NamedQuant(Vec<u8>),
    /// A quantifier that the solver made up, under the name of the method.
    Other(Vec<u8>),
}

/// Where a quantifier comes from, as a mathematical value.
pub enum QuantKindView {
    NamedQuant(Seq<u8>),
    Other(Seq<u8>),
}

impl View for QuantKind {
    type V = QuantKindView;

    open spec fn view(&self) -> QuantKindView {
        match *self {
            QuantKind::NamedQuant(name) => QuantKindView::NamedQuant(name@),
            QuantKind::Other(method) => QuantKindView::Other(method@),
        }
    }
}

/// The variables of a quantifier: their types, or their names and types.
#[derive(Debug, Clone, PartialEq, Eq)]
pub enum VarNames {
    TypeOnly(Vec<Vec<u8>>),
    NameAndType(Vec<(Vec<u8>, Vec<u8>)>),
}

/// The variables of a quantifier as a mathematical value.
pub enum VarNamesView {
    TypeOnly(Seq<Seq<u8>>),
    NameAndType(Seq<(Seq<u8>, Seq<u8>)>),
}

/// The pairs of byte strings that a vector of pairs holds.
pub open spec fn pair_views(s: Seq<(Vec<u8>, Vec<u8>)>) -> Seq<(Seq<u8>, Seq<u8>)> {
    s.map_values(|p: (Vec<u8>, Vec<u8>)| (p.0@, p.1@))
}

impl View for VarNames {
    type V = VarNamesView;

    open spec fn view(&self) -> VarNamesView {
        match *self {
            VarNames::TypeOnly(types) => VarNamesView::TypeOnly(crate::text::views(types@)),
            VarNames::NameAndType(pairs) => VarNamesView::NameAndType(pair_views(pairs@)),
        }
    }
}

/// The variables, if there are any, as a mathematical value.
pub open spec fn var_names_view(v: Option<VarNames>) -> Option<VarNamesView> {
    match v {
        Some(v) => Some(v@),
        None => None,
    }
}

/// A quantifier and what was counted for it. The cost grows by one with each
/// instance, up to the largest number that the machine word holds.
#[derive(Debug, Clone, PartialEq, Eq)]
pub struct Quantifier {
    pub kind: QuantKind,
    pub num_vars: usize,
    pub term: Option<TermIdx>,
    pub instances: Vec<InstIdx>,
    pub cost: usize,
    pub vars: Option<VarNames>,
}

/// A quantifier as a mathematical value.
pub struct QuantifierView {
    pub kind: QuantKindView,
    pub num_vars: usize,
    pub term: Option<TermIdx>,
    pub instances: Seq<InstIdx>,
    pub cost: usize,
    pub vars: Option<VarNamesView>,
}

impl View for Quantifier {
    type V = QuantifierView;

    open spec fn view(&self) -> QuantifierView {
        QuantifierView {
            kind: self.kind@,
            num_vars: self.num_vars,
            term: self.term,
            instances: self.instances@,
            cost: self.cost,
            vars: var_names_view(self.vars),
        }
    }
}

/// The quantifiers as mathematical values.
pub open spec fn quant_views(s: Seq<Quantifier>) -> Seq<QuantifierView> {
    s.map_values(|q: Quantifier| q@)
}

/// A term that a match blames, alone or as one side of an equality.
#[derive(Debug, Clone, Copy, PartialEq, Eq, Structural)]
pub enum BlamedTermItem {
    Single(TermIdx),
    Pair(TermIdx, TermIdx),
}

/// How an instantiation depends on an earlier one.
#[derive(Debug, Clone, Copy, PartialEq, Eq, Structural)]
pub enum DepType {
    /// It depends on none: the record only says that it is a root.
    Root,
    /// Through a term that the earlier one produced.
    Term,
    /// Through an equality that the earlier one produced.
    Equality,
}

/// A causal edge between two instantiations, by their line numbers. The
/// destination is filled in when the dependent instantiation ends.
#[derive(Debug, Clone, Copy, PartialEq, Eq, Structural)]
pub struct Dependency {
    pub from: usize,
    pub to: Option<usize>,
    pub blamed: Option<TermIdx>,
    pub dep_type: DepType,
    pub quant: QuantIdx,
    pub quant_discovered: bool,
}

/// One firing of a quantifier.
#[derive(Debug, Clone, PartialEq, Eq)]
pub struct Instantiation {
    pub match_line_no: usize,
    pub line_no: Option<usize>,
    pub fingerprint: Fingerprint,
    pub resulting_term: Option<TermIdx>,
    pub z3_gen: Option<usize>,
    pub cost: usize,
    pub quant: QuantIdx,
    pub quant_discovered: bool,
    pub pattern: Option<TermIdx>,
    pub yields_terms: Vec<TermIdx>,
    pub bound_terms: Vec<TermIdx>,
    pub blamed_terms: Vec<BlamedTermItem>,
    pub equality_expls: Vec<TermIdx>,
    pub dep_instantiations: Vec<InstIdx>,
}

/// An instantiation as a mathematical value.
pub struct InstantiationView {
    pub match_line_no: usize,
    pub line_no: Option<usize>,
    pub fingerprint: Fingerprint,
    pub resulting_term: Option<TermIdx>,
    pub z3_gen: Option<usize>,
    pub cost: usize,
    pub quant: QuantIdx,
    pub quant_discovered: bool,
    pub pattern: Option<TermIdx>,
    pub yields_terms: Seq<TermIdx>,
    pub bound_terms: Seq<TermIdx>,
    pub blamed_terms: Seq<BlamedTermItem>,
    pub equality_expls: Seq<TermIdx>,
    pub dep_instantiations: Seq<InstIdx>,
}

impl View for Instantiation {
    type V = InstantiationView;

    open spec fn view(&self) -> InstantiationView {
        InstantiationView {
            match_line_no: self.match_line_no,
            line_no: self.line_no,
            fingerprint: self.fingerprint,
            resulting_term: self.resulting_term,
            z3_gen: self.z3_gen,
            cost: self.cost,
            quant: self.quant,
            quant_discovered: self.quant_discovered,
            pattern: self.pattern,
            yields_terms: self.yields_terms@,
            bound_terms: self.bound_terms@,
            blamed_terms: self.blamed_terms@,
            equality_expls: self.equality_expls@,
            dep_instantiations: self.dep_instantiations@,
        }
    }
}

/// The instantiations as mathematical values.
pub open spec fn inst_views(s: Seq<Instantiation>) -> Seq<InstantiationView> {
    s.map_values(|i: Instantiation| i@)
}

/// The key under which a quantifier that the solver made up is kept.
#[derive(Debug, Clone, PartialEq, Eq)]
pub enum DiscoveredId {
    /// Theory solving, by the identifier of the theory's term.
    TheorySolving(Vec<u8>),
    /// Model-based instantiation: one key for all.
    MBQI,
}

/// A discovery key as a mathematical value.
pub enum DiscoveredIdView {
    TheorySolving(Seq<u8>),
    MBQI,
}

impl View for DiscoveredId {
    type V = DiscoveredIdView;

    open spec fn view(&self) -> DiscoveredIdView {
        match *self {
            DiscoveredId::TheorySolving(id) => DiscoveredIdView::TheorySolving(id@),
            DiscoveredId::MBQI => DiscoveredIdView::MBQI,
        }
    }
}

/// Why a line was refused.
#[derive(Debug, Clone, Copy, PartialEq, Eq, Structural)]
pub enum ParseError {
    /// The payload does not have the shape that its tag asks for.
    Malformed,
    /// An identifier names no term that was declared.
    UnresolvedReference,
    /// What is attached disagrees with, or repeats, what is there.
    Inconsistent,
    /// An instance ends where none is open.
    StackUnderflow,
    /// The log ends with an instance still open.
    UnclosedInstance,
}

} // verus!
