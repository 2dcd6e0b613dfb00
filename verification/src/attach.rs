//! The lines that attach something to what was declared: the solver's
//! version, the meaning of a term, the variables of a quantifier, and the
//! instance that produced a term.

use crate::arena::{
    instantiation_arena, instantiation_at_mut, quantifier_arena, quantifier_at, quantifier_at_mut,
    term_arena, term_at, term_at_mut,
};
use crate::declare::outcome;
use crate::items::{
    inst_views, quant_of, quant_views, term_views, InstantiationView, Meaning, MeaningView,
    ParseError, QuantifierView, TermView,
};
use crate::resolve::{parse_existing_id, resolve};
use crate::state::{counted, ParserView, Z3Parser};
use crate::wellformed::{
    lemma_attach_enode_wf, lemma_attach_meaning_wf, lemma_attach_var_names_wf, lemma_bump_wf,
    lemma_tool_version_wf,
};
use crate::text::{bytes_eq, decimal, join, join_tokens, parse_decimal, to_owned_bytes, views};
use crate::tuples::{gobble_var_names_list, var_names};
use crate::version::{
    parse_semver, semver, Version, VersionInfo, VersionInfoView, VersionView, version_view,
};
use vstd::prelude::*;

verus! {

/// The byte that separates the tokens of a line.
pub const SPACE: u8 = 32;

/// The state after the solver's name and version were read. A version that
/// could not be read makes the line malformed.
pub open spec fn with_version(s: ParserView, solver: Seq<u8>, version: Option<VersionView>)
    -> Result<ParserView, ParseError> {
    match version {
        None => Err(ParseError::Malformed),
        Some(v) => Ok(
            ParserView { version_info: Some(VersionInfoView { solver, version: v }), ..s },
        ),
    }
}

/// The line that names the solver. The payload is the solver's name and its
/// version, and nothing more.
pub open spec fn tool_version_spec(s: ParserView, p: Seq<Seq<u8>>) -> Result<
    ParserView,
    ParseError,
> {
    if p.len() != 2 {
        Err(ParseError::Malformed)
    } else {
        with_version(s, p[0], semver(p[1]))
    }
}

/// A term with a meaning attached.
pub open spec fn with_meaning(t: TermView, m: MeaningView) -> TermView {
    TermView { meaning: Some(m), ..t }
}

/// Attaching a meaning. The payload is an identifier, a theory, and the
/// value, which is all the tokens that follow, a space between each two. A
/// term keeps its first meaning: the same again changes nothing, another is
/// refused.
pub open spec fn attach_meaning_spec(s: ParserView, p: Seq<Seq<u8>>) -> Result<
    ParserView,
    ParseError,
> {
    if p.len() < 2 {
        Err(ParseError::Malformed)
    } else {
        match resolve(s.term_ids, p[0]) {
            Err(e) => Err(e),
            Ok(idx) => {
                let m = MeaningView { theory: p[1], value: join(p.skip(2), SPACE) };
                match s.terms[idx as int].meaning {
                    Some(old) => if old == m {
                        Ok(s)
                    } else {
                        Err(ParseError::Inconsistent)
                    },
                    None => Ok(
                        ParserView {
                            terms: s.terms.update(idx as int, with_meaning(s.terms[idx as int], m)),
                            ..s
                        },
                    ),
                }
            },
        }
    }
}

/// A quantifier with its variables attached.
pub open spec fn with_vars(q: QuantifierView, vars: crate::items::VarNamesView) -> QuantifierView {
    QuantifierView { vars: Some(vars), ..q }
}

/// Attaching the variables of a quantifier. The payload is the identifier of
/// a quantifier term and a list of pairs. A quantifier gets its variables
/// once.
pub open spec fn attach_var_names_spec(s: ParserView, p: Seq<Seq<u8>>) -> Result<
    ParserView,
    ParseError,
> {
    if p.len() < 1 {
        Err(ParseError::Malformed)
    } else {
        match var_names(p.skip(1)) {
            None => Err(ParseError::Malformed),
            Some(vars) => match resolve(s.term_ids, p[0]) {
                Err(e) => Err(e),
                Ok(tidx) => match quant_of(s.terms[tidx as int].kind) {
                    None => Err(ParseError::Malformed),
                    Some(q) => if s.quantifiers[q as int].vars is Some {
                        Err(ParseError::Inconsistent)
                    } else {
                        Ok(
                            ParserView {
                                quantifiers: s.quantifiers.update(
                                    q as int,
                                    with_vars(s.quantifiers[q as int], vars),
                                ),
                                ..s
                            },
                        )
                    },
                },
            },
        }
    }
}

/// A term with the instantiation that produced it.
pub open spec fn with_producer(t: TermView, inst: usize) -> TermView {
    TermView { resp_inst: Some(inst), ..t }
}

/// An instantiation with one more term that it yields.
pub open spec fn with_yield(i: InstantiationView, term: usize) -> InstantiationView {
    InstantiationView { yields_terms: i.yields_terms.push(term), ..i }
}

/// Attaching a term to the instance that is open. The payload is an
/// identifier and a number. With no instance open the line changes nothing.
pub open spec fn attach_enode_spec(s: ParserView, p: Seq<Seq<u8>>) -> Result<
    ParserView,
    ParseError,
> {
    if p.len() != 2 || decimal(p[1]) is None {
        Err(ParseError::Malformed)
    } else {
        match resolve(s.term_ids, p[0]) {
            Err(e) => Err(e),
            Ok(idx) => if s.inst_stack.len() == 0 {
                Ok(s)
            } else {
                let top = s.inst_stack.last();
                Ok(
                    ParserView {
                        terms: s.terms.update(idx as int, with_producer(s.terms[idx as int], top)),
                        instantiations: s.instantiations.update(
                            top as int,
                            with_yield(s.instantiations[top as int], idx),
                        ),
                        ..s
                    },
                )
            },
        }
    }
}

impl Z3Parser {
    /// Keeps the solver's name and version, if the version could be read.
    pub fn set_version(&mut self, solver: Vec<u8>, version: Option<Version>) -> (r: Result<
        (),
        ParseError,
    >)
        ensures
            outcome(
                *old(self),
                *final(self),
                r,
                with_version(old(self)@, solver@, version_view(version)),
            ),
            old(self)@.wf() ==> final(self)@.wf(),
    {
        match version {
            None => Err(ParseError::Malformed),
            Some(version) => {
                self.version_info = Some(VersionInfo { solver, version });
                proof {
                    if old(self)@.wf() {
                        crate::wellformed::lemma_version_wf(old(self)@, self@);
                    }
                }
                Ok(())
            },
        }
    }

    /// Reads the line that names the solver.
    pub fn tool_version(&mut self, tokens: &Vec<Vec<u8>>) -> (r: Result<(), ParseError>)
        requires
            tokens.len() >= 1,
            old(self)@.wf(),
            old(self).lines < usize::MAX,
        ensures
            outcome(
                *old(self),
                *final(self),
                r,
                counted(tool_version_spec(old(self)@, views(tokens@).skip(1))),
            ),
            final(self)@.wf(),
    {
        proof {
            if tool_version_spec(old(self)@, views(tokens@).skip(1)) is Ok {
                lemma_tool_version_wf(old(self)@, views(tokens@).skip(1));
                lemma_bump_wf(tool_version_spec(old(self)@, views(tokens@).skip(1))->Ok_0);
            }
        }
        if tokens.len() != 3 {
            return Err(ParseError::Malformed);
        }
        let version = parse_semver(tokens[2].as_slice());
        match self.set_version(to_owned_bytes(tokens[1].as_slice()), version) {
            Ok(()) => {
                self.count_line();
                Ok(())
            },
            Err(e) => Err(e),
        }
    }

    /// Reads the line that attaches a meaning to a term.
    pub fn attach_meaning(&mut self, tokens: &Vec<Vec<u8>>) -> (r: Result<(), ParseError>)
        requires
            tokens.len() >= 1,
            old(self)@.wf(),
            old(self).lines < usize::MAX,
        ensures
            outcome(
                *old(self),
                *final(self),
                r,
                counted(attach_meaning_spec(old(self)@, views(tokens@).skip(1))),
            ),
            final(self)@.wf(),
    {
        proof {
            if attach_meaning_spec(old(self)@, views(tokens@).skip(1)) is Ok {
                lemma_attach_meaning_wf(old(self)@, views(tokens@).skip(1));
                lemma_bump_wf(attach_meaning_spec(old(self)@, views(tokens@).skip(1))->Ok_0);
            }
        }
        if tokens.len() < 3 {
            return Err(ParseError::Malformed);
        }
        let ghost p = views(tokens@).skip(1);
        let idx = match parse_existing_id(&self.idx_map, tokens[1].as_slice()) {
            Ok(idx) => idx,
            Err(e) => {
                return Err(e);
            },
        };
        assert(p.skip(2) =~= views(tokens@).subrange(3, tokens.len() as int));
        let meaning = Meaning {
            theory: to_owned_bytes(tokens[2].as_slice()),
            value: join_tokens(tokens, 3, tokens.len(), SPACE),
        };
        match &term_at(&self.terms, idx).meaning {
            Some(old) => {
                if bytes_eq(old.theory.as_slice(), meaning.theory.as_slice()) && bytes_eq(
                    old.value.as_slice(),
                    meaning.value.as_slice(),
                ) {
                    self.count_line();
                    Ok(())
                } else {
                    Err(ParseError::Inconsistent)
                }
            },
            None => {
                let ghost before = term_views(term_arena(self.terms));
                let ghost mv = meaning@;
                term_at_mut(&mut self.terms, idx).meaning = Some(meaning);
                assert(term_views(term_arena(self.terms)) =~= before.update(
                    idx as int,
                    with_meaning(before[idx as int], mv),
                ));
                self.count_line();
                Ok(())
            },
        }
    }

    /// Reads the line that attaches its variables to a quantifier.
    pub fn attach_var_names(&mut self, tokens: &Vec<Vec<u8>>) -> (r: Result<(), ParseError>)
        requires
            tokens.len() >= 1,
            old(self)@.wf(),
            old(self).lines < usize::MAX,
        ensures
            outcome(
                *old(self),
                *final(self),
                r,
                counted(attach_var_names_spec(old(self)@, views(tokens@).skip(1))),
            ),
            final(self)@.wf(),
    {
        proof {
            if attach_var_names_spec(old(self)@, views(tokens@).skip(1)) is Ok {
                lemma_attach_var_names_wf(old(self)@, views(tokens@).skip(1));
                lemma_bump_wf(attach_var_names_spec(old(self)@, views(tokens@).skip(1))->Ok_0);
            }
        }
        if tokens.len() < 2 {
            return Err(ParseError::Malformed);
        }
        let ghost p = views(tokens@).skip(1);
        assert(p.skip(1) =~= views(tokens@).subrange(2, tokens.len() as int));
        let vars = match gobble_var_names_list(tokens, 2, tokens.len()) {
            Some(vars) => vars,
            None => {
                return Err(ParseError::Malformed);
            },
        };
        let tidx = match parse_existing_id(&self.idx_map, tokens[1].as_slice()) {
            Ok(idx) => idx,
            Err(e) => {
                return Err(e);
            },
        };
        assert(crate::state::term_ok(self@, tidx as int));
        let q = match term_at(&self.terms, tidx).kind.quant_idx() {
            Some(q) => q,
            None => {
                return Err(ParseError::Malformed);
            },
        };
        if quantifier_at(&self.quantifiers, q).vars.is_some() {
            return Err(ParseError::Inconsistent);
        }
        let ghost before = quant_views(quantifier_arena(self.quantifiers));
        let ghost vv = vars@;
        quantifier_at_mut(&mut self.quantifiers, q).vars = Some(vars);
        assert(quant_views(quantifier_arena(self.quantifiers)) =~= before.update(
            q as int,
            with_vars(before[q as int], vv),
        ));
        self.count_line();
        Ok(())
    }

    /// Reads the line that attaches a term to the instance that is open.
    pub fn attach_enode(&mut self, tokens: &Vec<Vec<u8>>) -> (r: Result<(), ParseError>)
        requires
            tokens.len() >= 1,
            old(self)@.wf(),
            old(self).lines < usize::MAX,
        ensures
            outcome(
                *old(self),
                *final(self),
                r,
                counted(attach_enode_spec(old(self)@, views(tokens@).skip(1))),
            ),
            final(self)@.wf(),
    {
        proof {
            if attach_enode_spec(old(self)@, views(tokens@).skip(1)) is Ok {
                lemma_attach_enode_wf(old(self)@, views(tokens@).skip(1));
                lemma_bump_wf(attach_enode_spec(old(self)@, views(tokens@).skip(1))->Ok_0);
            }
        }
        if tokens.len() != 3 {
            return Err(ParseError::Malformed);
        }
        if parse_decimal(tokens[2].as_slice()).is_none() {
            return Err(ParseError::Malformed);
        }
        let idx = match parse_existing_id(&self.idx_map, tokens[1].as_slice()) {
            Ok(idx) => idx,
            Err(e) => {
                return Err(e);
            },
        };
        if self.inst_stack.len() > 0 {
            let top = self.inst_stack[self.inst_stack.len() - 1];
            let ghost terms_before = term_views(term_arena(self.terms));
            let ghost insts_before = inst_views(instantiation_arena(self.instantiations));
            term_at_mut(&mut self.terms, idx).resp_inst = Some(top);
            instantiation_at_mut(&mut self.instantiations, top).yields_terms.push(idx);
            assert(term_views(term_arena(self.terms)) =~= terms_before.update(
                idx as int,
                with_producer(terms_before[idx as int], top),
            ));
            assert(inst_views(instantiation_arena(self.instantiations)) =~= insts_before.update(
                top as int,
                with_yield(insts_before[top as int], idx),
            ));
        }
        self.count_line();
        Ok(())
    }
}

} // verus!
