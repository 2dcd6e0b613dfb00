//! The state of the page that shows a parsed log, and how actions change it.

use std::collections::BTreeMap;
use vstd::prelude::*;

verus! {

/// What can happen to the state.
#[derive(Debug)]
pub enum GUIAction {
    /// A log was parsed: whether it was, the drawing, and the line of each
    /// node.
    ParseResult(bool, String, BTreeMap<usize, usize>),
    /// The last line to parse was set.
    SetMaxLineNr(i32),
    /// A number was typed in.
    ReadInput(i32),
}

/// The state of the page.
#[derive(Clone, Debug, PartialEq)]
pub struct GraphState {
    pub parsed_log: bool,
    pub svg_text: String,
    pub line_nr_of_node: BTreeMap<usize, usize>,
    pub max_line_nr: i32,
    pub input: i32,
}

impl Default for GraphState {
    fn default() -> (r: Self)
        ensures
            !r.parsed_log,
            r.svg_text@ == Seq::<char>::empty(),
            r.line_nr_of_node@ == Map::<usize, usize>::empty(),
            r.max_line_nr == i32::MAX,
            r.input == i32::MAX,
    {
        GraphState {
            parsed_log: false,
            svg_text: String::new(),
            line_nr_of_node: BTreeMap::new(),
            max_line_nr: i32::MAX,
            input: i32::MAX,
        }
    }
}

/// The state after an action: the result of parsing replaces what the state
/// said of the log, each of the two numbers replaces the one it stands for,
/// and all else stays.
pub open spec fn reduced_state(state: GraphState, action: GUIAction) -> GraphState {
    match action {
        GUIAction::ParseResult(parsed_log, svg_text, line_nr_of_node) => GraphState {
            parsed_log,
            svg_text,
            line_nr_of_node,
            ..state
        },
        GUIAction::SetMaxLineNr(max_line_nr) => GraphState { max_line_nr, ..state },
        GUIAction::ReadInput(input) => GraphState { input, ..state },
    }
}

impl GraphState {
    /// The state after an action.
    pub fn reduce(self, action: GUIAction) -> (r: GraphState)
        ensures
            r == reduced_state(self, action),
    {
        match action {
            GUIAction::ParseResult(parsed_log, svg_text, line_nr_of_node) => GraphState {
                parsed_log,
                svg_text,
                line_nr_of_node,
                max_line_nr: self.max_line_nr,
                input: self.input,
            },
            GUIAction::SetMaxLineNr(max_line_nr) => GraphState {
                parsed_log: self.parsed_log,
                svg_text: self.svg_text,
                line_nr_of_node: self.line_nr_of_node,
                max_line_nr,
                input: self.input,
            },
            GUIAction::ReadInput(input) => GraphState {
                parsed_log: self.parsed_log,
                svg_text: self.svg_text,
                line_nr_of_node: self.line_nr_of_node,
                max_line_nr: self.max_line_nr,
                input,
            },
        }
    }
}

} // verus!
