//! Reconstruction of the causal graph of quantifier instantiations from the
//! trace log of an SMT solver, and the filtering of that graph for display.
//!
//! A log is read line by line ([`parser`]). Each line is an event: it
//! declares a term ([`declare`]), attaches something to one ([`attach`]),
//! explains an equality ([`explain`]), or announces, begins or ends an
//! instantiation ([`instantiate`]). What the events leave behind is the
//! state of the parser ([`state`]), which holds the entities of [`items`] in
//! its arenas ([`arena`]) and finds them by the solver's identifiers
//! ([`idx_map`], [`resolve`]). The dependencies of an instantiation on
//! earlier ones are found when it is announced ([`dependency`]). Every state
//! that the parser reaches is well formed ([`wellformed`]), and no
//! instantiation is left without a record of where it comes from
//! ([`accounted`]).
//!
//! From a parsed log the graph of instantiations is made ([`results`],
//! [`from_parser`], [`inst_graph`]). Its nodes can be hidden and shown
//! ([`filter`]), and a reduced graph of the shown nodes is derived for
//! display ([`reduce`]), which keeps what can be reached ([`reroute`],
//! [`reach`]). What the page that shows the graph does with each message is
//! decided in [`render`]; [`graph_state`], [`colours`] and [`worker`] hold
//! the smaller decisions of the pages.

pub mod accounted;
pub mod arena;
pub mod attach;
pub mod colours;
pub mod declare;
pub mod dependency;
pub mod explain;
pub mod filter;
pub mod from_parser;
pub mod graph_state;
pub mod idx_map;
pub mod inst_graph;
pub mod instantiate;
pub mod items;
pub mod parser;
pub mod reach;
pub mod reduce;
pub mod render;
pub mod reroute;
pub mod resolve;
pub mod results;
pub mod state;
pub mod text;
pub mod tuples;
pub mod version;
pub mod wellformed;
pub mod worker;
