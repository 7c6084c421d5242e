use vstd::prelude::*;

pub mod adt_fields;
pub mod adt_match;
pub mod attributes;
pub mod bindings;
pub mod candidates;
pub mod config;
pub mod context;
pub mod diag;
pub mod item;
pub mod lint;
pub mod locals;
pub mod matching;
pub mod csp;
pub mod csp_laws;
pub mod meta;
pub mod name_map;
pub mod normalized;
pub mod one_statement;
pub mod operation;
pub mod paths;
pub mod pat_attr;
pub mod predicates;
pub mod reachability;
pub mod session;
pub mod signature;
pub mod slot;
pub mod stmt_candidates;
pub mod symbol_table;
pub mod types;

verus! {

} // verus!
