//! Small pieces of the pattern context.
use vstd::prelude::*;

use crate::reachability::Location;

verus! {

/// A type in a pattern, by identity.
#[derive(Debug, Clone, Copy, PartialEq, Eq, Structural)]
pub struct PatTy {
    pub id: u64,
}

/// A field of a struct pattern.
#[derive(Debug, Clone, Copy)]
pub struct Field {
    pub ty: PatTy,
}

/// A trait definition pattern (nothing is matched in it yet).
#[derive(Debug, Clone, Copy)]
pub struct TraitDef {}

/// What a label of a pattern names.
#[derive(Debug, Clone, Copy, PartialEq, Eq, Structural)]
pub enum Spanned {
    Location(Location),
    Local(u32),
    Body,
    Output,
}

/// The kind of a block of a pattern file.
#[derive(Debug, Clone, Copy, PartialEq, Eq, Structural)]
pub enum PattOrUtil {
    Patt,
    Util,
}

/// The environment variable through which RPL reads its arguments.
pub const RPL_ARGS_ENV: &'static str = "RPL_ARGS";

/// Compiler callbacks that track the value of `RPL_ARGS`.
#[derive(Debug)]
pub struct RustcCallbacks {
    pub rpl_args_var: Option<String>,
}

impl RustcCallbacks {
    pub fn new(rpl_args_var: Option<String>) -> (r: Self)
        ensures
            r.rpl_args_var == rpl_args_var,
    {
        RustcCallbacks { rpl_args_var }
    }
}

/// The compiler's default callbacks.
#[derive(Debug)]
pub struct DefaultCallbacks;

/// Compiler callbacks that run the RPL checks after analysis.
#[derive(Debug)]
pub struct RplCallbacks {
    pub rpl_args_var: Option<String>,
}

impl RplCallbacks {
    pub fn new(rpl_args_var: Option<String>) -> (r: Self)
        ensures
            r.rpl_args_var == rpl_args_var,
    {
        RplCallbacks { rpl_args_var }
    }
}

/// An error was found in an input pattern.
#[derive(Debug, Clone, Copy)]
pub struct ErrorFound;

impl ErrorFound {
    /// The message reported for it.
    pub fn message(&self) -> (r: &'static str)
        ensures
            r@ == "An error was found with input RPL pattern(s)"@,
    {
        "An error was found with input RPL pattern(s)"
    }
}

} // verus!
