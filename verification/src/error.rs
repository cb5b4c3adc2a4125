//! Errors of bundling, with enough context to produce useful messages.
use vstd::prelude::*;

use crate::text::{chars_to_string, push_str};

verus! {

/// All possible errors that can occur during bundling.
#[derive(Debug)]
pub enum BundlerError {
    /// the entry file path does not exist on disk
    EntryNotFound(String),
    /// a `require()` call could not be resolved to a file and was not
    /// marked as external in the bundler config
    UnresolvedModule { module: String, requirer: String },
    /// a circular dependency was detected during graph traversal.
    /// lua allows circular requires at runtime via lazy loading but
    /// static bundling cannot resolve them
    CircularDependency { cycle: String },
    /// the parser failed on a lua source file
    ParseError { path: String, reason: String },
    /// a file could not be read from disk
    IoError { path: String, reason: String },
    /// an injection file could not be read from disk
    InjectionReadError { path: String, reason: String },
}

/// The message of an error, as it is shown to the user.
pub open spec fn error_message(e: BundlerError) -> Seq<char> {
    match e {
        BundlerError::EntryNotFound(p) => "entry file does not exist: "@ + p@,
        BundlerError::UnresolvedModule { module, requirer } => "cannot resolve module '"@ + module@
            + "' required by '"@ + requirer@ + "'"@,
        BundlerError::CircularDependency { cycle } => "circular dependency detected: "@ + cycle@,
        BundlerError::ParseError { path, reason } => "failed to parse '"@ + path@ + "': "@ + reason@,
        BundlerError::IoError { path, reason } => "failed to read '"@ + path@ + "': "@ + reason@,
        BundlerError::InjectionReadError { path, reason } => "failed to read injection file '"@ + path@
            + "': "@ + reason@,
    }
}

impl BundlerError {
    /// The message of this error, as it is shown to the user.
    pub fn message(&self) -> (r: String)
        ensures
            r@ == error_message(*self),
    {
        let mut m: Vec<char> = Vec::new();
        match self {
            BundlerError::EntryNotFound(p) => {
                push_str(&mut m, "entry file does not exist: ");
                push_str(&mut m, p.as_str());
            },
            BundlerError::UnresolvedModule { module, requirer } => {
                push_str(&mut m, "cannot resolve module '");
                push_str(&mut m, module.as_str());
                push_str(&mut m, "' required by '");
                push_str(&mut m, requirer.as_str());
                push_str(&mut m, "'");
            },
            BundlerError::CircularDependency { cycle } => {
                push_str(&mut m, "circular dependency detected: ");
                push_str(&mut m, cycle.as_str());
            },
            BundlerError::ParseError { path, reason } => {
                push_str(&mut m, "failed to parse '");
                push_str(&mut m, path.as_str());
                push_str(&mut m, "': ");
                push_str(&mut m, reason.as_str());
            },
            BundlerError::IoError { path, reason } => {
                push_str(&mut m, "failed to read '");
                push_str(&mut m, path.as_str());
                push_str(&mut m, "': ");
                push_str(&mut m, reason.as_str());
            },
            BundlerError::InjectionReadError { path, reason } => {
                push_str(&mut m, "failed to read injection file '");
                push_str(&mut m, path.as_str());
                push_str(&mut m, "': ");
                push_str(&mut m, reason.as_str());
            },
        }
        chars_to_string(&m)
    }
}

} // verus!
