//! Target execution environments.
//!
//! An environment is an immutable value describing where resolved code will
//! run: an interned target identity plus the flags the core reads. Derived
//! environments are new values; nothing is mutated in place.

use vstd::prelude::*;

verus! {

/// The execution context a subtree of the build compiles for.
#[derive(Debug, Clone, Copy, PartialEq, Eq, Structural)]
pub struct Environment {
    /// Interned identity of the target platform and module-system flavor.
    pub target: u64,
    /// Whether TypeScript-aware resolution and transforms are active.
    pub typescript_enabled: bool,
}

impl Environment {
    pub fn new(target: u64, typescript_enabled: bool) -> (e: Environment)
        ensures
            e == (Environment { target, typescript_enabled }),
    {
        Environment { target, typescript_enabled }
    }

    pub fn is_typescript_enabled(&self) -> (b: bool)
        ensures
            b == self.typescript_enabled,
    {
        self.typescript_enabled
    }

    /// The same target with TypeScript support switched on.
    pub fn with_typescript(&self) -> (e: Environment)
        ensures
            e == (Environment { typescript_enabled: true, ..*self }),
    {
        Environment { target: self.target, typescript_enabled: true }
    }
}

/// The environment a module built for `env` resolves its own imports in:
/// TypeScript module kinds force TypeScript-aware resolution.
pub open spec fn spec_escalate(env: Environment, needs_typescript: bool) -> Environment {
    if needs_typescript {
        Environment { typescript_enabled: true, ..env }
    } else {
        env
    }
}

} // verus!
