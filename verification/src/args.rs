//! Choices the command line offers.
use vstd::prelude::*;

verus! {

/// Output format of the generated manual.
#[derive(Debug, Clone, Copy, PartialEq, Eq, Structural)]
pub enum ManualFormat {
    Manpages,
    Markdown,
}

/// Template of the initial `.hoox.conf`.
#[derive(Debug, Clone, Copy, PartialEq, Eq, Structural)]
pub enum InitTemplate {
    Rust,
}

} // verus!
