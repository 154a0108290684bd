//! The search for a port on which to serve a preview.
//!
//! The ports of a fixed range are tried in ascending order. The search goes
//! on to the next port only where the one just tried is in use; it ends
//! where a port was bound, where binding failed for any other reason, and
//! where the range is used up.

use vstd::prelude::*;

verus! {

/// How an attempt to bind a port ended.
#[derive(Debug, Clone, Copy, PartialEq, Eq, Structural)]
pub enum BindOutcome {
    /// The port is bound.
    Bound,
    /// The port is in use.
    InUse,
    /// Binding failed for any other reason.
    Failed,
}

/// What to do after an attempt to bind a port.
#[derive(Debug, Clone, Copy, PartialEq, Eq, Structural)]
pub enum PortStep {
    /// Serve on the port that was bound.
    Serve,
    /// Try this port next.
    Next(u16),
    /// End the search without a port.
    GiveUp,
}

/// The first port that is tried.
pub fn first_port() -> (out: u16)
    ensures
        out == 1703,
{
    1703
}

/// The last port that is tried.
pub fn last_port() -> (out: u16)
    ensures
        out == 1998,
{
    1998
}

/// What to do after the attempt to bind `port` ended with `outcome`.
pub fn after_bind(port: u16, outcome: BindOutcome) -> (out: PortStep)
    requires
        1703 <= port <= 1998,
    ensures
        outcome == BindOutcome::Bound ==> out == PortStep::Serve,
        outcome == BindOutcome::Failed ==> out == PortStep::GiveUp,
        outcome == BindOutcome::InUse ==> out == (if port < 1998 {
            PortStep::Next((port + 1) as u16)
        } else {
            PortStep::GiveUp
        }),
{
    match outcome {
        BindOutcome::Bound => PortStep::Serve,
        BindOutcome::Failed => PortStep::GiveUp,
        BindOutcome::InUse => if port < 1998 {
            PortStep::Next(port + 1)
        } else {
            PortStep::GiveUp
        },
    }
}

} // verus!
