use vstd::prelude::*;

pub mod commands;
pub mod geometry;
pub mod conditions;
pub mod manager;
pub mod robots;
pub mod units;

pub use commands::Command;
pub use conditions::OnTrue;
pub use conditions::WhileTrue;
pub use conditions::on_false;
pub use conditions::on_true;
pub use conditions::while_false;
pub use conditions::while_true;
pub use manager::CommandManager;
pub use manager::ConditionalScheduler;

verus! {

/// Phases of a periodic robot loop, used by callers to tag their own
/// bookkeeping of what the loop is currently doing.
#[derive(Debug, Clone, Copy, PartialEq, Eq, Hash, Structural)]
pub enum EventTypes {
    Init,
    Periodic,
    Overrun,
    End,
}

} // verus!
