//! Plain values that several parts of the engine share.

use vstd::prelude::*;

verus! {

/// How the platform names one file system object.
#[derive(Clone, Copy, Debug, PartialEq, Eq, Structural)]
pub enum FileIdentity {
    Unix { device: u64, inode: u64 },
    Windows { volume: u64, index: u64 },
}

/// What kind of file system object was observed.
#[derive(Clone, Copy, Debug, PartialEq, Eq, Structural)]
pub enum ResourceKind {
    File,
    Directory,
    Link,
    Other,
}

/// The promise that an approved plan runs under.
#[derive(Clone, Copy, Debug, PartialEq, Eq, Structural)]
pub enum ExecutionContract {
    ModelOnly,
    RevalidatedTrashV1,
}

impl ExecutionContract {
    pub open spec fn name(self) -> Seq<char> {
        match self {
            ExecutionContract::ModelOnly => "model_only"@,
            ExecutionContract::RevalidatedTrashV1 => "revalidated_trash_v1"@,
        }
    }

    pub fn as_str(&self) -> (name: &'static str)
        ensures
            name@ == self.name(),
    {
        match self {
            ExecutionContract::ModelOnly => "model_only",
            ExecutionContract::RevalidatedTrashV1 => "revalidated_trash_v1",
        }
    }
}

/// The approval of one plan. It lets one session start, and is spent by it.
#[derive(Debug)]
pub struct Approval {
    spent: bool,
}

impl Approval {
    /// Whether a session was started with this approval.
    pub closed spec fn is_spent(self) -> bool {
        self.spent
    }

    /// The approval of a plan that nothing was started with.
    pub fn granted() -> (approval: Approval)
        ensures
            !approval.is_spent(),
    {
        Approval { spent: false }
    }

    /// Whether a session was started with this approval.
    pub fn used(&self) -> (answer: bool)
        ensures
            answer == self.is_spent(),
    {
        self.spent
    }

    pub(crate) fn spend(&mut self)
        ensures
            final(self).is_spent(),
    {
        self.spent = true;
    }
}

/// The operating system that the engine runs on, as far as it matters here.
#[derive(Clone, Copy, Debug, PartialEq, Eq, Structural)]
pub enum Host {
    MacOs,
    Other,
}

} // verus!
