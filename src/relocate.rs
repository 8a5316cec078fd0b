//! The steps of moving one file: make the destination folder, rename, and
//! where the rename fails copy and then remove the source.
use vstd::prelude::*;

verus! {

/// One filesystem operation of a move.
#[derive(Clone, Copy, Debug, PartialEq, Eq, Structural)]
pub enum MoveStep {
    /// Create the destination's parent folders.
    CreateParent,
    /// Rename the source to the destination.
    Rename,
    /// Copy the source's bytes to the destination.
    Copy,
    /// Remove the source after a copy.
    RemoveSource,
}

/// What comes next in the handling of one file.
#[derive(Clone, Copy, Debug, PartialEq, Eq, Structural)]
pub enum MoveNext {
    /// Perform this operation and report whether it succeeded.
    Perform(MoveStep),
    /// Preview: the destination is only reported, nothing is touched.
    Planned,
    /// The file is at its destination.
    Moved,
    /// This operation failed; the file's handling ends here.
    Failed(MoveStep),
}

pub open spec fn start_of(preview: bool) -> MoveNext {
    if preview {
        MoveNext::Planned
    } else {
        MoveNext::Perform(MoveStep::CreateParent)
    }
}

pub open spec fn next_after(step: MoveStep, succeeded: bool) -> MoveNext {
    match step {
        MoveStep::CreateParent => if succeeded {
            MoveNext::Perform(MoveStep::Rename)
        } else {
            MoveNext::Failed(MoveStep::CreateParent)
        },
        MoveStep::Rename => if succeeded {
            MoveNext::Moved
        } else {
            MoveNext::Perform(MoveStep::Copy)
        },
        MoveStep::Copy => if succeeded {
            MoveNext::Perform(MoveStep::RemoveSource)
        } else {
            MoveNext::Failed(MoveStep::Copy)
        },
        MoveStep::RemoveSource => if succeeded {
            MoveNext::Moved
        } else {
            MoveNext::Failed(MoveStep::RemoveSource)
        },
    }
}

/// The first thing to do for a file whose destination is known: nothing in
/// preview, else create the destination's folders.
pub fn begin_move(preview: bool) -> (r: MoveNext)
    ensures
        r == start_of(preview),
{
    if preview {
        MoveNext::Planned
    } else {
        MoveNext::Perform(MoveStep::CreateParent)
    }
}

/// What follows an operation, given whether it succeeded. A failed rename
/// falls back to copy and remove; any other failure ends the move.
pub fn after_step(step: MoveStep, succeeded: bool) -> (r: MoveNext)
    ensures
        r == next_after(step, succeeded),
{
    match step {
        MoveStep::CreateParent => if succeeded {
            MoveNext::Perform(MoveStep::Rename)
        } else {
            MoveNext::Failed(MoveStep::CreateParent)
        },
        MoveStep::Rename => if succeeded {
            MoveNext::Moved
        } else {
            MoveNext::Perform(MoveStep::Copy)
        },
        MoveStep::Copy => if succeeded {
            MoveNext::Perform(MoveStep::RemoveSource)
        } else {
            MoveNext::Failed(MoveStep::Copy)
        },
        MoveStep::RemoveSource => if succeeded {
            MoveNext::Moved
        } else {
            MoveNext::Failed(MoveStep::RemoveSource)
        },
    }
}

/// Preview performs no operation at all.
pub proof fn law_preview_performs_nothing()
    ensures
        !(start_of(true) is Perform),
{
}

/// The source is removed only right after a copy that succeeded, so it is
/// never deleted before its bytes are at the destination.
pub proof fn law_remove_only_after_copy(step: MoveStep, succeeded: bool)
    requires
        next_after(step, succeeded) == MoveNext::Perform(MoveStep::RemoveSource),
    ensures
        step == MoveStep::Copy,
        succeeded,
{
}

} // verus!
