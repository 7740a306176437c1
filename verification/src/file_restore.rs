//! Putting one trash entry back where it was, step by step. The destination
//! is never overwritten: the trash store is asked to move the entry back only
//! after the destination was seen to be free.

use vstd::prelude::*;
use vstd::string::StringExecFns;

verus! {

/// Why an entry was not put back.
#[derive(Clone, Copy, Debug, PartialEq, Eq, Structural)]
pub enum FileFailure {
    /// The directory the entry belongs in was missing and could not be made.
    ParentNotCreated,
    /// Something already is where the entry belongs.
    DestinationExists,
    /// The trash store did not move the entry back.
    NotRestored,
}

/// What is to be done next to put an entry back, or how it ended.
#[derive(Clone, Copy, Debug, PartialEq, Eq, Structural)]
pub enum FileStep {
    /// Find out whether the destination's parent directory exists. The answer
    /// is yes also where the destination has no parent.
    ProbeParent,
    /// Create the parent directory and what is missing above it.
    CreateParent,
    /// Find out whether something is at the destination.
    ProbeDestination,
    /// Ask the trash store to move the entry back.
    MoveBack,
    /// The entry is back in place.
    Restored,
    /// The entry stays in the trash store.
    Refused(FileFailure),
}

/// The step that follows `step` once it was answered with `yes` or no.
pub open spec fn file_step_after(step: FileStep, yes: bool) -> FileStep {
    match step {
        FileStep::ProbeParent => if yes {
            FileStep::ProbeDestination
        } else {
            FileStep::CreateParent
        },
        FileStep::CreateParent => if yes {
            FileStep::ProbeDestination
        } else {
            FileStep::Refused(FileFailure::ParentNotCreated)
        },
        FileStep::ProbeDestination => if yes {
            FileStep::Refused(FileFailure::DestinationExists)
        } else {
            FileStep::MoveBack
        },
        FileStep::MoveBack => if yes {
            FileStep::Restored
        } else {
            FileStep::Refused(FileFailure::NotRestored)
        },
        FileStep::Restored => step,
        FileStep::Refused(_) => step,
    }
}

/// Restores one entry: given the step that was just carried out and its
/// answer, says what to do next. The first step is [`FileStep::ProbeParent`].
pub fn restore_file(step: FileStep, yes: bool) -> (next: FileStep)
    ensures
        next == file_step_after(step, yes),
{
    match step {
        FileStep::ProbeParent => if yes {
            FileStep::ProbeDestination
        } else {
            FileStep::CreateParent
        },
        FileStep::CreateParent => if yes {
            FileStep::ProbeDestination
        } else {
            FileStep::Refused(FileFailure::ParentNotCreated)
        },
        FileStep::ProbeDestination => if yes {
            FileStep::Refused(FileFailure::DestinationExists)
        } else {
            FileStep::MoveBack
        },
        FileStep::MoveBack => if yes {
            FileStep::Restored
        } else {
            FileStep::Refused(FileFailure::NotRestored)
        },
        FileStep::Restored => step,
        FileStep::Refused(_) => step,
    }
}

impl FileStep {
    /// Nothing more is to be done.
    pub open spec fn is_final(self) -> bool {
        self is Restored || self is Refused
    }

    /// Computes [`Self::is_final`].
    pub fn is_over(&self) -> (over: bool)
        ensures
            over == self.is_final(),
    {
        match self {
            FileStep::Restored => true,
            FileStep::Refused(_) => true,
            _ => false,
        }
    }
}

/// What the file system and the trash store would answer, were they asked.
pub struct FileAnswers {
    /// The destination's parent directory exists.
    pub parent_exists: bool,
    /// The parent directory can be created.
    pub parent_created: bool,
    /// Something is at the destination.
    pub destination_exists: bool,
    /// The trash store moves the entry back.
    pub moved: bool,
}

/// The answer to `step`.
pub open spec fn answer_to(step: FileStep, answers: FileAnswers) -> bool {
    match step {
        FileStep::ProbeParent => answers.parent_exists,
        FileStep::CreateParent => answers.parent_created,
        FileStep::ProbeDestination => answers.destination_exists,
        FileStep::MoveBack => answers.moved,
        FileStep::Restored => true,
        FileStep::Refused(_) => false,
    }
}

/// Where the steps end when each is answered from `answers`, starting at
/// `step` and taking at most `steps` of them.
pub open spec fn file_run(step: FileStep, answers: FileAnswers, steps: nat) -> FileStep
    decreases steps,
{
    if steps == 0 {
        step
    } else {
        file_run(file_step_after(step, answer_to(step, answers)), answers, (steps - 1) as nat)
    }
}

/// Four steps always reach an end, and the entry is back in place exactly when
/// its directory was there or could be made, the destination was free, and
/// the trash store moved it. With the directory in place and a trash store
/// that does its part, restoring succeeds if and only if the destination does
/// not exist.
pub proof fn lemma_restored_iff_destination_free(answers: FileAnswers)
    ensures
        file_run(FileStep::ProbeParent, answers, 4).is_final(),
        file_run(FileStep::ProbeParent, answers, 4) == FileStep::Restored <==> (
        answers.parent_exists || answers.parent_created) && !answers.destination_exists
            && answers.moved,
        answers.destination_exists && (answers.parent_exists || answers.parent_created)
            ==> file_run(FileStep::ProbeParent, answers, 4) == FileStep::Refused(
            FileFailure::DestinationExists,
        ),
{
    reveal_with_fuel(file_run, 5);
}

/// The trash store is asked to move an entry back only right after the
/// destination was found free.
pub proof fn lemma_never_overwrites(step: FileStep, yes: bool)
    requires
        file_step_after(step, yes) == FileStep::MoveBack,
    ensures
        step == FileStep::ProbeDestination,
        !yes,
{
}

impl FileFailure {
    /// The failure in words, for the entry that belongs at `destination`,
    /// inside the directory `parent`.
    pub open spec fn text(self, destination: Seq<char>, parent: Seq<char>) -> Seq<char> {
        match self {
            FileFailure::ParentNotCreated => "Failed to create parent directory: "@ + parent,
            FileFailure::DestinationExists => "Destination already exists: "@ + destination,
            FileFailure::NotRestored => "Failed to restore file to "@ + destination,
        }
    }

    /// Computes [`Self::text`].
    pub fn message(&self, destination: &str, parent: &str) -> (out: String)
        ensures
            out@ == self.text(destination@, parent@),
    {
        match self {
            FileFailure::ParentNotCreated => String::from_str(
                "Failed to create parent directory: ",
            ).concat(parent),
            FileFailure::DestinationExists => String::from_str(
                "Destination already exists: ",
            ).concat(destination),
            FileFailure::NotRestored => String::from_str("Failed to restore file to ").concat(
                destination,
            ),
        }
    }
}

} // verus!
