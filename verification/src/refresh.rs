//! When the cache is refreshed, and the steps of a refresh.

use crate::error::Error;
use crate::ignore::Core;
use vstd::prelude::*;

verus! {

/// What becomes of the cache before a request is answered.
#[derive(Clone, Copy, Debug, PartialEq, Eq, Structural)]
pub enum Refresh {
    /// The user asked for a refresh.
    Requested,
    /// There is no cache: it is refreshed though nobody asked, and the user is
    /// warned of it.
    Forced,
    /// The cache is used as it is.
    Cached,
}

/// What becomes of the cache: a refresh that is asked for is made, and one
/// that is not is made all the same where there is no cache.
pub open spec fn refresh_for(requested: bool, cache_exists: bool) -> Refresh {
    if requested {
        Refresh::Requested
    } else if !cache_exists {
        Refresh::Forced
    } else {
        Refresh::Cached
    }
}

/// Decides what becomes of the cache before a request is answered.
pub fn refresh(requested: bool, cache_exists: bool) -> (r: Refresh)
    ensures
        r == refresh_for(requested, cache_exists),
{
    if requested {
        Refresh::Requested
    } else if !cache_exists {
        Refresh::Forced
    } else {
        Refresh::Cached
    }
}

/// Where a refresh stands: the step that is to be taken next, with all that
/// it takes, or how the refresh has ended.
#[derive(Debug)]
pub enum Update {
    /// The directory at this path is to be made, with those above it.
    CreateDir(String),
    /// The catalog is to be fetched from this address.
    Fetch(String),
    /// The file at this path is to be overwritten with these bytes in one
    /// move.
    Write(String, Vec<u8>),
    /// Every step has succeeded.
    Done,
    /// A step has failed, and the refresh was given up.
    Failed(Error),
}

impl Update {
    /// Whether the refresh has ended.
    pub open spec fn ended(self) -> bool {
        self is Done || self is Failed
    }

    /// Whether the refresh has ended.
    pub fn is_ended(&self) -> (r: bool)
        ensures
            r == self.ended(),
    {
        match self {
            Update::Done => true,
            Update::Failed(_) => true,
            _ => false,
        }
    }
}

impl Core {
    /// The first step of a refresh: the cache directory is made only where
    /// there is no cache yet, and else the catalog is fetched at once.
    pub open spec fn first_step(&self, cache_exists: bool) -> Update {
        if cache_exists {
            Update::Fetch(self.server)
        } else {
            Update::CreateDir(self.cache_dir)
        }
    }

    /// Where a refresh stands after `step` was taken. `outcome` is `None`
    /// where the step has failed, and else what it has brought: the catalog
    /// as it was fetched, and anything for the other steps. The directory is
    /// made before the catalog is fetched; what was fetched is what is written
    /// to the cache file; a failure ends the refresh; nothing follows its end.
    pub open spec fn step_after(&self, step: Update, outcome: Option<Vec<u8>>) -> Update {
        match step {
            Update::CreateDir(_) => match outcome {
                Some(_) => Update::Fetch(self.server),
                None => Update::Failed(Error::Write),
            },
            Update::Fetch(_) => match outcome {
                Some(catalog) => Update::Write(self.ignore_file, catalog),
                None => Update::Failed(Error::Fetch),
            },
            Update::Write(_, _) => match outcome {
                Some(_) => Update::Done,
                None => Update::Failed(Error::Write),
            },
            Update::Done => Update::Done,
            Update::Failed(error) => Update::Failed(error),
        }
    }

    /// Where a refresh that stood at `step` stands after the steps from there
    /// on were taken with the given outcomes, one after the other.
    pub open spec fn steps_after(&self, step: Update, outcomes: Seq<Option<Vec<u8>>>) -> Update
        decreases outcomes.len(),
    {
        if outcomes.len() == 0 {
            step
        } else {
            self.step_after(self.steps_after(step, outcomes.drop_last()), outcomes.last())
        }
    }

    /// Begins a refresh of the cache and says what to do first, given whether
    /// the directory and the file of the cache are there.
    pub fn update(&self, dir_present: bool, file_present: bool) -> (r: Update)
        ensures
            r == self.first_step(dir_present || file_present),
    {
        if self.cache_exists(dir_present, file_present) {
            Update::Fetch(self.server.clone())
        } else {
            Update::CreateDir(self.cache_dir.clone())
        }
    }

    /// Takes a refresh on from `step`, which has failed (`None`) or brought
    /// `outcome`, and says what to do next.
    pub fn next(&self, step: Update, outcome: Option<Vec<u8>>) -> (r: Update)
        ensures
            r == self.step_after(step, outcome),
    {
        match step {
            Update::CreateDir(_) => match outcome {
                Some(_) => Update::Fetch(self.server.clone()),
                None => Update::Failed(Error::Write),
            },
            Update::Fetch(_) => match outcome {
                Some(catalog) => Update::Write(self.ignore_file.clone(), catalog),
                None => Update::Failed(Error::Fetch),
            },
            Update::Write(_, _) => match outcome {
                Some(_) => Update::Done,
                None => Update::Failed(Error::Write),
            },
            Update::Done => Update::Done,
            Update::Failed(error) => Update::Failed(error),
        }
    }
}

/// A step that fails ends the refresh for good. Where the refresh has not
/// ended before the step with the first failure, it ends with that step, as
/// failed, and stays so whatever is reported after it: no step is tried again.
pub proof fn lemma_failure_is_final(
    core: Core,
    start: Update,
    outcomes: Seq<Option<Vec<u8>>>,
    failed: int,
)
    requires
        0 <= failed < outcomes.len(),
        outcomes[failed] is None,
        !core.steps_after(start, outcomes.take(failed)).ended(),
    ensures
        core.steps_after(start, outcomes) is Failed,
        core.steps_after(start, outcomes) == core.steps_after(start, outcomes.take(failed + 1)),
    decreases outcomes.len(),
{
    if failed == outcomes.len() - 1 {
        assert(outcomes.take(failed + 1) =~= outcomes);
        assert(outcomes.drop_last() =~= outcomes.take(failed));
    } else {
        let shorter = outcomes.drop_last();
        assert(shorter.take(failed) =~= outcomes.take(failed));
        assert(shorter.take(failed + 1) =~= outcomes.take(failed + 1));
        lemma_failure_is_final(core, start, shorter, failed);
    }
}

} // verus!
