//! The progress file of a chunked run.

use std::collections::BTreeSet;
use vstd::prelude::*;

verus! {

/// The version of the progress file that this library writes and reads.
pub const PROGRESS_VERSION: u32 = 1;

/// What a chunked run remembers between two starts.
#[derive(Debug)]
pub struct ProgressState {
    pub version: u32,
    pub total_tiles: (usize, usize),
    pub completed: Vec<(usize, usize)>,
    pub failed: Vec<(usize, usize)>,
}

/// What a [`ProgressState`] holds, over sequences.
#[verifier::ext_equal]
pub struct ProgressView {
    pub version: u32,
    pub total_tiles: (usize, usize),
    pub completed: Seq<(usize, usize)>,
    pub failed: Seq<(usize, usize)>,
}

impl View for ProgressState {
    type V = ProgressView;

    open spec fn view(&self) -> ProgressView {
        ProgressView {
            version: self.version,
            total_tiles: self.total_tiles,
            completed: self.completed@,
            failed: self.failed@,
        }
    }
}

/// The state before anything has been done.
pub open spec fn no_progress() -> ProgressView {
    ProgressView {
        version: 0,
        total_tiles: (0, 0),
        completed: Seq::empty(),
        failed: Seq::empty(),
    }
}

impl Default for ProgressState {
    fn default() -> (r: ProgressState)
        ensures
            r@ == no_progress(),
    {
        ProgressState {
            version: 0,
            total_tiles: (0, 0),
            completed: Vec::new(),
            failed: Vec::new(),
        }
    }
}

/// Decides on what came out of the progress file: a state of another version is not used.
pub fn accept_progress(parsed: Option<ProgressState>) -> (r: Option<ProgressState>)
    ensures
        r == match parsed {
            Some(state) => if state.version == PROGRESS_VERSION {
                Some(state)
            } else {
                None
            },
            None => None,
        },
{
    match parsed {
        Some(state) => {
            if state.version != PROGRESS_VERSION {
                return None;
            }
            Some(state)
        },
        None => None,
    }
}

impl ProgressState {
    /// The tiles that are done, each once.
    pub fn completed_set(&self) -> (r: BTreeSet<(usize, usize)>)
        ensures
            r@ == self.completed@.to_set(),
    {
        broadcast use vstd::laws_cmp::group_laws_cmp;
        broadcast use vstd::std_specs::btree::group_btree_axioms;
        let mut set: BTreeSet<(usize, usize)> = BTreeSet::new();
        assert(self.completed@.take(0).to_set() =~= Set::empty());
        for tile in it: self.completed.iter()
            invariant
                it.seq().len() == self.completed@.len(),
                forall|i: int| 0 <= i < it.seq().len() ==> *it.seq()[i] == self.completed@[i],
                set@ == self.completed@.take(it.index()).to_set(),
        {
            let ghost front = self.completed@.take(it.index());
            let ghost n = it.index();
            assert(*tile == self.completed@[n]);
            set.insert(*tile);
            proof {
                front.lemma_push_to_set_commute(*tile);
                assert(self.completed@.take(n + 1) =~= front.push(*tile));
            }
        }
        assert(self.completed@.take(0int + self.completed@.len()) =~= self.completed@);
        set
    }
}

/// What a progress state holds is all there is to it, and the state before anything has been done
/// records nothing.
pub proof fn law_progress_view_is_faithful(state: ProgressState)
    ensures
        state@.version == state.version,
        state@.total_tiles == state.total_tiles,
        state@.completed == state.completed@,
        state@.failed == state.failed@,
        no_progress().completed.len() == 0,
        no_progress().failed.len() == 0,
{
}

} // verus!
