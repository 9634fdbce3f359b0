//! A snapshot of a simulation: its clocks and the state of every process.

use crate::fixed::Fixed;
use crate::model::process_state::{ProcessState, StateView};
use vstd::prelude::*;

verus! {

/// The state of every process of a simulation, under the identifier of the
/// process, in the order in which the processes were added.
#[derive(Debug)]
pub struct ProcessStates {
    entries: Vec<(String, ProcessState)>,
}

/// The clocks of a simulation and the state of each of its processes.
#[derive(Debug)]
pub struct SimulationState {
    pub step: u64,
    pub time: Fixed,
    pub process_states: ProcessStates,
}

/// The views of a sequence of entries, in order.
pub open spec fn entries_view(entries: Seq<(String, ProcessState)>) -> Seq<(Seq<char>, StateView)> {
    Seq::new(entries.len(), |i: int| (entries[i].0@, entries[i].1@))
}

/// The position of the first entry under `id`, or the number of entries
/// where there is none.
pub open spec fn entry_of(entries: Seq<(Seq<char>, StateView)>, id: Seq<char>) -> int
    decreases entries.len(),
{
    if entries.len() == 0 {
        0
    } else if entries[0].0 == id {
        0
    } else {
        1 + entry_of(entries.drop_first(), id)
    }
}

impl View for ProcessStates {
    type V = Seq<(Seq<char>, StateView)>;

    closed spec fn view(&self) -> Seq<(Seq<char>, StateView)> {
        entries_view(self.entries@)
    }
}

impl ProcessStates {
    pub fn new() -> (r: ProcessStates)
        ensures
            r@ == Seq::<(Seq<char>, StateView)>::empty(),
    {
        let r = ProcessStates { entries: Vec::new() };
        assert(r@ =~= Seq::empty());
        r
    }

    /// Adds the state of the process `id` behind those already there.
    pub fn push(&mut self, id: String, state: ProcessState)
        ensures
            final(self)@ == old(self)@.push((id@, state@)),
    {
        self.entries.push((id, state));
        assert(self@ =~= old(self)@.push((id@, state@)));
    }

    pub fn len(&self) -> (r: usize)
        ensures
            r == self@.len(),
    {
        self.entries.len()
    }

    /// The identifier and the state at position `i`.
    pub fn entry(&self, i: usize) -> (r: (&String, &ProcessState))
        requires
            i < self@.len(),
        ensures
            r.0@ == self@[i as int].0,
            r.1@ == self@[i as int].1,
    {
        (&self.entries[i].0, &self.entries[i].1)
    }

    /// The state of the process `id`, if the snapshot holds one.
    pub fn get(&self, id: &str) -> (r: Option<&ProcessState>)
        ensures
            match r {
                Some(state) => entry_of(self@, id@) < self@.len() && state@
                    == self@[entry_of(self@, id@)].1,
                None => entry_of(self@, id@) == self@.len(),
            },
    {
        let wanted = id.to_owned();
        let ghost all = self@;
        let mut i: usize = 0;
        assert(all.skip(0) =~= all);
        while i < self.entries.len()
            invariant
                i <= self.entries.len(),
                all == self@,
                wanted@ == id@,
                entry_of(all, id@) == i + entry_of(all.skip(i as int), id@),
            decreases self.entries.len() - i,
        {
            assert(all.skip(i as int)[0] == all[i as int]);
            assert(all.skip(i as int).drop_first() =~= all.skip(i + 1));
            if self.entries[i].0 == wanted {
                return Some(&self.entries[i].1);
            }
            i += 1;
        }
        None
    }
}

} // verus!
