//! The contract that every kind of process keeps.

use crate::model::nodes::delay::{delay_react, delay_valid, DelayModel};
use crate::model::nodes::drain::{drain_react, drain_valid, DrainModel};
use crate::model::nodes::event_priority::{
    batch_reacted, borrowed_view, by_priority, lemma_failure_stays, others_of, react_in_order,
    react_to_batch, sort_by_priority, split_steps, steps_of, BatchOutcome,
};
use crate::model::nodes::resource::{no_events, push_event};
use crate::model::nodes::pool::{pool_react, pool_valid, PoolModel};
use crate::model::nodes::source::{source_react, source_valid, SourceModel};
use crate::model::nodes::stepper::{stepper_react, stepper_valid, StepperModel};
use crate::model::process_context::{ContextView, ProcessContext};
use crate::model::process_state::{ProcessState, StateView};
use crate::simulator::event::{events_view, Event, EventView};
use crate::utils::errors::{out_of_bounds, ErrorView, SimulationError};
use vstd::prelude::*;

verus! {

/// The mathematical value of a process of any kind.
pub enum ProcessModel {
    Source(SourceModel),
    Pool(PoolModel),
    Drain(DrainModel),
    Delay(DelayModel),
    Stepper(StepperModel),
}

/// What handling an event leads to: the process afterwards and the events
/// it emits, or the failure.
pub type Reaction<M> = Result<(M, Seq<EventView>), ErrorView>;

/// A proposed next state with its events, where the state is within its
/// bounds; the failure otherwise.
pub open spec fn within_bounds<M>(proposal: (M, Seq<EventView>), valid: bool) -> Reaction<M> {
    if valid {
        Ok(proposal)
    } else {
        Err(out_of_bounds())
    }
}

/// A process that was `before` and should react as `expected` is now
/// `after` and has returned `result`: on success the new state and the
/// events are the expected ones, and on failure the process is unchanged.
pub open spec fn reacted<M>(
    before: M,
    expected: Reaction<M>,
    after: M,
    result: Result<Vec<Event>, SimulationError>,
) -> bool {
    match expected {
        Ok((model, events)) => {
            &&& result matches Ok(emitted)
            &&& events_view(emitted@) == events
            &&& after == model
        },
        Err(error) => {
            &&& result matches Err(e)
            &&& e@ == error
            &&& after == before
        },
    }
}

/// The reaction of one kind of process, seen as that of a process of any
/// kind.
pub open spec fn lifted<M>(reaction: Reaction<M>, wrap: spec_fn(M) -> ProcessModel) -> Reaction<
    ProcessModel,
> {
    match reaction {
        Ok((next, events)) => Ok((wrap(next), events)),
        Err(e) => Err(e),
    }
}

/// The views of a sequence of names, in order.
pub open spec fn names_view(names: Seq<String>) -> Seq<Seq<char>> {
    Seq::new(names.len(), |i: int| names[i]@)
}

impl ProcessModel {
    /// The identifier of the process.
    pub open spec fn id(self) -> Seq<char> {
        match self {
            ProcessModel::Source(m) => m.id,
            ProcessModel::Pool(m) => m.id,
            ProcessModel::Drain(m) => m.id,
            ProcessModel::Delay(m) => m.id,
            ProcessModel::Stepper(m) => m.id,
        }
    }

    /// The name of the kind of the process.
    pub open spec fn kind(self) -> Seq<char> {
        match self {
            ProcessModel::Source(_) => "Source"@,
            ProcessModel::Pool(_) => "Pool"@,
            ProcessModel::Drain(_) => "Drain"@,
            ProcessModel::Delay(_) => "Delay"@,
            ProcessModel::Stepper(_) => "Stepper"@,
        }
    }

    /// Whether the state of the process is within the bounds of its kind.
    pub open spec fn valid(self) -> bool {
        match self {
            ProcessModel::Source(m) => source_valid(m),
            ProcessModel::Pool(m) => pool_valid(m),
            ProcessModel::Drain(m) => drain_valid(m),
            ProcessModel::Delay(m) => delay_valid(m),
            ProcessModel::Stepper(m) => stepper_valid(m),
        }
    }

    /// The ports at which the process takes events.
    pub open spec fn input_ports(self) -> Seq<Seq<char>> {
        match self {
            ProcessModel::Source(_) => Seq::empty(),
            ProcessModel::Pool(_) => seq!["in"@],
            ProcessModel::Drain(_) => seq!["in"@],
            ProcessModel::Delay(_) => seq!["in"@],
            ProcessModel::Stepper(_) => seq!["step"@],
        }
    }

    /// The ports from which the process sends events.
    pub open spec fn output_ports(self) -> Seq<Seq<char>> {
        match self {
            ProcessModel::Source(_) => seq!["out"@],
            ProcessModel::Pool(_) => seq!["out"@],
            ProcessModel::Drain(_) => Seq::empty(),
            ProcessModel::Delay(_) => seq!["out"@],
            ProcessModel::Stepper(_) => seq!["step"@],
        }
    }

    /// The numbers the process keeps.
    pub open spec fn state(self) -> StateView {
        match self {
            ProcessModel::Source(m) => StateView::Source { produced: m.produced },
            ProcessModel::Pool(m) => StateView::Pool { resources: m.resources, pending: m.pending },
            ProcessModel::Drain(m) => StateView::Drain { consumed: m.consumed },
            ProcessModel::Delay(m) => StateView::Delay {
                received: m.received,
                released: m.released,
                pending: m.pending,
            },
            ProcessModel::Stepper(m) => StateView::Stepper { current_step: m.current_step },
        }
    }

    /// The process with its state as it was when the process was made with
    /// default state, and its settings kept.
    pub open spec fn reset(self) -> ProcessModel {
        match self {
            ProcessModel::Source(m) => ProcessModel::Source(SourceModel { produced: 0, ..m }),
            ProcessModel::Pool(m) => ProcessModel::Pool(
                PoolModel { resources: 0, pending: 0, ..m },
            ),
            ProcessModel::Drain(m) => ProcessModel::Drain(DrainModel { consumed: 0, ..m }),
            ProcessModel::Delay(m) => ProcessModel::Delay(
                DelayModel { received: 0, released: 0, pending: 0, next_release_time: 0, ..m },
            ),
            ProcessModel::Stepper(m) => ProcessModel::Stepper(
                StepperModel { current_step: 0, ..m },
            ),
        }
    }

    /// How the process reacts to one event.
    pub open spec fn react(self, event: EventView, context: ContextView) -> Reaction<ProcessModel> {
        match self {
            ProcessModel::Source(m) => lifted(
                source_react(m, event, context),
                |n: SourceModel| ProcessModel::Source(n),
            ),
            ProcessModel::Pool(m) => lifted(
                pool_react(m, event, context),
                |n: PoolModel| ProcessModel::Pool(n),
            ),
            ProcessModel::Drain(m) => lifted(
                drain_react(m, event, context),
                |n: DrainModel| ProcessModel::Drain(n),
            ),
            ProcessModel::Delay(m) => lifted(
                delay_react(m, event, context),
                |n: DelayModel| ProcessModel::Delay(n),
            ),
            ProcessModel::Stepper(m) => lifted(
                stepper_react(m, event, context),
                |n: StepperModel| ProcessModel::Stepper(n),
            ),
        }
    }
}

/// What every kind of process offers to the scheduler.
pub trait Processor: Sized {
    /// The mathematical value of the process.
    spec fn model(&self) -> ProcessModel;

    fn id(&self) -> (r: &str)
        ensures
            r@ == self.model().id(),
    ;

    /// Handles one event: changes the process and returns the events it
    /// emits, each of which names the process as its source.
    fn on_event(&mut self, event: &Event, context: &ProcessContext) -> (r: Result<
        Vec<Event>,
        SimulationError,
    >)
        requires
            old(self).model().valid(),
        ensures
            final(self).model().valid(),
            reacted(
                old(self).model(),
                old(self).model().react(event@, context@),
                final(self).model(),
                r,
            ),
    ;

    /// Handles a batch of events that are due at one time, in the order of
    /// handling. Where the batch holds a `Step`, only its steps are
    /// handled, and the other events are handed back behind the emitted
    /// ones.
    fn on_events(&mut self, events: &[Event], context: &ProcessContext) -> (r: Result<
        Vec<Event>,
        SimulationError,
    >)
        requires
            old(self).model().valid(),
        ensures
            final(self).model().valid(),
            batch_reacted(
                react_to_batch(old(self).model(), events_view(events@), context@),
                final(self).model(),
                r,
            ),
    {
        let sorted = sort_by_priority(events);
        let (steps, others) = split_steps(&sorted);
        let stepping = steps.len() > 0;
        let chosen = if stepping {
            &steps
        } else {
            &others
        };
        let mut emitted = no_events();
        let mut i: usize = 0;
        while i < chosen.len()
            invariant
                i <= chosen.len(),
                self.model().valid(),
                react_in_order(
                    old(self).model(),
                    borrowed_view(chosen@).take(i as int),
                    context@,
                ) == (BatchOutcome {
                    model: self.model(),
                    events: events_view(emitted@),
                    error: None,
                }),
                chosen@ == if stepping {
                    steps@
                } else {
                    others@
                },
                stepping == (steps@.len() > 0),
                borrowed_view(steps@) == steps_of(by_priority(events_view(events@))),
                borrowed_view(others@) == others_of(by_priority(events_view(events@))),
            decreases chosen.len() - i,
        {
            let ghost all = borrowed_view(chosen@);
            assert(all.take(i + 1).drop_last() =~= all.take(i as int));
            assert(all.take(i + 1).last() == chosen@[i as int]@);
            let ghost so_far = events_view(emitted@);
            match self.on_event(chosen[i], context) {
                Ok(mut produced) => {
                    let ghost added = events_view(produced@);
                    emitted.append(&mut produced);
                    assert(events_view(emitted@) =~= so_far + added);
                },
                Err(e) => {
                    proof {
                        lemma_failure_stays(old(self).model(), all, context@, i as int + 1);
                    }
                    return Err(e);
                },
            }
            i += 1;
        }
        assert(borrowed_view(chosen@).take(i as int) =~= borrowed_view(chosen@));
        if stepping {
            let ghost own = events_view(emitted@);
            let mut k: usize = 0;
            while k < others.len()
                invariant
                    k <= others.len(),
                    events_view(emitted@) == own + borrowed_view(others@).take(k as int),
                decreases others.len() - k,
            {
                push_event(&mut emitted, others[k].clone());
                assert(borrowed_view(others@).take(k + 1) =~= borrowed_view(others@).take(
                    k as int,
                ).push(others@[k as int]@));
                assert(events_view(emitted@) =~= own + borrowed_view(others@).take(k + 1));
                k += 1;
            }
            assert(borrowed_view(others@).take(k as int) =~= borrowed_view(others@));
        }
        Ok(emitted)
    }

    fn get_state(&self) -> (r: ProcessState)
        ensures
            r@ == self.model().state(),
    ;

    fn get_input_ports(&self) -> (r: Vec<String>)
        ensures
            names_view(r@) == self.model().input_ports(),
    ;

    fn get_output_ports(&self) -> (r: Vec<String>)
        ensures
            names_view(r@) == self.model().output_ports(),
    ;

    /// Returns the process to its default state.
    fn reset(&mut self)
        requires
            old(self).model().valid(),
        ensures
            final(self).model().valid(),
            final(self).model() == old(self).model().reset(),
    ;
}

/// Gives the name of the kind of a process, under which it is written out.
pub trait SerializableProcess {
    spec fn kind_name(&self) -> Seq<char>;

    fn get_type(&self) -> (r: &'static str)
        ensures
            r@ == self.kind_name(),
    ;
}

/// The list that holds the one name `name`.
pub fn one_name(name: &str) -> (r: Vec<String>)
    ensures
        names_view(r@) == seq![name@],
{
    let mut names: Vec<String> = Vec::new();
    names.push(name.to_owned());
    assert(names_view(names@) =~= seq![name@]);
    names
}

/// The list that holds no name.
pub fn no_names() -> (r: Vec<String>)
    ensures
        names_view(r@) == Seq::<Seq<char>>::empty(),
{
    let names: Vec<String> = Vec::new();
    assert(names_view(names@) =~= Seq::empty());
    names
}

} // verus!
