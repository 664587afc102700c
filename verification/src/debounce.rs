use vstd::prelude::*;

verus! {

/// The change debouncer: a two-state machine. Any local change makes it
/// dirty; a timer tick rescans exactly when it is dirty and cleans it.
pub struct Debouncer {
    pub dirty: bool,
}

/// What reaches the debouncer: a relevant filesystem change (creation,
/// modification or removal), an irrelevant event, or a timer tick.
pub enum DebounceInput {
    Change,
    Other,
    Tick,
}

/// One step of the machine: the state after the input, and whether this
/// input triggers a rescan-and-push cycle.
pub open spec fn debounce_step(dirty: bool, input: DebounceInput) -> (bool, bool) {
    match input {
        DebounceInput::Change => (true, false),
        DebounceInput::Other => (dirty, false),
        DebounceInput::Tick => (false, dirty),
    }
}

/// The run of the machine over a whole input sequence: the final state and
/// how many rescan cycles were triggered.
pub open spec fn debounce_run(dirty: bool, inputs: Seq<DebounceInput>) -> (bool, nat)
    decreases inputs.len(),
{
    if inputs.len() == 0 {
        (dirty, 0)
    } else {
        let prior = debounce_run(dirty, inputs.drop_last());
        let step = debounce_step(prior.0, inputs.last());
        (step.0, prior.1 + if step.1 { 1nat } else { 0nat })
    }
}

impl Debouncer {
    pub fn new() -> (r: Debouncer)
        ensures
            !r.dirty,
    {
        Debouncer { dirty: false }
    }

    /// A filesystem event arrived; `relevant` says whether it was a
    /// creation, modification or removal. Never triggers a cycle by itself.
    pub fn on_event(&mut self, relevant: bool)
        ensures
            final(self).dirty == (old(self).dirty || relevant),
            final(self).dirty == debounce_step(
                old(self).dirty,
                if relevant { DebounceInput::Change } else { DebounceInput::Other },
            ).0,
    {
        if relevant {
            self.dirty = true;
        }
    }

    /// The fixed-interval timer fired: reports whether one rescan-and-push
    /// cycle is owed now, and resets the machine to clean.
    pub fn on_tick(&mut self) -> (trigger: bool)
        ensures
            trigger == old(self).dirty,
            !final(self).dirty,
            (final(self).dirty, trigger) == debounce_step(old(self).dirty, DebounceInput::Tick),
    {
        let t = self.dirty;
        self.dirty = false;
        t
    }
}

/// Any positive number of change events inside one debounce interval,
/// followed by the interval's tick, triggers exactly one rescan cycle and
/// leaves the machine clean.
pub proof fn lemma_burst_triggers_once(n: nat)
    requires
        n >= 1,
    ensures
        debounce_run(false, Seq::new(n, |i: int| DebounceInput::Change).push(DebounceInput::Tick))
            == (false, 1nat),
    decreases n,
{
    let events = Seq::new(n, |i: int| DebounceInput::Change);
    lemma_events_only_set_dirty(false, events);
    assert(events.push(DebounceInput::Tick).drop_last() =~= events);
    assert(events.push(DebounceInput::Tick).last() == DebounceInput::Tick);
}

/// Change events alone never trigger a cycle: they only leave the machine
/// dirty (when at least one arrives) and count nothing.
pub proof fn lemma_events_only_set_dirty(dirty: bool, events: Seq<DebounceInput>)
    requires
        forall|i: int| 0 <= i < events.len() ==> events[i] == DebounceInput::Change,
    ensures
        debounce_run(dirty, events) == (dirty || events.len() > 0, 0nat),
    decreases events.len(),
{
    if events.len() > 0 {
        lemma_events_only_set_dirty(dirty, events.drop_last());
    }
}

} // verus!
