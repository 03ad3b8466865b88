use vstd::prelude::*;

use crate::config::{ConfigError, ConfigLoader, StateMachineConfig, Transition};

verus! {

/// The index of the first rule in `table` that fires on `event` in `state`.
pub open spec fn first_match(table: Seq<Transition>, state: Seq<char>, event: Seq<char>) -> Option<int>
    decreases table.len(),
{
    if table.len() == 0 {
        None
    } else {
        match first_match(table.drop_last(), state, event) {
            Some(i) => Some(i),
            None => if table.last().fires_on(state, event) {
                Some(table.len() - 1)
            } else {
                None
            },
        }
    }
}

/// The callback registered last under `name`, if any.
pub open spec fn lookup<A>(entries: Seq<RegisteredAction<A>>, name: Seq<char>) -> Option<A>
    decreases entries.len(),
{
    if entries.len() == 0 {
        None
    } else if entries.last().name@ == name {
        Some(entries.last().callback)
    } else {
        lookup(entries.drop_last(), name)
    }
}

/// The name of the action that a rule asks for, when a callback is registered
/// under that name.
pub open spec fn runnable_action<A>(entries: Seq<RegisteredAction<A>>, t: Transition) -> Option<Seq<char>> {
    match t.action {
        Some(n) => if lookup(entries, n@) is Some {
            Some(n@)
        } else {
            None
        },
        None => None,
    }
}

/// The text of an optional name.
pub open spec fn name_view(o: Option<String>) -> Option<Seq<char>> {
    match o {
        Some(s) => Some(s@),
        None => None,
    }
}

/// A callback stored under a name.
pub struct RegisteredAction<A> {
    pub name: String,
    pub callback: A,
}

/// What one round of the dispatch loop decided.
pub enum Dispatch {
    /// The loop ends: the event source is exhausted or the machine was stopped.
    Stopped,
    /// A rule fired; `action` names the registered callback to run now, if any.
    Moved { from: String, to: String, action: Option<String> },
    /// No rule fires on `event` in `state`; the state is kept.
    Unmatched { event: String, state: String },
}

/// The engine: a transition table, the current state, a running flag and a
/// registry of callbacks of type `A`.
pub struct StateMachine<A> {
    transitions: Vec<Transition>,
    current_state: String,
    initial_state: Ghost<Seq<char>>,
    running: bool,
    actions: Vec<RegisteredAction<A>>,
}


impl<A> StateMachine<A> {
    /// The current state.
    pub closed spec fn state(&self) -> Seq<char> {
        self.current_state@
    }

    /// The state the machine was built in.
    pub closed spec fn initial(&self) -> Seq<char> {
        self.initial_state@
    }

    /// The machine is in its initial state or in the target of a rule of
    /// its table: states exist only as the endpoints that the table names.
    pub open spec fn wf(&self) -> bool {
        self.state() == self.initial() || exists|i: int|
            0 <= i < self.table().len() && (#[trigger] self.table()[i]).to@ == self.state()
    }

    /// The transition table, in declaration order.
    pub closed spec fn table(&self) -> Seq<Transition> {
        self.transitions@
    }

    /// Whether the dispatch loop may go on.
    pub closed spec fn running(&self) -> bool {
        self.running
    }

    /// The callback that an action name stands for.
    pub closed spec fn action_of(&self, name: Seq<char>) -> Option<A> {
        lookup(self.actions@, name)
    }

    /// The name of the callback that rule `t` would have run.
    pub closed spec fn runnable(&self, t: Transition) -> Option<Seq<char>> {
        runnable_action(self.actions@, t)
    }

    /// A machine in the configuration's initial state, running, with no
    /// actions registered.
    pub fn from_config(config: StateMachineConfig) -> (r: StateMachine<A>)
        ensures
            r.wf(),
            r.state() == config.initial_state@,
            r.initial() == config.initial_state@,
            r.table() == config.transitions@,
            r.running(),
            forall|n: Seq<char>| #[trigger] r.action_of(n) is None,
    {
        StateMachine {
            transitions: config.transitions,
            initial_state: Ghost(config.initial_state@),
            current_state: config.initial_state,
            running: true,
            actions: Vec::new(),
        }
    }

    /// Builds a machine from what a configuration source produced: a failure
    /// of the source is handed on as it is.
    pub fn from_loaded(loaded: Result<StateMachineConfig, ConfigError>) -> (r: Result<StateMachine<A>, ConfigError>)
        ensures
            match loaded {
                Ok(config) => r is Ok && {
                    let m = r->Ok_0;
                    &&& m.wf()
                    &&& m.state() == config.initial_state@
                    &&& m.initial() == config.initial_state@
                    &&& m.table() == config.transitions@
                    &&& m.running()
                    &&& forall|n: Seq<char>| #[trigger] m.action_of(n) is None
                },
                Err(e) => r == Err::<StateMachine<A>, ConfigError>(e),
            },
    {
        match loaded {
            Ok(config) => Ok(Self::from_config(config)),
            Err(e) => Err(e),
        }
    }

    /// Asks `config_loader` once for a configuration and builds a machine
    /// from it; a failure of the loader is returned as it is.
    pub fn new<L: ConfigLoader>(config_loader: &L) -> (r: Result<StateMachine<A>, ConfigError>)
        ensures
            r is Ok ==> {
                let m = r->Ok_0;
                &&& m.wf()
                &&& m.state() == m.initial()
                &&& m.running()
                &&& forall|n: Seq<char>| #[trigger] m.action_of(n) is None
            },
    {
        Self::from_loaded(config_loader.load_config())
    }

    /// A copy of the current state.
    pub fn get_current_state(&self) -> (r: String)
        ensures
            r@ == self.state(),
    {
        self.current_state.clone()
    }

    /// Whether the dispatch loop may go on.
    pub fn is_running(&self) -> (r: bool)
        ensures
            r == self.running(),
    {
        self.running
    }

    /// Signals the dispatch loop to end at its next round.
    pub fn stop(&mut self)
        requires
            old(self).wf(),
        ensures
            final(self).wf(),
            final(self).initial() == old(self).initial(),
            !final(self).running(),
            final(self).state() == old(self).state(),
            final(self).table() == old(self).table(),
            forall|n: Seq<char>| #[trigger] final(self).action_of(n) == old(self).action_of(n),
    {
        self.running = false;
    }

    /// Registers `action` under `name`, in place of any callback registered
    /// under that name before.
    pub fn register_action(&mut self, name: &str, action: A)
        requires
            old(self).wf(),
        ensures
            final(self).wf(),
            final(self).initial() == old(self).initial(),
            final(self).action_of(name@) == Some(action),
            forall|n: Seq<char>| n != name@ ==> #[trigger] final(self).action_of(n) == old(self).action_of(n),
            final(self).state() == old(self).state(),
            final(self).table() == old(self).table(),
            final(self).running() == old(self).running(),
    {
        self.actions.push(RegisteredAction { name: name.to_owned(), callback: action });
        proof {
            assert(self.actions@.drop_last() =~= old(self).actions@);
        }
    }

    /// The callback registered under `name`, if any.
    pub fn action(&self, name: &str) -> (r: Option<&A>)
        ensures
            r is Some == self.action_of(name@) is Some,
            r is Some ==> *r->Some_0 == self.action_of(name@)->Some_0,
    {
        let key = name.to_owned();
        let mut i: usize = self.actions.len();
        proof {
            assert(self.actions@.subrange(0, i as int) =~= self.actions@);
        }
        while i > 0
            invariant
                i <= self.actions@.len(),
                key@ == name@,
                lookup(self.actions@, name@) == lookup(self.actions@.subrange(0, i as int), name@),
            decreases i,
        {
            proof {
                assert(self.actions@.subrange(0, i as int).drop_last() =~= self.actions@.subrange(0, i - 1));
            }
            if self.actions[i - 1].name == key {
                return Some(&self.actions[i - 1].callback);
            }
            i = i - 1;
        }
        None
    }

    /// One round of the dispatch loop, on the event the source produced
    /// (`None` once it is exhausted). A stopped machine or an exhausted source
    /// ends the loop and changes nothing. Otherwise the first rule of the
    /// table that fires on the event in the current state moves the machine
    /// to its target, and the registered callback it names, if any, is handed
    /// back to be run; with no such rule the state is kept.
    pub fn dispatch(&mut self, event: Option<String>) -> (r: Dispatch)
        requires
            old(self).wf(),
        ensures
            final(self).wf(),
            final(self).initial() == old(self).initial(),
            final(self).table() == old(self).table(),
            final(self).running() == old(self).running(),
            forall|n: Seq<char>| #[trigger] final(self).action_of(n) == old(self).action_of(n),
            match event {
                None => r is Stopped && final(self).state() == old(self).state(),
                Some(e) => if !old(self).running() {
                    r is Stopped && final(self).state() == old(self).state()
                } else {
                    match first_match(old(self).table(), old(self).state(), e@) {
                        Some(i) => {
                            let t = old(self).table()[i];
                            &&& final(self).state() == t.to@
                            &&& r matches Dispatch::Moved { from, to, action }
                            &&& from@ == old(self).state()
                            &&& to@ == t.to@
                            &&& name_view(action) == old(self).runnable(t)
                        },
                        None => {
                            &&& final(self).state() == old(self).state()
                            &&& r matches Dispatch::Unmatched { event: ev, state }
                            &&& ev@ == e@
                            &&& state@ == old(self).state()
                        },
                    }
                },
            },
    {
        let e = match event {
            None => return Dispatch::Stopped,
            Some(e) => e,
        };
        if !self.running {
            return Dispatch::Stopped;
        }
        match Self::find_transition(self.transitions.as_slice(), self.current_state.as_str(), e.as_str()) {
            Some(t) => {
                let to = t.to.clone();
                let action = match &t.action {
                    Some(n) => if self.action(n.as_str()).is_some() {
                        Some(n.clone())
                    } else {
                        None
                    },
                    None => None,
                };
                let from = self.current_state.clone();
                self.current_state = to.clone();
                proof {
                    lemma_first_match_is_earliest(self.transitions@, from@, e@);
                }
                Dispatch::Moved { from, to, action }
            },
            None => {
                let state = self.current_state.clone();
                Dispatch::Unmatched { event: e, state }
            },
        }
    }

    /// The first rule of `transitions`, in declaration order, that fires on
    /// `event` in `current_state`.
    pub fn find_transition<'a>(transitions: &'a [Transition], current_state: &str, event: &str) -> (r: Option<&'a Transition>)
        ensures
            r is Some == first_match(transitions@, current_state@, event@) is Some,
            r is Some ==> *r->Some_0 == transitions@[first_match(transitions@, current_state@, event@)->Some_0],
    {
        let state = current_state.to_owned();
        let ev = event.to_owned();
        let mut i: usize = 0;
        while i < transitions.len()
            invariant
                i <= transitions@.len(),
                state@ == current_state@,
                ev@ == event@,
                first_match(transitions@.subrange(0, i as int), current_state@, event@) is None,
            decreases transitions@.len() - i,
        {
            let t = &transitions[i];
            proof {
                assert(transitions@.subrange(0, i + 1).drop_last() =~= transitions@.subrange(0, i as int));
            }
            if t.from == state && t.event == ev {
                proof {
                    lemma_first_match_prefix(transitions@, (i + 1) as int, current_state@, event@);
                }
                return Some(t);
            }
            i = i + 1;
        }
        proof {
            assert(transitions@.subrange(0, i as int) =~= transitions@);
        }
        None
    }
}

/// The rule chosen for an event is the earliest one in the table that fires on
/// it; when none is chosen, no rule fires.
pub proof fn lemma_first_match_is_earliest(table: Seq<Transition>, state: Seq<char>, event: Seq<char>)
    ensures
        match first_match(table, state, event) {
            Some(i) => {
                &&& 0 <= i < table.len()
                &&& table[i].fires_on(state, event)
                &&& forall|j: int| 0 <= j < i ==> !(#[trigger] table[j]).fires_on(state, event)
            },
            None => forall|j: int| 0 <= j < table.len() ==> !(#[trigger] table[j]).fires_on(state, event),
        },
    decreases table.len(),
{
    if table.len() > 0 {
        let rest = table.drop_last();
        lemma_first_match_is_earliest(rest, state, event);
        assert forall|j: int| 0 <= j < rest.len() implies #[trigger] rest[j] == table[j] by {}
        match first_match(rest, state, event) {
            Some(i) => {
                assert forall|j: int| 0 <= j < i implies !(#[trigger] table[j]).fires_on(state, event) by {
                    assert(rest[j] == table[j]);
                }
            },
            None => {
                assert forall|j: int| 0 <= j < table.len() - 1 implies !(#[trigger] table[j]).fires_on(state, event) by {
                    assert(rest[j] == table[j]);
                }
            },
        }
    }
}

/// Of two rules with the same source state and event, the one declared later
/// is never chosen.
pub proof fn lemma_earlier_rule_wins(table: Seq<Transition>, i: int, j: int)
    requires
        0 <= i < j < table.len(),
        table[i].from@ == table[j].from@,
        table[i].event@ == table[j].event@,
    ensures
        first_match(table, table[j].from@, table[j].event@) is Some,
        first_match(table, table[j].from@, table[j].event@)->Some_0 <= i,
{
    lemma_first_match_is_earliest(table, table[j].from@, table[j].event@);
}

/// Right after construction a machine is observed in the initial state.
pub proof fn lemma_starts_in_initial_state<A>(config: StateMachineConfig, m: StateMachine<A>, observed: String)
    requires
        m.state() == config.initial_state@,
        observed@ == m.state(),
    ensures
        observed@ == config.initial_state@,
{
}

/// With no event dispatched in between, two observations of a machine agree.
pub proof fn lemma_observation_is_stable<A>(m: StateMachine<A>, first: String, second: String)
    requires
        first@ == m.state(),
        second@ == m.state(),
    ensures
        first@ == second@,
{
}

/// A first match found in a prefix of the table is the first match of the
/// whole table.
proof fn lemma_first_match_prefix(table: Seq<Transition>, k: int, state: Seq<char>, event: Seq<char>)
    requires
        0 <= k <= table.len(),
        first_match(table.subrange(0, k), state, event) is Some,
    ensures
        first_match(table, state, event) == first_match(table.subrange(0, k), state, event),
    decreases table.len() - k,
{
    if k < table.len() {
        assert(table.subrange(0, k + 1).drop_last() =~= table.subrange(0, k));
        lemma_first_match_prefix(table, k + 1, state, event);
    } else {
        assert(table.subrange(0, k) =~= table);
    }
}

} // verus!
