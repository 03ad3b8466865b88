use vstd::prelude::*;

verus! {

/// One rule of the table: in state `from`, the event `event` leads to `to`,
/// and asks for the action named `action`, if any.
pub struct Transition {
    pub event: String,
    pub from: String,
    pub to: String,
    pub action: Option<String>,
}

impl Transition {
    pub fn new(event: String, from: String, to: String, action: Option<String>) -> (r: Transition)
        ensures
            r.event@ == event@,
            r.from@ == from@,
            r.to@ == to@,
            r.action == action,
    {
        Transition { event, from, to, action }
    }

    /// Whether this rule fires for `event` in state `state`.
    pub open spec fn fires_on(&self, state: Seq<char>, event: Seq<char>) -> bool {
        self.from@ == state && self.event@ == event
    }
}

/// What a configuration source yields: the state to start in and the
/// transition table, in declaration order.
pub struct StateMachineConfig {
    pub initial_state: String,
    pub transitions: Vec<Transition>,
}

impl StateMachineConfig {
    pub fn new(initial_state: String, transitions: Vec<Transition>) -> (r: StateMachineConfig)
        ensures
            r.initial_state@ == initial_state@,
            r.transitions@ == transitions@,
    {
        StateMachineConfig { initial_state, transitions }
    }
}

/// Why a configuration could not be produced.
pub enum ConfigError {
    /// The source could not be reached (a missing file, a refused read).
    Unreachable(String),
    /// The source was read but does not have the configuration's shape.
    Malformed(String),
}

/// A source of configuration, implemented by the owner of a machine.
pub trait ConfigLoader {
    fn load_config(&self) -> Result<StateMachineConfig, ConfigError>;
}

/// Names the JSON document a configuration is read from.
pub struct JsonFileLoader {
    path: String,
}

impl JsonFileLoader {
    pub fn new(path: String) -> (r: JsonFileLoader)
        ensures
            r.path_spec() == path@,
    {
        JsonFileLoader { path }
    }

    pub closed spec fn path_spec(&self) -> Seq<char> {
        self.path@
    }

    /// The path of the document.
    pub fn path(&self) -> (r: &String)
        ensures
            r@ == self.path_spec(),
    {
        &self.path
    }
}

} // verus!
