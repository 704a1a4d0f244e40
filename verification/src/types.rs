//! Program lifecycle types, error tiers and the external info schema.

use vstd::prelude::*;

verus! {

/// The lifecycle state of a tracer program. `init` moves `Uninitialized`
/// to `Initialized`, `start` moves that to `Running`; a fatal poll error
/// moves `Running` to `Failed`, which is terminal until external restart;
/// a shutdown resets the engine back to `Uninitialized`.
#[derive(Clone, Copy, PartialEq, Eq, Structural, Debug)]
pub enum ProgramState {
    Uninitialized,
    Initialized,
    Running,
    Failed,
}

/// The kind of a tracer program.
#[derive(Clone, Copy, PartialEq, Eq, Structural, Debug)]
pub enum ProgramType {
    Builtin,
    Wasm,
}

/// Structural failures that are fatal to the calling task, the
/// deterministic rejections of the lifecycle state machine, and the
/// per-sample conditions of connection building. A poll cycle swallows
/// the per-sample ones (an unresolved endpoint, an unknown role): they
/// are expected transient states, never surfaced from `poll`.
#[derive(Clone, Copy, PartialEq, Eq, Structural, Debug)]
pub enum AgentError {
    /// The raw connection table handle is absent at poll time.
    NoConnectionsMap,
    /// The raw table binding handed to `init` had failed.
    MapBindingFailed,
    /// `start` was requested on an engine that is not `Initialized`.
    NotInitialized,
    /// An endpoint address has no workload identity yet.
    UnknownIp,
    /// A raw flow's role is neither client nor server.
    UnknownRole,
}

/// A boundary failure: internal state that cannot be represented in the
/// external info schema.
#[derive(Clone, Copy, PartialEq, Eq, Structural, Debug)]
pub enum ParseError {
    /// The external info schema has no code for this program type.
    UnsupportedProgramType,
}

/// A shutdown request, addressed either to every running program or to a
/// single program by name.
#[derive(Clone, Debug)]
pub enum ShutdownSignal {
    All,
    ProgramName(String),
}

/// The numeric code the external info schema uses for a program state.
pub open spec fn program_state_code_spec(s: ProgramState) -> u32 {
    match s {
        ProgramState::Uninitialized => 0,
        ProgramState::Initialized => 1,
        ProgramState::Running => 2,
        ProgramState::Failed => 3,
    }
}

/// Translate a program state into its external schema code. Every internal
/// state is representable.
pub fn program_state_code(s: ProgramState) -> (r: Result<u32, ParseError>)
    ensures
        r == Ok::<u32, ParseError>(program_state_code_spec(s)),
{
    match s {
        ProgramState::Uninitialized => Ok(0),
        ProgramState::Initialized => Ok(1),
        ProgramState::Running => Ok(2),
        ProgramState::Failed => Ok(3),
    }
}

/// Translate a program type into its external schema code. The schema
/// describes built-in programs only: a wasm program cannot be represented
/// and fails with a parse error.
pub fn program_type_code(t: ProgramType) -> (r: Result<u32, ParseError>)
    ensures
        t is Builtin ==> r == Ok::<u32, ParseError>(0u32),
        t is Wasm ==> r == Err::<u32, ParseError>(ParseError::UnsupportedProgramType),
{
    match t {
        ProgramType::Builtin => Ok(0),
        ProgramType::Wasm => Err(ParseError::UnsupportedProgramType),
    }
}

/// The external description of a program: its name, the schema codes of
/// its kind and state, and its metadata.
pub struct ProgramInfo {
    pub name: String,
    pub program_type: u32,
    pub state: u32,
    pub metadata: Vec<(String, String)>,
}

} // verus!
