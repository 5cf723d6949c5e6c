//! The compile-time bundle of application-chosen types that the engine is
//! parameterized by. A deployment binds the bundle once, at node
//! construction; the wire formats never depend on it.

use vstd::prelude::*;

verus! {

/// Configuration of types used by the engine. The implementing structure is
/// empty; it only names the application's choices.
pub trait TypeConfig: Sized {
    /// Application-specific command carried opaquely in log entries: the
    /// engine orders and replicates these values and never inspects them.
    type AppData;
}

/// The binding used by the examples and the tests: commands are string
/// key/value pairs.
#[derive(Clone, Copy, Debug, Default, PartialEq, Eq, Structural)]
pub struct BasicTypes;

impl TypeConfig for BasicTypes {
    type AppData = Cmd;
}

/// A key/value command applied by the application state machine.
#[derive(Clone, Debug, PartialEq, Eq)]
pub struct Cmd {
    pub key: String,
    pub value: String,
}

impl Cmd {
    pub fn new(key: &str, value: &str) -> (c: Cmd)
        ensures
            c.key@ == key@,
            c.value@ == value@,
    {
        Cmd { key: key.to_owned(), value: value.to_owned() }
    }
}

} // verus!
