//! A fleet orchestration library: predicates over per-agent key/value
//! stores, the verb vocabulary and its wire form, the agent's executor and
//! the controller's correlator for a query/response protocol on a message bus.
use vstd::prelude::*;

pub mod text;
pub mod value;
pub mod store;
pub mod strutil;
pub mod condition;
pub mod query;
pub mod agent;
pub mod flags;
pub mod correlator;
pub mod timeout;

verus! {

/// The error of a failed operation: a message.
pub fn io_error(msg: &str) -> (r: String)
    ensures
        r@ == msg@,
{
    text::lit(msg)
}

/// A failure with the given message.
pub fn err_io<T>(msg: &str) -> (r: Result<T, String>)
    ensures
        r matches Err(e) && e@ == msg@,
{
    Err(io_error(msg))
}

/// Turns a missing value, or a false condition, into an error.
pub trait OrErr<T>: Sized {
    fn or_err(self, msg: &str) -> (r: Result<T, String>);
}

impl<T> OrErr<T> for Option<T> {
    fn or_err(self, msg: &str) -> (r: Result<T, String>) {
        match self {
            Some(v) => Ok(v),
            None => Err(io_error(msg)),
        }
    }
}

impl OrErr<()> for bool {
    fn or_err(self, msg: &str) -> (r: Result<(), String>) {
        if self {
            Ok(())
        } else {
            Err(io_error(msg))
        }
    }
}

} // verus!
