//! Spans around the steps of a command, where nothing records them.

use vstd::prelude::*;

use crate::failure::Failure;

verus! {

/// An attribute of a span, which is not kept.
#[derive(Clone, Copy, Debug, PartialEq, Eq, Structural)]
pub struct KeyValue;

impl KeyValue {
    /// An attribute.
    pub fn new<T>(_key: &str, _value: T) -> (r: KeyValue)
        ensures
            r == KeyValue,
    {
        KeyValue
    }
}

/// Runs a step: its result is that of the span.
pub fn with_span<T, F: FnOnce() -> T>(_name: &str, _attrs: Vec<KeyValue>, f: F) -> (r: T)
    requires
        f.requires(()),
    ensures
        f.ensures((), r),
{
    f()
}

/// Runs a step that can fail: its result is that of the span.
pub fn with_span_result<T, F: FnOnce() -> Result<T, Failure>>(
    _name: &str,
    _attrs: Vec<KeyValue>,
    f: F,
) -> (r: Result<T, Failure>)
    requires
        f.requires(()),
    ensures
        f.ensures((), r),
{
    f()
}

/// Takes note of a failure, which is not kept.
pub fn record_error_message(_message: &str) {
}

} // verus!
