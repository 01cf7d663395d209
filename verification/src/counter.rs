//! The counters: the one kept by the server for every client, the one kept
//! in the page, and the page state that shows the server's.

use vstd::prelude::*;
use crate::api::{ApiResponse, CounterState};

verus! {

broadcast use vstd::string::group_string_axioms;

/// The label under which the server's counter is shown.
pub open spec fn server_label() -> Seq<char> {
    "Server counter"@
}

/// The value after an increment.
pub open spec fn incremented(v: int) -> int {
    v + 1
}

/// The value after a decrement.
pub open spec fn decremented(v: int) -> int {
    v - 1
}

/// The counter the server shares between all clients.
pub struct ServerCounter {
    value: i32,
}

impl View for ServerCounter {
    type V = int;

    /// The current value.
    closed spec fn view(&self) -> int {
        self.value as int
    }
}

impl ServerCounter {
    /// The value of a counter is always within the range of `i32`.
    pub proof fn lemma_in_range(&self)
        ensures
            i32::MIN <= self@ <= i32::MAX,
    {
    }

    /// The counter state reported for value `v`.
    pub open spec fn reported(r: ApiResponse<CounterState>, v: int) -> bool {
        &&& r.ok
        &&& r.error is None
        &&& r.data matches Some(s) && s.value == v && s.label@ == server_label()
    }

    /// A counter at zero, as the server starts.
    pub fn new() -> (c: Self)
        ensures
            c@ == 0,
    {
        ServerCounter { value: 0 }
    }

    /// The current value.
    pub fn value(&self) -> (v: i32)
        ensures
            v == self@,
    {
        self.value
    }

    fn state(&self) -> (s: CounterState)
        ensures
            s.value == self@,
            s.label@ == server_label(),
    {
        CounterState { value: self.value, label: String::from_str("Server counter") }
    }

    /// The reply to a read of the counter: its current value.
    pub fn get(&self) -> (r: ApiResponse<CounterState>)
        ensures
            Self::reported(r, self@),
    {
        ApiResponse::success(self.state())
    }

    /// Adds one and replies with the new value.
    pub fn increment(&mut self) -> (r: ApiResponse<CounterState>)
        requires
            old(self)@ < i32::MAX,
        ensures
            final(self)@ == incremented(old(self)@),
            final(self)@ == old(self)@ + 1,
            i32::MIN < final(self)@ <= i32::MAX,
            Self::reported(r, final(self)@),
    {
        self.value = self.value + 1;
        ApiResponse::success(self.state())
    }

    /// Takes one away and replies with the new value.
    pub fn decrement(&mut self) -> (r: ApiResponse<CounterState>)
        requires
            old(self)@ > i32::MIN,
        ensures
            final(self)@ == decremented(old(self)@),
            final(self)@ == old(self)@ - 1,
            i32::MIN <= final(self)@ < i32::MAX,
            Self::reported(r, final(self)@),
    {
        self.value = self.value - 1;
        ApiResponse::success(self.state())
    }
}

/// What the server counter page shows: the last counter state received, and
/// the last error, if any.
#[derive(Debug)]
pub struct CounterPage {
    pub state: Option<CounterState>,
    pub error: Option<String>,
}

impl CounterPage {
    /// The page before any reply: nothing received, no error.
    pub fn new() -> (p: Self)
        ensures
            p.state is None,
            p.error is None,
    {
        CounterPage { state: None, error: None }
    }

    /// Takes the outcome of a request for the counter: a state replaces the
    /// shown state, an error message replaces the shown error; the other part
    /// stays as it was.
    pub fn receive(&mut self, outcome: Result<CounterState, String>)
        ensures
            match outcome {
                Ok(s) => final(self).state == Some(s) && final(self).error == old(self).error,
                Err(e) => final(self).error == Some(e) && final(self).state == old(self).state,
            },
    {
        match outcome {
            Ok(s) => self.state = Some(s),
            Err(e) => self.error = Some(e),
        }
    }

    /// The page says it is loading until a state has been received.
    pub fn is_loading(&self) -> (r: bool)
        ensures
            r == (self.state is None),
    {
        self.state.is_none()
    }
}

/// The count after a click on the `+` of the counter kept in the page.
pub fn local_increment(count: i32) -> (r: i32)
    requires
        count < i32::MAX,
    ensures
        r == incremented(count as int),
        r == count + 1,
{
    count + 1
}

/// A reply reports a value when it is a success whose counter state holds
/// that value under the label `Server counter`.
pub proof fn lemma_reported_meaning(r: ApiResponse<CounterState>, v: int)
    ensures
        ServerCounter::reported(r, v) <==> (r.ok && r.error is None && (r.data matches Some(s)
            && s.value == v && s.label@ == "Server counter"@)),
{
}

/// An increment adds one and a decrement takes one away.
pub proof fn lemma_step_sizes(v: int)
    ensures
        incremented(v) == v + 1,
        decremented(v) == v - 1,
        incremented(v) > v,
        decremented(v) < v,
{
}

/// A decrement undoes an increment, and an increment undoes a decrement:
/// pressing `+` then `-` (or `-` then `+`) brings every client back to the
/// value it saw before.
pub proof fn lemma_increment_decrement_inverse(v: int)
    ensures
        decremented(incremented(v)) == v,
        incremented(decremented(v)) == v,
{
}

} // verus!
