//! Wire types shared by the server and the browser client.

use vstd::prelude::*;

verus! {

/// Counter state — the value of a counter and the label under which it is shown.
#[derive(Debug)]
pub struct CounterState {
    pub value: i32,
    pub label: String,
}

impl Clone for CounterState {
    fn clone(&self) -> (r: Self)
        ensures
            r == *self,
    {
        CounterState { value: self.value, label: self.label.clone() }
    }
}

impl PartialEq for CounterState {
    fn eq(&self, other: &Self) -> (r: bool) {
        self.value == other.value && self.label == other.label
    }
}

impl vstd::std_specs::cmp::PartialEqSpecImpl for CounterState {
    open spec fn obeys_eq_spec() -> bool {
        true
    }

    open spec fn eq_spec(&self, other: &Self) -> bool {
        self.value == other.value && self.label@ == other.label@
    }
}

/// One employee record, a row of the `employees` table.
#[derive(Debug)]
pub struct Employee {
    pub id: i32,
    pub name: String,
    pub department: String,
    pub role: String,
    pub salary: i32,
    pub active: bool,
}

impl Clone for Employee {
    fn clone(&self) -> (r: Self)
        ensures
            r == *self,
    {
        Employee {
            id: self.id,
            name: self.name.clone(),
            department: self.department.clone(),
            role: self.role.clone(),
            salary: self.salary,
            active: self.active,
        }
    }
}

impl PartialEq for Employee {
    fn eq(&self, other: &Self) -> (r: bool) {
        self.id == other.id && self.name == other.name && self.department == other.department
            && self.role == other.role && self.salary == other.salary && self.active == other.active
    }
}

impl vstd::std_specs::cmp::PartialEqSpecImpl for Employee {
    open spec fn obeys_eq_spec() -> bool {
        true
    }

    open spec fn eq_spec(&self, other: &Self) -> bool {
        &&& self.id == other.id
        &&& self.name@ == other.name@
        &&& self.department@ == other.department@
        &&& self.role@ == other.role@
        &&& self.salary == other.salary
        &&& self.active == other.active
    }
}

/// Generic reply envelope of every API endpoint.
#[derive(Debug, Clone)]
pub struct ApiResponse<T> {
    pub ok: bool,
    pub data: Option<T>,
    pub error: Option<String>,
}

impl<T> ApiResponse<T> {
    /// The successful reply carrying `data`.
    pub open spec fn spec_success(data: T) -> Self {
        ApiResponse { ok: true, data: Some(data), error: None }
    }

    /// The failed reply carrying `msg`.
    pub open spec fn spec_error(msg: String) -> Self {
        ApiResponse { ok: false, data: None, error: Some(msg) }
    }

    /// What a client reads from a reply that should carry data: the data,
    /// or the message when there is no data.
    pub open spec fn decoded(self) -> Result<T, Seq<char>> {
        match self.data {
            Some(d) => Ok(d),
            None => Err(self.message()),
        }
    }

    /// What a client reads from a reply whose data it does not need: success
    /// when the reply says `ok`, else its message.
    pub open spec fn decoded_status(self) -> Result<(), Seq<char>> {
        if self.ok {
            Ok(())
        } else {
            Err(self.message())
        }
    }

    /// The reply owed for an outcome: `spec_success` of its value or
    /// `spec_error` of its message.
    pub open spec fn spec_from_result(outcome: Result<T, String>) -> Self {
        match outcome {
            Ok(v) => Self::spec_success(v),
            Err(e) => Self::spec_error(e),
        }
    }

    /// The reply owed for an outcome without data of its own.
    pub open spec fn spec_from_status<U>(value: T, outcome: Result<U, String>) -> Self {
        match outcome {
            Ok(_) => Self::spec_success(value),
            Err(e) => Self::spec_error(e),
        }
    }

    /// A reply says `ok` exactly when it carries data and no message.
    pub open spec fn well_formed(self) -> bool {
        &&& self.ok <==> self.data is Some
        &&& self.ok <==> self.error is None
    }

    /// The message of a reply, empty when it carries none.
    pub open spec fn message(self) -> Seq<char> {
        match self.error {
            Some(e) => e@,
            None => Seq::empty(),
        }
    }

    /// A successful reply carrying `data`.
    pub fn success(data: T) -> (r: Self)
        ensures
            r == Self::spec_success(data),
            r.ok,
            r.data == Some(data),
            r.error is None,
    {
        ApiResponse { ok: true, data: Some(data), error: None }
    }

    /// The reply owed for the outcome of a request: its value on success, its
    /// message on failure.
    pub fn from_result(outcome: Result<T, String>) -> (r: Self)
        ensures
            r == Self::spec_from_result(outcome),
            outcome is Ok <==> r.ok,
            match outcome {
                Ok(v) => r.data == Some(v) && r.error is None,
                Err(e) => r.data is None && r.error == Some(e),
            },
    {
        match outcome {
            Ok(v) => Self::success(v),
            Err(e) => Self::error(e),
        }
    }

    /// The reply owed when a request that produces no value of its own
    /// succeeds or fails: `value` on success, the message on failure.
    pub fn from_status<U>(value: T, outcome: Result<U, String>) -> (r: Self)
        ensures
            r == Self::spec_from_status(value, outcome),
            outcome is Ok <==> r.ok,
            match outcome {
                Ok(_) => r.data == Some(value) && r.error is None,
                Err(e) => r.data is None && r.error == Some(e),
            },
    {
        match outcome {
            Ok(_) => Self::success(value),
            Err(e) => Self::error(e),
        }
    }

    /// What a client makes of a reply that should carry data: the data when
    /// there is some, else the error message, or an empty message when there
    /// is none.
    pub fn into_data(self) -> (r: Result<T, String>)
        ensures
            match r {
                Ok(d) => self.decoded() == Ok::<T, Seq<char>>(d),
                Err(e) => self.decoded() == Err::<T, Seq<char>>(e@),
            },
            self.data is Some <==> r is Ok,
            self.data matches Some(d) ==> r == Ok::<T, String>(d),
            r matches Err(e) ==> (match self.error {
                Some(m) => e@ == m@,
                None => e@.len() == 0,
            }),
    {
        match self.data {
            Some(d) => Ok(d),
            None => match self.error {
                Some(e) => Err(e),
                None => Err(String::new()),
            },
        }
    }

    /// What a client makes of a reply whose data it does not need: success
    /// when the reply says `ok`, else the error message, or an empty message
    /// when there is none.
    pub fn into_status(self) -> (r: Result<(), String>)
        ensures
            match r {
                Ok(_) => self.decoded_status() == Ok::<(), Seq<char>>(()),
                Err(e) => self.decoded_status() == Err::<(), Seq<char>>(e@),
            },
            self.ok <==> r is Ok,
            r matches Err(e) ==> (match self.error {
                Some(m) => e@ == m@,
                None => e@.len() == 0,
            }),
    {
        if self.ok {
            Ok(())
        } else {
            match self.error {
                Some(e) => Err(e),
                None => Err(String::new()),
            }
        }
    }

    /// A failed reply carrying the message `msg`.
    pub fn error(msg: String) -> (r: Self)
        ensures
            r == Self::spec_error(msg),
            !r.ok,
            r.data is None,
            r.error == Some(msg),
    {
        ApiResponse { ok: false, data: None, error: Some(msg) }
    }
}


/// The view of an outcome: its value, or the text of its message.
pub open spec fn outcome_view<T>(outcome: Result<T, String>) -> Result<T, Seq<char>> {
    match outcome {
        Ok(v) => Ok(v),
        Err(e) => Err(e@),
    }
}

/// What the server replies to an outcome is what the client reads back: the
/// value of a success, the message of a failure.
pub proof fn lemma_reply_roundtrip<T>(outcome: Result<T, String>)
    ensures
        ApiResponse::<T>::spec_from_result(outcome).decoded() == outcome_view(outcome),
{
}

/// A reply to a request without data of its own reads back as success exactly
/// when the request succeeded, and as its message otherwise.
pub proof fn lemma_status_roundtrip<T, U>(value: T, outcome: Result<U, String>)
    ensures
        ApiResponse::<T>::spec_from_status(value, outcome).decoded_status() == (match outcome {
            Ok(_) => Ok::<(), Seq<char>>(()),
            Err(e) => Err::<(), Seq<char>>(e@),
        }),
        outcome is Ok ==> ApiResponse::<T>::spec_from_status(value, outcome).decoded()
            == Ok::<T, Seq<char>>(value),
{
}

/// Every reply made by `success` or `error` is consistent: it says `ok`
/// exactly when it carries data, and exactly when it carries no message.
pub proof fn lemma_replies_consistent<T>(data: T, msg: String)
    ensures
        ApiResponse::<T>::spec_success(data).well_formed(),
        ApiResponse::<T>::spec_error(msg).well_formed(),
{
}

} // verus!
