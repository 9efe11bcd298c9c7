//! The error that refuses a plan or ends a run.

use vstd::prelude::*;
use vstd::string::*;

use crate::strings::cat3;

verus! {

/// A failure, as the text that is shown for it.
#[derive(Debug, PartialEq, Eq)]
pub struct PlanError {
    pub message: String,
}

impl View for PlanError {
    type V = Seq<char>;

    open spec fn view(&self) -> Seq<char> {
        self.message@
    }
}

impl PlanError {
    /// An error with the given text.
    pub fn new(message: String) -> (e: PlanError)
        ensures
            e@ == message@,
    {
        PlanError { message }
    }

    /// An error with the given text.
    pub fn text(message: &str) -> (e: PlanError)
        ensures
            e@ == message@,
    {
        PlanError { message: message.to_owned() }
    }

    /// The error's text.
    pub fn to_string(&self) -> (r: String)
        ensures
            r@ == self@,
    {
        self.message.clone()
    }

    /// This error, put in a wider context: the context, a colon and the error.
    pub fn within(&self, context: &str) -> (e: PlanError)
        ensures
            e@ == in_context(context@, self@),
    {
        PlanError { message: cat3(context, ": ", self.message.as_str()) }
    }
}

impl Clone for PlanError {
    fn clone(&self) -> (e: PlanError)
        ensures
            e@ == self@,
    {
        PlanError { message: self.message.clone() }
    }
}

/// An error's text in a wider context.
pub open spec fn in_context(context: Seq<char>, inner: Seq<char>) -> Seq<char> {
    context + ": "@ + inner
}

/// A result that owes success or a particular error text.
pub open spec fn outcome<T>(r: Result<T, PlanError>, error: Option<Seq<char>>) -> bool {
    match r {
        Ok(_) => error is None,
        Err(e) => error == Some(e@),
    }
}

} // verus!
