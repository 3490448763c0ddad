//! The error that loading the guardian's own configuration can end in.

use crate::text::join;
use vstd::prelude::*;

verus! {

/// Why the guardian cannot start with the configuration it was given.
#[derive(Debug)]
pub enum GuardianError {
    /// A setting, or the file that it points to, is missing or unusable.
    ConfigurationError(String),
}

impl View for GuardianError {
    type V = Seq<char>;

    /// The message of the error.
    open spec fn view(&self) -> Seq<char> {
        match self {
            GuardianError::ConfigurationError(message) => message@,
        }
    }
}

/// An outcome with the view of its value and the message of its error.
pub open spec fn told<T: DeepView>(outcome: Result<T, GuardianError>) -> Result<T::V, Seq<char>> {
    match outcome {
        Ok(value) => Ok(value.deep_view()),
        Err(error) => Err(error@),
    }
}

/// What the operating system reported, with the view of the value and the text of the error.
pub open spec fn reported<T: DeepView>(outcome: Result<T, String>) -> Result<T::V, Seq<char>> {
    match outcome {
        Ok(value) => Ok(value.deep_view()),
        Err(error) => Err(error@),
    }
}

/// The message that `action` failed on `subject` with `error`.
pub open spec fn failure(action: Seq<char>, subject: Seq<char>, error: Seq<char>) -> Seq<char> {
    action + subject + ": "@ + error
}

/// A message names what was tried, on what, and what came of it, in this order and with nothing
/// left out.
pub proof fn a_message_says_what_failed(action: Seq<char>, subject: Seq<char>, error: Seq<char>)
    ensures
        ({
            let message = failure(action, subject, error);
            let about = action.len() as int + subject.len() as int;
            &&& message.len() == about + 2 + error.len()
            &&& message.take(action.len() as int) == action
            &&& message.subrange(action.len() as int, about) == subject
            &&& message[about] == ':'
            &&& message[about + 1] == ' '
            &&& message.skip(about + 2) == error
        }),
{
    reveal_strlit(": ");
    let message = failure(action, subject, error);
    let about = action.len() as int + subject.len() as int;
    assert(message.take(action.len() as int) =~= action);
    assert(message.subrange(action.len() as int, about) =~= subject);
    assert(message.skip(about + 2) =~= error);
}

/// The view of an error is its message, and outcomes are told and reported with the very texts
/// that they hold.
pub proof fn outcomes_are_told_as_they_are<T: DeepView>(
    told_of: Result<T, GuardianError>,
    reported_of: Result<T, String>,
)
    ensures
        match told_of {
            Ok(value) => told(told_of) == Ok::<T::V, Seq<char>>(value.deep_view()),
            Err(GuardianError::ConfigurationError(message)) => told(told_of) == Err::<
                T::V,
                Seq<char>,
            >(message@),
        },
        match reported_of {
            Ok(value) => reported(reported_of) == Ok::<T::V, Seq<char>>(value.deep_view()),
            Err(text) => reported(reported_of) == Err::<T::V, Seq<char>>(text@),
        },
{
}

/// The configuration error that `action` failed on `subject` with `error`.
pub(crate) fn failed(action: &str, subject: &str, error: &str) -> (result: GuardianError)
    ensures
        result@ == failure(action@, subject@, error@),
{
    let about = join(join(action, subject).as_str(), ": ");
    GuardianError::ConfigurationError(join(about.as_str(), error))
}

} // verus!
