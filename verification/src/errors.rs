use vstd::prelude::*;
use crate::person::{Field, ValidationErrors};

verus! {

/// Why an operation on the roster failed.
#[derive(Debug, Clone, Copy, PartialEq, Eq, Structural)]
pub enum PersonError {
    /// The target id has no matching record.
    PersonNotFound,
    /// The store rejected the write, or the target vanished before it.
    PersonUpdateFailure,
    /// The store rejected the new record.
    PersonCreationFailure,
    /// The store failed while deleting.
    PersonDeleteFailure,
}

/// The text shown to the user for a failure.
pub type ErrorMessage = String;

/// The message that belongs to each failure kind.
pub open spec fn message_text(person_error: PersonError) -> Seq<char> {
    match person_error {
        PersonError::PersonNotFound => "member not found"@,
        PersonError::PersonUpdateFailure => "failed to update member"@,
        PersonError::PersonCreationFailure => "failed to create member"@,
        PersonError::PersonDeleteFailure => "failure to delete member"@,
    }
}

/// Turns a failure kind into the message shown for it.
pub trait ResponseErrorTrait {
    fn create(person_error: PersonError) -> ErrorMessage;
}

impl ResponseErrorTrait for ErrorMessage {
    fn create(person_error: PersonError) -> (message: ErrorMessage)
        ensures
            message@ == message_text(person_error),
    {
        match person_error {
            PersonError::PersonNotFound => String::from_str("member not found"),
            PersonError::PersonUpdateFailure => String::from_str("failed to update member"),
            PersonError::PersonCreationFailure => String::from_str("failed to create member"),
            PersonError::PersonDeleteFailure => String::from_str("failure to delete member"),
        }
    }
}

/// No two failure kinds share a message.
pub proof fn lemma_messages_distinct(a: PersonError, b: PersonError)
    requires
        a != b,
    ensures
        message_text(a) != message_text(b),
{
    reveal_strlit("member not found");
    reveal_strlit("failed to update member");
    reveal_strlit("failed to create member");
    reveal_strlit("failure to delete member");
    let ma = message_text(a);
    let mb = message_text(b);
    if ma == mb {
        assert(ma.len() == mb.len());
        assert(ma[4] == mb[4]);
        assert(ma[10] == mb[10]);
    }
}

/// Why a boundary operation did not go through. The first two are found
/// before the store is asked anything.
#[derive(Debug)]
pub enum RequestError {
    /// The compensation that was typed in is no integer.
    CompensationNotNumeric,
    /// Required fields were left blank.
    MissingFields(ValidationErrors),
    /// The store was asked and the operation failed there.
    Store(PersonError),
}

/// What a `RequestError` says, as plain values.
pub enum RequestErrorView {
    CompensationNotNumeric,
    MissingFields(Seq<Field>),
    Store(PersonError),
}

impl View for RequestError {
    type V = RequestErrorView;

    open spec fn view(&self) -> RequestErrorView {
        match *self {
            RequestError::CompensationNotNumeric => RequestErrorView::CompensationNotNumeric,
            RequestError::MissingFields(errors) => RequestErrorView::MissingFields(errors.fields@),
            RequestError::Store(person_error) => RequestErrorView::Store(person_error),
        }
    }
}

impl RequestErrorView {
    /// The message shown for this failure.
    pub open spec fn text(self) -> Seq<char> {
        match self {
            RequestErrorView::CompensationNotNumeric => "compensation must be numeric"@,
            RequestErrorView::MissingFields(_) => "All fields are required"@,
            RequestErrorView::Store(person_error) => message_text(person_error),
        }
    }
}

impl RequestError {
    /// The message shown for this failure.
    pub fn message(&self) -> (message: ErrorMessage)
        ensures
            message@ == self@.text(),
    {
        match self {
            RequestError::CompensationNotNumeric => String::from_str("compensation must be numeric"),
            RequestError::MissingFields(_) => String::from_str("All fields are required"),
            RequestError::Store(person_error) => <ErrorMessage as ResponseErrorTrait>::create(
                *person_error,
            ),
        }
    }
}

/// The message for a compensation that is no integer is not the one for
/// blank fields, nor one of the store's.
pub proof fn lemma_not_numeric_message_distinct(other: RequestErrorView)
    requires
        other != RequestErrorView::CompensationNotNumeric,
    ensures
        other.text() != RequestErrorView::CompensationNotNumeric.text(),
{
    reveal_strlit("compensation must be numeric");
    reveal_strlit("All fields are required");
    reveal_strlit("member not found");
    reveal_strlit("failed to update member");
    reveal_strlit("failed to create member");
    reveal_strlit("failure to delete member");
    let mine = RequestErrorView::CompensationNotNumeric.text();
    if other.text() == mine {
        assert(other.text().len() == mine.len());
    }
}

} // verus!
