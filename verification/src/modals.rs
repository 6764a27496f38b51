use vstd::prelude::*;
use crate::database::MemoryStore;
use crate::errors::{ErrorMessage, RequestError, RequestErrorView};
use crate::person::{
    all_populated, missing_if_blank, AddPersonRequest, DeletePersonRequest, EditPersonRequest,
    Field, Person, PersonView,
};
use crate::serv_functions::{
    add_person_srv, after_delete, after_edit, delete_outcome, delete_person_srv, edit_outcome,
    edit_person_srv, holds_key_text, is_key_text, outcome_view,
};
use crate::database::has_key;
use crate::text::{is_blank, parse_i32, parsed_i32};
use crate::toast::{toast_text, Toast, ToastMessage, ToastMessageType};

verus! {

/// Reads the form for a new member. The compensation is read first: a
/// text that is no integer is `CompensationNotNumeric`, whatever the other
/// fields hold. Then a blank name, title or level is `MissingFields`.
pub fn add_person_form(name: String, title: String, level: String, compensation: &str) -> (outcome:
    Result<AddPersonRequest, RequestError>)
    ensures
        match parsed_i32(compensation@) {
            None => outcome matches Err(error) && error@
                == RequestErrorView::CompensationNotNumeric,
            Some(amount) => if is_blank(name@) || is_blank(title@) || is_blank(level@) {
                outcome matches Err(error) && error@ == RequestErrorView::MissingFields(
                    missing_if_blank(Field::Name, name@) + missing_if_blank(Field::Title, title@)
                        + missing_if_blank(Field::Level, level@),
                )
            } else {
                outcome matches Ok(request) && request.name == name && request.title == title
                    && request.level == level && request.compensation == amount
            },
        },
{
    match parse_i32(compensation) {
        None => Err(RequestError::CompensationNotNumeric),
        Some(amount) => {
            let add_person_request = AddPersonRequest::new(name, title, level, amount);
            match add_person_request.validate() {
                Ok(_) => Ok(add_person_request),
                Err(errors) => Err(RequestError::MissingFields(errors)),
            }
        },
    }
}

/// Reads the form for a change to a member, as `add_person_form` does,
/// with the member's key in place of a name.
pub fn edit_person_form(uuid: String, title: String, level: String, compensation: &str) -> (outcome:
    Result<EditPersonRequest, RequestError>)
    ensures
        match parsed_i32(compensation@) {
            None => outcome matches Err(error) && error@
                == RequestErrorView::CompensationNotNumeric,
            Some(amount) => if is_blank(uuid@) || is_blank(title@) || is_blank(level@) {
                outcome matches Err(error) && error@ == RequestErrorView::MissingFields(
                    missing_if_blank(Field::Uuid, uuid@) + missing_if_blank(Field::Title, title@)
                        + missing_if_blank(Field::Level, level@),
                )
            } else {
                outcome matches Ok(request) && request.uuid == uuid && request.title == title
                    && request.level == level && request.compensation == amount
            },
        },
{
    match parse_i32(compensation) {
        None => Err(RequestError::CompensationNotNumeric),
        Some(amount) => {
            let edit_person_request = EditPersonRequest::new(uuid, title, level, amount);
            match edit_person_request.validate() {
                Ok(_) => Ok(edit_person_request),
                Err(errors) => Err(RequestError::MissingFields(errors)),
            }
        },
    }
}

/// What a form does once its operation has ended.
#[derive(Debug)]
pub struct FormUpdate {
    /// Whether the form closes.
    pub close: bool,
    /// Whether the list of members is fetched again.
    pub refetch: bool,
    /// The notification to show, if any.
    pub toast: Option<ToastMessage>,
    /// The message to show in the form, if any.
    pub error: Option<ErrorMessage>,
}

/// What the form of a change of kind `change` does once its operation has
/// ended, with the failure's message or with none. On success it closes
/// and shows the notification of that kind, and the list is fetched again
/// after a change to a member that was on it. On failure it stays open and
/// shows the message.
pub fn settle(change: ToastMessageType, failure: Option<ErrorMessage>) -> (update: FormUpdate)
    ensures
        match failure {
            None => {
                &&& update.close
                &&& update.refetch == (change != ToastMessageType::NewMemberAdded)
                &&& update.toast matches Some(message) && message@ == toast_text(change)
                &&& update.error is None
            },
            Some(message) => {
                &&& !update.close
                &&& !update.refetch
                &&& update.toast is None
                &&& update.error == Some(message)
            },
        },
{
    match failure {
        None => {
            let refetch = match change {
                ToastMessageType::NewMemberAdded => false,
                _ => true,
            };
            FormUpdate {
                close: true,
                refetch,
                toast: Some(<ToastMessage as Toast>::create(change)),
                error: None,
            }
        },
        Some(message) => FormUpdate {
            close: false,
            refetch: false,
            toast: None,
            error: Some(message),
        },
    }
}

/// Adds a member from what was typed into the form: reads the form, then
/// has the service add the member. A form that reads well is turned down
/// only if the new key was issued before, so never while the store has
/// issued no key of the generated form.
pub fn submit_add_person(
    store: &mut MemoryStore,
    name: String,
    title: String,
    level: String,
    compensation: &str,
) -> (outcome: Result<Person, RequestError>)
    requires
        old(store).wf(),
    ensures
        final(store).wf(),
        parsed_i32(compensation@) is None ==> final(store)@ == old(store)@ && final(store).issued()
            == old(store).issued() && outcome_view(outcome) == Err::<PersonView, RequestErrorView>(
            RequestErrorView::CompensationNotNumeric,
        ),
        parsed_i32(compensation@) is Some && (is_blank(name@) || is_blank(title@) || is_blank(
            level@,
        )) ==> final(store)@ == old(store)@ && final(store).issued() == old(store).issued()
            && outcome_view(outcome) == Err::<PersonView, RequestErrorView>(
            RequestErrorView::MissingFields(
                missing_if_blank(Field::Name, name@) + missing_if_blank(Field::Title, title@)
                    + missing_if_blank(Field::Level, level@),
            ),
        ),
        parsed_i32(compensation@) is Some && !is_blank(name@) && !is_blank(title@) && !is_blank(
            level@,
        ) ==> match outcome {
            Ok(person) => {
                &&& person@.name == name@
                &&& person@.title == title@
                &&& person@.level == level@
                &&& Some(person@.compensation) == parsed_i32(compensation@)
                &&& is_key_text(person@.uuid)
                &&& person@.joined_date.len() > 0
                &&& !old(store).issued().contains(person@.uuid)
                &&& !has_key(old(store)@, person@.uuid)
                &&& final(store)@ == old(store)@.push(person@)
                &&& final(store).issued() == old(store).issued().insert(person@.uuid)
            },
            Err(error) => {
                &&& error@ == RequestErrorView::Store(
                    crate::errors::PersonError::PersonCreationFailure,
                )
                &&& final(store)@ == old(store)@
                &&& final(store).issued() == old(store).issued()
                &&& holds_key_text(old(store).issued())
            },
        },
        parsed_i32(compensation@) is Some && !is_blank(name@) && !is_blank(title@) && !is_blank(
            level@,
        ) && !holds_key_text(old(store).issued()) ==> outcome is Ok,
        outcome matches Ok(person) ==> person@.populated(),
        all_populated(old(store)@) ==> all_populated(final(store)@),
{
    match add_person_form(name, title, level, compensation) {
        Err(error) => Err(error),
        Ok(add_person_request) => add_person_srv(store, add_person_request),
    }
}

/// Changes a member from what was typed into the form: reads the form,
/// then has the service change the member.
pub fn submit_edit_person(
    store: &mut MemoryStore,
    uuid: String,
    title: String,
    level: String,
    compensation: &str,
) -> (outcome: Result<Person, RequestError>)
    requires
        old(store).wf(),
    ensures
        final(store).wf(),
        final(store).issued() == old(store).issued(),
        all_populated(old(store)@) ==> all_populated(final(store)@),
        match parsed_i32(compensation@) {
            None => final(store)@ == old(store)@ && outcome_view(outcome) == Err::<
                PersonView,
                RequestErrorView,
            >(RequestErrorView::CompensationNotNumeric),
            Some(amount) => final(store)@ == after_edit(old(store)@, uuid@, title@, level@, amount)
                && outcome_view(outcome) == edit_outcome(
                old(store)@,
                uuid@,
                title@,
                level@,
                amount,
            ),
        },
{
    match edit_person_form(uuid, title, level, compensation) {
        Err(error) => Err(error),
        Ok(edit_person_request) => edit_person_srv(store, edit_person_request),
    }
}

/// Removes the member under a key: makes the request, then has the
/// service remove the member.
pub fn submit_delete_person(store: &mut MemoryStore, uuid: String) -> (outcome: Result<
    Person,
    RequestError,
>)
    requires
        old(store).wf(),
    ensures
        final(store).wf(),
        final(store)@ == after_delete(old(store)@, uuid@),
        final(store).issued() == old(store).issued(),
        outcome_view(outcome) == delete_outcome(old(store)@, uuid@),
        all_populated(old(store)@) ==> all_populated(final(store)@),
{
    let delete_person_request = DeletePersonRequest::new(uuid);
    delete_person_srv(store, delete_person_request)
}

} // verus!
