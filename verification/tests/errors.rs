use dashboard_app::errors::{ErrorMessage, PersonError, RequestError, ResponseErrorTrait};
use dashboard_app::person::{Field, ValidationErrors};

#[test]
fn message_of_each_failure_kind() {
    assert_eq!(ErrorMessage::create(PersonError::PersonNotFound), "member not found");
    assert_eq!(ErrorMessage::create(PersonError::PersonUpdateFailure), "failed to update member");
    assert_eq!(ErrorMessage::create(PersonError::PersonCreationFailure), "failed to create member");
    assert_eq!(ErrorMessage::create(PersonError::PersonDeleteFailure), "failure to delete member");
}

#[test]
fn message_of_each_request_error() {
    assert_eq!(RequestError::CompensationNotNumeric.message(), "compensation must be numeric");
    let errors = ValidationErrors { fields: vec![Field::Name] };
    assert_eq!(RequestError::MissingFields(errors).message(), "All fields are required");
    assert_eq!(RequestError::Store(PersonError::PersonNotFound).message(), "member not found");
    assert_eq!(
        RequestError::Store(PersonError::PersonDeleteFailure).message(),
        "failure to delete member"
    );
}

#[test]
fn numeric_message_differs_from_required_fields_message() {
    let errors = ValidationErrors { fields: vec![Field::Title] };
    assert_ne!(
        RequestError::CompensationNotNumeric.message(),
        RequestError::MissingFields(errors).message()
    );
}
