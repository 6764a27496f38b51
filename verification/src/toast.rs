use vstd::prelude::*;

verus! {

/// What a successful change announces to the user.
#[derive(Debug, Clone, Copy, PartialEq, Eq, Structural)]
pub enum ToastMessageType {
    NewMemberAdded,
    MemberDeleted,
    MemberUpdated,
}

/// The text of a notification.
pub type ToastMessage = String;

/// The notification text that belongs to each kind of change.
pub open spec fn toast_text(toast_message_type: ToastMessageType) -> Seq<char> {
    match toast_message_type {
        ToastMessageType::NewMemberAdded => "New member added"@,
        ToastMessageType::MemberUpdated => "Existing member updated"@,
        ToastMessageType::MemberDeleted => "Existing member Deleted"@,
    }
}

/// Turns a kind of change into its notification text.
pub trait Toast {
    fn create(toast_message_type: ToastMessageType) -> ToastMessage;
}

impl Toast for ToastMessage {
    fn create(toast_message_type: ToastMessageType) -> (message: ToastMessage)
        ensures
            message@ == toast_text(toast_message_type),
    {
        match toast_message_type {
            ToastMessageType::NewMemberAdded => String::from_str("New member added"),
            ToastMessageType::MemberUpdated => String::from_str("Existing member updated"),
            ToastMessageType::MemberDeleted => String::from_str("Existing member Deleted"),
        }
    }
}

} // verus!
