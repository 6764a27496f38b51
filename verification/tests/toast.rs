use dashboard_app::toast::{Toast, ToastMessage, ToastMessageType};

#[test]
fn toast_of_each_change() {
    assert_eq!(ToastMessage::create(ToastMessageType::NewMemberAdded), "New member added");
    assert_eq!(ToastMessage::create(ToastMessageType::MemberUpdated), "Existing member updated");
    assert_eq!(ToastMessage::create(ToastMessageType::MemberDeleted), "Existing member Deleted");
}
