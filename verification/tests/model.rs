use tokio_im::common::io_utils::match_message_type;
use tokio_im::model::message::{ImMessage, Payload};
use tokio_im::model::message_type::MessageType;
use tokio_im::model::user::User;
use tokio_im::service::user_service::login;

#[test]
fn from_index_knows_the_four_tags() {
    assert_eq!(MessageType::from_index(0), Some(MessageType::LoginMessage));
    assert_eq!(MessageType::from_index(1), Some(MessageType::BroadcastMessage));
    assert_eq!(MessageType::from_index(2), Some(MessageType::GetAliveListMessage));
    assert_eq!(MessageType::from_index(3), Some(MessageType::ChatToUserMessage));
}

#[test]
fn from_index_knows_no_other_tag() {
    assert_eq!(MessageType::from_index(4), None);
    assert_eq!(MessageType::from_index(255), None);
    assert_eq!(MessageType::from_index(usize::MAX), None);
}

#[test]
fn match_message_type_knows_the_four_tags() {
    assert_eq!(match_message_type(0), Some(MessageType::LoginMessage));
    assert_eq!(match_message_type(1), Some(MessageType::BroadcastMessage));
    assert_eq!(match_message_type(2), Some(MessageType::GetAliveListMessage));
    assert_eq!(match_message_type(3), Some(MessageType::ChatToUserMessage));
}

#[test]
fn match_message_type_knows_no_other_tag() {
    assert_eq!(match_message_type(4), None);
    assert_eq!(match_message_type(-1), None);
    assert_eq!(match_message_type(i32::MAX), None);
    assert_eq!(match_message_type(i32::MIN), None);
}

#[test]
fn a_kind_is_found_again_from_its_number() {
    for kind in [
        MessageType::LoginMessage,
        MessageType::BroadcastMessage,
        MessageType::GetAliveListMessage,
        MessageType::ChatToUserMessage,
    ] {
        assert_eq!(match_message_type(kind.number()), Some(kind));
        assert_eq!(MessageType::from_index(kind.number() as usize), Some(kind));
    }
    assert_eq!(MessageType::LoginMessage.number(), 0);
    assert_eq!(MessageType::BroadcastMessage.number(), 1);
    assert_eq!(MessageType::GetAliveListMessage.number(), 2);
    assert_eq!(MessageType::ChatToUserMessage.number(), 3);
}

#[test]
fn user_new_keeps_both_fields() {
    let user = User::new("zhangsan".to_string(), "123".to_string());
    assert_eq!(user.username, "zhangsan");
    assert_eq!(user.password, "123");
}

#[test]
fn outbound_message_carries_tag_and_payload() {
    let payload = Payload::GetAliveListResponse { usernames: "zhangsan, lisi".to_string() };
    let message = ImMessage::outbound(MessageType::GetAliveListMessage, payload.clone());
    assert_eq!(message, ImMessage { message_type: 2, payload: Some(payload) });
    let payload = Payload::LoginResponse { username: "lisi".to_string() };
    let message = ImMessage::outbound(MessageType::LoginMessage, payload.clone());
    assert_eq!(message, ImMessage { message_type: 0, payload: Some(payload) });
}

#[test]
fn login_accepts_the_three_known_users() {
    for name in ["zhangsan", "lisi", "wangwu"] {
        let outcome = login(User::new(name.to_string(), "123".to_string()));
        let user = outcome.expect("accepted");
        assert_eq!(user.username, name);
        assert_eq!(user.password, "123");
    }
}

#[test]
fn login_refuses_a_wrong_password() {
    assert!(login(User::new("zhangsan".to_string(), "124".to_string())).is_none());
    assert!(login(User::new("lisi".to_string(), "".to_string())).is_none());
    assert!(login(User::new("wangwu".to_string(), "1234".to_string())).is_none());
    assert!(login(User::new("wangwu".to_string(), "12".to_string())).is_none());
}

#[test]
fn login_refuses_an_unknown_user() {
    assert!(login(User::new("zhaoliu".to_string(), "123".to_string())).is_none());
    assert!(login(User::new("".to_string(), "123".to_string())).is_none());
    assert!(login(User::new("Zhangsan".to_string(), "123".to_string())).is_none());
    assert!(login(User::new("zhangsan ".to_string(), "123".to_string())).is_none());
    assert!(login(User::new("123".to_string(), "zhangsan".to_string())).is_none());
}
