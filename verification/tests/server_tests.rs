use voxel_engine::account::{
    check_registration, complete_registration, does_user_exist, is_ascii_control, login_user,
    register_user, try_login_user, ServerConfig, ServerData, User,
};
use voxel_engine::message::{
    AccountCreationResult, AccountLoginResult, ClientToServerMessage, ServerToClientMessage,
};
use voxel_engine::server::process_message;

// The rules only accept passwords holding an ASCII control character.
const GOOD_PASSWORD: &str = "pass\u{1}word";

#[test]
fn standard_config_values() {
    let c = ServerConfig::standard();
    assert_eq!(c.port, 13654);
    assert_eq!(c.account_requirements.password_min_length, 5);
    assert_eq!(c.account_requirements.password_max_length, 52);
    assert_eq!(c.account_requirements.username_min_length, 3);
    assert_eq!(c.account_requirements.username_max_length, 14);
}

#[test]
fn ascii_control_characters() {
    assert!(is_ascii_control('\u{0}'));
    assert!(is_ascii_control('\u{1f}'));
    assert!(is_ascii_control('\u{7f}'));
    assert!(!is_ascii_control(' '));
    assert!(!is_ascii_control('a'));
    assert!(!is_ascii_control('\u{80}'));
}

#[test]
fn registration_rules_in_order() {
    let c = ServerConfig::standard();
    assert_eq!(check_registration(&c, "bad name", "x"), AccountCreationResult::InvalidUsername);
    assert_eq!(check_registration(&c, "bob", "hunter22"), AccountCreationResult::InvalidPassword);
    assert_eq!(check_registration(&c, "abcdefghijklmno", GOOD_PASSWORD), AccountCreationResult::UsernameTooLong);
    assert_eq!(check_registration(&c, "ab", GOOD_PASSWORD), AccountCreationResult::UsernameTooShort);
    let long = format!("{}\u{1}", "p".repeat(52));
    assert_eq!(check_registration(&c, "bob", &long), AccountCreationResult::PasswordTooLong);
    assert_eq!(check_registration(&c, "bob", "ab\u{1}"), AccountCreationResult::PasswordTooShort);
    assert_eq!(check_registration(&c, "bob_42", GOOD_PASSWORD), AccountCreationResult::OK);
}

#[test]
fn lengths_count_bytes() {
    let c = ServerConfig::standard();
    // seven two-byte letters make fourteen bytes: still allowed
    assert_eq!(check_registration(&c, "ééééééé", GOOD_PASSWORD), AccountCreationResult::OK);
    // eight make sixteen: too long
    assert_eq!(check_registration(&c, "éééééééé", GOOD_PASSWORD), AccountCreationResult::UsernameTooLong);
}

#[test]
fn refused_registration_stores_nothing() {
    let mut data = ServerData::new();
    let c = ServerConfig::standard();
    let r = register_user(&mut data, &c, "bob".to_string(), "hunter22".to_string());
    assert_eq!(r, AccountCreationResult::InvalidPassword);
    assert!(!does_user_exist(&data, "bob"));
}

#[test]
fn registered_user_logs_in() {
    let mut data = ServerData::new();
    let c = ServerConfig::standard();
    let r = register_user(&mut data, &c, "bob".to_string(), GOOD_PASSWORD.to_string());
    assert_eq!(r, AccountCreationResult::OK);
    assert!(does_user_exist(&data, "bob"));
    assert!(!does_user_exist(&data, "alice"));
    assert_eq!(login_user(&data, "bob".to_string(), GOOD_PASSWORD.to_string()), AccountLoginResult::OK);
    assert_eq!(
        login_user(&data, "bob".to_string(), "wrong\u{1}pw".to_string()),
        AccountLoginResult::IncorrectCredentials
    );
    assert_eq!(
        login_user(&data, "alice".to_string(), GOOD_PASSWORD.to_string()),
        AccountLoginResult::IncorrectCredentials
    );
}

#[test]
fn stored_hash_is_a_phc_string() {
    let mut data = ServerData::new();
    let c = ServerConfig::standard();
    register_user(&mut data, &c, "carol".to_string(), GOOD_PASSWORD.to_string());
    let h = data.stored_hash("carol").unwrap();
    assert!(h.starts_with("$argon2id$"));
}

#[test]
fn failed_hashing_is_unknown_error() {
    let mut data = ServerData::new();
    assert_eq!(complete_registration(&mut data, "bob".to_string(), None), AccountCreationResult::UnknownError);
    assert!(!does_user_exist(&data, "bob"));
    assert_eq!(
        complete_registration(&mut data, "bob".to_string(), Some("h".to_string())),
        AccountCreationResult::OK
    );
    assert_eq!(data.stored_hash("bob"), Some("h"));
}

#[test]
fn unparsable_stored_hash_gives_no_login() {
    let mut data = ServerData::new();
    data.insert_user("dave".to_string(), User { hashed_password: "not a hash".to_string() });
    assert_eq!(try_login_user(&data, "dave".to_string(), GOOD_PASSWORD.to_string()), None);
    assert_eq!(
        try_login_user(&data, "erin".to_string(), GOOD_PASSWORD.to_string()),
        Some(AccountLoginResult::IncorrectCredentials)
    );
}

#[test]
fn default_server_data_is_empty() {
    let data = ServerData::default();
    assert!(!does_user_exist(&data, "bob"));
    assert_eq!(data.stored_hash(""), None);
}

fn creation(reply: Option<ServerToClientMessage>) -> AccountCreationResult {
    match reply {
        Some(ServerToClientMessage::AccountCreationResult(r)) => r,
        _ => panic!("not a creation result"),
    }
}

fn login(reply: Option<ServerToClientMessage>) -> AccountLoginResult {
    match reply {
        Some(ServerToClientMessage::AccountLoginResult(r)) => r,
        _ => panic!("not a login result"),
    }
}

#[test]
fn message_conversation() {
    let mut data = ServerData::new();
    let c = ServerConfig::standard();
    let reply = process_message(&mut data, &c, ClientToServerMessage::ConnectionStart("bob".to_string()));
    assert!(matches!(reply, Some(ServerToClientMessage::ConnectionRequestRegister)));
    let reply = process_message(
        &mut data,
        &c,
        ClientToServerMessage::RegisterAccount { username: "bob".to_string(), password: GOOD_PASSWORD.to_string() },
    );
    assert_eq!(creation(reply), AccountCreationResult::OK);
    let reply = process_message(&mut data, &c, ClientToServerMessage::ConnectionStart("bob".to_string()));
    assert!(matches!(reply, Some(ServerToClientMessage::ConnectionRequestLogin)));
    let reply = process_message(
        &mut data,
        &c,
        ClientToServerMessage::RegisterAccount { username: "bob".to_string(), password: GOOD_PASSWORD.to_string() },
    );
    assert_eq!(creation(reply), AccountCreationResult::UsernameAlreadyExists);
    let reply = process_message(
        &mut data,
        &c,
        ClientToServerMessage::LoginAccount { username: "bob".to_string(), password: GOOD_PASSWORD.to_string() },
    );
    assert_eq!(login(reply), AccountLoginResult::OK);
}

#[test]
fn message_with_broken_rule() {
    let mut data = ServerData::new();
    let c = ServerConfig::standard();
    let reply = process_message(
        &mut data,
        &c,
        ClientToServerMessage::RegisterAccount { username: "x".to_string(), password: GOOD_PASSWORD.to_string() },
    );
    assert_eq!(creation(reply), AccountCreationResult::UsernameTooShort);
    let reply = process_message(
        &mut data,
        &c,
        ClientToServerMessage::LoginAccount { username: "x".to_string(), password: GOOD_PASSWORD.to_string() },
    );
    assert_eq!(login(reply), AccountLoginResult::IncorrectCredentials);
}

#[test]
fn every_accepted_registration_is_stored() {
    let c = ServerConfig::standard();
    for i in 0..5 {
        let mut data = ServerData::new();
        let name = format!("user{}", i);
        assert_eq!(register_user(&mut data, &c, name.clone(), GOOD_PASSWORD.to_string()), AccountCreationResult::OK);
        let h = data.stored_hash(&name).unwrap();
        let salt = h.split('$').nth(4).unwrap();
        assert_eq!(salt.len(), 22);
        assert!(salt.chars().all(|ch| ch.is_ascii_alphanumeric() || ch == '+' || ch == '/'));
        assert!(matches!(salt.chars().last(), Some('A' | 'Q' | 'g' | 'w')));
    }
}
