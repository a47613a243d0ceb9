use file_service::file_system::SystemResult;
use file_service::server_handler::ClientSystem;

#[test]
fn duplicate_registration_rejected() {
    let mut cs = ClientSystem::new();
    assert_eq!(
        cs.register_client("bob".to_string(), "secret".to_string()),
        SystemResult::Success
    );
    assert_eq!(
        cs.register_client("bob".to_string(), "other".to_string()),
        SystemResult::ClientAlreadyExists
    );
}

#[test]
fn login_rejections_and_success() {
    let mut cs = ClientSystem::new();
    assert_eq!(
        cs.register_client("bob".to_string(), "secret".to_string()),
        SystemResult::Success
    );
    assert_eq!(
        cs.login_client("bob".to_string(), "wrong".to_string()),
        SystemResult::WrongCredentials
    );
    assert_eq!(
        cs.login_client("alice".to_string(), "secret".to_string()),
        SystemResult::ClientDoesntExist
    );
    assert_eq!(
        cs.login_client("bob".to_string(), "secret".to_string()),
        SystemResult::Success
    );
    // Logging in twice is not rejected.
    assert_eq!(
        cs.login_client("bob".to_string(), "secret".to_string()),
        SystemResult::Success
    );
}

#[test]
fn client_exists_lookup() {
    let mut cs = ClientSystem::new();
    assert!(cs.client_exists(&"bob".to_string()).is_none());
    assert_eq!(
        cs.register_client("bob".to_string(), "secret".to_string()),
        SystemResult::Success
    );
    assert!(cs.client_exists(&"bob".to_string()).is_some());
    assert!(cs.client_exists(&"alice".to_string()).is_none());
}

#[test]
fn password_must_match_exactly() {
    let mut cs = ClientSystem::new();
    assert_eq!(
        cs.register_client("carol".to_string(), "Pa ss".to_string()),
        SystemResult::Success
    );
    assert_eq!(
        cs.login_client("carol".to_string(), "pa ss".to_string()),
        SystemResult::WrongCredentials
    );
    assert_eq!(
        cs.login_client("carol".to_string(), "Pa ss ".to_string()),
        SystemResult::WrongCredentials
    );
    assert_eq!(
        cs.login_client("carol".to_string(), "Pa ss".to_string()),
        SystemResult::Success
    );
}
