use shorty::auth::{AuthBody, AuthError};
use shorty::configuration::Environment;

#[test]
fn environment_names_round_trip() {
    assert_eq!(Environment::Local.to_str(), "local");
    assert_eq!(Environment::Production.to_str(), "production");
}

#[test]
fn environment_parsing_ignores_ascii_case() {
    assert!(matches!(
        Environment::try_from("local".to_string()),
        Ok(Environment::Local)
    ));
    assert!(matches!(
        Environment::try_from("LOCAL".to_string()),
        Ok(Environment::Local)
    ));
    assert!(matches!(
        Environment::try_from("Production".to_string()),
        Ok(Environment::Production)
    ));
    assert!(matches!(
        Environment::try_from("pRoDuCtIoN".to_string()),
        Ok(Environment::Production)
    ));
}

#[test]
fn environment_parsing_rejects_other_names() {
    let err = Environment::try_from("staging".to_string()).unwrap_err();
    assert_eq!(
        err,
        "staging is not a supported environment. Use either `local` or `production`"
    );
}

#[test]
fn auth_errors_map_to_their_status_and_message() {
    assert_eq!(
        AuthError::UserAlreadyExists.status_and_message(),
        (409, "A user with this email already exists")
    );
    assert_eq!(
        AuthError::WrongCredentials.status_and_message(),
        (401, "Invalid email or password")
    );
    assert_eq!(
        AuthError::MissingCredentials.status_and_message(),
        (400, "Email and password are required")
    );
    assert_eq!(
        AuthError::TokenCreation.status_and_message(),
        (500, "Failed to generate session")
    );
    assert_eq!(
        AuthError::InvalidToken.status_and_message(),
        (401, "Invalid or expired session")
    );
    assert_eq!(
        AuthError::Internal.status_and_message(),
        (500, "An unexpected error occurred")
    );
}

#[test]
fn auth_body_wraps_a_token_as_a_bearer_grant() {
    let body = AuthBody::new("token-123".to_string());
    assert_eq!(body.access_token, "token-123");
    assert_eq!(body.token_type, "Bearer");
}
