use api::jwt::{decode_token, JwtAuthentication, JwtAuthenticationError};
use api::middleware::{RequestHeaders, RoleAuthorization, StatusClass};
use api::model::{PasswordHash, User};
use api::repo::MemoryUserRepository;
use api::roles::{Admin, Guest, Role, User as UserRole};
use api::service::AuthService;
use api::settings::JwtSettings;
use api::user_service::UserService;

const NOW: u64 = 1_000_000;

fn settings() -> JwtSettings {
    JwtSettings {
        secret: String::from("a-test-signing-secret"),
        expiration: 3_600,
    }
}

fn service_with(users: Vec<User>) -> AuthService<MemoryUserRepository> {
    AuthService::new(UserService::new(MemoryUserRepository::new(users)), settings())
}

fn alice() -> User {
    User::new(
        String::from("alice-id"),
        String::from("alice"),
        String::from("alice@example.com"),
        PasswordHash::raw(String::from("wonderland")).unwrap(),
        vec![Role::User],
    )
}

fn headers(value: Option<&str>) -> RequestHeaders {
    RequestHeaders {
        authorization: value.map(String::from),
    }
}

#[test]
fn login_issues_a_token_for_the_user_roles() {
    let service = service_with(vec![alice()]);
    let token = service
        .login(
            String::from("alice@example.com"),
            String::from("wonderland"),
            NOW,
        )
        .unwrap();
    let claims = decode_token(&token, "a-test-signing-secret", NOW).unwrap();
    assert_eq!(claims.sub, "alice-id");
    assert_eq!(claims.exp, NOW + 3_600);
    assert_eq!(claims.roles, vec![Role::User]);
}

#[test]
fn user_guard_passes_and_admin_guard_is_forbidden() {
    let service = service_with(vec![alice()]);
    let token = service
        .login(
            String::from("alice@example.com"),
            String::from("wonderland"),
            NOW,
        )
        .unwrap();
    let bearer = headers(Some(&format!("Bearer {}", token)));

    assert!(RoleAuthorization::<UserRole>::check_request(&service, &bearer, NOW).is_ok());
    let status = match RoleAuthorization::<Admin>::check_request(&service, &bearer, NOW) {
        Ok(_) => panic!("admin guard passed without the Admin role"),
        Err((status, _)) => status,
    };
    assert_eq!(status, StatusClass::Forbidden);
    let status = match RoleAuthorization::<Guest>::check_request(&service, &bearer, NOW) {
        Ok(_) => panic!("guest guard passed without the Guest role"),
        Err((status, _)) => status,
    };
    assert_eq!(status, StatusClass::Forbidden);
}

#[test]
fn deleted_identity_invalidates_an_unexpired_token() {
    let issuing = service_with(vec![alice()]);
    let token = issuing
        .login(
            String::from("alice@example.com"),
            String::from("wonderland"),
            NOW,
        )
        .unwrap();
    // the token is structurally valid and unexpired
    assert!(decode_token(&token, "a-test-signing-secret", NOW + 10).is_ok());
    // but the record is gone from the store consulted at validation time
    let emptied = service_with(vec![]);
    assert_eq!(
        emptied.validate_token(&token, NOW + 10).unwrap_err(),
        JwtAuthenticationError::Unauthorized
    );
    // while the issuing store still accepts it
    assert!(issuing.validate_token(&token, NOW + 10).is_ok());
}

#[test]
fn expired_token_fails_validation_with_expired() {
    let service = service_with(vec![alice()]);
    let token = service
        .login(
            String::from("alice@example.com"),
            String::from("wonderland"),
            NOW,
        )
        .unwrap();
    assert_eq!(
        service.validate_token(&token, NOW + 3_600).unwrap_err(),
        JwtAuthenticationError::ExpiredToken
    );
    assert!(service.validate_token(&token, NOW + 3_599).is_ok());
}

#[test]
fn unknown_login_key_and_wrong_password_are_indistinguishable() {
    let service = service_with(vec![alice()]);
    let unknown = service.login(
        String::from("bob@example.com"),
        String::from("wonderland"),
        NOW,
    );
    let wrong_password = service.login(
        String::from("alice@example.com"),
        String::from("not wonderland"),
        NOW,
    );
    assert_eq!(unknown.unwrap_err(), ());
    assert_eq!(wrong_password.unwrap_err(), ());
}

#[test]
fn missing_or_non_bearer_authorization_is_missing_token() {
    let service = service_with(vec![alice()]);
    for value in [
        None,
        Some("Basic dXNlcjpwYXNz"),
        Some("Bearer"),
        Some("bearer sometoken"),
        Some(""),
        Some("Token abc"),
    ] {
        let (status, error) =
            JwtAuthentication::authenticate(&service, &headers(value), NOW).unwrap_err();
        assert_eq!(status, StatusClass::Unauthorized);
        assert_eq!(error, JwtAuthenticationError::MissingToken);
    }
}

#[test]
fn bearer_scheme_with_empty_token_reaches_validation() {
    let service = service_with(vec![alice()]);
    let (status, error) =
        JwtAuthentication::authenticate(&service, &headers(Some("Bearer ")), NOW).unwrap_err();
    assert_eq!(status, StatusClass::Unauthorized);
    assert_eq!(error, JwtAuthenticationError::InvalidToken);
}

#[test]
fn authentication_yields_the_token_claims() {
    let service = service_with(vec![alice()]);
    let token = service
        .login(
            String::from("alice@example.com"),
            String::from("wonderland"),
            NOW,
        )
        .unwrap();
    let guard =
        JwtAuthentication::authenticate(&service, &headers(Some(&format!("Bearer {}", token))), NOW)
            .unwrap();
    assert_eq!(guard.0.sub, "alice-id");
    assert_eq!(guard.0.roles, vec![Role::User]);

    let (status, error) =
        JwtAuthentication::authenticate(&service, &headers(Some("Bearer not.a.token")), NOW)
            .unwrap_err();
    assert_eq!(status, StatusClass::Unauthorized);
    assert_eq!(error, JwtAuthenticationError::InvalidToken);
}

#[test]
fn memory_repository_matches_first_record_and_misses_cleanly() {
    let bob = User::new(
        String::from("bob-id"),
        String::from("bob"),
        String::from("bob@example.com"),
        PasswordHash::raw(String::from("builder")).unwrap(),
        vec![Role::Admin, Role::User],
    );
    let service = UserService::new(MemoryUserRepository::new(vec![alice(), bob]));
    assert!(service.find_by_id(String::from("bob-id")).is_some());
    assert!(service.find_by_id(String::from("nobody")).is_none());
    let found = service
        .verify_user(String::from("bob@example.com"), String::from("builder"))
        .unwrap();
    assert_eq!(found.id, "bob-id");
    assert_eq!(found.roles, vec![Role::Admin, Role::User]);
    assert!(service
        .verify_user(String::from("bob@example.com"), String::from("wrong"))
        .is_err());
}
