use open_sentry::auth::{
    authorize_ingest, bootstrap_admin, check_password, cleared_session_cookie, cookie_token,
    envelope_key_hash, find_prefixed_piece, hash_password, hash_token, ingest_key_hash,
    issue_token, require_admin, require_owner, sentry_key, session_cookie, UserView,
};
use open_sentry::config::{Settings, SmtpSettings, TelegramSettings, TwilioSettings};
use open_sentry::error::AppError;

fn settings(admin_email: &str, admin_password: &str) -> Settings {
    Settings {
        environment: "development".into(),
        bind_addr: "x".into(),
        database_url: "x".into(),
        ingest_api_key: "x".into(),
        public_base_url: "x".into(),
        bootstrap_admin_email: admin_email.into(),
        bootstrap_admin_password: admin_password.into(),
        secure_cookies: false,
        ingest_rate_limit_per_minute: 1,
        metrics_api_key: "metrics-secret".into(),
        retention_days: 30,
        retention_interval_seconds: 60,
        worker_poll_interval_ms: 1000,
        smtp: SmtpSettings::default(),
        telegram: TelegramSettings::default(),
        twilio: TwilioSettings::default(),
    }
}

#[test]
fn ingest_auth_accepts_header_and_rejects_wrong_key() {
    assert!(authorize_ingest(Some("secret"), None, "secret").is_ok());
    assert!(matches!(
        authorize_ingest(Some("secret"), None, "wrong"),
        Err(AppError::Unauthorized)
    ));
}

#[test]
fn ingest_auth_reads_bearer_token_only_without_sentry_header() {
    assert!(authorize_ingest(None, Some("Bearer secret"), "secret").is_ok());
    assert!(matches!(
        authorize_ingest(None, Some("Basic secret"), "secret"),
        Err(AppError::Unauthorized)
    ));
    assert!(matches!(authorize_ingest(None, None, "secret"), Err(AppError::Unauthorized)));
    assert!(matches!(
        authorize_ingest(Some("other"), Some("Bearer secret"), "secret"),
        Err(AppError::Unauthorized)
    ));
}

#[test]
fn extracts_sentry_key() {
    assert_eq!(
        sentry_key(Some("Sentry sentry_version=7, sentry_key=public-key")),
        Some("public-key".to_string())
    );
}

#[test]
fn sentry_key_needs_the_sentry_scheme() {
    assert_eq!(sentry_key(Some("sentry_key=public-key")), None);
    assert_eq!(sentry_key(Some("Sentry sentry_version=7")), None);
    assert_eq!(sentry_key(None), None);
}

#[test]
fn extracts_only_named_cookie() {
    assert_eq!(
        cookie_token(Some("x=1; open_sentry_session=abc; y=2")),
        Some("abc".to_string())
    );
    assert_eq!(cookie_token(Some("x=1; other_session=abc")), None);
    assert_eq!(cookie_token(None), None);
}

#[test]
fn prefixed_piece_is_trimmed_and_first_wins() {
    assert_eq!(
        find_prefixed_piece("  a=1 ;a=2", ';', "a="),
        Some("1".to_string())
    );
    assert_eq!(find_prefixed_piece("", ';', "a="), None);
}

#[test]
fn token_hash_is_not_plaintext() {
    assert_ne!(hash_token("secret"), "secret");
    assert_eq!(hash_token("secret"), hash_token("secret"));
}

#[test]
fn token_hash_is_sha256_hex() {
    assert_eq!(
        hash_token("abc"),
        "ba7816bf8f01cfea414140de5dae2223b00361a396177a9cb410ff61f20015ad"
    );
}

#[test]
fn issued_token_is_stored_by_its_digest() {
    let (token, digest) = issue_token();
    assert_eq!(token.len(), 64);
    assert!(token.chars().all(|c| c.is_ascii_digit() || ('a'..='f').contains(&c)));
    assert_eq!(digest, hash_token(&token));
    let (other, _) = issue_token();
    assert_ne!(token, other);
}

#[test]
fn role_enforces_write_permissions() {
    let member = UserView {
        id: 0,
        email: "member@example.com".into(),
        display_name: "Member".into(),
        role: "member".into(),
    };
    let admin = UserView {
        role: "admin".into(),
        ..member.clone()
    };
    assert!(matches!(require_admin(&member), Err(AppError::Forbidden)));
    assert!(require_admin(&admin).is_ok());
}

#[test]
fn only_the_owner_passes_the_owner_check() {
    let user = |role: &str| UserView {
        id: 7,
        email: "u@example.com".into(),
        display_name: "U".into(),
        role: role.into(),
    };
    assert!(require_owner(&user("owner")).is_ok());
    assert!(require_admin(&user("owner")).is_ok());
    assert!(matches!(require_owner(&user("admin")), Err(AppError::Forbidden)));
    assert!(matches!(require_admin(&user("viewer")), Err(AppError::Forbidden)));
}

#[test]
fn password_round_trip() {
    let hash = hash_password("correct horse").unwrap();
    assert_ne!(hash, "correct horse");
    assert!(hash.starts_with("$argon2id$"));
    assert!(check_password("correct horse", &hash).is_ok());
    assert!(matches!(
        check_password("wrong horse!", &hash),
        Err(AppError::Unauthorized)
    ));
}

#[test]
fn short_passwords_are_refused() {
    assert_eq!(
        hash_password("short"),
        Err("password must contain at least 8 characters".to_string())
    );
}

#[test]
fn unparsable_stored_hash_is_an_internal_error() {
    assert!(matches!(
        check_password("whatever1", "not a phc string"),
        Err(AppError::Internal(_))
    ));
}

#[test]
fn ingest_key_hash_digests_the_presented_key() {
    assert_eq!(ingest_key_hash(Some("abc"), None).unwrap(), hash_token("abc"));
    assert_eq!(
        ingest_key_hash(None, Some("Bearer abc")).unwrap(),
        hash_token("abc")
    );
    assert!(matches!(ingest_key_hash(None, None), Err(AppError::Unauthorized)));
}

#[test]
fn envelope_key_hash_digests_the_public_key() {
    assert_eq!(
        envelope_key_hash(Some("Sentry sentry_key=abc, sentry_version=7")).unwrap(),
        hash_token("abc")
    );
    assert!(matches!(envelope_key_hash(Some("abc")), Err(AppError::Unauthorized)));
    assert!(matches!(envelope_key_hash(None), Err(AppError::Unauthorized)));
}

#[test]
fn session_cookies() {
    assert_eq!(
        session_cookie("tok", true),
        "open_sentry_session=tok; Path=/; HttpOnly; SameSite=Strict; Max-Age=604800; Secure"
    );
    assert_eq!(
        session_cookie("tok", false),
        "open_sentry_session=tok; Path=/; HttpOnly; SameSite=Strict; Max-Age=604800"
    );
    assert_eq!(
        cleared_session_cookie(false),
        "open_sentry_session=; Path=/; HttpOnly; SameSite=Strict; Max-Age=0"
    );
    assert_eq!(
        cleared_session_cookie(true),
        "open_sentry_session=; Path=/; HttpOnly; SameSite=Strict; Max-Age=0; Secure"
    );
}

#[test]
fn bootstrap_admin_normalizes_email_and_hashes_password() {
    let (email, hash) = bootstrap_admin(&settings("  Admin@Example.COM ", "long-enough-pw")).unwrap();
    assert_eq!(email, "admin@example.com");
    assert!(check_password("long-enough-pw", &hash).is_ok());
    assert_eq!(
        bootstrap_admin(&settings("a@b.c", "short")),
        Err("APP__BOOTSTRAP_ADMIN_PASSWORD must contain at least 8 characters".to_string())
    );
}
