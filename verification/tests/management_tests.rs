use open_sentry::error::AppError;
use open_sentry::management::{
    check_deletion_confirmation, invitation_link, is_user_role, lowercase_fields, page_limit,
    page_offset, project_dsn, require_attachment, require_found, rule_cooldown,
    triggers_recovery, validate_batch_update, validate_comment, validate_fingerprint,
    validate_invitation_role, validate_issue_status, validate_key_name, validate_merge,
    validate_new_project, validate_retention, validate_rule_channel, validate_split,
    validate_user_role, validate_user_update,
};

fn bad(r: Result<(), AppError>, text: &str) -> bool {
    matches!(r, Err(AppError::BadRequest(m)) if m == text)
}

#[test]
fn new_project_slug_rules() {
    assert_eq!(validate_new_project("Shop", "  Web-Shop1 ").unwrap(), "web-shop1");
    for (name, slug) in [(" ", "shop"), ("Shop", "a"), ("Shop", "web_shop"), ("Shop", "")] {
        assert!(matches!(
            validate_new_project(name, slug),
            Err(AppError::BadRequest(m)) if m == "name and a valid slug are required"
        ));
    }
}

#[test]
fn project_settings_rules() {
    assert!(validate_retention(None).is_ok());
    assert!(validate_retention(Some(1)).is_ok());
    assert!(bad(validate_retention(Some(0)), "retention_days must be positive"));
    assert_eq!(
        lowercase_fields(&vec!["Token".to_string(), "SSN".to_string()]),
        vec!["token".to_string(), "ssn".to_string()]
    );
    assert!(validate_key_name("ci").is_ok());
    assert!(bad(validate_key_name("  "), "key name is required"));
    assert!(check_deletion_confirmation("shop", "shop").is_ok());
    assert!(bad(check_deletion_confirmation("Shop", "shop"), "confirmation must equal project slug"));
}

#[test]
fn dsn_and_invitation_links() {
    assert_eq!(
        project_dsn("https://sentry.example.com/", "abc", 42),
        "https://abc@sentry.example.com/42"
    );
    assert_eq!(project_dsn("http://localhost:8080", "k", 1), "http://k@localhost:8080/1");
    assert_eq!(project_dsn("sentry.local", "k", -3), "http://k@sentry.local/-3");
    assert_eq!(
        invitation_link("http://h//", "tok"),
        "http://h/invite?token=tok"
    );
}

#[test]
fn user_roles_and_updates() {
    assert!(is_user_role("owner") && is_user_role("admin") && is_user_role("member"));
    assert!(!is_user_role("viewer"));
    assert!(validate_user_role("member").is_ok());
    assert!(bad(validate_user_role("root"), "invalid role"));
    assert!(validate_invitation_role("admin").is_ok());
    assert!(bad(validate_invitation_role("owner"), "invalid invitation role"));
    assert!(validate_user_update(1, 2, Some("member"), Some(false)).is_ok());
    assert!(validate_user_update(1, 1, Some("admin"), Some(true)).is_ok());
    assert!(bad(validate_user_update(1, 1, Some("root"), None), "invalid role"));
    assert!(matches!(
        validate_user_update(1, 1, None, Some(false)),
        Err(AppError::Conflict(m)) if m == "cannot remove your own administrative access"
    ));
    assert!(matches!(
        validate_user_update(1, 1, Some("member"), None),
        Err(AppError::Conflict(_))
    ));
}

#[test]
fn issue_rules() {
    let c = validate_comment("  looks fixed \n").unwrap();
    assert_eq!(c, "looks fixed");
    assert!(matches!(validate_comment("   "), Err(AppError::BadRequest(m)) if m == "comment must contain 1-5000 characters"));
    assert!(validate_comment(&"x".repeat(5000)).is_ok());
    assert!(validate_comment(&"x".repeat(5001)).is_err());
    assert!(validate_comment(&"é".repeat(2501)).is_err());
    for status in ["unresolved", "in_progress", "resolved", "ignored"] {
        assert!(validate_issue_status(status).is_ok());
    }
    assert!(bad(validate_issue_status("closed"), "invalid issue status"));
    assert!(matches!(require_found(0), Err(AppError::NotFound)));
    assert!(require_found(3).is_ok());
    assert!(triggers_recovery("resolved"));
    assert!(!triggers_recovery("ignored"));
    assert!(validate_batch_update(200, "resolved").is_ok());
    assert!(bad(validate_batch_update(0, "resolved"), "issue_ids must contain 1-200 items"));
    assert!(bad(validate_batch_update(201, "bogus"), "issue_ids must contain 1-200 items"));
    assert!(bad(validate_batch_update(5, "bogus"), "invalid issue status"));
    assert!(validate_merge(1).is_ok());
    assert!(bad(validate_merge(0), "source_issue_ids required"));
    assert!(validate_split(1, "fp").is_ok());
    assert!(bad(validate_split(0, "fp"), "event_ids and fingerprint required"));
    assert!(bad(validate_split(2, " "), "event_ids and fingerprint required"));
    assert!(validate_fingerprint("fp").is_ok());
    assert!(bad(validate_fingerprint(""), "fingerprint required"));
    assert!(require_attachment("attachment").is_ok());
    assert!(bad(require_attachment("event"), "item is not an attachment"));
}

#[test]
fn alert_rule_and_paging_rules() {
    for channel in ["email", "telegram", "voice_call"] {
        assert!(validate_rule_channel(channel).is_ok());
    }
    assert!(bad(validate_rule_channel("sms"), "channel must be email, telegram, or voice_call"));
    assert_eq!(rule_cooldown(None), 300);
    assert_eq!(rule_cooldown(Some(-5)), 0);
    assert_eq!(rule_cooldown(Some(60)), 60);
    assert_eq!(page_limit(None, 50, 200), 50);
    assert_eq!(page_limit(Some(0), 50, 200), 1);
    assert_eq!(page_limit(Some(1000), 50, 200), 200);
    assert_eq!(page_limit(Some(10), 50, 200), 10);
    assert_eq!(page_offset(None), 0);
    assert_eq!(page_offset(Some(-1)), 0);
    assert_eq!(page_offset(Some(20)), 20);
}
