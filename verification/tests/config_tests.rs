use open_sentry::config::{
    default_admin_email, default_admin_password, default_environment, default_ingest_rate_limit,
    default_metrics_api_key, default_poll_interval, default_retention_days,
    default_retention_interval, default_smtp_port, default_true, runtime_config,
    ProductionConfigError, Settings, SmtpSettings, TelegramSettings, TwilioSettings,
};

fn production(password: &str, metrics_key: &str, secure: bool) -> Settings {
    Settings {
        environment: "production".into(),
        bind_addr: "x".into(),
        database_url: "x".into(),
        ingest_api_key: "x".into(),
        public_base_url: "x".into(),
        bootstrap_admin_email: "a@b.c".into(),
        bootstrap_admin_password: password.into(),
        secure_cookies: secure,
        ingest_rate_limit_per_minute: 1,
        metrics_api_key: metrics_key.into(),
        retention_days: 30,
        retention_interval_seconds: 60,
        worker_poll_interval_ms: 1000,
        smtp: SmtpSettings::default(),
        telegram: TelegramSettings::default(),
        twilio: TwilioSettings::default(),
    }
}

#[test]
fn production_rejects_development_secrets() {
    let settings = production("change-me", "metrics-secret", false);
    assert!(settings.validate_production().is_err());
}

#[test]
fn production_checks_each_rule_in_order() {
    assert_eq!(
        production("short", "a-long-metrics-key", true).validate_production(),
        Err(ProductionConfigError::WeakAdminPassword)
    );
    assert_eq!(
        production("a-long-password", "metrics-secret", true).validate_production(),
        Err(ProductionConfigError::WeakMetricsKey)
    );
    assert_eq!(
        production("a-long-password", "short-key", true).validate_production(),
        Err(ProductionConfigError::WeakMetricsKey)
    );
    assert_eq!(
        production("a-long-password", "a-long-metrics-key", false).validate_production(),
        Err(ProductionConfigError::InsecureCookies)
    );
    assert_eq!(
        production("a-long-password", "a-long-metrics-key", true).validate_production(),
        Ok(())
    );
}

#[test]
fn other_environments_are_not_checked() {
    let mut settings = production("change-me", "metrics-secret", false);
    settings.environment = "development".into();
    assert_eq!(settings.validate_production(), Ok(()));
}

#[test]
fn production_errors_explain_themselves() {
    assert_eq!(
        ProductionConfigError::InsecureCookies.message(),
        "production requires APP__SECURE_COOKIES=true"
    );
    assert!(ProductionConfigError::WeakAdminPassword.message().contains("12 characters"));
    assert!(ProductionConfigError::WeakMetricsKey.message().contains("16 characters"));
}

#[test]
fn defaults() {
    assert_eq!(default_poll_interval(), 1_000);
    assert_eq!(default_smtp_port(), 587);
    assert!(default_true());
    assert_eq!(default_admin_email(), "admin@example.com");
    assert_eq!(default_admin_password(), "change-me");
    assert_eq!(default_environment(), "development");
    assert_eq!(default_ingest_rate_limit(), 600);
    assert_eq!(default_metrics_api_key(), "metrics-secret");
    assert_eq!(default_retention_days(), 30);
    assert_eq!(default_retention_interval(), 3_600);
}

#[test]
fn runtime_config_shows_the_public_settings() {
    let view = runtime_config(&production("p", "m", true));
    assert_eq!(view.environment, "production");
    assert_eq!(view.ingest_rate_limit_per_minute, 1);
    assert_eq!(view.retention_days, 30);
    assert!(view.secure_cookies);
}
