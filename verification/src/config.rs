//! Service settings, their defaults, and the checks that a production
//! deployment must pass.
use vstd::prelude::*;
use vstd::utf8::encode_utf8;
use crate::text::str_eq;

verus! {

/// Settings of the service.
#[derive(Clone, Debug)]
pub struct Settings {
    pub environment: String,
    pub bind_addr: String,
    pub database_url: String,
    pub ingest_api_key: String,
    pub public_base_url: String,
    pub bootstrap_admin_email: String,
    pub bootstrap_admin_password: String,
    pub secure_cookies: bool,
    pub ingest_rate_limit_per_minute: u64,
    pub metrics_api_key: String,
    pub retention_days: i64,
    pub retention_interval_seconds: u64,
    pub worker_poll_interval_ms: u64,
    pub smtp: SmtpSettings,
    pub telegram: TelegramSettings,
    pub twilio: TwilioSettings,
}

/// Outgoing mail settings.
#[derive(Clone, Debug)]
pub struct SmtpSettings {
    pub enabled: bool,
    pub host: Option<String>,
    pub port: u16,
    pub starttls: bool,
    pub username: Option<String>,
    pub password: Option<String>,
    pub from: Option<String>,
}

/// Telegram bot settings.
#[derive(Clone, Debug)]
pub struct TelegramSettings {
    pub bot_token: Option<String>,
}

/// Twilio voice-call settings.
#[derive(Clone, Debug)]
pub struct TwilioSettings {
    pub account_sid: Option<String>,
    pub auth_token: Option<String>,
    pub from_number: Option<String>,
}

impl Default for SmtpSettings {
    fn default() -> (s: Self)
        ensures
            !s.enabled,
            s.host is None,
            s.port == 0,
            !s.starttls,
            s.username is None,
            s.password is None,
            s.from is None,
    {
        SmtpSettings {
            enabled: false,
            host: None,
            port: 0,
            starttls: false,
            username: None,
            password: None,
            from: None,
        }
    }
}

impl Default for TelegramSettings {
    fn default() -> (s: Self)
        ensures
            s.bot_token is None,
    {
        TelegramSettings { bot_token: None }
    }
}

impl Default for TwilioSettings {
    fn default() -> (s: Self)
        ensures
            s.account_sid is None,
            s.auth_token is None,
            s.from_number is None,
    {
        TwilioSettings { account_sid: None, auth_token: None, from_number: None }
    }
}

/// How often the notification worker polls, in milliseconds, when unset.
pub fn default_poll_interval() -> (r: u64)
    ensures
        r == 1000,
{
    1_000
}

/// The SMTP port when unset.
pub fn default_smtp_port() -> (r: u16)
    ensures
        r == 587,
{
    587
}

/// STARTTLS is on when unset.
pub fn default_true() -> (r: bool)
    ensures
        r,
{
    true
}

/// The bootstrap administrator's e-mail when unset.
pub fn default_admin_email() -> (r: String)
    ensures
        r@ == "admin@example.com"@,
{
    "admin@example.com".to_owned()
}

/// The bootstrap administrator's password when unset (for development only).
pub fn default_admin_password() -> (r: String)
    ensures
        r@ == "change-me"@,
{
    "change-me".to_owned()
}

/// The environment name when unset.
pub fn default_environment() -> (r: String)
    ensures
        r@ == "development"@,
{
    "development".to_owned()
}

/// The ingest rate limit per credential and minute when unset.
pub fn default_ingest_rate_limit() -> (r: u64)
    ensures
        r == 600,
{
    600
}

/// The metrics bearer key when unset (for development only).
pub fn default_metrics_api_key() -> (r: String)
    ensures
        r@ == "metrics-secret"@,
{
    "metrics-secret".to_owned()
}

/// How many days events, logs and envelope items are kept when unset.
pub fn default_retention_days() -> (r: i64)
    ensures
        r == 30,
{
    30
}

/// How often the retention job runs, in seconds, when unset.
pub fn default_retention_interval() -> (r: u64)
    ensures
        r == 3600,
{
    3_600
}

/// Why a production configuration is refused.
#[derive(Debug, PartialEq, Eq, Structural)]
pub enum ProductionConfigError {
    WeakAdminPassword,
    WeakMetricsKey,
    InsecureCookies,
}

impl ProductionConfigError {
    /// The message shown to the operator.
    pub fn message(&self) -> (m: String)
        ensures
            m@ == match self {
                ProductionConfigError::WeakAdminPassword => "production bootstrap admin password must be changed and contain at least 12 characters"@,
                ProductionConfigError::WeakMetricsKey => "production metrics API key must be changed and contain at least 16 characters"@,
                ProductionConfigError::InsecureCookies => "production requires APP__SECURE_COOKIES=true"@,
            },
    {
        match self {
            ProductionConfigError::WeakAdminPassword => "production bootstrap admin password must be changed and contain at least 12 characters".to_owned(),
            ProductionConfigError::WeakMetricsKey => "production metrics API key must be changed and contain at least 16 characters".to_owned(),
            ProductionConfigError::InsecureCookies => "production requires APP__SECURE_COOKIES=true".to_owned(),
        }
    }
}

/// The length of a text in UTF-8 bytes, as `str::len` returns it.
pub open spec fn byte_len(s: Seq<char>) -> usize {
    encode_utf8(s).len() as usize
}

/// The first rule a production configuration breaks, if any: the
/// development admin password or one shorter than 12 bytes, the development
/// metrics key or one shorter than 16 bytes, cookies without `Secure`.
/// Other environments pass.
pub open spec fn production_check(
    environment: Seq<char>,
    admin_password: Seq<char>,
    metrics_key: Seq<char>,
    secure_cookies: bool,
) -> Result<(), ProductionConfigError> {
    if environment != "production"@ {
        Ok(())
    } else if admin_password == "change-me"@ || byte_len(admin_password) < 12 {
        Err(ProductionConfigError::WeakAdminPassword)
    } else if metrics_key == "metrics-secret"@ || byte_len(metrics_key) < 16 {
        Err(ProductionConfigError::WeakMetricsKey)
    } else if !secure_cookies {
        Err(ProductionConfigError::InsecureCookies)
    } else {
        Ok(())
    }
}

/// A production configuration passes only with a changed admin password of
/// at least 12 bytes, a changed metrics key of at least 16 bytes, and
/// secure cookies.
pub proof fn lemma_production_pass_is_hardened(
    admin_password: Seq<char>,
    metrics_key: Seq<char>,
    secure_cookies: bool,
)
    requires
        production_check("production"@, admin_password, metrics_key, secure_cookies) is Ok,
    ensures
        admin_password != "change-me"@,
        byte_len(admin_password) >= 12,
        metrics_key != "metrics-secret"@,
        byte_len(metrics_key) >= 16,
        secure_cookies,
{
}

impl Settings {
    /// Refuses, in the `production` environment, development secrets and
    /// cookies without the `Secure` attribute.
    pub fn validate_production(&self) -> (r: Result<(), ProductionConfigError>)
        ensures
            r == production_check(
                self.environment@,
                self.bootstrap_admin_password@,
                self.metrics_api_key@,
                self.secure_cookies,
            ),
    {
        if str_eq(self.environment.as_str(), "production") {
            if str_eq(self.bootstrap_admin_password.as_str(), "change-me")
                || self.bootstrap_admin_password.as_str().len() < 12 {
                return Err(ProductionConfigError::WeakAdminPassword);
            }
            if str_eq(self.metrics_api_key.as_str(), "metrics-secret")
                || self.metrics_api_key.as_str().len() < 16 {
                return Err(ProductionConfigError::WeakMetricsKey);
            }
            if !self.secure_cookies {
                return Err(ProductionConfigError::InsecureCookies);
            }
        }
        Ok(())
    }
}

/// The runtime settings the console may read.
#[derive(Debug)]
pub struct RuntimeConfigView {
    pub environment: String,
    pub ingest_rate_limit_per_minute: u64,
    pub retention_days: i64,
    pub secure_cookies: bool,
}

/// The runtime settings shown to the console.
pub fn runtime_config(settings: &Settings) -> (v: RuntimeConfigView)
    ensures
        v.environment@ == settings.environment@,
        v.ingest_rate_limit_per_minute == settings.ingest_rate_limit_per_minute,
        v.retention_days == settings.retention_days,
        v.secure_cookies == settings.secure_cookies,
{
    RuntimeConfigView {
        environment: settings.environment.clone(),
        ingest_rate_limit_per_minute: settings.ingest_rate_limit_per_minute,
        retention_days: settings.retention_days,
        secure_cookies: settings.secure_cookies,
    }
}

} // verus!
