use open_sentry::config::{Settings, SmtpSettings, TelegramSettings, TwilioSettings};
use open_sentry::json::JsonValue;
use open_sentry::notification::{
    alert_body, alert_subject, alert_twiml, channel_configuration_error, delivery_channel,
    email_plan, failure_transition, invitation_email, is_e164, telegram_request,
    voice_call_request, xml_escape, DeliveryChannel,
};

fn payload(entries: Vec<(&str, &str)>) -> JsonValue {
    JsonValue::Object(
        entries
            .into_iter()
            .map(|(k, v)| (k.to_string(), JsonValue::String(v.to_string())))
            .collect(),
    )
}

fn twilio(sid: Option<&str>, token: Option<&str>, from: Option<&str>) -> TwilioSettings {
    TwilioSettings {
        account_sid: sid.map(str::to_string),
        auth_token: token.map(str::to_string),
        from_number: from.map(str::to_string),
    }
}

fn settings() -> Settings {
    Settings {
        environment: "development".into(),
        bind_addr: "x".into(),
        database_url: "x".into(),
        ingest_api_key: "x".into(),
        public_base_url: "http://localhost".into(),
        bootstrap_admin_email: "a@b.c".into(),
        bootstrap_admin_password: "change-me".into(),
        secure_cookies: false,
        ingest_rate_limit_per_minute: 1,
        metrics_api_key: "metrics-secret".into(),
        retention_days: 30,
        retention_interval_seconds: 60,
        worker_poll_interval_ms: 1000,
        smtp: SmtpSettings::default(),
        telegram: TelegramSettings::default(),
        twilio: TwilioSettings::default(),
    }
}

#[test]
fn validates_e164_phone_numbers() {
    assert!(is_e164("+60123456789"));
    assert!(!is_e164("012-3456789"));
    assert!(!is_e164("+60abc"));
}

#[test]
fn e164_length_bounds() {
    assert!(is_e164("+12345678"));
    assert!(!is_e164("+1234567"));
    assert!(is_e164("+123456789012345"));
    assert!(!is_e164("+1234567890123456"));
    assert!(!is_e164("+"));
    assert!(!is_e164(""));
    assert!(!is_e164("+١٢٣٤٥٦٧٨٩"));
}

#[test]
fn escapes_alert_text_for_twiml() {
    assert_eq!(xml_escape("a < b & c"), "a &lt; b &amp; c");
}

#[test]
fn escapes_quotes_and_leaves_no_markup() {
    let escaped = xml_escape("<Say a=\"x\">it's</Say>");
    assert_eq!(escaped, "&lt;Say a=&quot;x&quot;&gt;it&apos;s&lt;/Say&gt;");
    assert!(!escaped.contains('<') && !escaped.contains('>'));
    assert!(!escaped.contains('"') && !escaped.contains('\''));
    assert_eq!(xml_escape("&amp;"), "&amp;amp;");
}

#[test]
fn backoff_doubles_then_fails() {
    let plans: Vec<(bool, i64)> = (0..10)
        .map(|a| {
            let p = failure_transition(a);
            (p.failed, p.delay_seconds)
        })
        .collect();
    assert_eq!(
        plans,
        vec![
            (false, 1),
            (false, 2),
            (false, 4),
            (false, 8),
            (false, 16),
            (false, 32),
            (false, 64),
            (true, 128),
            (true, 256),
            (true, 256)
        ]
    );
    assert_eq!(failure_transition(-1).delay_seconds, 256);
}

#[test]
fn channel_configuration_problems() {
    let mut s = settings();
    assert_eq!(
        channel_configuration_error(&s, "email", "  "),
        Some("notification target is empty".to_string())
    );
    assert_eq!(
        channel_configuration_error(&s, "email", "ops@example.com"),
        Some("SMTP is disabled".to_string())
    );
    s.smtp.enabled = true;
    assert_eq!(
        channel_configuration_error(&s, "email", "ops@example.com"),
        Some("SMTP host/from is incomplete".to_string())
    );
    s.smtp.host = Some("mail".into());
    s.smtp.from = Some("alerts@example.com".into());
    assert_eq!(channel_configuration_error(&s, "email", "ops@example.com"), None);
    assert_eq!(
        channel_configuration_error(&s, "telegram", "123"),
        Some("Telegram bot token is not configured".to_string())
    );
    s.telegram.bot_token = Some("tok".into());
    assert_eq!(channel_configuration_error(&s, "telegram", "123"), None);
    assert_eq!(
        channel_configuration_error(&s, "voice_call", "0123"),
        Some("voice target must use E.164 format, for example +60123456789".to_string())
    );
    assert_eq!(
        channel_configuration_error(&s, "voice_call", "+60123456789"),
        Some("Twilio account SID/auth token/from number is incomplete".to_string())
    );
    s.twilio = twilio(Some("AC1"), Some("t"), Some("+10000000000"));
    assert_eq!(channel_configuration_error(&s, "voice_call", "+60123456789"), None);
    assert_eq!(
        channel_configuration_error(&s, "pager", "x"),
        Some("unsupported notification channel".to_string())
    );
}

#[test]
fn alert_texts() {
    let p = payload(vec![("rule_name", "High errors"), ("issue_id", "42")]);
    assert_eq!(alert_subject(&p), "[Open Sentry] High errors");
    assert_eq!(alert_subject(&payload(vec![])), "[Open Sentry] Alert");
    assert_eq!(
        alert_body("{}", "http://h", &p),
        "{}\n\nIssue: http://h/api/issues/42"
    );
    assert_eq!(
        invitation_email("http://h/invite/x"),
        (
            "[Open Sentry] Workspace invitation".to_string(),
            "This single-use invitation expires in 48 hours:\n\nhttp://h/invite/x".to_string()
        )
    );
}

#[test]
fn delivery_channels() {
    assert_eq!(delivery_channel("telegram"), Ok(DeliveryChannel::Telegram));
    assert_eq!(delivery_channel("email"), Ok(DeliveryChannel::Email));
    assert_eq!(delivery_channel("voice_call"), Ok(DeliveryChannel::VoiceCall));
    assert_eq!(
        delivery_channel("fax"),
        Err("unsupported notification channel: fax".to_string())
    );
}

#[test]
fn twiml_escapes_and_repeats_the_alert() {
    let p = payload(vec![("rule_name", "R&D"), ("level", "fatal"), ("message", "a<b")]);
    assert_eq!(
        alert_twiml(&p),
        "<Response><Say language=\"en-US\">Open Sentry urgent alert. Rule R&amp;D. Level fatal. a&lt;b. Please check the incident console.</Say><Pause length=\"1\"/><Say language=\"en-US\">Repeating. Open Sentry urgent alert. Rule R&amp;D. Level fatal.</Say></Response>"
    );
    assert!(alert_twiml(&payload(vec![])).contains("Rule Open Sentry alert. Level critical. Please check the incident console."));
}

#[test]
fn voice_call_needs_number_and_twilio_settings() {
    let p = payload(vec![]);
    let err = |t: &TwilioSettings, target: &str| voice_call_request(t, target, &p).unwrap_err();
    assert_eq!(err(&twilio(None, None, None), "123"), "voice target must use E.164 format");
    assert_eq!(
        err(&twilio(None, None, None), "+60123456789"),
        "Twilio account SID is not configured"
    );
    assert_eq!(
        err(&twilio(Some("AC"), None, None), "+60123456789"),
        "Twilio auth token is not configured"
    );
    assert_eq!(
        err(&twilio(Some("AC"), Some("t"), None), "+60123456789"),
        "Twilio from number is not configured"
    );
    let call = voice_call_request(&twilio(Some("AC9"), Some("t"), Some("+1999")), "+60123456789", &p)
        .unwrap();
    assert_eq!(call.url, "https://api.twilio.com/2010-04-01/Accounts/AC9/Calls.json");
    assert_eq!(call.to, "+60123456789");
    assert_eq!(call.from, "+1999");
    assert_eq!(call.account_sid, "AC9");
    assert_eq!(call.auth_token, "t");
    assert_eq!(call.twiml, alert_twiml(&p));
}

#[test]
fn telegram_request_needs_a_token() {
    assert_eq!(
        telegram_request(&TelegramSettings::default(), "1", "hi").unwrap_err(),
        "telegram bot token is not configured"
    );
    let r = telegram_request(&TelegramSettings { bot_token: Some("T".into()) }, "1", "hi").unwrap();
    assert_eq!(r.url, "https://api.telegram.org/botT/sendMessage");
    assert_eq!(r.chat_id, "1");
    assert_eq!(r.text, "hi");
}

#[test]
fn email_plan_needs_enabled_smtp_and_sender() {
    let mut smtp = SmtpSettings::default();
    assert_eq!(email_plan(&smtp).unwrap_err(), "SMTP is disabled");
    smtp.enabled = true;
    assert_eq!(email_plan(&smtp).unwrap_err(), "SMTP from is not configured");
    smtp.from = Some("alerts@example.com".into());
    smtp.username = Some("u".into());
    let plan = email_plan(&smtp).unwrap();
    assert_eq!(plan.from, "alerts@example.com");
    assert!(plan.credentials.is_none());
    smtp.password = Some("p".into());
    smtp.port = 2525;
    let plan = email_plan(&smtp).unwrap();
    assert_eq!(plan.credentials, Some(("u".to_string(), "p".to_string())));
    assert_eq!(plan.port, 2525);
    assert!(plan.host.is_none());
}

fn unescape(s: &str) -> String {
    let mut out = String::new();
    let mut rest = s;
    while !rest.is_empty() {
        let mut matched = false;
        for (entity, c) in [("&amp;", '&'), ("&lt;", '<'), ("&gt;", '>'), ("&quot;", '"'), ("&apos;", '\'')] {
            if let Some(r) = rest.strip_prefix(entity) {
                out.push(c);
                rest = r;
                matched = true;
                break;
            }
        }
        if !matched {
            let c = rest.chars().next().unwrap();
            out.push(c);
            rest = &rest[c.len_utf8()..];
        }
    }
    out
}

#[test]
fn escaped_text_reads_back() {
    for s in ["a < b & c", "&amp;&lt;", "it's \"quoted\" > here", "plain", "", "é&é"] {
        assert_eq!(unescape(&xml_escape(s)), s);
    }
}
