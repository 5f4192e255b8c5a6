//! Alert delivery decisions: channel checks, message texts, retry backoff,
//! and the requests each channel is sent.
use vstd::prelude::*;
use crate::config::{Settings, SmtpSettings, TelegramSettings, TwilioSettings};
use crate::json::{member_text, JsonValue};
use crate::text::{chars_of, push_str, starts_with, str_eq, trim, trimmed};

verus! {

/// `+` followed by 8 to 15 ASCII digits.
pub open spec fn e164(s: Seq<char>) -> bool {
    &&& s.len() >= 1
    &&& s[0] == '+'
    &&& 8 <= s.len() - 1 <= 15
    &&& forall|i: int| 1 <= i < s.len() ==> '0' <= #[trigger] s[i] <= '9'
}

/// Whether a phone number is in E.164 form.
pub fn is_e164(number: &str) -> (r: bool)
    ensures
        r == e164(number@),
{
    let cs = chars_of(number);
    if cs.len() < 1 || cs[0] != '+' {
        return false;
    }
    let digits = cs.len() - 1;
    if digits < 8 || digits > 15 {
        return false;
    }
    let mut i: usize = 1;
    while i < cs.len()
        invariant
            1 <= i <= cs.len(),
            cs@ == number@,
            forall|j: int| 1 <= j < i ==> '0' <= #[trigger] cs@[j] <= '9',
        decreases cs.len() - i,
    {
        if !('0' <= cs[i] && cs[i] <= '9') {
            return false;
        }
        i = i + 1;
    }
    true
}

/// The XML escape of one character.
pub open spec fn escape_char(c: char) -> Seq<char> {
    if c == '&' {
        "&amp;"@
    } else if c == '<' {
        "&lt;"@
    } else if c == '>' {
        "&gt;"@
    } else if c == '"' {
        "&quot;"@
    } else if c == '\'' {
        "&apos;"@
    } else {
        seq![c]
    }
}

/// Every character replaced by its XML escape.
pub open spec fn xml_escaped(s: Seq<char>) -> Seq<char>
    decreases s.len(),
{
    if s.len() == 0 {
        Seq::empty()
    } else {
        xml_escaped(s.drop_last()) + escape_char(s.last())
    }
}

/// Escapes `&`, `<`, `>`, `"` and `'` for XML text.
pub fn xml_escape(value: &str) -> (r: String)
    ensures
        r@ == xml_escaped(value@),
{
    let cs = chars_of(value);
    let mut out = String::new();
    let mut i: usize = 0;
    while i < cs.len()
        invariant
            i <= cs.len(),
            cs@ == value@,
            out@ == xml_escaped(cs@.take(i as int)),
        decreases cs.len() - i,
    {
        let c = cs[i];
        proof {
            reveal_strlit("&amp;");
            reveal_strlit("&lt;");
            reveal_strlit("&gt;");
            reveal_strlit("&quot;");
            reveal_strlit("&apos;");
        }
        if c == '&' {
            push_str(&mut out, "&amp;");
        } else if c == '<' {
            push_str(&mut out, "&lt;");
        } else if c == '>' {
            push_str(&mut out, "&gt;");
        } else if c == '"' {
            push_str(&mut out, "&quot;");
        } else if c == '\'' {
            push_str(&mut out, "&apos;");
        } else {
            out.push(c);
        }
        assert(cs@.take(i + 1).drop_last() =~= cs@.take(i as int));
        i = i + 1;
    }
    assert(cs@.take(cs.len() as int) =~= cs@);
    out
}

/// Escaped text holds no `<`, `>`, `"` or `'`.
pub proof fn lemma_escaped_text_has_no_markup(s: Seq<char>)
    ensures
        forall|i: int|
            0 <= i < xml_escaped(s).len() ==> #[trigger] xml_escaped(s)[i] != '<'
                && xml_escaped(s)[i] != '>' && xml_escaped(s)[i] != '"' && xml_escaped(s)[i]
                != '\'',
    decreases s.len(),
{
    reveal_strlit("&amp;");
    reveal_strlit("&lt;");
    reveal_strlit("&gt;");
    reveal_strlit("&quot;");
    reveal_strlit("&apos;");
    if s.len() > 0 {
        lemma_escaped_text_has_no_markup(s.drop_last());
        let a = xml_escaped(s.drop_last());
        let b = escape_char(s.last());
        assert forall|i: int| 0 <= i < (a + b).len() implies #[trigger] (a + b)[i] != '<' && (a
            + b)[i] != '>' && (a + b)[i] != '"' && (a + b)[i] != '\'' by {
            if i >= a.len() {
                assert((a + b)[i] == b[i - a.len()]);
            } else {
                assert((a + b)[i] == a[i]);
            }
        }
    }
}

/// The entity an XML escape writes for each escaped character.
pub open spec fn entity_amp() -> Seq<char> {
    seq!['&', 'a', 'm', 'p', ';']
}

pub open spec fn entity_lt() -> Seq<char> {
    seq!['&', 'l', 't', ';']
}

pub open spec fn entity_gt() -> Seq<char> {
    seq!['&', 'g', 't', ';']
}

pub open spec fn entity_quot() -> Seq<char> {
    seq!['&', 'q', 'u', 'o', 't', ';']
}

pub open spec fn entity_apos() -> Seq<char> {
    seq!['&', 'a', 'p', 'o', 's', ';']
}

/// XML text read back, left to right: each of the five entities becomes its
/// character, every other character stands for itself.
pub open spec fn xml_unescaped(s: Seq<char>) -> Seq<char>
    decreases s.len(),
{
    if s.len() == 0 {
        Seq::empty()
    } else if starts_with(s, entity_amp()) {
        seq!['&'] + xml_unescaped(s.subrange(5, s.len() as int))
    } else if starts_with(s, entity_lt()) {
        seq!['<'] + xml_unescaped(s.subrange(4, s.len() as int))
    } else if starts_with(s, entity_gt()) {
        seq!['>'] + xml_unescaped(s.subrange(4, s.len() as int))
    } else if starts_with(s, entity_quot()) {
        seq!['"'] + xml_unescaped(s.subrange(6, s.len() as int))
    } else if starts_with(s, entity_apos()) {
        seq!['\''] + xml_unescaped(s.subrange(6, s.len() as int))
    } else {
        seq![s[0]] + xml_unescaped(s.drop_first())
    }
}

proof fn lemma_escaped_from_front(s: Seq<char>)
    requires
        s.len() > 0,
    ensures
        xml_escaped(s) == escape_char(s[0]) + xml_escaped(s.drop_first()),
    decreases s.len(),
{
    if s.len() == 1 {
        assert(s.drop_last() =~= Seq::<char>::empty());
        assert(s.drop_first() =~= Seq::<char>::empty());
        assert(xml_escaped(s.drop_first()) =~= Seq::<char>::empty());
        assert(escape_char(s[0]) + Seq::<char>::empty() =~= escape_char(s[0]));
    } else {
        lemma_escaped_from_front(s.drop_last());
        assert(s.drop_last().drop_first() =~= s.drop_first().drop_last());
        assert(s.drop_first().last() == s.last());
        assert(s.drop_last()[0] == s[0]);
        assert(xml_escaped(s) =~= escape_char(s[0]) + xml_escaped(s.drop_first()));
    }
}

proof fn lemma_unescape_escaped_char(c: char, rest: Seq<char>)
    ensures
        xml_unescaped(escape_char(c) + rest) == seq![c] + xml_unescaped(rest),
{
    reveal_strlit("&amp;");
    reveal_strlit("&lt;");
    reveal_strlit("&gt;");
    reveal_strlit("&quot;");
    reveal_strlit("&apos;");
    let t = escape_char(c) + rest;
    let e = escape_char(c);
    assert(t.subrange(0, e.len() as int) =~= e);
    assert(t.subrange(e.len() as int, t.len() as int) =~= rest);
    if c == '&' {
        assert(e =~= entity_amp());
        assert(starts_with(t, entity_amp()));
    } else if c == '<' {
        assert(e =~= entity_lt());
        assert(t[1] == 'l');
        if starts_with(t, entity_amp()) {
            assert(t.subrange(0, 5)[1] == t[1]);
        }
    } else if c == '>' {
        assert(e =~= entity_gt());
        assert(!starts_with(t, entity_amp()));
        assert(!starts_with(t, entity_lt()));
    } else if c == '"' {
        assert(e =~= entity_quot());
        assert(!starts_with(t, entity_amp()));
        assert(!starts_with(t, entity_lt()));
        assert(!starts_with(t, entity_gt()));
    } else if c == '\'' {
        assert(e =~= entity_apos());
        assert(!starts_with(t, entity_amp()));
        assert(!starts_with(t, entity_lt()));
        assert(!starts_with(t, entity_gt()));
        assert(t.subrange(0, 6)[1] == 'a' && entity_quot()[1] == 'q');
        assert(!starts_with(t, entity_quot()));
    } else {
        assert(e =~= seq![c]);
        assert(t[0] == c);
        assert(entity_amp()[0] == '&');
        if starts_with(t, entity_amp()) {
            assert(t.subrange(0, 5)[0] == t[0]);
        }
        if starts_with(t, entity_lt()) {
            assert(t.subrange(0, 4)[0] == t[0]);
        }
        if starts_with(t, entity_gt()) {
            assert(t.subrange(0, 4)[0] == t[0]);
        }
        if starts_with(t, entity_quot()) {
            assert(t.subrange(0, 6)[0] == t[0]);
        }
        if starts_with(t, entity_apos()) {
            assert(t.subrange(0, 6)[0] == t[0]);
        }
        assert(t.drop_first() =~= rest);
    }
}

/// Reading escaped text back gives the text that was escaped.
pub proof fn lemma_escaped_text_reads_back(s: Seq<char>)
    ensures
        xml_unescaped(xml_escaped(s)) == s,
    decreases s.len(),
{
    if s.len() == 0 {
        assert(xml_escaped(s) =~= Seq::<char>::empty());
    } else {
        lemma_escaped_from_front(s);
        lemma_unescape_escaped_char(s[0], xml_escaped(s.drop_first()));
        lemma_escaped_text_reads_back(s.drop_first());
        assert(seq![s[0]] + s.drop_first() =~= s);
    }
}

/// Whether one of the five entities starts at position `i` of `t`.
pub open spec fn entity_at(t: Seq<char>, i: int) -> bool {
    let rest = t.subrange(i, t.len() as int);
    ||| starts_with(rest, entity_amp())
    ||| starts_with(rest, entity_lt())
    ||| starts_with(rest, entity_gt())
    ||| starts_with(rest, entity_quot())
    ||| starts_with(rest, entity_apos())
}

proof fn lemma_entity_at_extends(a: Seq<char>, b: Seq<char>, i: int)
    requires
        0 <= i < a.len(),
        entity_at(a, i),
    ensures
        entity_at(a + b, i),
{
    let t = a + b;
    let ra = a.subrange(i, a.len() as int);
    let rt = t.subrange(i, t.len() as int);
    assert forall|e: Seq<char>| starts_with(ra, e) implies starts_with(rt, e) by {
        assert(rt.subrange(0, e.len() as int) =~= ra.subrange(0, e.len() as int));
    }
}

/// Every `&` in escaped text starts one of the five entities.
pub proof fn lemma_escaped_ampersands_start_entities(s: Seq<char>)
    ensures
        forall|i: int|
            0 <= i < xml_escaped(s).len() && #[trigger] xml_escaped(s)[i] == '&' ==> entity_at(
                xml_escaped(s),
                i,
            ),
    decreases s.len(),
{
    reveal_strlit("&amp;");
    reveal_strlit("&lt;");
    reveal_strlit("&gt;");
    reveal_strlit("&quot;");
    reveal_strlit("&apos;");
    if s.len() > 0 {
        lemma_escaped_ampersands_start_entities(s.drop_last());
        let a = xml_escaped(s.drop_last());
        let c = s.last();
        let b = escape_char(c);
        let t = a + b;
        assert(xml_escaped(s) == t);
        assert forall|i: int| 0 <= i < t.len() && #[trigger] t[i] == '&' implies entity_at(
            t,
            i,
        ) by {
            if i < a.len() {
                assert(t[i] == a[i]);
                lemma_entity_at_extends(a, b, i);
            } else {
                let k = i - a.len();
                assert(t[i] == b[k]);
                let rt = t.subrange(i, t.len() as int);
                assert(rt =~= b);
                if c == '&' {
                    assert(b =~= entity_amp());
                    assert(rt.subrange(0, 5) =~= entity_amp());
                } else if c == '<' {
                    assert(b =~= entity_lt());
                    assert(rt.subrange(0, 4) =~= entity_lt());
                } else if c == '>' {
                    assert(b =~= entity_gt());
                    assert(rt.subrange(0, 4) =~= entity_gt());
                } else if c == '"' {
                    assert(b =~= entity_quot());
                    assert(rt.subrange(0, 6) =~= entity_quot());
                } else if c == '\'' {
                    assert(b =~= entity_apos());
                    assert(rt.subrange(0, 6) =~= entity_apos());
                } else {
                    assert(b =~= seq![c]);
                    assert(false);
                }
            }
        }
    }
}

/// What is wrong with delivering `channel` alerts to `target` under the
/// settings, if anything.
pub open spec fn channel_problem(
    settings: Settings,
    channel: Seq<char>,
    target: Seq<char>,
) -> Option<Seq<char>> {
    if trimmed(target).len() == 0 {
        Some("notification target is empty"@)
    } else if channel == "email"@ {
        if !settings.smtp.enabled {
            Some("SMTP is disabled"@)
        } else if settings.smtp.host is None || settings.smtp.from is None {
            Some("SMTP host/from is incomplete"@)
        } else {
            None
        }
    } else if channel == "telegram"@ {
        if settings.telegram.bot_token is None {
            Some("Telegram bot token is not configured"@)
        } else {
            None
        }
    } else if channel == "voice_call"@ {
        if !e164(target) {
            Some("voice target must use E.164 format, for example +60123456789"@)
        } else if settings.twilio.account_sid is None || settings.twilio.auth_token is None
            || settings.twilio.from_number is None {
            Some("Twilio account SID/auth token/from number is incomplete"@)
        } else {
            None
        }
    } else {
        Some("unsupported notification channel"@)
    }
}

/// With SMTP enabled and a non-blank target, the email channel is
/// deliverable exactly when both the SMTP host and the sender address are
/// configured; a missing host or a missing sender, each on its own, is
/// reported as incomplete.
pub proof fn lemma_email_needs_host_and_sender(settings: Settings, target: Seq<char>)
    requires
        trimmed(target).len() > 0,
        settings.smtp.enabled,
    ensures
        channel_problem(settings, "email"@, target) is None <==> (settings.smtp.host is Some
            && settings.smtp.from is Some),
        settings.smtp.host is None || settings.smtp.from is None ==> channel_problem(
            settings,
            "email"@,
            target,
        ) == Some("SMTP host/from is incomplete"@),
{
}

/// A blank target is refused for every channel; with a non-blank target,
/// Telegram is deliverable exactly when a bot token is configured, a voice
/// call exactly when the target is E.164 and the Twilio SID, auth token and
/// sender are all configured, and any channel but email, Telegram and voice
/// call is refused.
pub proof fn lemma_channel_requirements(settings: Settings, channel: Seq<char>, target: Seq<char>)
    ensures
        trimmed(target).len() == 0 ==> channel_problem(settings, channel, target) == Some(
            "notification target is empty"@,
        ),
        trimmed(target).len() > 0 && channel == "telegram"@ ==> (channel_problem(
            settings,
            channel,
            target,
        ) is None <==> settings.telegram.bot_token is Some),
        trimmed(target).len() > 0 && channel == "voice_call"@ ==> (channel_problem(
            settings,
            channel,
            target,
        ) is None <==> (e164(target) && settings.twilio.account_sid is Some
            && settings.twilio.auth_token is Some && settings.twilio.from_number is Some)),
        trimmed(target).len() > 0 && channel == "email"@ && !settings.smtp.enabled
            ==> channel_problem(settings, channel, target) == Some("SMTP is disabled"@),
        trimmed(target).len() > 0 && channel != "email"@ && channel != "telegram"@ && channel
            != "voice_call"@ ==> channel_problem(settings, channel, target) == Some(
            "unsupported notification channel"@,
        ),
{
    reveal_strlit("email");
    reveal_strlit("telegram");
    reveal_strlit("voice_call");
    assert("telegram"@[0] != "email"@[0]);
    assert("voice_call"@[0] != "email"@[0]);
    assert("voice_call"@[0] != "telegram"@[0]);
}

pub open spec fn text_option(r: Option<String>) -> Option<Seq<char>> {
    match r {
        Some(s) => Some(s@),
        None => None,
    }
}

/// The configuration error that keeps `channel` alerts from reaching
/// `target`, or `None` when they can be sent.
pub fn channel_configuration_error(settings: &Settings, channel: &str, target: &str) -> (r: Option<
    String,
>)
    ensures
        text_option(r) == channel_problem(*settings, channel@, target@),
{
    let t = trim(&chars_of(target));
    if t.len() == 0 {
        return Some("notification target is empty".to_owned());
    }
    if str_eq(channel, "email") {
        if !settings.smtp.enabled {
            Some("SMTP is disabled".to_owned())
        } else if settings.smtp.host.is_none() || settings.smtp.from.is_none() {
            Some("SMTP host/from is incomplete".to_owned())
        } else {
            None
        }
    } else if str_eq(channel, "telegram") {
        if settings.telegram.bot_token.is_none() {
            Some("Telegram bot token is not configured".to_owned())
        } else {
            None
        }
    } else if str_eq(channel, "voice_call") {
        if !is_e164(target) {
            Some("voice target must use E.164 format, for example +60123456789".to_owned())
        } else if settings.twilio.account_sid.is_none() || settings.twilio.auth_token.is_none()
            || settings.twilio.from_number.is_none() {
            Some("Twilio account SID/auth token/from number is incomplete".to_owned())
        } else {
            None
        }
    } else {
        Some("unsupported notification channel".to_owned())
    }
}

/// `2` to the power `n`.
pub open spec fn two_pow(n: nat) -> int
    decreases n,
{
    if n == 0 {
        1
    } else {
        2 * two_pow((n - 1) as nat)
    }
}

/// What happens to an outbox job whose delivery failed after `attempts`
/// earlier attempts: it fails for good from the seventh on, and is otherwise
/// retried after `2^min(attempts, 8)` seconds (the attempt count read as
/// unsigned 32 bits).
pub struct RetryPlan {
    pub failed: bool,
    pub delay_seconds: i64,
}

pub open spec fn retry_exponent(attempts: i32) -> nat {
    let a = attempts as u32;
    if a < 8 {
        a as nat
    } else {
        8
    }
}

pub fn failure_transition(attempts: i32) -> (p: RetryPlan)
    ensures
        p.failed == (attempts >= 7),
        p.delay_seconds == two_pow(retry_exponent(attempts)),
{
    #[verifier::truncate]
    let a = attempts as u32;
    let e: u32 = if a < 8 {
        a
    } else {
        8
    };
    let mut d: i64 = 1;
    let mut k: u32 = 0;
    while k < e
        invariant
            k <= e <= 8,
            e == retry_exponent(attempts),
            d == two_pow(k as nat),
            1 <= d <= 256,
        decreases e - k,
    {
        proof {
            assert(two_pow((k + 1) as nat) == 2 * two_pow(k as nat));
            lemma_two_pow_bound(k as nat);
        }
        d = d * 2;
        k = k + 1;
    }
    RetryPlan { failed: attempts >= 7, delay_seconds: d }
}

proof fn lemma_two_pow_bound(k: nat)
    requires
        k < 8,
    ensures
        two_pow(k) <= 128,
{
    reveal_with_fuel(two_pow, 9);
    if k == 0 {
    } else if k == 1 {
    } else if k == 2 {
    } else if k == 3 {
    } else if k == 4 {
    } else if k == 5 {
    } else if k == 6 {
    } else {
        assert(k == 7);
    }
}

/// Each retry waits twice as long as the one before, until the wait reaches
/// 256 seconds.
pub proof fn lemma_backoff_doubles(attempts: i32)
    requires
        0 <= attempts < 8,
    ensures
        two_pow(retry_exponent((attempts + 1) as i32)) == 2 * two_pow(retry_exponent(attempts)),
{
    assert(retry_exponent(attempts) == attempts as nat);
    assert(retry_exponent((attempts + 1) as i32) == (attempts + 1) as nat);
}

/// The text under `key` of an alert payload, or `fallback`.
pub open spec fn payload_text(payload: JsonValue, key: Seq<char>, fallback: Seq<char>) -> Seq<char> {
    match member_text(payload@, key) {
        Some(t) => t,
        None => fallback,
    }
}

fn payload_text_of(payload: &JsonValue, key: &str, fallback: &str) -> (r: String)
    ensures
        r@ == payload_text(*payload, key@, fallback@),
{
    match payload.member_str(key) {
        Some(t) => t.to_owned(),
        None => fallback.to_owned(),
    }
}

/// The subject of an alert: `[Open Sentry] ` and the rule name (`Alert` when
/// the payload names none).
pub fn alert_subject(payload: &JsonValue) -> (s: String)
    ensures
        s@ == "[Open Sentry] "@ + payload_text(*payload, "rule_name"@, "Alert"@),
{
    let mut s = "[Open Sentry] ".to_owned();
    let name = payload_text_of(payload, "rule_name", "Alert");
    push_str(&mut s, name.as_str());
    s
}

/// The body of an alert: the payload's JSON text, then a link to the issue.
pub fn alert_body(payload_json: &str, public_base_url: &str, payload: &JsonValue) -> (s: String)
    ensures
        s@ == payload_json@ + "\n\nIssue: "@ + public_base_url@ + "/api/issues/"@ + payload_text(
            *payload,
            "issue_id"@,
            ""@,
        ),
{
    let mut s = payload_json.to_owned();
    push_str(&mut s, "\n\nIssue: ");
    push_str(&mut s, public_base_url);
    push_str(&mut s, "/api/issues/");
    let id = payload_text_of(payload, "issue_id", "");
    push_str(&mut s, id.as_str());
    s
}

/// The channels an alert can go out on.
#[derive(Debug, PartialEq, Eq, Structural)]
pub enum DeliveryChannel {
    Telegram,
    Email,
    VoiceCall,
}

/// The channel a name stands for.
pub open spec fn channel_named(channel: Seq<char>) -> Option<DeliveryChannel> {
    if channel == "telegram"@ {
        Some(DeliveryChannel::Telegram)
    } else if channel == "email"@ {
        Some(DeliveryChannel::Email)
    } else if channel == "voice_call"@ {
        Some(DeliveryChannel::VoiceCall)
    } else {
        None
    }
}

/// The channel named by an outbox job, or the error for an unknown one.
pub fn delivery_channel(channel: &str) -> (r: Result<DeliveryChannel, String>)
    ensures
        r is Ok <==> channel_named(channel@) is Some,
        r matches Ok(d) ==> channel_named(channel@) == Some(d),
        r matches Err(m) ==> m@ == "unsupported notification channel: "@ + channel@,
{
    if str_eq(channel, "telegram") {
        Ok(DeliveryChannel::Telegram)
    } else if str_eq(channel, "email") {
        Ok(DeliveryChannel::Email)
    } else if str_eq(channel, "voice_call") {
        Ok(DeliveryChannel::VoiceCall)
    } else {
        let mut m = "unsupported notification channel: ".to_owned();
        push_str(&mut m, channel);
        Err(m)
    }
}

/// A Twilio call to place.
#[derive(Debug)]
pub struct VoiceCallRequest {
    pub url: String,
    pub account_sid: String,
    pub auth_token: String,
    pub to: String,
    pub from: String,
    pub twiml: String,
}

/// The spoken alert: rule, level and message, escaped for XML, said and
/// then partly repeated.
pub open spec fn twiml_text(rule: Seq<char>, level: Seq<char>, message: Seq<char>) -> Seq<char> {
    "<Response><Say language=\"en-US\">Open Sentry urgent alert. Rule "@ + rule + ". Level "@
        + level + ". "@ + message
        + ". Please check the incident console.</Say><Pause length=\"1\"/><Say language=\"en-US\">Repeating. Open Sentry urgent alert. Rule "@
        + rule + ". Level "@ + level + ".</Say></Response>"@
}

/// The TwiML document of an alert call.
pub fn alert_twiml(payload: &JsonValue) -> (t: String)
    ensures
        t@ == twiml_text(
            xml_escaped(payload_text(*payload, "rule_name"@, "Open Sentry alert"@)),
            xml_escaped(payload_text(*payload, "level"@, "critical"@)),
            xml_escaped(payload_text(*payload, "message"@, "Please check the incident console"@)),
        ),
{
    let rule = xml_escape(payload_text_of(payload, "rule_name", "Open Sentry alert").as_str());
    let level = xml_escape(payload_text_of(payload, "level", "critical").as_str());
    let message = xml_escape(
        payload_text_of(payload, "message", "Please check the incident console").as_str(),
    );
    let mut t = "<Response><Say language=\"en-US\">Open Sentry urgent alert. Rule ".to_owned();
    push_str(&mut t, rule.as_str());
    push_str(&mut t, ". Level ");
    push_str(&mut t, level.as_str());
    push_str(&mut t, ". ");
    push_str(&mut t, message.as_str());
    push_str(
        &mut t,
        ". Please check the incident console.</Say><Pause length=\"1\"/><Say language=\"en-US\">Repeating. Open Sentry urgent alert. Rule ",
    );
    push_str(&mut t, rule.as_str());
    push_str(&mut t, ". Level ");
    push_str(&mut t, level.as_str());
    push_str(&mut t, ".</Say></Response>");
    t
}

/// The call that voices an alert, or why it cannot be placed: the target
/// must be E.164 and the Twilio account SID, auth token and caller number
/// must be set, checked in that order.
pub fn voice_call_request(twilio: &TwilioSettings, target: &str, payload: &JsonValue) -> (r: Result<
    VoiceCallRequest,
    String,
>)
    ensures
        !e164(target@) ==> r is Err && r->Err_0@ == "voice target must use E.164 format"@,
        e164(target@) && twilio.account_sid is None ==> r is Err && r->Err_0@
            == "Twilio account SID is not configured"@,
        e164(target@) && twilio.account_sid is Some && twilio.auth_token is None ==> r is Err
            && r->Err_0@ == "Twilio auth token is not configured"@,
        e164(target@) && twilio.account_sid is Some && twilio.auth_token is Some
            && twilio.from_number is None ==> r is Err && r->Err_0@
            == "Twilio from number is not configured"@,
        r is Ok <==> e164(target@) && twilio.account_sid is Some && twilio.auth_token is Some
            && twilio.from_number is Some,
        r matches Ok(c) ==> {
            &&& c.url@ == "https://api.twilio.com/2010-04-01/Accounts/"@ + twilio.account_sid->0@
                + "/Calls.json"@
            &&& c.account_sid@ == twilio.account_sid->0@
            &&& c.auth_token@ == twilio.auth_token->0@
            &&& c.to@ == target@
            &&& c.from@ == twilio.from_number->0@
            &&& c.twiml@ == twiml_text(
                xml_escaped(payload_text(*payload, "rule_name"@, "Open Sentry alert"@)),
                xml_escaped(payload_text(*payload, "level"@, "critical"@)),
                xml_escaped(
                    payload_text(*payload, "message"@, "Please check the incident console"@),
                ),
            )
        },
{
    if !is_e164(target) {
        return Err("voice target must use E.164 format".to_owned());
    }
    let account_sid = match &twilio.account_sid {
        Some(s) => s,
        None => return Err("Twilio account SID is not configured".to_owned()),
    };
    let auth_token = match &twilio.auth_token {
        Some(s) => s,
        None => return Err("Twilio auth token is not configured".to_owned()),
    };
    let from = match &twilio.from_number {
        Some(s) => s,
        None => return Err("Twilio from number is not configured".to_owned()),
    };
    let mut url = "https://api.twilio.com/2010-04-01/Accounts/".to_owned();
    push_str(&mut url, account_sid.as_str());
    push_str(&mut url, "/Calls.json");
    Ok(
        VoiceCallRequest {
            url,
            account_sid: account_sid.clone(),
            auth_token: auth_token.clone(),
            to: target.to_owned(),
            from: from.clone(),
            twiml: alert_twiml(payload),
        },
    )
}

/// A Telegram message to send.
#[derive(Debug)]
pub struct TelegramRequest {
    pub url: String,
    pub chat_id: String,
    pub text: String,
}

/// The Telegram `sendMessage` call for an alert, or why there is none.
pub fn telegram_request(telegram: &TelegramSettings, chat_id: &str, text: &str) -> (r: Result<
    TelegramRequest,
    String,
>)
    ensures
        r is Ok <==> telegram.bot_token is Some,
        r matches Err(e) ==> e@ == "telegram bot token is not configured"@,
        r matches Ok(m) ==> m.url@ == "https://api.telegram.org/bot"@ + telegram.bot_token->0@
            + "/sendMessage"@ && m.chat_id@ == chat_id@ && m.text@ == text@,
{
    match &telegram.bot_token {
        Some(token) => {
            let mut url = "https://api.telegram.org/bot".to_owned();
            push_str(&mut url, token.as_str());
            push_str(&mut url, "/sendMessage");
            Ok(TelegramRequest { url, chat_id: chat_id.to_owned(), text: text.to_owned() })
        },
        None => Err("telegram bot token is not configured".to_owned()),
    }
}

/// What sending mail needs from the settings, checked before any address is
/// parsed: mail must be enabled and have a sender.
#[derive(Debug)]
pub struct EmailPlan {
    pub from: String,
    pub host: Option<String>,
    pub port: u16,
    pub starttls: bool,
    pub credentials: Option<(String, String)>,
}

/// The mail plan, or why mail cannot go out.
pub fn email_plan(smtp: &SmtpSettings) -> (r: Result<EmailPlan, String>)
    ensures
        !smtp.enabled ==> r is Err && r->Err_0@ == "SMTP is disabled"@,
        smtp.enabled && smtp.from is None ==> r is Err && r->Err_0@
            == "SMTP from is not configured"@,
        r is Ok <==> smtp.enabled && smtp.from is Some,
        r matches Ok(p) ==> {
            &&& p.from@ == smtp.from->0@
            &&& (p.host is Some <==> smtp.host is Some)
            &&& (p.host is Some ==> p.host->0@ == smtp.host->0@)
            &&& p.port == smtp.port
            &&& p.starttls == smtp.starttls
            &&& (p.credentials is Some <==> smtp.username is Some && smtp.password is Some)
            &&& (p.credentials matches Some(c) ==> c.0@ == smtp.username->0@ && c.1@
                == smtp.password->0@)
        },
{
    if !smtp.enabled {
        return Err("SMTP is disabled".to_owned());
    }
    let from = match &smtp.from {
        Some(f) => f.clone(),
        None => return Err("SMTP from is not configured".to_owned()),
    };
    let host = match &smtp.host {
        Some(h) => Some(h.clone()),
        None => None,
    };
    let credentials = match (&smtp.username, &smtp.password) {
        (Some(u), Some(p)) => Some((u.clone(), p.clone())),
        _ => None,
    };
    Ok(EmailPlan { from, host, port: smtp.port, starttls: smtp.starttls, credentials })
}

/// The invitation mail: its subject and a body carrying the one-time link.
pub fn invitation_email(invite_url: &str) -> (r: (String, String))
    ensures
        r.0@ == "[Open Sentry] Workspace invitation"@,
        r.1@ == "This single-use invitation expires in 48 hours:\n\n"@ + invite_url@,
{
    let mut body = "This single-use invitation expires in 48 hours:\n\n".to_owned();
    push_str(&mut body, invite_url);
    ("[Open Sentry] Workspace invitation".to_owned(), body)
}

} // verus!
