//! Alerting decisions: where a matching rule's notification goes and what
//! it carries.
use vstd::prelude::*;
use crate::error::{AppError, ErrorData};
use crate::json::{JsonData, JsonValue};

verus! {

/// Where one notification goes: channel, target, and how long to wait
/// before it is sent.
#[derive(Debug)]
pub struct AlertDelivery {
    pub channel: String,
    pub target: String,
    pub delay_seconds: i32,
}

/// A rule without an escalation policy notifies its own channel and target
/// at once; one with a policy notifies the policy's first step (its target,
/// or else the first active on-call member), after that step's delay, and is
/// refused when the policy has no such step.
pub fn alert_delivery(
    rule_channel: String,
    rule_target: String,
    has_escalation_policy: bool,
    first_step: Option<(String, String, i32)>,
) -> (r: Result<AlertDelivery, AppError>)
    ensures
        !has_escalation_policy ==> (r matches Ok(d) && d.channel@ == rule_channel@ && d.target@
            == rule_target@ && d.delay_seconds == 0),
        has_escalation_policy && first_step is None ==> (r matches Err(e) && e@
            == ErrorData::BadRequest("escalation policy has no resolvable first step"@)),
        has_escalation_policy ==> (first_step matches Some(st) ==> (r matches Ok(d) && d.channel@
            == st.0@ && d.target@ == st.1@ && d.delay_seconds == st.2)),
{
    if has_escalation_policy {
        match first_step {
            Some((channel, target, delay)) => Ok(
                AlertDelivery { channel, target, delay_seconds: delay },
            ),
            None => Err(
                AppError::BadRequest("escalation policy has no resolvable first step".to_owned()),
            ),
        }
    } else {
        Ok(AlertDelivery { channel: rule_channel, target: rule_target, delay_seconds: 0 })
    }
}

fn text(s: &str) -> (v: JsonValue)
    ensures
        v@ == JsonData::Str(s@),
{
    JsonValue::String(s.to_owned())
}

/// The payload of an alert: the rule, the project, issue and event ids, and
/// the event's level and message.
pub open spec fn alert_payload_data(
    rule_name: Seq<char>,
    project_id: Seq<char>,
    issue_id: Seq<char>,
    event_id: Seq<char>,
    level: Seq<char>,
    message: Seq<char>,
) -> JsonData {
    JsonData::Object(
        seq![
            ("event_id"@, JsonData::Str(event_id)),
            ("issue_id"@, JsonData::Str(issue_id)),
            ("level"@, JsonData::Str(level)),
            ("message"@, JsonData::Str(message)),
            ("project_id"@, JsonData::Str(project_id)),
            ("rule_name"@, JsonData::Str(rule_name)),
        ],
    )
}

pub fn alert_payload(
    rule_name: &str,
    project_id: &str,
    issue_id: &str,
    event_id: &str,
    level: &str,
    message: &str,
) -> (p: JsonValue)
    ensures
        p@ == alert_payload_data(rule_name@, project_id@, issue_id@, event_id@, level@, message@),
{
    let mut es: Vec<(String, JsonValue)> = Vec::new();
    es.push(("event_id".to_owned(), text(event_id)));
    es.push(("issue_id".to_owned(), text(issue_id)));
    es.push(("level".to_owned(), text(level)));
    es.push(("message".to_owned(), text(message)));
    es.push(("project_id".to_owned(), text(project_id)));
    es.push(("rule_name".to_owned(), text(rule_name)));
    let p = JsonValue::Object(es);
    proof {
        p.lemma_object_view();
        assert(p@->Object_0 =~= alert_payload_data(
            rule_name@,
            project_id@,
            issue_id@,
            event_id@,
            level@,
            message@,
        )->Object_0);
    }
    p
}

/// The payload of a test notification of a rule: no issue, marked as a test.
pub open spec fn test_payload_data(rule_name: Seq<char>, project_id: Seq<char>) -> JsonData {
    JsonData::Object(
        seq![
            ("issue_id"@, JsonData::Null),
            ("project_id"@, JsonData::Str(project_id)),
            ("rule_name"@, JsonData::Str(rule_name)),
            ("test"@, JsonData::Bool(true)),
        ],
    )
}

pub fn test_payload(rule_name: &str, project_id: &str) -> (p: JsonValue)
    ensures
        p@ == test_payload_data(rule_name@, project_id@),
{
    let mut es: Vec<(String, JsonValue)> = Vec::new();
    es.push(("issue_id".to_owned(), JsonValue::Null));
    es.push(("project_id".to_owned(), text(project_id)));
    es.push(("rule_name".to_owned(), text(rule_name)));
    es.push(("test".to_owned(), JsonValue::Bool(true)));
    let p = JsonValue::Object(es);
    proof {
        p.lemma_object_view();
        assert(p@->Object_0 =~= test_payload_data(rule_name@, project_id@)->Object_0);
    }
    p
}

} // verus!
