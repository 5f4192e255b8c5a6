//! The rules of the management API: what projects, keys, users,
//! invitations, issues, comments and alert rules must satisfy, and the
//! links and DSNs it hands out.
use vstd::prelude::*;
use crate::auth::opt_view;
use crate::config::byte_len;
use crate::error::{AppError, ErrorData};
use crate::json::{JsonData, JsonValue};
use crate::text::{
    ascii_lowercase, chars_of, decimal, ends_with, has_prefix, has_suffix, i64_decimal, push_str,
    signed_decimal, slice_chars, starts_with, str_eq, string_of, to_ascii_lowercase, trim,
    trimmed,
};

verus! {

pub open spec fn bad_request(r: Result<(), AppError>, m: Seq<char>) -> bool {
    r matches Err(e) && e@ == ErrorData::BadRequest(m)
}

/// A slug character: a lowercase ASCII letter, a digit or `-`.
pub open spec fn slug_char(c: char) -> bool {
    ('a' <= c && c <= 'z') || ('0' <= c && c <= '9') || c == '-'
}

/// A valid project: a name that is not blank and a slug (trimmed, ASCII
/// lowercased) of at least two slug characters.
pub open spec fn project_fields_valid(name: Seq<char>, slug: Seq<char>) -> bool {
    let s = ascii_lowercase(trimmed(slug));
    &&& trimmed(name).len() > 0
    &&& s.len() >= 2
    &&& forall|i: int| 0 <= i < s.len() ==> #[trigger] slug_char(s[i])
}

/// Checks a new project's name and slug, returning the slug as stored.
pub fn validate_new_project(name: &str, slug: &str) -> (r: Result<String, AppError>)
    ensures
        r is Ok <==> project_fields_valid(name@, slug@),
        r matches Ok(s) ==> s@ == ascii_lowercase(trimmed(slug@)),
        r matches Err(e) ==> e@ == ErrorData::BadRequest("name and a valid slug are required"@),
{
    let n = trim(&chars_of(name));
    let s = to_ascii_lowercase(&trim(&chars_of(slug)));
    let mut ok = n.len() > 0 && s.len() >= 2;
    let mut i: usize = 0;
    while ok && i < s.len()
        invariant
            i <= s.len(),
            ok ==> forall|j: int| 0 <= j < i ==> #[trigger] slug_char(s@[j]),
            !ok ==> !project_fields_valid(name@, slug@),
            ok ==> n@.len() > 0 && s@.len() >= 2,
            n@ == trimmed(name@),
            s@ == ascii_lowercase(trimmed(slug@)),
        decreases s.len() - i,
    {
        let c = s[i];
        if !(('a' <= c && c <= 'z') || ('0' <= c && c <= '9') || c == '-') {
            assert(!slug_char(s@[i as int]));
            ok = false;
        }
        i = i + 1;
    }
    if ok {
        Ok(string_of(&s))
    } else {
        Err(AppError::BadRequest("name and a valid slug are required".to_owned()))
    }
}

/// A retention period, when given, must be at least one day.
pub fn validate_retention(retention_days: Option<i32>) -> (r: Result<(), AppError>)
    ensures
        r is Ok <==> !(retention_days matches Some(d) && d < 1),
        r is Err ==> bad_request(r, "retention_days must be positive"@),
{
    match retention_days {
        Some(d) => if d < 1 {
            Err(AppError::BadRequest("retention_days must be positive".to_owned()))
        } else {
            Ok(())
        },
        None => Ok(()),
    }
}

/// A project's scrub-field list as stored: each name ASCII-lowercased.
pub fn lowercase_fields(fields: &Vec<String>) -> (r: Vec<String>)
    ensures
        r@.len() == fields@.len(),
        forall|i: int| 0 <= i < r@.len() ==> #[trigger] r@[i]@ == ascii_lowercase(fields@[i]@),
{
    let mut out: Vec<String> = Vec::new();
    let mut i: usize = 0;
    while i < fields.len()
        invariant
            i <= fields@.len(),
            out@.len() == i,
            forall|j: int| 0 <= j < i ==> #[trigger] out@[j]@ == ascii_lowercase(fields@[j]@),
        decreases fields.len() - i,
    {
        out.push(string_of(&to_ascii_lowercase(&chars_of(fields[i].as_str()))));
        i = i + 1;
    }
    out
}

fn not_blank(s: &str) -> (r: bool)
    ensures
        r == (trimmed(s@).len() > 0),
{
    trim(&chars_of(s)).len() > 0
}

/// A project key needs a name that is not blank.
pub fn validate_key_name(name: &str) -> (r: Result<(), AppError>)
    ensures
        r is Ok <==> trimmed(name@).len() > 0,
        r is Err ==> bad_request(r, "key name is required"@),
{
    if not_blank(name) {
        Ok(())
    } else {
        Err(AppError::BadRequest("key name is required".to_owned()))
    }
}

/// `s` with every trailing `/` removed.
pub open spec fn without_trailing_slashes(s: Seq<char>) -> Seq<char>
    decreases s.len(),
{
    if s.len() > 0 && s.last() == '/' {
        without_trailing_slashes(s.drop_last())
    } else {
        s
    }
}

/// `s` with every leading copy of `p` (non-empty) removed.
pub open spec fn without_leading(s: Seq<char>, p: Seq<char>) -> Seq<char>
    decreases s.len(),
{
    if p.len() > 0 && starts_with(s, p) {
        without_leading(s.subrange(p.len() as int, s.len() as int), p)
    } else {
        s
    }
}

fn strip_trailing_slashes(s: &Vec<char>) -> (r: Vec<char>)
    ensures
        r@ == without_trailing_slashes(s@),
{
    let mut end = s.len();
    assert(s@.subrange(0, s.len() as int) =~= s@);
    while end > 0 && s[end - 1] == '/'
        invariant
            end <= s.len(),
            without_trailing_slashes(s@) == without_trailing_slashes(s@.subrange(0, end as int)),
        decreases end,
    {
        assert(s@.subrange(0, end as int).drop_last() =~= s@.subrange(0, end - 1));
        end = end - 1;
    }
    proof {
        assert(s@.subrange(0, s.len() as int) =~= s@);
    }
    slice_chars(s, 0, end)
}

fn strip_leading(s: &Vec<char>, p: &Vec<char>) -> (r: Vec<char>)
    requires
        p@.len() > 0,
    ensures
        r@ == without_leading(s@, p@),
{
    let mut start: usize = 0;
    let mut cur = slice_chars(s, 0, s.len());
    assert(cur@ =~= s@);
    while has_prefix(&cur, p)
        invariant
            start <= s.len(),
            p@.len() > 0,
            cur@ == s@.subrange(start as int, s.len() as int),
            without_leading(s@, p@) == without_leading(cur@, p@),
        decreases s.len() - start,
    {
        let next = start + p.len();
        let nc = slice_chars(s, next, s.len());
        assert(nc@ =~= cur@.subrange(p@.len() as int, cur@.len() as int));
        start = next;
        cur = nc;
    }
    cur
}

/// The DSN of a project key: the public base URL's scheme (`https://` when
/// it has one, else `http://`), the key, `@`, the host (the base URL without
/// trailing slashes and scheme prefixes), `/` and the project's numeric id.
pub open spec fn dsn_text(base_url: Seq<char>, key: Seq<char>, external_id: i64) -> Seq<char> {
    let base = without_trailing_slashes(base_url);
    let scheme = if starts_with(base, "https://"@) {
        "https://"@
    } else {
        "http://"@
    };
    let host = without_leading(without_leading(base, "https://"@), "http://"@);
    scheme + key + seq!['@'] + host + seq!['/'] + signed_decimal(external_id as int)
}

pub fn project_dsn(public_base_url: &str, raw_key: &str, external_id: i64) -> (d: String)
    ensures
        d@ == dsn_text(public_base_url@, raw_key@, external_id),
{
    proof {
        reveal_strlit("https://");
        reveal_strlit("http://");
    }
    let base = strip_trailing_slashes(&chars_of(public_base_url));
    let https = chars_of("https://");
    let http = chars_of("http://");
    let mut d = if has_prefix(&base, &https) {
        "https://".to_owned()
    } else {
        "http://".to_owned()
    };
    push_str(&mut d, raw_key);
    d.push('@');
    let host = strip_leading(&strip_leading(&base, &https), &http);
    push_str(&mut d, string_of(&host).as_str());
    d.push('/');
    push_str(&mut d, i64_decimal(external_id).as_str());
    d
}

/// The link of an invitation: the base URL without trailing slashes, then
/// `/invite?token=` and the token.
pub fn invitation_link(public_base_url: &str, token: &str) -> (l: String)
    ensures
        l@ == without_trailing_slashes(public_base_url@) + "/invite?token="@ + token@,
{
    let base = strip_trailing_slashes(&chars_of(public_base_url));
    let mut l = string_of(&base);
    push_str(&mut l, "/invite?token=");
    push_str(&mut l, token);
    l
}

/// The roles of console users.
pub open spec fn user_role(role: Seq<char>) -> bool {
    role == "owner"@ || role == "admin"@ || role == "member"@
}

pub fn is_user_role(role: &str) -> (r: bool)
    ensures
        r == user_role(role@),
{
    str_eq(role, "owner") || str_eq(role, "admin") || str_eq(role, "member")
}

/// A new user's role must be owner, admin or member.
pub fn validate_user_role(role: &str) -> (r: Result<(), AppError>)
    ensures
        r is Ok <==> user_role(role@),
        r is Err ==> bad_request(r, "invalid role"@),
{
    if is_user_role(role) {
        Ok(())
    } else {
        Err(AppError::BadRequest("invalid role".to_owned()))
    }
}

/// A role given that is not a user role.
pub open spec fn bad_role(role: Option<Seq<char>>) -> bool {
    match role {
        Some(x) => !user_role(x),
        None => false,
    }
}

/// An administrator deactivating or demoting their own account.
pub open spec fn self_demotion(actor_id: u128, user_id: u128, role: Option<Seq<char>>, active: Option<bool>) -> bool {
    actor_id == user_id && (active == Some(false) || role == Some("member"@))
}

/// An update of a user: a new role must be valid, and administrators may
/// neither deactivate nor demote themselves to member.
pub fn validate_user_update(actor_id: u128, user_id: u128, role: Option<&str>, active: Option<bool>) -> (r: Result<(), AppError>)
    ensures
        bad_role(opt_view(role)) ==> bad_request(r, "invalid role"@),
        !bad_role(opt_view(role)) && self_demotion(actor_id, user_id, opt_view(role), active) ==> (
        r matches Err(e) && e@ == ErrorData::Conflict("cannot remove your own administrative access"@)),
        r is Ok <==> !bad_role(opt_view(role)) && !self_demotion(actor_id, user_id, opt_view(role), active),
{
    match role {
        Some(x) => if !is_user_role(x) {
            return Err(AppError::BadRequest("invalid role".to_owned()));
        },
        None => {},
    }
    let demotes = match active {
        Some(a) => !a,
        None => false,
    } || match role {
        Some(x) => str_eq(x, "member"),
        None => false,
    };
    if actor_id == user_id && demotes {
        return Err(AppError::Conflict("cannot remove your own administrative access".to_owned()));
    }
    Ok(())
}

/// An invitation may grant the admin or member role.
pub fn validate_invitation_role(role: &str) -> (r: Result<(), AppError>)
    ensures
        r is Ok <==> (role@ == "admin"@ || role@ == "member"@),
        r is Err ==> bad_request(r, "invalid invitation role"@),
{
    if str_eq(role, "admin") || str_eq(role, "member") {
        Ok(())
    } else {
        Err(AppError::BadRequest("invalid invitation role".to_owned()))
    }
}

/// Deleting a project must be confirmed with its slug.
pub fn check_deletion_confirmation(confirmation: &str, slug: &str) -> (r: Result<(), AppError>)
    ensures
        r is Ok <==> confirmation@ == slug@,
        r is Err ==> bad_request(r, "confirmation must equal project slug"@),
{
    if str_eq(confirmation, slug) {
        Ok(())
    } else {
        Err(AppError::BadRequest("confirmation must equal project slug".to_owned()))
    }
}

/// A comment is stored trimmed and must hold 1 to 5000 bytes.
pub fn validate_comment(body: &str) -> (r: Result<String, AppError>)
    ensures
        r is Ok <==> trimmed(body@).len() > 0 && byte_len(trimmed(body@)) <= 5000,
        r matches Ok(t) ==> t@ == trimmed(body@),
        r matches Err(e) ==> e@ == ErrorData::BadRequest("comment must contain 1-5000 characters"@),
{
    let t = string_of(&trim(&chars_of(body)));
    if t.as_str().is_empty() || t.as_str().len() > 5000 {
        Err(AppError::BadRequest("comment must contain 1-5000 characters".to_owned()))
    } else {
        Ok(t)
    }
}

/// The states of an issue.
pub open spec fn issue_status(s: Seq<char>) -> bool {
    s == "unresolved"@ || s == "in_progress"@ || s == "resolved"@ || s == "ignored"@
}

/// An issue status must be unresolved, in_progress, resolved or ignored.
pub fn validate_issue_status(status: &str) -> (r: Result<(), AppError>)
    ensures
        r is Ok <==> issue_status(status@),
        r is Err ==> bad_request(r, "invalid issue status"@),
{
    if str_eq(status, "unresolved") || str_eq(status, "in_progress") || str_eq(status, "resolved")
        || str_eq(status, "ignored") {
        Ok(())
    } else {
        Err(AppError::BadRequest("invalid issue status".to_owned()))
    }
}

/// An update that touched no issue: the issue does not exist.
pub fn require_found(rows_affected: u64) -> (r: Result<(), AppError>)
    ensures
        r is Ok <==> rows_affected > 0,
        r is Err ==> r == Err::<(), AppError>(AppError::NotFound),
{
    if rows_affected == 0 {
        Err(AppError::NotFound)
    } else {
        Ok(())
    }
}

/// Resolving an issue sends the recovery notifications of its rules.
pub fn triggers_recovery(status: &str) -> (r: bool)
    ensures
        r == (status@ == "resolved"@),
{
    str_eq(status, "resolved")
}

/// A batch update names 1 to 200 issues and a valid status.
pub fn validate_batch_update(issue_count: usize, status: &str) -> (r: Result<(), AppError>)
    ensures
        (issue_count == 0 || issue_count > 200) ==> bad_request(r, "issue_ids must contain 1-200 items"@),
        !(issue_count == 0 || issue_count > 200) && !issue_status(status@) ==> bad_request(r, "invalid issue status"@),
        r is Ok <==> 1 <= issue_count <= 200 && issue_status(status@),
{
    if issue_count == 0 || issue_count > 200 {
        return Err(AppError::BadRequest("issue_ids must contain 1-200 items".to_owned()));
    }
    validate_issue_status(status)
}

/// A merge names at least one source issue.
pub fn validate_merge(source_count: usize) -> (r: Result<(), AppError>)
    ensures
        r is Ok <==> source_count > 0,
        r is Err ==> bad_request(r, "source_issue_ids required"@),
{
    if source_count == 0 {
        Err(AppError::BadRequest("source_issue_ids required".to_owned()))
    } else {
        Ok(())
    }
}

/// A split names at least one event and a fingerprint that is not blank.
pub fn validate_split(event_count: usize, fingerprint: &str) -> (r: Result<(), AppError>)
    ensures
        r is Ok <==> event_count > 0 && trimmed(fingerprint@).len() > 0,
        r is Err ==> bad_request(r, "event_ids and fingerprint required"@),
{
    if event_count == 0 || !not_blank(fingerprint) {
        Err(AppError::BadRequest("event_ids and fingerprint required".to_owned()))
    } else {
        Ok(())
    }
}

/// A new fingerprint must not be blank.
pub fn validate_fingerprint(fingerprint: &str) -> (r: Result<(), AppError>)
    ensures
        r is Ok <==> trimmed(fingerprint@).len() > 0,
        r is Err ==> bad_request(r, "fingerprint required"@),
{
    if not_blank(fingerprint) {
        Ok(())
    } else {
        Err(AppError::BadRequest("fingerprint required".to_owned()))
    }
}

/// Only attachments can be downloaded.
pub fn require_attachment(item_type: &str) -> (r: Result<(), AppError>)
    ensures
        r is Ok <==> item_type@ == "attachment"@,
        r is Err ==> bad_request(r, "item is not an attachment"@),
{
    if str_eq(item_type, "attachment") {
        Ok(())
    } else {
        Err(AppError::BadRequest("item is not an attachment".to_owned()))
    }
}

/// The channels an alert rule can use.
pub open spec fn rule_channel(c: Seq<char>) -> bool {
    c == "email"@ || c == "telegram"@ || c == "voice_call"@
}

/// An alert rule's channel must be email, telegram or voice_call.
pub fn validate_rule_channel(channel: &str) -> (r: Result<(), AppError>)
    ensures
        r is Ok <==> rule_channel(channel@),
        r is Err ==> bad_request(r, "channel must be email, telegram, or voice_call"@),
{
    if str_eq(channel, "email") || str_eq(channel, "telegram") || str_eq(channel, "voice_call") {
        Ok(())
    } else {
        Err(AppError::BadRequest("channel must be email, telegram, or voice_call".to_owned()))
    }
}

/// The cooldown of a new rule: five minutes when unset, never negative.
pub fn rule_cooldown(cooldown_seconds: Option<i32>) -> (c: i32)
    ensures
        c == match cooldown_seconds {
            Some(s) => if s < 0 {
                0
            } else {
                s
            },
            None => 300,
        },
{
    match cooldown_seconds {
        Some(s) => if s < 0 {
            0
        } else {
            s
        },
        None => 300,
    }
}

/// A page size: the default when unset, kept within `1..=max`.
pub fn page_limit(limit: Option<i64>, default: i64, max: i64) -> (l: i64)
    requires
        1 <= max,
    ensures
        l == {
            let v = match limit {
                Some(v) => v,
                None => default,
            };
            if v < 1 {
                1
            } else if v > max {
                max
            } else {
                v
            }
        },
{
    let v = match limit {
        Some(v) => v,
        None => default,
    };
    if v < 1 {
        1
    } else if v > max {
        max
    } else {
        v
    }
}

/// A page offset: zero when unset, never negative.
pub fn page_offset(offset: Option<i64>) -> (o: i64)
    ensures
        o == match offset {
            Some(v) => if v < 0 {
                0
            } else {
                v
            },
            None => 0,
        },
{
    match offset {
        Some(v) => if v < 0 {
            0
        } else {
            v
        },
        None => 0,
    }
}

} // verus!
