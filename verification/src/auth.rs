//! Authentication: password hashing, session cookies and tokens, roles, and
//! the credentials that SDKs present when they send events.
use vstd::prelude::*;
use argon2::{Argon2, PasswordHash, PasswordHasher, PasswordVerifier, password_hash::SaltString};
use crate::config::{byte_len, Settings};
use crate::digest::{sha256_hex, sha256_hex_of};
use crate::error::{AppError, ErrorData};
use crate::text::{
    chars_of, has_prefix, push_str, slice_chars, starts_with, str_eq, string_of, to_lowercase,
    trim, trimmed, unicode_lowercase,
};

verus! {

/// A console user as the API shows it. The id is the 128-bit value of the
/// user's UUID.
#[derive(Clone, Debug)]
pub struct UserView {
    pub id: u128,
    pub email: String,
    pub display_name: String,
    pub role: String,
}

/// The body of a login request.
#[derive(Debug)]
pub struct LoginRequest {
    pub email: String,
    pub password: String,
}

/// The PHC string Argon2 (default parameters) makes of `password` with
/// `salt`, or the text of its error.
pub uninterp spec fn argon2_phc(password: Seq<char>, salt: Seq<u8>) -> Result<Seq<char>, Seq<char>>;

/// Whether Argon2 accepts `password` for the stored PHC string `phc`, or the
/// text of the error when `phc` does not parse.
pub uninterp spec fn argon2_verdict(password: Seq<char>, phc: Seq<char>) -> Result<bool, Seq<char>>;

/// Sixteen random bytes from `uuid::Uuid::new_v4`. Nothing is promised of
/// them but their number.
#[verifier::external_body]
fn new_salt() -> (salt: Vec<u8>)
    ensures
        salt@.len() == 16,
{
    uuid::Uuid::new_v4().as_bytes().to_vec()
}

/// `SaltString::encode_b64` of `salt`, then `Argon2::default().hash_password`
/// of the password's UTF-8 bytes, as a PHC string. Trusted: the result is the
/// named function of the arguments; Argon2's `verify_password` accepts the
/// same password for the hash it made (the two use the same default
/// parameters and the parameters are recorded in the PHC string); with a
/// 16-byte salt (22 Base64 characters, within the salt limits) and a password
/// of at most `0xFFFF_FFFF` bytes (`MAX_PWD_LEN`) no check of the hasher
/// fails, so it succeeds; and the PHC string starts with the separator and
/// the identifier of the default algorithm, `$argon2id$`.
#[verifier::external_body]
fn argon2_hash(password: &str, salt: &[u8]) -> (r: Result<String, String>)
    ensures
        salt@.len() == 16 && byte_len(password@) <= 0xFFFF_FFFF ==> r is Ok,
        r matches Ok(h) ==> starts_with(h@, "$argon2id$"@),
        match r {
            Ok(h) => argon2_phc(password@, salt@) == Ok::<Seq<char>, Seq<char>>(h@) && argon2_verdict(
                password@,
                h@,
            ) == Ok::<bool, Seq<char>>(true),
            Err(e) => argon2_phc(password@, salt@) == Err::<Seq<char>, Seq<char>>(e@),
        },
{
    let salt = SaltString::encode_b64(salt).map_err(|error| error.to_string())?;
    Argon2::default().hash_password(password.as_bytes(), &salt).map(|hash| hash.to_string()).map_err(
        |error| error.to_string(),
    )
}

/// `PasswordHash::new` of the stored hash, then
/// `Argon2::default().verify_password` of the password's UTF-8 bytes; a
/// parse error becomes its text. Trusted: the result is the named function of
/// the arguments.
#[verifier::external_body]
fn argon2_check(password: &str, phc: &str) -> (r: Result<bool, String>)
    ensures
        match r {
            Ok(b) => argon2_verdict(password@, phc@) == Ok::<bool, Seq<char>>(b),
            Err(e) => argon2_verdict(password@, phc@) == Err::<bool, Seq<char>>(e@),
        },
{
    let parsed = PasswordHash::new(phc).map_err(|error| error.to_string())?;
    Ok(Argon2::default().verify_password(password.as_bytes(), &parsed).is_ok())
}

/// Hashes a password of at least 8 bytes with Argon2 and a fresh random
/// 16-byte salt. A hash it returns is accepted by `check_password` for the
/// same password.
pub fn hash_password(password: &str) -> (r: Result<String, String>)
    ensures
        byte_len(password@) < 8 ==> r is Err && r->Err_0@
            == "password must contain at least 8 characters"@,
        8 <= byte_len(password@) <= 0xFFFF_FFFF ==> r is Ok,
        r matches Ok(h) ==> starts_with(h@, "$argon2id$"@),
        r matches Ok(h) ==> byte_len(password@) >= 8 && exists|salt: Seq<u8>|
            salt.len() == 16 && argon2_phc(password@, salt) == Ok::<Seq<char>, Seq<char>>(h@),
        r matches Ok(h) ==> password_outcome(password@, h@) == Ok::<(), ErrorData>(()),
        r matches Err(e) ==> byte_len(password@) < 8 || exists|salt: Seq<u8>|
            salt.len() == 16 && argon2_phc(password@, salt) == Err::<Seq<char>, Seq<char>>(e@),
{
    if password.len() < 8 {
        return Err("password must contain at least 8 characters".to_owned());
    }
    let salt = new_salt();
    argon2_hash(password, salt.as_slice())
}

/// How a login attempt with `password` against the stored hash ends: accepted,
/// refused, or an internal error when the stored hash does not parse.
pub open spec fn password_outcome(password: Seq<char>, phc: Seq<char>) -> Result<(), ErrorData> {
    match argon2_verdict(password, phc) {
        Ok(true) => Ok(()),
        Ok(false) => Err(ErrorData::Unauthorized),
        Err(e) => Err(ErrorData::Internal(e)),
    }
}

pub open spec fn unit_outcome(r: Result<(), AppError>) -> Result<(), ErrorData> {
    match r {
        Ok(()) => Ok(()),
        Err(e) => Err(e@),
    }
}

/// Checks a login password against the stored hash.
pub fn check_password(password: &str, stored_hash: &str) -> (r: Result<(), AppError>)
    ensures
        unit_outcome(r) == password_outcome(password@, stored_hash@),
{
    match argon2_check(password, stored_hash) {
        Ok(true) => Ok(()),
        Ok(false) => Err(AppError::Unauthorized),
        Err(e) => Err(AppError::Internal(e)),
    }
}

/// The stored digest of a session or project token.
pub fn hash_token(token: &str) -> (h: String)
    ensures
        h@ == sha256_hex_of(token@),
{
    sha256_hex(token)
}

/// Whether every character of `t` is a lowercase hexadecimal digit.
pub open spec fn lower_hex(t: Seq<char>) -> bool {
    forall|i: int| 0 <= i < t.len() ==> ('0' <= #[trigger] t[i] <= '9' || 'a' <= t[i] <= 'f')
}

/// `uuid::Uuid::new_v4().simple()` written out. Trusted: the text is 32
/// lowercase hexadecimal digits, as `Simple`'s `Display` writes them; which
/// digits come is random and not stated.
#[verifier::external_body]
fn uuid_simple() -> (t: String)
    ensures
        t@.len() == 32,
        lower_hex(t@),
{
    uuid::Uuid::new_v4().simple().to_string()
}

/// A new random token (a session token, a project key or an invitation
/// token): two random simple UUIDs in a row, 64 lowercase hexadecimal
/// digits; and the digest under which it is stored.
pub fn issue_token() -> (r: (String, String))
    ensures
        r.0@.len() == 64,
        lower_hex(r.0@),
        r.1@ == sha256_hex_of(r.0@),
{
    let mut token = uuid_simple();
    let second = uuid_simple();
    let ghost first = token@;
    push_str(&mut token, second.as_str());
    assert(lower_hex(token@)) by {
        assert forall|i: int| 0 <= i < token@.len() implies ('0' <= #[trigger] token@[i] <= '9'
            || 'a' <= token@[i] <= 'f') by {
            if i < 32 {
                assert(token@[i] == first[i]);
            } else {
                assert(token@[i] == second@[i - 32]);
            }
        }
    }
    let digest = hash_token(token.as_str());
    (token, digest)
}

/// Owners and administrators may change the workspace.
pub open spec fn is_admin_role(role: Seq<char>) -> bool {
    role == "owner"@ || role == "admin"@
}

/// Refuses users who are neither owner nor administrator.
pub fn require_admin(user: &UserView) -> (r: Result<(), AppError>)
    ensures
        r is Ok <==> is_admin_role(user.role@),
        r is Err ==> r == Err::<(), AppError>(AppError::Forbidden),
{
    if str_eq(user.role.as_str(), "owner") || str_eq(user.role.as_str(), "admin") {
        Ok(())
    } else {
        Err(AppError::Forbidden)
    }
}

/// Refuses users who are not the owner.
pub fn require_owner(user: &UserView) -> (r: Result<(), AppError>)
    ensures
        r is Ok <==> user.role@ == "owner"@,
        r is Err ==> r == Err::<(), AppError>(AppError::Forbidden),
{
    if str_eq(user.role.as_str(), "owner") {
        Ok(())
    } else {
        Err(AppError::Forbidden)
    }
}

/// The pieces of `s` between occurrences of `sep`, `cur` being the piece
/// already begun.
pub open spec fn pieces_from(s: Seq<char>, sep: char, cur: Seq<char>) -> Seq<Seq<char>>
    decreases s.len(),
{
    if s.len() == 0 {
        seq![cur]
    } else if s[0] == sep {
        seq![cur] + pieces_from(s.drop_first(), sep, Seq::empty())
    } else {
        pieces_from(s.drop_first(), sep, cur.push(s[0]))
    }
}

/// What `str::split(sep)` yields.
pub open spec fn pieces(s: Seq<char>, sep: char) -> Seq<Seq<char>> {
    pieces_from(s, sep, Seq::empty())
}

/// The rest of the first trimmed piece that starts with `prefix`.
pub open spec fn first_prefixed(ps: Seq<Seq<char>>, prefix: Seq<char>) -> Option<Seq<char>>
    decreases ps.len(),
{
    if ps.len() == 0 {
        None
    } else if starts_with(trimmed(ps[0]), prefix) {
        Some(trimmed(ps[0]).subrange(prefix.len() as int, trimmed(ps[0]).len() as int))
    } else {
        first_prefixed(ps.drop_first(), prefix)
    }
}

fn prefixed_rest(piece: &Vec<char>, prefix: &Vec<char>) -> (r: Option<Vec<char>>)
    ensures
        r is Some <==> starts_with(trimmed(piece@), prefix@),
        r matches Some(v) ==> v@ == trimmed(piece@).subrange(
            prefix@.len() as int,
            trimmed(piece@).len() as int,
        ),
{
    let t = trim(piece);
    if has_prefix(&t, prefix) {
        Some(slice_chars(&t, prefix.len(), t.len()))
    } else {
        None
    }
}

/// The rest of the first `sep`-separated, trimmed piece of `s` that begins
/// with `prefix`.
pub fn find_prefixed_piece(s: &str, sep: char, prefix: &str) -> (r: Option<String>)
    ensures
        r is Some <==> first_prefixed(pieces(s@, sep), prefix@) is Some,
        r matches Some(v) ==> v@ == first_prefixed(pieces(s@, sep), prefix@)->0,
{
    let cs = chars_of(s);
    let p = chars_of(prefix);
    let mut cur: Vec<char> = Vec::new();
    let mut i: usize = 0;
    assert(cs@.subrange(0, cs.len() as int) =~= cs@);
    assert(cur@ =~= Seq::<char>::empty());
    while i < cs.len()
        invariant
            i <= cs.len(),
            cs@ == s@,
            p@ == prefix@,
            first_prefixed(pieces(s@, sep), prefix@) == first_prefixed(
                pieces_from(cs@.subrange(i as int, cs.len() as int), sep, cur@),
                prefix@,
            ),
        decreases cs.len() - i,
    {
        let ghost rest = cs@.subrange(i as int, cs.len() as int);
        assert(rest.drop_first() =~= cs@.subrange(i + 1, cs.len() as int));
        assert(rest[0] == cs@[i as int]);
        if cs[i] == sep {
            let ghost later = pieces_from(rest.drop_first(), sep, Seq::empty());
            assert((seq![cur@] + later).drop_first() =~= later);
            assert((seq![cur@] + later)[0] == cur@);
            match prefixed_rest(&cur, &p) {
                Some(v) => {
                    return Some(string_of(&v));
                },
                None => {},
            }
            cur = Vec::new();
            assert(cur@ =~= Seq::<char>::empty());
        } else {
            cur.push(cs[i]);
        }
        i = i + 1;
    }
    let ghost last = pieces_from(cs@.subrange(i as int, cs.len() as int), sep, cur@);
    assert(last =~= seq![cur@]);
    assert(seq![cur@].drop_first() =~= Seq::<Seq<char>>::empty());
    assert(seq![cur@][0] == cur@);
    assert(first_prefixed(Seq::<Seq<char>>::empty(), prefix@) is None);
    match prefixed_rest(&cur, &p) {
        Some(v) => Some(string_of(&v)),
        None => None,
    }
}

/// The session token of a `Cookie` header: the value of the first
/// `open_sentry_session=` pair among its `;`-separated, trimmed pairs.
pub fn cookie_token(cookie_header: Option<&str>) -> (r: Option<String>)
    ensures
        cookie_header is None ==> r is None,
        cookie_header matches Some(h) ==> (r is Some <==> first_prefixed(pieces(h@, ';'), "open_sentry_session="@) is Some),
        cookie_header matches Some(h) ==> (r matches Some(v) ==> v@ == first_prefixed(
            pieces(h@, ';'),
            "open_sentry_session="@,
        )->0),
{
    match cookie_header {
        Some(h) => find_prefixed_piece(h, ';', "open_sentry_session="),
        None => None,
    }
}

/// The public key of an `X-Sentry-Auth` header of the form `Sentry k=v, ...`:
/// the value of its first `sentry_key=` pair.
pub open spec fn sentry_key_of(h: Seq<char>) -> Option<Seq<char>> {
    if starts_with(h, "Sentry "@) {
        first_prefixed(pieces(h.subrange(7, h.len() as int), ','), "sentry_key="@)
    } else {
        None
    }
}

pub fn sentry_key(x_sentry_auth: Option<&str>) -> (r: Option<String>)
    ensures
        x_sentry_auth is None ==> r is None,
        x_sentry_auth matches Some(h) ==> (r is Some <==> sentry_key_of(h@) is Some),
        x_sentry_auth matches Some(h) ==> (r matches Some(v) ==> v@ == sentry_key_of(h@)->0),
{
    match x_sentry_auth {
        Some(h) => {
            let cs = chars_of(h);
            let p = chars_of("Sentry ");
            proof {
                reveal_strlit("Sentry ");
            }
            if !has_prefix(&cs, &p) {
                return None;
            }
            let rest = string_of(&slice_chars(&cs, 7, cs.len()));
            find_prefixed_piece(rest.as_str(), ',', "sentry_key=")
        },
        None => None,
    }
}

pub open spec fn opt_view(o: Option<&str>) -> Option<Seq<char>> {
    match o {
        Some(s) => Some(s@),
        None => None,
    }
}

/// The rest of `h` after `prefix`, when `h` begins with it.
pub open spec fn after_prefix(h: Seq<char>, prefix: Seq<char>) -> Option<Seq<char>> {
    if starts_with(h, prefix) {
        Some(h.subrange(prefix.len() as int, h.len() as int))
    } else {
        None
    }
}

fn strip_prefix_of(h: &str, prefix: &str) -> (r: Option<String>)
    ensures
        r is Some <==> after_prefix(h@, prefix@) is Some,
        r matches Some(v) ==> v@ == after_prefix(h@, prefix@)->0,
{
    let cs = chars_of(h);
    let p = chars_of(prefix);
    if has_prefix(&cs, &p) {
        Some(string_of(&slice_chars(&cs, p.len(), cs.len())))
    } else {
        None
    }
}

/// The credential an SDK presents on the JSON store endpoint: the
/// `sentry_key` of `X-Sentry-Auth` (the whole header when it has none), else
/// the bearer token of `Authorization`.
pub open spec fn ingest_credential(x_sentry_auth: Option<Seq<char>>, authorization: Option<Seq<char>>) -> Option<Seq<char>> {
    match x_sentry_auth {
        Some(h) => match sentry_key_of(h) {
            Some(k) => Some(k),
            None => Some(h),
        },
        None => match authorization {
            Some(a) => after_prefix(a, "Bearer "@),
            None => None,
        },
    }
}

fn credential_of(x_sentry_auth: Option<&str>, authorization: Option<&str>) -> (r: Option<String>)
    ensures
        r is Some <==> ingest_credential(opt_view(x_sentry_auth), opt_view(authorization)) is Some,
        r matches Some(v) ==> v@ == ingest_credential(opt_view(x_sentry_auth), opt_view(authorization))->0,
{
    match x_sentry_auth {
        Some(h) => match sentry_key(Some(h)) {
            Some(k) => Some(k),
            None => Some(h.to_owned()),
        },
        None => match authorization {
            Some(a) => strip_prefix_of(a, "Bearer "),
            None => None,
        },
    }
}

/// The stored digest of the credential presented on the JSON store endpoint;
/// unauthorized when none is presented.
pub fn ingest_key_hash(x_sentry_auth: Option<&str>, authorization: Option<&str>) -> (r: Result<String, AppError>)
    ensures
        r is Ok <==> ingest_credential(opt_view(x_sentry_auth), opt_view(authorization)) is Some,
        r matches Ok(h) ==> h@ == sha256_hex_of(
            ingest_credential(opt_view(x_sentry_auth), opt_view(authorization))->0,
        ),
        r is Err ==> r == Err::<String, AppError>(AppError::Unauthorized),
{
    match credential_of(x_sentry_auth, authorization) {
        Some(raw) => Ok(sha256_hex(raw.as_str())),
        None => Err(AppError::Unauthorized),
    }
}

/// The stored digest of the public key an envelope request presents;
/// unauthorized when `X-Sentry-Auth` carries none.
pub fn envelope_key_hash(x_sentry_auth: Option<&str>) -> (r: Result<String, AppError>)
    ensures
        r is Ok <==> (x_sentry_auth is Some && sentry_key_of(x_sentry_auth->0@) is Some),
        r matches Ok(h) ==> h@ == sha256_hex_of(sentry_key_of(x_sentry_auth->0@)->0),
        r is Err ==> r == Err::<String, AppError>(AppError::Unauthorized),
{
    match sentry_key(x_sentry_auth) {
        Some(k) => Ok(sha256_hex(k.as_str())),
        None => Err(AppError::Unauthorized),
    }
}

/// The key a request carries for a single shared ingest key: the whole
/// `X-Sentry-Auth` header, else the bearer token of `Authorization`.
pub open spec fn presented_key(x_sentry_auth: Option<Seq<char>>, authorization: Option<Seq<char>>) -> Option<Seq<char>> {
    match x_sentry_auth {
        Some(h) => Some(h),
        None => match authorization {
            Some(a) => after_prefix(a, "Bearer "@),
            None => None,
        },
    }
}

/// Admits a request that presents exactly `expected`.
pub fn authorize_ingest(x_sentry_auth: Option<&str>, authorization: Option<&str>, expected: &str) -> (r: Result<(), AppError>)
    ensures
        r is Ok <==> presented_key(opt_view(x_sentry_auth), opt_view(authorization)) == Some(expected@),
        r is Err ==> r == Err::<(), AppError>(AppError::Unauthorized),
{
    let actual = match x_sentry_auth {
        Some(h) => Some(h.to_owned()),
        None => match authorization {
            Some(a) => strip_prefix_of(a, "Bearer "),
            None => None,
        },
    };
    match actual {
        Some(a) => if str_eq(a.as_str(), expected) {
            Ok(())
        } else {
            Err(AppError::Unauthorized)
        },
        None => Err(AppError::Unauthorized),
    }
}

/// The `Set-Cookie` value that opens a session for seven days.
pub fn session_cookie(token: &str, secure: bool) -> (c: String)
    ensures
        c@ == "open_sentry_session="@ + token@ + "; Path=/; HttpOnly; SameSite=Strict; Max-Age=604800"@
            + if secure {
            "; Secure"@
        } else {
            ""@
        },
{
    let mut c = "open_sentry_session=".to_owned();
    push_str(&mut c, token);
    push_str(&mut c, "; Path=/; HttpOnly; SameSite=Strict; Max-Age=604800");
    if secure {
        push_str(&mut c, "; Secure");
    } else {
        push_str(&mut c, "");
    }
    c
}

/// The `Set-Cookie` value that ends a session.
pub fn cleared_session_cookie(secure: bool) -> (c: String)
    ensures
        c@ == "open_sentry_session=; Path=/; HttpOnly; SameSite=Strict; Max-Age=0"@ + if secure {
            "; Secure"@
        } else {
            ""@
        },
{
    let mut c = "open_sentry_session=; Path=/; HttpOnly; SameSite=Strict; Max-Age=0".to_owned();
    if secure {
        push_str(&mut c, "; Secure");
    } else {
        push_str(&mut c, "");
    }
    c
}

/// The e-mail address as accounts store it: trimmed and lowercased.
pub open spec fn normalized_email(email: Seq<char>) -> Seq<char> {
    unicode_lowercase(trimmed(email))
}

/// The bootstrap administrator's stored e-mail and password hash, or why
/// there is none: the password must hold at least 8 bytes.
pub fn bootstrap_admin(settings: &Settings) -> (r: Result<(String, String), String>)
    ensures
        byte_len(settings.bootstrap_admin_password@) < 8 ==> r is Err && r->Err_0@
            == "APP__BOOTSTRAP_ADMIN_PASSWORD must contain at least 8 characters"@,
        8 <= byte_len(settings.bootstrap_admin_password@) <= 0xFFFF_FFFF ==> r is Ok,
        r matches Ok((email, hash)) ==> email@ == normalized_email(settings.bootstrap_admin_email@)
            && password_outcome(settings.bootstrap_admin_password@, hash@) == Ok::<(), ErrorData>(()),
{
    if settings.bootstrap_admin_password.as_str().len() < 8 {
        return Err("APP__BOOTSTRAP_ADMIN_PASSWORD must contain at least 8 characters".to_owned());
    }
    let hash = hash_password(settings.bootstrap_admin_password.as_str())?;
    let email = string_of(&trim(&chars_of(settings.bootstrap_admin_email.as_str())));
    Ok((to_lowercase(email.as_str()), hash))
}

} // verus!
