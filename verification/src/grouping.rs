//! Grouping of events into issues: the fingerprint of an event.
use vstd::prelude::*;
use crate::digest::{sha256_hex, sha256_hex_of};
use crate::json::{
    bool_of, items_of, member, member_text, member_text_or_empty, text_of, JsonData, JsonValue,
};
use crate::model::IngestEvent;
use crate::text::{
    chars_of, is_whitespace, is_ws, push_str, slice_chars, str_eq, string_of, to_lowercase,
    unicode_lowercase,
};

verus! {

/// The views of a sequence of character vectors.
pub open spec fn views(v: Seq<Vec<char>>) -> Seq<Seq<char>> {
    v.map_values(|w: Vec<char>| w@)
}

/// `parts` joined with `sep` between consecutive parts, as `[_]::join` does.
pub open spec fn join(parts: Seq<Seq<char>>, sep: Seq<char>) -> Seq<char>
    decreases parts.len(),
{
    if parts.len() == 0 {
        Seq::empty()
    } else if parts.len() == 1 {
        parts[0]
    } else {
        join(parts.drop_last(), sep) + sep + parts.last()
    }
}

/// The maximal runs of non-whitespace characters of `s`, with `cur` the run
/// already begun.
pub open spec fn words_from(s: Seq<char>, cur: Seq<char>) -> Seq<Seq<char>>
    decreases s.len(),
{
    if s.len() == 0 {
        if cur.len() > 0 {
            seq![cur]
        } else {
            Seq::empty()
        }
    } else if is_ws(s[0]) {
        (if cur.len() > 0 {
            seq![cur]
        } else {
            Seq::empty()
        }) + words_from(s.drop_first(), Seq::empty())
    } else {
        words_from(s.drop_first(), cur.push(s[0]))
    }
}

/// What `str::split_whitespace` yields.
pub open spec fn words(s: Seq<char>) -> Seq<Seq<char>> {
    words_from(s, Seq::empty())
}

/// The message as it takes part in grouping: words joined by single spaces,
/// then lowercased.
pub open spec fn normalized_message(m: Seq<char>) -> Seq<char> {
    unicode_lowercase(join(words(m), seq![' ']))
}

/// Whether a stack frame counts for grouping: all but those marked
/// `"in_app": false`.
pub open spec fn frame_in_app(f: JsonData) -> bool {
    match member(f, "in_app"@) {
        Some(v) => bool_of(v) != Some(false),
        None => true,
    }
}

/// `module:function:filename` of a frame, absent members empty.
pub open spec fn frame_component(f: JsonData) -> Seq<char> {
    member_text_or_empty(f, "module"@) + seq![':'] + member_text_or_empty(f, "function"@) + seq![
        ':',
    ] + member_text_or_empty(f, "filename"@)
}

/// The components of at most `n` in-app frames, taken from the innermost
/// (last) frame outwards.
pub open spec fn select_frames(fs: Seq<JsonData>, n: nat) -> Seq<Seq<char>>
    decreases fs.len(),
{
    if fs.len() == 0 || n == 0 {
        Seq::empty()
    } else if frame_in_app(fs.last()) {
        seq![frame_component(fs.last())] + select_frames(fs.drop_last(), (n - 1) as nat)
    } else {
        select_frames(fs.drop_last(), n)
    }
}

proof fn lemma_select_frames_at_most(fs: Seq<JsonData>, n: nat)
    ensures
        select_frames(fs, n).len() <= n,
    decreases fs.len(),
{
    if fs.len() > 0 && n > 0 {
        if frame_in_app(fs.last()) {
            lemma_select_frames_at_most(fs.drop_last(), (n - 1) as nat);
        } else {
            lemma_select_frames_at_most(fs.drop_last(), n);
        }
    }
}

/// The stack trace of the first exception value, else the exception's own.
pub open spec fn stacktrace_of(exc: JsonData) -> Option<JsonData> {
    let from_values = match member(exc, "values"@) {
        Some(v) => match items_of(v) {
            Some(xs) => if xs.len() > 0 {
                member(xs[0], "stacktrace"@)
            } else {
                None
            },
            None => None,
        },
        None => None,
    };
    match from_values {
        Some(st) => Some(st),
        None => member(exc, "stacktrace"@),
    }
}

/// The frame components that stand in for the message in the default
/// grouping: up to five in-app frames, innermost first.
pub open spec fn frame_components(exc: JsonData) -> Seq<Seq<char>> {
    match stacktrace_of(exc) {
        Some(st) => match member(st, "frames"@) {
            Some(f) => match items_of(f) {
                Some(fs) => select_frames(fs, 5),
                None => Seq::empty(),
            },
            None => Seq::empty(),
        },
        None => Seq::empty(),
    }
}

/// The exception type: the exception's own `type`, else that of its first
/// value, else empty.
pub open spec fn exception_type(exc: JsonData) -> Seq<char> {
    match member_text(exc, "type"@) {
        Some(t) => t,
        None => match member(exc, "values"@) {
            Some(v) => match items_of(v) {
                Some(xs) => if xs.len() > 0 {
                    member_text_or_empty(xs[0], "type"@)
                } else {
                    Seq::empty()
                },
                None => Seq::empty(),
            },
            None => Seq::empty(),
        },
    }
}

/// `level|type|frames`, or `level|type|message` when no frame counts.
pub open spec fn default_component(
    level: Seq<char>,
    message: Seq<char>,
    exc: JsonData,
) -> Seq<char> {
    let frames = frame_components(exc);
    level + seq!['|'] + exception_type(exc) + seq!['|'] + (if frames.len() == 0 {
        normalized_message(message)
    } else {
        join(frames, seq!['|'])
    })
}

/// The string items of an array, in order.
pub open spec fn strings_of(vs: Seq<JsonData>) -> Seq<Seq<char>>
    decreases vs.len(),
{
    if vs.len() == 0 {
        Seq::empty()
    } else {
        strings_of(vs.drop_last()) + match text_of(vs.last()) {
            Some(t) => seq![t],
            None => Seq::empty(),
        }
    }
}

/// The components of an SDK-provided fingerprint: the strings of an array,
/// or a non-empty string.
pub open spec fn custom_components(fp: JsonData) -> Seq<Seq<char>> {
    match fp {
        JsonData::Array(vs) => strings_of(vs),
        JsonData::Str(s) => if s.len() > 0 {
            seq![s]
        } else {
            Seq::empty()
        },
        _ => Seq::empty(),
    }
}

/// The placeholder that stands for the default grouping inside an SDK
/// fingerprint.
pub open spec fn default_placeholder() -> Seq<char> {
    "{{ default }}"@
}

pub open spec fn substitute_default(custom: Seq<Seq<char>>, default: Seq<char>) -> Seq<
    Seq<char>,
> {
    custom.map_values(|c: Seq<char>| if c == default_placeholder() { default } else { c })
}

/// The text whose digest is the fingerprint.
pub open spec fn fingerprint_input(
    level: Seq<char>,
    message: Seq<char>,
    exc: JsonData,
    fp: JsonData,
) -> Seq<char> {
    let default = default_component(level, message, exc);
    let custom = custom_components(fp);
    if custom.len() == 0 {
        default
    } else {
        join(substitute_default(custom, default), seq!['|'])
    }
}

/// The fingerprint of an event: the SHA-256 digest of its grouping input.
pub open spec fn event_fingerprint(e: IngestEvent) -> Seq<char> {
    sha256_hex_of(fingerprint_input(e.level@, e.message@, e.exception@, e.fingerprint@))
}

proof fn lemma_join_push(parts: Seq<Seq<char>>, p: Seq<char>, sep: Seq<char>)
    ensures
        join(parts.push(p), sep) == if parts.len() == 0 {
            p
        } else {
            join(parts, sep) + sep + p
        },
{
    assert(parts.push(p).drop_last() =~= parts);
}

/// `parts` joined with `sep`.
pub fn join_parts(parts: &Vec<Vec<char>>, sep: &Vec<char>) -> (r: Vec<char>)
    ensures
        r@ == join(views(parts@), sep@),
{
    let mut out: Vec<char> = Vec::new();
    let mut i: usize = 0;
    while i < parts.len()
        invariant
            i <= parts.len(),
            out@ == join(views(parts@).take(i as int), sep@),
        decreases parts.len() - i,
    {
        proof {
            assert(views(parts@).take(i + 1) =~= views(parts@).take(i as int).push(parts@[i as int]@));
            lemma_join_push(views(parts@).take(i as int), parts@[i as int]@, sep@);
        }
        if i > 0 {
            out.extend_from_slice(sep.as_slice());
        }
        out.extend_from_slice(parts[i].as_slice());
        i = i + 1;
    }
    assert(views(parts@).take(parts.len() as int) =~= views(parts@));
    out
}

/// The whitespace-separated words of `s`.
pub fn split_whitespace(s: &Vec<char>) -> (r: Vec<Vec<char>>)
    ensures
        views(r@) == words(s@),
{
    let mut out: Vec<Vec<char>> = Vec::new();
    let mut cur: Vec<char> = Vec::new();
    let mut i: usize = 0;
    assert(s@.subrange(0, s.len() as int) =~= s@);
    assert(views(out@) =~= Seq::<Seq<char>>::empty());
    assert(cur@ =~= Seq::<char>::empty());
    assert(Seq::<Seq<char>>::empty() + words(s@) =~= words(s@));
    while i < s.len()
        invariant
            i <= s.len(),
            views(out@) + words_from(s@.subrange(i as int, s.len() as int), cur@) == words(s@),
        decreases s.len() - i,
    {
        let ghost rest = s@.subrange(i as int, s.len() as int);
        assert(rest.drop_first() =~= s@.subrange(i + 1, s.len() as int));
        assert(rest[0] == s@[i as int]);
        let c = s[i];
        if is_whitespace(c) {
            if cur.len() > 0 {
                let ghost before = views(out@);
                out.push(cur);
                assert(views(out@) =~= before + seq![cur@]);
                assert(before + (seq![cur@] + words_from(rest.drop_first(), Seq::empty())) =~= (before
                    + seq![cur@]) + words_from(rest.drop_first(), Seq::empty()));
                cur = Vec::new();
            } else {
                assert(Seq::<Seq<char>>::empty() + words_from(rest.drop_first(), Seq::empty())
                    =~= words_from(rest.drop_first(), Seq::empty()));
                cur = Vec::new();
            }
        } else {
            cur.push(c);
        }
        i = i + 1;
    }
    let ghost rest = s@.subrange(i as int, s.len() as int);
    assert(rest.len() == 0);
    if cur.len() > 0 {
        let ghost before = views(out@);
        out.push(cur);
        assert(views(out@) =~= before + seq![cur@]);
    } else {
        assert(views(out@) + Seq::<Seq<char>>::empty() =~= views(out@));
    }
    out
}

/// The grouping form of a message: words joined by single spaces, lowercased.
pub fn normalize_message(m: &str) -> (r: String)
    ensures
        r@ == normalized_message(m@),
{
    let cs = chars_of(m);
    let ws = split_whitespace(&cs);
    let mut sep: Vec<char> = Vec::new();
    sep.push(' ');
    assert(sep@ =~= seq![' ']);
    let joined = string_of(&join_parts(&ws, &sep));
    to_lowercase(joined.as_str())
}

fn text_or_empty(v: &JsonValue, key: &str) -> (r: Vec<char>)
    ensures
        r@ == member_text_or_empty(v@, key@),
{
    match v.member_str(key) {
        Some(t) => chars_of(t),
        None => Vec::new(),
    }
}

fn component_of_frame(f: &JsonValue) -> (r: Vec<char>)
    ensures
        r@ == frame_component(f@),
{
    let mut r = text_or_empty(f, "module");
    r.push(':');
    let mut function = text_or_empty(f, "function");
    r.append(&mut function);
    r.push(':');
    let mut filename = text_or_empty(f, "filename");
    r.append(&mut filename);
    r
}

fn is_in_app(f: &JsonValue) -> (r: bool)
    ensures
        r == frame_in_app(f@),
{
    match f.get("in_app") {
        Some(v) => match v.as_bool() {
            Some(b) => b,
            None => true,
        },
        None => true,
    }
}

/// Components of at most `n` in-app frames, innermost first.
fn select_frame_components(fs: &Vec<JsonValue>, n: usize) -> (r: Vec<Vec<char>>)
    ensures
        views(r@) == select_frames(fs@.map_values(|f: JsonValue| f@), n as nat),
{
    let ghost ds = fs@.map_values(|f: JsonValue| f@);
    let mut out: Vec<Vec<char>> = Vec::new();
    let mut i: usize = fs.len();
    let mut k: usize = 0;
    assert(ds.subrange(0, fs.len() as int) =~= ds);
    assert(views(out@) =~= Seq::<Seq<char>>::empty());
    assert(Seq::<Seq<char>>::empty() + select_frames(ds, n as nat) =~= select_frames(ds, n as nat));
    while i > 0 && k < n
        invariant
            i <= fs.len(),
            k <= n,
            ds == fs@.map_values(|f: JsonValue| f@),
            views(out@) + select_frames(ds.subrange(0, i as int), (n - k) as nat) == select_frames(
                ds,
                n as nat,
            ),
        decreases i,
    {
        let ghost pre = ds.subrange(0, i as int);
        assert(pre.drop_last() =~= ds.subrange(0, i - 1));
        assert(pre.last() == fs@[i - 1]@);
        let f = &fs[i - 1];
        if is_in_app(f) {
            let c = component_of_frame(f);
            let ghost before = views(out@);
            out.push(c);
            assert(views(out@) =~= before + seq![c@]);
            assert(before + (seq![c@] + select_frames(ds.subrange(0, i - 1), (n - k - 1) as nat))
                =~= (before + seq![c@]) + select_frames(ds.subrange(0, i - 1), (n - k - 1) as nat));
            k = k + 1;
        }
        i = i - 1;
    }
    assert(select_frames(ds.subrange(0, i as int), (n - k) as nat) == Seq::<Seq<char>>::empty());
    assert(views(out@) + Seq::<Seq<char>>::empty() =~= views(out@));
    out
}

fn stacktrace_value(exc: &JsonValue) -> (r: Option<&JsonValue>)
    ensures
        r is Some == stacktrace_of(exc@) is Some,
        r is Some ==> r->0@ == stacktrace_of(exc@)->0,
{
    let from_values = match exc.get("values") {
        Some(v) => match v.as_array() {
            Some(xs) => if xs.len() > 0 {
                xs[0].get("stacktrace")
            } else {
                None
            },
            None => None,
        },
        None => None,
    };
    match from_values {
        Some(st) => Some(st),
        None => exc.get("stacktrace"),
    }
}

fn frame_component_list(exc: &JsonValue) -> (r: Vec<Vec<char>>)
    ensures
        views(r@) == frame_components(exc@),
{
    match stacktrace_value(exc) {
        Some(st) => match st.get("frames") {
            Some(f) => match f.as_array() {
                Some(fs) => {
                    let r = select_frame_components(fs, 5);
                    assert(fs@.map_values(|x: JsonValue| x@) =~= items_of(f@)->0);
                    r
                },
                None => Vec::new(),
            },
            None => Vec::new(),
        },
        None => Vec::new(),
    }
}

fn exception_type_of(exc: &JsonValue) -> (r: Vec<char>)
    ensures
        r@ == exception_type(exc@),
{
    match exc.member_str("type") {
        Some(t) => chars_of(t),
        None => match exc.get("values") {
            Some(v) => match v.as_array() {
                Some(xs) => if xs.len() > 0 {
                    text_or_empty(&xs[0], "type")
                } else {
                    Vec::new()
                },
                None => Vec::new(),
            },
            None => Vec::new(),
        },
    }
}

fn default_component_of(level: &str, message: &str, exc: &JsonValue) -> (r: Vec<char>)
    ensures
        r@ == default_component(level@, message@, exc@),
{
    let frames = frame_component_list(exc);
    let mut r = chars_of(level);
    r.push('|');
    let mut t = exception_type_of(exc);
    r.append(&mut t);
    r.push('|');
    if frames.len() == 0 {
        let n = normalize_message(message);
        let mut nc = chars_of(n.as_str());
        r.append(&mut nc);
    } else {
        let mut sep: Vec<char> = Vec::new();
        sep.push('|');
        assert(sep@ =~= seq!['|']);
        let mut j = join_parts(&frames, &sep);
        r.append(&mut j);
    }
    r
}

fn custom_component_list(fp: &JsonValue) -> (r: Vec<Vec<char>>)
    ensures
        views(r@) == custom_components(fp@),
{
    match fp {
        JsonValue::Array(vs) => {
            proof {
                fp.lemma_array_view();
            }
            let ghost ds = fp@->Array_0;
            let mut out: Vec<Vec<char>> = Vec::new();
            let mut i: usize = 0;
            while i < vs.len()
                invariant
                    i <= vs.len(),
                    ds.len() == vs@.len(),
                    forall|j: int| #![trigger vs@[j]] 0 <= j < vs@.len() ==> ds[j] == vs@[j]@,
                    views(out@) == strings_of(ds.take(i as int)),
                decreases vs.len() - i,
            {
                assert(ds.take(i + 1).drop_last() =~= ds.take(i as int));
                assert(ds.take(i + 1).last() == vs@[i as int]@);
                let ghost before = views(out@);
                match vs[i].as_str() {
                    Some(t) => {
                        out.push(chars_of(t));
                        assert(views(out@) =~= before + seq![t@]);
                    },
                    None => {
                        assert(before + Seq::<Seq<char>>::empty() =~= before);
                    },
                }
                i = i + 1;
            }
            assert(ds.take(vs.len() as int) =~= ds);
            out
        },
        JsonValue::String(s) => {
            let mut out: Vec<Vec<char>> = Vec::new();
            let cs = chars_of(s.as_str());
            if cs.len() > 0 {
                out.push(cs);
                assert(views(out@) =~= seq![cs@]);
            } else {
                assert(views(out@) =~= Seq::<Seq<char>>::empty());
            }
            out
        },
        _ => {
            let out: Vec<Vec<char>> = Vec::new();
            assert(views(out@) =~= Seq::<Seq<char>>::empty());
            out
        },
    }
}

fn copy_chars(v: &Vec<char>) -> (r: Vec<char>)
    ensures
        r@ == v@,
{
    let r = slice_chars(v, 0, v.len());
    assert(v@.subrange(0, v.len() as int) =~= v@);
    r
}

/// The fingerprint that groups an event into an issue: the SHA-256 digest of
/// the SDK's fingerprint components (with `{{ default }}` standing for the
/// default grouping) or, when the SDK gives none, of the default grouping
/// `level|exception type|frames-or-normalized-message`.
pub fn fingerprint(event: &IngestEvent) -> (r: String)
    ensures
        r@ == event_fingerprint(*event),
{
    let default = default_component_of(
        event.level.as_str(),
        event.message.as_str(),
        &event.exception,
    );
    let custom = custom_component_list(&event.fingerprint);
    let input = if custom.len() == 0 {
        default
    } else {
        let mut parts: Vec<Vec<char>> = Vec::new();
        let mut i: usize = 0;
        let ghost c = views(custom@);
        while i < custom.len()
            invariant
                i <= custom.len(),
                c == views(custom@),
                views(parts@) == substitute_default(c, default@).take(i as int),
            decreases custom.len() - i,
        {
            let part = string_of(&custom[i]);
            let ghost before = views(parts@);
            assert(c[i as int] == custom@[i as int]@);
            let ghost expected = substitute_default(c, default@)[i as int];
            let x = if str_eq(part.as_str(), "{{ default }}") {
                copy_chars(&default)
            } else {
                copy_chars(&custom[i])
            };
            assert(x@ == expected);
            parts.push(x);
            assert(views(parts@) =~= before.push(expected));
            assert(substitute_default(c, default@).take(i + 1) =~= substitute_default(
                c,
                default@,
            ).take(i as int).push(expected));
            i = i + 1;
        }
        assert(substitute_default(c, default@).take(custom.len() as int) =~= substitute_default(
            c,
            default@,
        ));
        let mut sep: Vec<char> = Vec::new();
        sep.push('|');
        assert(sep@ =~= seq!['|']);
        join_parts(&parts, &sep)
    };
    let text = string_of(&input);
    sha256_hex(text.as_str())
}

/// Events whose messages differ only in whitespace and letter case (their
/// normalized forms agree) and that agree on everything else that grouping
/// reads fall into the same issue.
pub proof fn lemma_fingerprint_ignores_message_spacing_and_case(e1: IngestEvent, e2: IngestEvent)
    requires
        e1.level@ == e2.level@,
        e1.exception@ == e2.exception@,
        e1.fingerprint@ == e2.fingerprint@,
        normalized_message(e1.message@) == normalized_message(e2.message@),
    ensures
        event_fingerprint(e1) == event_fingerprint(e2),
{
}

proof fn lemma_words_congruent(p: Seq<char>, x: Seq<char>, y: Seq<char>, cur: Seq<char>)
    requires
        forall|c: Seq<char>| #[trigger] words_from(x, c) == words_from(y, c),
    ensures
        words_from(p + x, cur) == words_from(p + y, cur),
    decreases p.len(),
{
    if p.len() == 0 {
        assert(p + x =~= x);
        assert(p + y =~= y);
    } else {
        assert((p + x).drop_first() =~= p.drop_first() + x);
        assert((p + y).drop_first() =~= p.drop_first() + y);
        assert((p + x)[0] == p[0]);
        assert((p + y)[0] == p[0]);
        if is_ws(p[0]) {
            lemma_words_congruent(p.drop_first(), x, y, Seq::empty());
        } else {
            lemma_words_congruent(p.drop_first(), x, y, cur.push(p[0]));
        }
    }
}

/// Two whitespace characters in a row split words as one does.
proof fn lemma_double_whitespace(x: Seq<char>, y: Seq<char>, a: char, b: char, rest: Seq<char>)
    requires
        is_ws(a),
        is_ws(b),
        x == seq![a, b] + rest,
        y == seq![a] + rest,
    ensures
        forall|c: Seq<char>| #[trigger] words_from(x, c) == words_from(y, c),
{
    let z = seq![b] + rest;
    assert(x[0] == a && y[0] == a);
    assert(x.drop_first() =~= z);
    assert(y.drop_first() =~= rest);
    assert(z[0] == b);
    assert(z.drop_first() =~= rest);
    assert(words_from(z, Seq::empty()) =~= words_from(rest, Seq::empty()));
}

/// Whitespace only separates words: one more whitespace character at either
/// end of a message, or next to one of its whitespace characters, leaves its
/// words as they were.
pub proof fn lemma_extra_whitespace_keeps_words(s: Seq<char>, i: int, c: char)
    requires
        0 <= i <= s.len(),
        is_ws(c),
        i == 0 || i == s.len() || is_ws(s[i - 1]) || is_ws(s[i]),
    ensures
        words(s.take(i) + seq![c] + s.skip(i)) == words(s),
{
    let t = s.take(i) + seq![c] + s.skip(i);
    if i == 0 {
        assert(t =~= seq![c] + s);
        assert(t[0] == c);
        assert(t.drop_first() =~= s);
        assert(words_from(t, Seq::empty()) =~= words_from(s, Seq::empty()));
    } else if i < s.len() && is_ws(s[i]) {
        let rest = s.skip(i + 1);
        let x = seq![c, s[i]] + rest;
        let y = seq![s[i]] + rest;
        let x1 = seq![c] + rest;
        lemma_double_whitespace(x, x1, c, s[i], rest);
        assert forall|k: Seq<char>| #[trigger] words_from(x1, k) == words_from(y, k) by {
            assert(x1[0] == c && y[0] == s[i]);
            assert(x1.drop_first() =~= rest);
            assert(y.drop_first() =~= rest);
        }
        assert forall|k: Seq<char>| #[trigger] words_from(x, k) == words_from(y, k) by {
            assert(words_from(x, k) == words_from(x1, k));
            assert(words_from(x1, k) == words_from(y, k));
        }
        lemma_words_congruent(s.take(i), x, y, Seq::empty());
        assert(t =~= s.take(i) + x);
        assert(s =~= s.take(i) + y);
    } else if is_ws(s[i - 1]) {
        let rest = s.skip(i);
        let x = seq![s[i - 1], c] + rest;
        let y = seq![s[i - 1]] + rest;
        lemma_double_whitespace(x, y, s[i - 1], c, rest);
        lemma_words_congruent(s.take(i - 1), x, y, Seq::empty());
        assert(t =~= s.take(i - 1) + x);
        assert(s =~= s.take(i - 1) + y);
    } else {
        assert(i == s.len());
        let x = seq![c];
        let y = Seq::<char>::empty();
        assert forall|k: Seq<char>| #[trigger] words_from(x, k) == words_from(y, k) by {
            assert(x[0] == c);
            assert(x.drop_first() =~= y);
            assert(words_from(y, Seq::<char>::empty()) =~= Seq::<Seq<char>>::empty());
            if k.len() > 0 {
                assert(seq![k] + Seq::<Seq<char>>::empty() =~= seq![k]);
            } else {
                assert(Seq::<Seq<char>>::empty() + Seq::<Seq<char>>::empty() =~= Seq::<
                    Seq<char>,
                >::empty());
            }
        }
        lemma_words_congruent(s, x, y, Seq::empty());
        assert(t =~= s + x);
        assert(s =~= s + y);
    }
}

/// The default grouping reads at most five stack frames.
pub proof fn lemma_at_most_five_frames(exc: JsonData)
    ensures
        frame_components(exc).len() <= 5,
{
    match stacktrace_of(exc) {
        Some(st) => match member(st, "frames"@) {
            Some(f) => match items_of(f) {
                Some(fs) => lemma_select_frames_at_most(fs, 5),
                None => {},
            },
            None => {},
        },
        None => {},
    }
}

/// A frame takes part in grouping only by its module, function and file
/// name: frames that agree on those (whatever their line, column or other
/// members) give the same component.
pub proof fn lemma_frame_component_reads_names(f1: JsonData, f2: JsonData)
    requires
        member_text_or_empty(f1, "module"@) == member_text_or_empty(f2, "module"@),
        member_text_or_empty(f1, "function"@) == member_text_or_empty(f2, "function"@),
        member_text_or_empty(f1, "filename"@) == member_text_or_empty(f2, "filename"@),
    ensures
        frame_component(f1) == frame_component(f2),
{
}

/// Frame lists that agree, frame by frame, on whether each frame is in-app
/// and on its component give the same grouping frames.
pub proof fn lemma_frames_alike_group_alike(fs1: Seq<JsonData>, fs2: Seq<JsonData>, n: nat)
    requires
        fs1.len() == fs2.len(),
        forall|i: int|
            0 <= i < fs1.len() ==> frame_in_app(#[trigger] fs1[i]) == frame_in_app(fs2[i])
                && frame_component(fs1[i]) == frame_component(fs2[i]),
    ensures
        select_frames(fs1, n) == select_frames(fs2, n),
    decreases fs1.len(),
{
    if fs1.len() > 0 && n > 0 {
        let last = fs1.len() - 1;
        assert(frame_in_app(fs1[last]) == frame_in_app(fs2[last]));
        assert forall|i: int| 0 <= i < fs1.drop_last().len() implies frame_in_app(
            #[trigger] fs1.drop_last()[i],
        ) == frame_in_app(fs2.drop_last()[i]) && frame_component(fs1.drop_last()[i])
            == frame_component(fs2.drop_last()[i]) by {
            assert(fs1.drop_last()[i] == fs1[i]);
            assert(fs2.drop_last()[i] == fs2[i]);
        }
        if frame_in_app(fs1.last()) {
            lemma_frames_alike_group_alike(fs1.drop_last(), fs2.drop_last(), (n - 1) as nat);
        } else {
            lemma_frames_alike_group_alike(fs1.drop_last(), fs2.drop_last(), n);
        }
    }
}

/// A frame marked `"in_app": false`, wherever it stands, plays no part in
/// grouping.
pub proof fn lemma_frames_not_in_app_are_skipped(fs: Seq<JsonData>, i: int, f: JsonData, n: nat)
    requires
        0 <= i <= fs.len(),
        !frame_in_app(f),
    ensures
        select_frames(fs.insert(i, f), n) == select_frames(fs, n),
    decreases fs.len(),
{
    let g = fs.insert(i, f);
    if n == 0 {
    } else if i == fs.len() {
        assert(g.last() == f);
        assert(g.drop_last() =~= fs);
    } else {
        assert(g.last() == fs.last());
        assert(g.drop_last() =~= fs.drop_last().insert(i, f));
        if frame_in_app(fs.last()) {
            lemma_frames_not_in_app_are_skipped(fs.drop_last(), i, f, (n - 1) as nat);
        } else {
            lemma_frames_not_in_app_are_skipped(fs.drop_last(), i, f, n);
        }
    }
}

/// With in-app frames present and no SDK fingerprint, grouping reads the
/// level, the exception type and the frame components only: events that
/// agree on those fall into the same issue, whatever their messages.
pub proof fn lemma_default_grouping_reads_frames(e1: IngestEvent, e2: IngestEvent)
    requires
        e1.level@ == e2.level@,
        e1.fingerprint@ == e2.fingerprint@,
        exception_type(e1.exception@) == exception_type(e2.exception@),
        frame_components(e1.exception@) == frame_components(e2.exception@),
        frame_components(e1.exception@).len() > 0,
    ensures
        event_fingerprint(e1) == event_fingerprint(e2),
{
}

/// The stack frames that grouping reads, when the exception has them.
pub open spec fn stack_frames(exc: JsonData) -> Option<Seq<JsonData>> {
    match stacktrace_of(exc) {
        Some(st) => match member(st, "frames"@) {
            Some(f) => items_of(f),
            None => None,
        },
        None => None,
    }
}

/// The frames of a list that count for grouping, in their order.
pub open spec fn in_app_frames(fs: Seq<JsonData>) -> Seq<JsonData>
    decreases fs.len(),
{
    if fs.len() == 0 {
        Seq::empty()
    } else if frame_in_app(fs.last()) {
        in_app_frames(fs.drop_last()).push(fs.last())
    } else {
        in_app_frames(fs.drop_last())
    }
}

/// The members of a frame that grouping reads.
pub open spec fn frame_names(f: JsonData) -> (Seq<char>, Seq<char>, Seq<char>) {
    (
        member_text_or_empty(f, "module"@),
        member_text_or_empty(f, "function"@),
        member_text_or_empty(f, "filename"@),
    )
}

proof fn lemma_in_app_frames_are_in_app(fs: Seq<JsonData>)
    ensures
        forall|i: int|
            0 <= i < in_app_frames(fs).len() ==> frame_in_app(#[trigger] in_app_frames(fs)[i]),
    decreases fs.len(),
{
    if fs.len() > 0 {
        lemma_in_app_frames_are_in_app(fs.drop_last());
        let rest = in_app_frames(fs.drop_last());
        if frame_in_app(fs.last()) {
            assert forall|i: int| 0 <= i < rest.len() + 1 implies frame_in_app(
                #[trigger] rest.push(fs.last())[i],
            ) by {
                if i < rest.len() {
                    assert(rest.push(fs.last())[i] == rest[i]);
                }
            }
        }
    }
}

/// Grouping reads a frame list only through its in-app frames.
proof fn lemma_select_reads_in_app_frames(fs: Seq<JsonData>, n: nat)
    ensures
        select_frames(fs, n) == select_frames(in_app_frames(fs), n),
        in_app_frames(fs).len() > 0 && n > 0 ==> select_frames(fs, n).len() > 0,
    decreases fs.len(),
{
    if fs.len() > 0 {
        let rest = in_app_frames(fs.drop_last());
        if frame_in_app(fs.last()) {
            let ia = rest.push(fs.last());
            assert(ia.drop_last() =~= rest);
            assert(ia.last() == fs.last());
            if n > 0 {
                lemma_select_reads_in_app_frames(fs.drop_last(), (n - 1) as nat);
            }
        } else {
            lemma_select_reads_in_app_frames(fs.drop_last(), n);
        }
    }
}

/// Events that differ only in their messages, in the line and column (or
/// any other member but module, function and file name) of their frames,
/// and in frames marked `"in_app": false`, fall into the same issue when at
/// least one in-app frame is present.
pub proof fn lemma_grouping_ignores_message_positions_and_library_frames(
    e1: IngestEvent,
    e2: IngestEvent,
    fs1: Seq<JsonData>,
    fs2: Seq<JsonData>,
)
    requires
        e1.level@ == e2.level@,
        e1.fingerprint@ == e2.fingerprint@,
        exception_type(e1.exception@) == exception_type(e2.exception@),
        stack_frames(e1.exception@) == Some(fs1),
        stack_frames(e2.exception@) == Some(fs2),
        in_app_frames(fs1).len() > 0,
        in_app_frames(fs1).map_values(|f: JsonData| frame_names(f)) == in_app_frames(
            fs2,
        ).map_values(|f: JsonData| frame_names(f)),
    ensures
        event_fingerprint(e1) == event_fingerprint(e2),
{
    let ia1 = in_app_frames(fs1);
    let ia2 = in_app_frames(fs2);
    lemma_in_app_frames_are_in_app(fs1);
    lemma_in_app_frames_are_in_app(fs2);
    assert(ia1.len() == ia2.len()) by {
        assert(ia1.map_values(|f: JsonData| frame_names(f)).len() == ia1.len());
        assert(ia2.map_values(|f: JsonData| frame_names(f)).len() == ia2.len());
    }
    assert forall|i: int| 0 <= i < ia1.len() implies frame_in_app(#[trigger] ia1[i])
        == frame_in_app(ia2[i]) && frame_component(ia1[i]) == frame_component(ia2[i]) by {
        assert(ia1.map_values(|f: JsonData| frame_names(f))[i] == frame_names(ia1[i]));
        assert(ia2.map_values(|f: JsonData| frame_names(f))[i] == frame_names(ia2[i]));
        lemma_frame_component_reads_names(ia1[i], ia2[i]);
    }
    lemma_frames_alike_group_alike(ia1, ia2, 5);
    lemma_select_reads_in_app_frames(fs1, 5);
    lemma_select_reads_in_app_frames(fs2, 5);
    assert(frame_components(e1.exception@) == select_frames(fs1, 5));
    assert(frame_components(e2.exception@) == select_frames(fs2, 5));
    lemma_default_grouping_reads_frames(e1, e2);
}

/// The stack trace grouping reads is that of the first exception value when
/// it has one, whatever the exception's own; otherwise the exception's own.
pub proof fn lemma_first_value_stacktrace_wins(exc: JsonData, values: Seq<JsonData>)
    requires
        member(exc, "values"@) matches Some(v) && items_of(v) == Some(values),
    ensures
        values.len() > 0 && member(values[0], "stacktrace"@) is Some ==> stacktrace_of(exc)
            == member(values[0], "stacktrace"@),
        values.len() == 0 || member(values[0], "stacktrace"@) is None ==> stacktrace_of(exc)
            == member(exc, "stacktrace"@),
{
}

/// An exception's own string `type` names it, whatever its values say.
pub proof fn lemma_own_type_names_the_exception(exc: JsonData, t: Seq<char>)
    requires
        member_text(exc, "type"@) == Some(t),
    ensures
        exception_type(exc) == t,
{
}

/// An exception without a string `type` of its own is named by the string
/// `type` of its first value.
pub proof fn lemma_first_value_names_the_exception(exc: JsonData, values: Seq<JsonData>, t: Seq<char>)
    requires
        member_text(exc, "type"@) is None,
        member(exc, "values"@) matches Some(v) && items_of(v) == Some(values),
        values.len() > 0,
        member_text(values[0], "type"@) == Some(t),
    ensures
        exception_type(exc) == t,
{
}

/// Without an SDK fingerprint and without in-app frames, events of the same
/// level and message whose exception types differ have different grouping
/// inputs, so they fall into different issues.
pub proof fn lemma_exception_types_tell_issues_apart(e1: IngestEvent, e2: IngestEvent)
    requires
        e1.level@ == e2.level@,
        e1.message@ == e2.message@,
        e1.fingerprint@ == JsonData::Null,
        e2.fingerprint@ == JsonData::Null,
        frame_components(e1.exception@).len() == 0,
        frame_components(e2.exception@).len() == 0,
        exception_type(e1.exception@) != exception_type(e2.exception@),
    ensures
        fingerprint_input(e1.level@, e1.message@, e1.exception@, e1.fingerprint@)
            != fingerprint_input(e2.level@, e2.message@, e2.exception@, e2.fingerprint@),
{
    let p = e1.level@ + seq!['|'];
    let q = seq!['|'] + normalized_message(e1.message@);
    let t1 = exception_type(e1.exception@);
    let t2 = exception_type(e2.exception@);
    let s1 = fingerprint_input(e1.level@, e1.message@, e1.exception@, e1.fingerprint@);
    let s2 = fingerprint_input(e2.level@, e2.message@, e2.exception@, e2.fingerprint@);
    assert(custom_components(JsonData::Null).len() == 0);
    assert(s1 =~= p + t1 + q);
    assert(s2 =~= p + t2 + q);
    if s1 == s2 {
        assert(t1.len() == t2.len());
        assert(t1 =~= s1.subrange(p.len() as int, (p.len() + t1.len()) as int));
        assert(t2 =~= s2.subrange(p.len() as int, (p.len() + t2.len()) as int));
    }
}

/// Events of the same level and message, without an SDK fingerprint or
/// in-app frames, whose exceptions are named only by the `type` of their
/// first values fall into different issues when those types differ.
pub proof fn lemma_first_value_types_tell_issues_apart(
    e1: IngestEvent,
    e2: IngestEvent,
    values1: Seq<JsonData>,
    values2: Seq<JsonData>,
    t1: Seq<char>,
    t2: Seq<char>,
)
    requires
        e1.level@ == e2.level@,
        e1.message@ == e2.message@,
        e1.fingerprint@ == JsonData::Null,
        e2.fingerprint@ == JsonData::Null,
        frame_components(e1.exception@).len() == 0,
        frame_components(e2.exception@).len() == 0,
        member_text(e1.exception@, "type"@) is None,
        member_text(e2.exception@, "type"@) is None,
        member(e1.exception@, "values"@) matches Some(v) && items_of(v) == Some(values1),
        member(e2.exception@, "values"@) matches Some(v) && items_of(v) == Some(values2),
        values1.len() > 0,
        values2.len() > 0,
        member_text(values1[0], "type"@) == Some(t1),
        member_text(values2[0], "type"@) == Some(t2),
        t1 != t2,
    ensures
        fingerprint_input(e1.level@, e1.message@, e1.exception@, e1.fingerprint@)
            != fingerprint_input(e2.level@, e2.message@, e2.exception@, e2.fingerprint@),
{
    lemma_first_value_names_the_exception(e1.exception@, values1, t1);
    lemma_first_value_names_the_exception(e2.exception@, values2, t2);
    lemma_exception_types_tell_issues_apart(e1, e2);
}

/// Events whose messages have the same words, however they are spaced, and
/// that agree on everything else that grouping reads fall into the same
/// issue.
pub proof fn lemma_fingerprint_ignores_message_spacing(e1: IngestEvent, e2: IngestEvent)
    requires
        e1.level@ == e2.level@,
        e1.exception@ == e2.exception@,
        e1.fingerprint@ == e2.fingerprint@,
        words(e1.message@) == words(e2.message@),
    ensures
        event_fingerprint(e1) == event_fingerprint(e2),
{
}

/// An SDK fingerprint without the `{{ default }}` placeholder decides the
/// issue alone: level, message and exception play no part.
pub proof fn lemma_sdk_fingerprint_overrides_event(e1: IngestEvent, e2: IngestEvent)
    requires
        e1.fingerprint@ == e2.fingerprint@,
        custom_components(e1.fingerprint@).len() > 0,
        !custom_components(e1.fingerprint@).contains(default_placeholder()),
    ensures
        event_fingerprint(e1) == event_fingerprint(e2),
{
    let c = custom_components(e1.fingerprint@);
    let d1 = default_component(e1.level@, e1.message@, e1.exception@);
    let d2 = default_component(e2.level@, e2.message@, e2.exception@);
    assert forall|i: int| 0 <= i < c.len() implies c[i] != default_placeholder() by {
        if c[i] == default_placeholder() {
            assert(c.contains(c[i]));
        }
    }
    assert(substitute_default(c, d1) =~= substitute_default(c, d2));
}

/// When the exception carries at least one in-app stack frame, the message
/// plays no part in grouping: events with different messages but the same
/// level, exception and SDK fingerprint fall into the same issue.
pub proof fn lemma_stack_frames_replace_message(e1: IngestEvent, e2: IngestEvent)
    requires
        e1.level@ == e2.level@,
        e1.exception@ == e2.exception@,
        e1.fingerprint@ == e2.fingerprint@,
        frame_components(e1.exception@).len() > 0,
    ensures
        event_fingerprint(e1) == event_fingerprint(e2),
{
    assert(default_component(e1.level@, e1.message@, e1.exception@) == default_component(
        e2.level@,
        e2.message@,
        e2.exception@,
    ));
}

} // verus!
