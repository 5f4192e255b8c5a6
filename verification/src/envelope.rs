//! Sentry envelopes: content decoding and the line-oriented item framing.
use vstd::prelude::*;
use std::io::Read;
use crate::error::{AppError, ErrorData};
use crate::json::{member, JsonData, JsonNumber, JsonValue, NumberData};
use crate::json_text::{json_syntax_error, json_value, json_value_of};
use crate::text::{push_str, str_eq};

verus! {

pub const MAX_COMPRESSED_BYTES: usize = 5 * 1024 * 1024;

pub const MAX_DECOMPRESSED_BYTES: usize = 20 * 1024 * 1024;

pub const MAX_ITEMS: usize = 100;

pub const MAX_EVENT_BYTES: usize = 1024 * 1024;

/// One item of an envelope: its declared type and its payload bytes.
#[derive(Debug)]
pub struct EnvelopeItem {
    pub item_type: String,
    pub payload: Vec<u8>,
}

impl View for EnvelopeItem {
    type V = (Seq<char>, Seq<u8>);

    open spec fn view(&self) -> (Seq<char>, Seq<u8>) {
        (self.item_type@, self.payload@)
    }
}

/// The bytes that reading `input` through a gzip decoder gives, at most
/// `limit` of them, or the text of the read error.
pub uninterp spec fn gzip_read(input: Seq<u8>, limit: u64) -> Result<Seq<u8>, Seq<char>>;

/// The same for a zlib decoder.
pub uninterp spec fn zlib_read(input: Seq<u8>, limit: u64) -> Result<Seq<u8>, Seq<char>>;

/// `flate2::read::GzDecoder` over `input`, read with `Read::take(limit)` and
/// `read_to_end`. Trusted: the result is the named function of the arguments,
/// and no more than `limit` bytes come back.
#[verifier::external_body]
fn gunzip_limited(input: &[u8], limit: u64) -> (r: Result<Vec<u8>, String>)
    ensures
        match r {
            Ok(v) => gzip_read(input@, limit) == Ok::<Seq<u8>, Seq<char>>(v@) && v@.len() <= limit,
            Err(e) => gzip_read(input@, limit) == Err::<Seq<u8>, Seq<char>>(e@),
        },
{
    let mut output = Vec::new();
    match flate2::read::GzDecoder::new(input).take(limit).read_to_end(&mut output) {
        Ok(_) => Ok(output),
        Err(error) => Err(error.to_string()),
    }
}

/// `flate2::read::ZlibDecoder` over `input`, read with `Read::take(limit)`
/// and `read_to_end`. Trusted as `gunzip_limited` is.
#[verifier::external_body]
fn inflate_limited(input: &[u8], limit: u64) -> (r: Result<Vec<u8>, String>)
    ensures
        match r {
            Ok(v) => zlib_read(input@, limit) == Ok::<Seq<u8>, Seq<char>>(v@) && v@.len() <= limit,
            Err(e) => zlib_read(input@, limit) == Err::<Seq<u8>, Seq<char>>(e@),
        },
{
    let mut output = Vec::new();
    match flate2::read::ZlibDecoder::new(input).take(limit).read_to_end(&mut output) {
        Ok(_) => Ok(output),
        Err(error) => Err(error.to_string()),
    }
}

/// The `type` member of an item header: a string, which it must have.
pub open spec fn type_field(d: Option<JsonData>) -> Result<Seq<char>, Seq<char>> {
    match d {
        None => Err("missing field `type`"@),
        Some(JsonData::Str(t)) => Ok(t),
        Some(_) => Err("invalid type for `type`, expected a string"@),
    }
}

/// The `length` member of an item header: absent or null for none, else a
/// non-negative integer that fits `usize`.
pub open spec fn length_field(d: Option<JsonData>) -> Result<Option<usize>, Seq<char>> {
    match d {
        None => Ok(None),
        Some(JsonData::Null) => Ok(None),
        Some(JsonData::Number(NumberData::PosInt(n))) => if n <= usize::MAX {
            Ok(Some(n as usize))
        } else {
            Err("invalid value for `length`, expected usize"@)
        },
        Some(_) => Err("invalid type for `length`, expected an unsigned integer"@),
    }
}

/// The fields of an item header: `type` and `length` of an object (other
/// members ignored), or the two items of an array in that order.
pub open spec fn header_fields(d: JsonData) -> Result<(Seq<char>, Option<usize>), Seq<char>> {
    let fields = match d {
        JsonData::Object(_) => Some((member(d, "type"@), member(d, "length"@))),
        JsonData::Array(xs) => if xs.len() == 2 {
            Some((Some(xs[0]), Some(xs[1])))
        } else {
            None
        },
        _ => None,
    };
    match fields {
        None => match d {
            JsonData::Array(_) => Err("invalid length, expected an item header of 2 elements"@),
            _ => Err("invalid type, expected an item header"@),
        },
        Some((t, l)) => match type_field(t) {
            Err(e) => Err(e),
            Ok(t) => match length_field(l) {
                Err(e) => Err(e),
                Ok(l) => Ok((t, l)),
            },
        },
    }
}

/// An item header line: its JSON syntax error, or its fields.
pub open spec fn item_header_of(bytes: Seq<u8>) -> Result<(Seq<char>, Option<usize>), Seq<char>> {
    match json_syntax_error(bytes) {
        Some(e) => Err(e),
        None => header_fields(json_value_of(bytes)),
    }
}

fn type_from(d: Option<&JsonValue>) -> (r: Result<String, String>)
    ensures
        match r {
            Ok(t) => type_field(opt_data(d)) == Ok::<Seq<char>, Seq<char>>(t@),
            Err(e) => type_field(opt_data(d)) == Err::<Seq<char>, Seq<char>>(e@),
        },
{
    match d {
        None => Err("missing field `type`".to_owned()),
        Some(v) => match v {
            JsonValue::String(t) => Ok(t.clone()),
            _ => Err("invalid type for `type`, expected a string".to_owned()),
        },
    }
}

fn length_from(d: Option<&JsonValue>) -> (r: Result<Option<usize>, String>)
    ensures
        match r {
            Ok(l) => length_field(opt_data(d)) == Ok::<Option<usize>, Seq<char>>(l),
            Err(e) => length_field(opt_data(d)) == Err::<Option<usize>, Seq<char>>(e@),
        },
{
    match d {
        None => Ok(None),
        Some(v) => match v {
            JsonValue::Null => Ok(None),
            JsonValue::Number(JsonNumber::PosInt(n)) => if *n <= usize::MAX as u64 {
                Ok(Some(*n as usize))
            } else {
                Err("invalid value for `length`, expected usize".to_owned())
            },
            _ => Err("invalid type for `length`, expected an unsigned integer".to_owned()),
        },
    }
}

pub open spec fn opt_data(d: Option<&JsonValue>) -> Option<JsonData> {
    match d {
        Some(v) => Some(v@),
        None => None,
    }
}

/// The `type` and `length` of an item header read as JSON.
pub fn item_header_from(v: &JsonValue) -> (r: Result<(String, Option<usize>), String>)
    ensures
        match r {
            Ok((t, l)) => header_fields(v@) == Ok::<(Seq<char>, Option<usize>), Seq<char>>((t@, l)),
            Err(e) => header_fields(v@) == Err::<(Seq<char>, Option<usize>), Seq<char>>(e@),
        },
{
    let (t, l) = match v {
        JsonValue::Object(_) => (v.get("type"), v.get("length")),
        JsonValue::Array(xs) => {
            proof {
                v.lemma_array_view();
            }
            if xs.len() == 2 {
                (Some(&xs[0]), Some(&xs[1]))
            } else {
                return Err("invalid length, expected an item header of 2 elements".to_owned());
            }
        },
        _ => {
            return Err("invalid type, expected an item header".to_owned());
        },
    };
    let item_type = type_from(t)?;
    let length = length_from(l)?;
    Ok((item_type, length))
}

/// Reads an item header line.
fn item_header(bytes: &[u8]) -> (r: Result<(String, Option<usize>), String>)
    ensures
        match r {
            Ok((t, l)) => item_header_of(bytes@) == Ok::<(Seq<char>, Option<usize>), Seq<char>>(
                (t@, l),
            ),
            Err(e) => item_header_of(bytes@) == Err::<(Seq<char>, Option<usize>), Seq<char>>(e@),
        },
{
    let v = json_value(bytes)?;
    item_header_from(&v)
}

/// A payload no larger than the decompression limit, else the refusal.
pub open spec fn size_checked(b: Seq<u8>) -> Result<Seq<u8>, ErrorData> {
    if b.len() > MAX_DECOMPRESSED_BYTES {
        Err(ErrorData::PayloadTooLarge("decompressed payload exceeds 20 MiB"@))
    } else {
        Ok(b)
    }
}

/// The outcome of a bounded decompression.
pub open spec fn limited(r: Result<Seq<u8>, Seq<char>>) -> Result<Seq<u8>, ErrorData> {
    match r {
        Ok(b) => size_checked(b),
        Err(m) => Err(ErrorData::BadRequest("invalid compressed payload: "@ + m)),
    }
}

/// The body of a request after its `Content-Encoding` is undone.
pub open spec fn decoded(enc: Option<Seq<char>>, input: Seq<u8>) -> Result<Seq<u8>, ErrorData> {
    let e = match enc {
        Some(e) => e,
        None => "identity"@,
    };
    if e == "identity"@ {
        size_checked(input)
    } else if e == "gzip"@ {
        limited(gzip_read(input, (MAX_DECOMPRESSED_BYTES + 1) as u64))
    } else if e == "deflate"@ || e == "zlib"@ {
        limited(zlib_read(input, (MAX_DECOMPRESSED_BYTES + 1) as u64))
    } else {
        Err(ErrorData::BadRequest("unsupported content encoding: "@ + e))
    }
}

pub open spec fn bytes_outcome(r: Result<Vec<u8>, AppError>) -> Result<Seq<u8>, ErrorData> {
    match r {
        Ok(b) => Ok(b@),
        Err(e) => Err(e@),
    }
}

fn ensure_size(bytes: Vec<u8>) -> (r: Result<Vec<u8>, AppError>)
    ensures
        bytes_outcome(r) == size_checked(bytes@),
{
    if bytes.len() > MAX_DECOMPRESSED_BYTES {
        Err(AppError::PayloadTooLarge("decompressed payload exceeds 20 MiB".to_owned()))
    } else {
        Ok(bytes)
    }
}

fn read_limited(read: Result<Vec<u8>, String>) -> (r: Result<Vec<u8>, AppError>)
    ensures
        bytes_outcome(r) == limited(
            match read {
                Ok(b) => Ok::<Seq<u8>, Seq<char>>(b@),
                Err(m) => Err::<Seq<u8>, Seq<char>>(m@),
            },
        ),
{
    match read {
        Ok(output) => ensure_size(output),
        Err(error) => {
            let mut m = "invalid compressed payload: ".to_owned();
            push_str(&mut m, error.as_str());
            Err(AppError::BadRequest(m))
        },
    }
}

/// Undoes the `Content-Encoding` of a request body (`identity`, the default,
/// `gzip`, or `deflate`/`zlib`), reading at most one byte past the
/// decompression limit, and refuses bodies over that limit.
pub fn decode(content_encoding: Option<&str>, input: &[u8]) -> (r: Result<Vec<u8>, AppError>)
    ensures
        bytes_outcome(r) == decoded(
            match content_encoding {
                Some(e) => Some(e@),
                None => None,
            },
            input@,
        ),
{
    let encoding = match content_encoding {
        Some(e) => e,
        None => "identity",
    };
    if str_eq(encoding, "identity") {
        let mut bytes: Vec<u8> = Vec::new();
        bytes.extend_from_slice(input);
        assert(bytes@ =~= input@);
        ensure_size(bytes)
    } else if str_eq(encoding, "gzip") {
        read_limited(gunzip_limited(input, (MAX_DECOMPRESSED_BYTES + 1) as u64))
    } else if str_eq(encoding, "deflate") || str_eq(encoding, "zlib") {
        read_limited(inflate_limited(input, (MAX_DECOMPRESSED_BYTES + 1) as u64))
    } else {
        let mut m = "unsupported content encoding: ".to_owned();
        push_str(&mut m, encoding);
        Err(AppError::BadRequest(m))
    }
}

/// The position of the first newline at or after `start`, or the end.
pub open spec fn newline_from(input: Seq<u8>, start: int) -> int
    decreases input.len() - start,
{
    if start >= input.len() {
        input.len() as int
    } else if input[start] == 10u8 {
        start
    } else {
        newline_from(input, start + 1)
    }
}

/// The line starting at `start` (without its newline) and the position after
/// it; a last line without a newline runs to the end.
pub open spec fn line_of(input: Seq<u8>, start: int) -> (Seq<u8>, int) {
    let e = newline_from(input, start);
    (
        input.subrange(start, e),
        if e < input.len() {
            e + 1
        } else {
            input.len() as int
        },
    )
}

proof fn lemma_newline_from(input: Seq<u8>, start: int)
    requires
        0 <= start <= input.len(),
    ensures
        start <= newline_from(input, start) <= input.len(),
        newline_from(input, start) < input.len() ==> input[newline_from(input, start)] == 10u8,
    decreases input.len() - start,
{
    if start < input.len() && input[start] != 10u8 {
        lemma_newline_from(input, start + 1);
    }
}

/// Item types whose payload is an event and has the event size limit.
pub open spec fn is_event_type(t: Seq<char>) -> bool {
    t == "event"@ || t == "transaction"@
}

/// The payload of an item whose header ends at `after`, and the position
/// after the payload: `length` bytes (and one newline after them), or the
/// next line.
pub open spec fn payload_at(input: Seq<u8>, after: int, length: Option<usize>) -> Result<
    (Seq<u8>, int),
    ErrorData,
> {
    match length {
        Some(l) => if after + l > input.len() {
            Err(ErrorData::BadRequest("truncated envelope item"@))
        } else {
            let end = after + l;
            Ok(
                (
                    input.subrange(after, end),
                    if end < input.len() && input[end] == 10u8 {
                        end + 1
                    } else {
                        end
                    },
                ),
            )
        },
        None => Ok(line_of(input, after)),
    }
}

/// The item whose header line starts at `cursor`, and the position after it.
pub open spec fn item_at(input: Seq<u8>, cursor: int) -> Result<((Seq<char>, Seq<u8>), int), ErrorData> {
    let (hb, after) = line_of(input, cursor);
    match item_header_of(hb) {
        Err(e) => Err(ErrorData::BadRequest("invalid item header: "@ + e)),
        Ok((t, length)) => match payload_at(input, after, length) {
            Err(e) => Err(e),
            Ok((p, next)) => if is_event_type(t) && p.len() > MAX_EVENT_BYTES {
                Err(ErrorData::PayloadTooLarge("event item exceeds 1 MiB"@))
            } else {
                Ok(((t, p), next))
            },
        },
    }
}

/// The items from `cursor` on, `count` items having come before; blank
/// lines between items are skipped.
pub open spec fn items_from(input: Seq<u8>, cursor: int, count: nat) -> Result<
    Seq<(Seq<char>, Seq<u8>)>,
    ErrorData,
>
    decreases input.len() - cursor,
{
    if cursor < 0 || cursor >= input.len() {
        Ok(Seq::empty())
    } else if input[cursor] == 10u8 {
        items_from(input, cursor + 1, count)
    } else if count >= MAX_ITEMS {
        Err(ErrorData::PayloadTooLarge("envelope contains more than 100 items"@))
    } else {
        match item_at(input, cursor) {
            Err(e) => Err(e),
            Ok((item, next)) => {
                proof {
                    lemma_item_at_advances(input, cursor);
                }
                match items_from(input, next, count + 1) {
                    Ok(rest) => Ok(seq![item] + rest),
                    Err(e) => Err(e),
                }
            },
        }
    }
}

/// An item that reads ends past its start and within the input.
pub proof fn lemma_item_at_advances(input: Seq<u8>, cursor: int)
    requires
        0 <= cursor < input.len(),
    ensures
        item_at(input, cursor) matches Ok((_, next)) ==> cursor < next <= input.len(),
{
    lemma_newline_from(input, cursor);
    let after = line_of(input, cursor).1;
    assert(cursor < after <= input.len());
    lemma_newline_from(input, after);
}

/// An envelope: a JSON header line, then its items.
pub open spec fn parsed_envelope(input: Seq<u8>) -> Result<Seq<(Seq<char>, Seq<u8>)>, ErrorData> {
    let (h, cursor) = line_of(input, 0);
    match json_syntax_error(h) {
        Some(e) => Err(ErrorData::BadRequest("invalid envelope header: "@ + e)),
        None => items_from(input, cursor, 0),
    }
}

pub open spec fn items_outcome(r: Result<Vec<EnvelopeItem>, AppError>) -> Result<
    Seq<(Seq<char>, Seq<u8>)>,
    ErrorData,
> {
    match r {
        Ok(items) => Ok(items@.map_values(|i: EnvelopeItem| i@)),
        Err(e) => Err(e@),
    }
}

pub open spec fn after_prefix(
    done: Seq<(Seq<char>, Seq<u8>)>,
    r: Result<Seq<(Seq<char>, Seq<u8>)>, ErrorData>,
) -> Result<Seq<(Seq<char>, Seq<u8>)>, ErrorData> {
    match r {
        Ok(rest) => Ok(done + rest),
        Err(e) => Err(e),
    }
}

/// The end of the line at `start` and the position after it.
fn line(input: &[u8], start: usize) -> (r: (usize, usize))
    requires
        start <= input.len(),
    ensures
        r.0 == newline_from(input@, start as int),
        r.1 == line_of(input@, start as int).1,
        start <= r.0 <= r.1 <= input.len(),
        r.0 < input.len() ==> r.1 == r.0 + 1,
        r.0 == input.len() ==> r.1 == input.len(),
{
    let mut i = start;
    while i < input.len() && input[i] != 10u8
        invariant
            start <= i <= input.len(),
            newline_from(input@, start as int) == newline_from(input@, i as int),
        decreases input.len() - i,
    {
        i = i + 1;
    }
    proof {
        lemma_newline_from(input@, start as int);
    }
    if i < input.len() {
        (i, i + 1)
    } else {
        (i, input.len())
    }
}

fn copy_bytes(input: &[u8], from: usize, to: usize) -> (r: Vec<u8>)
    requires
        from <= to <= input.len(),
    ensures
        r@ == input@.subrange(from as int, to as int),
{
    let mut r: Vec<u8> = Vec::new();
    r.extend_from_slice(&input[from..to]);
    assert(r@ =~= input@.subrange(from as int, to as int));
    r
}

/// Whether an item of type `t` carries an event (`event` or `transaction`).
pub fn is_event_item(t: &str) -> (r: bool)
    ensures
        r == is_event_type(t@),
{
    str_eq(t, "event") || str_eq(t, "transaction")
}

/// Splits an envelope into its items. The first line is the envelope header
/// and must be JSON. Each item is a JSON header line with a string `type` and
/// an optional `length`; the payload is `length` bytes (then an optional
/// newline) or, without a length, the next line. Blank lines between items
/// are skipped, the last line may lack its newline, at most 100 items are
/// accepted and an `event` or `transaction` payload may hold at most 1 MiB.
pub fn parse(input: &[u8]) -> (r: Result<Vec<EnvelopeItem>, AppError>)
    ensures
        items_outcome(r) == parsed_envelope(input@),
{
    let (hend, start) = line(input, 0);
    match json_value(&input[0..hend]) {
        Err(error) => {
            assert(input@.subrange(0, hend as int) =~= line_of(input@, 0).0);
            let mut m = "invalid envelope header: ".to_owned();
            push_str(&mut m, error.as_str());
            return Err(AppError::BadRequest(m));
        },
        Ok(_) => {
            assert(input@.subrange(0, hend as int) =~= line_of(input@, 0).0);
        },
    }
    let mut items: Vec<EnvelopeItem> = Vec::new();
    let mut cursor = start;
    assert(items@.map_values(|i: EnvelopeItem| i@) =~= Seq::<(Seq<char>, Seq<u8>)>::empty());
    assert(after_prefix(Seq::empty(), items_from(input@, cursor as int, 0)) == items_from(
        input@,
        cursor as int,
        0,
    )) by {
        match items_from(input@, cursor as int, 0) {
            Ok(rest) => {
                assert(Seq::<(Seq<char>, Seq<u8>)>::empty() + rest =~= rest);
            },
            Err(_) => {},
        }
    }
    while cursor < input.len()
        invariant
            cursor <= input.len(),
            items@.len() <= MAX_ITEMS,
            json_syntax_error(line_of(input@, 0).0) is None,
            parsed_envelope(input@) == after_prefix(
                items@.map_values(|i: EnvelopeItem| i@),
                items_from(input@, cursor as int, items@.len() as nat),
            ),
        decreases input.len() - cursor,
    {
        let ghost done = items@.map_values(|i: EnvelopeItem| i@);
        if input[cursor] == 10u8 {
            cursor = cursor + 1;
            continue ;
        }
        if items.len() >= MAX_ITEMS {
            return Err(
                AppError::PayloadTooLarge("envelope contains more than 100 items".to_owned()),
            );
        }
        let (hend, after) = line(input, cursor);
        assert(input@.subrange(cursor as int, hend as int) == line_of(input@, cursor as int).0);
        let header = item_header(&input[cursor..hend]);
        let (item_type, length) = match header {
            Err(error) => {
                let mut m = "invalid item header: ".to_owned();
                push_str(&mut m, error.as_str());
                return Err(AppError::BadRequest(m));
            },
            Ok(h) => h,
        };
        let (payload, next) = match length {
            Some(l) => {
                if l > input.len() - after {
                    return Err(AppError::BadRequest("truncated envelope item".to_owned()));
                }
                let end = after + l;
                let payload = copy_bytes(input, after, end);
                let next = if end < input.len() && input[end] == 10u8 {
                    end + 1
                } else {
                    end
                };
                (payload, next)
            },
            None => {
                let (pend, pnext) = line(input, after);
                let payload = copy_bytes(input, after, pend);
                (payload, pnext)
            },
        };
        if is_event_item(item_type.as_str()) && payload.len() > MAX_EVENT_BYTES {
            return Err(AppError::PayloadTooLarge("event item exceeds 1 MiB".to_owned()));
        }
        let ghost item = (item_type@, payload@);
        assert(item_at(input@, cursor as int) == Ok::<((Seq<char>, Seq<u8>), int), ErrorData>(
            (item, next as int),
        ));
        items.push(EnvelopeItem { item_type, payload });
        proof {
            assert(items@.map_values(|i: EnvelopeItem| i@) =~= done.push(item));
            match items_from(input@, next as int, (items@.len()) as nat) {
                Ok(rest) => {
                    assert(done + (seq![item] + rest) =~= done.push(item) + rest);
                },
                Err(_) => {},
            }
        }
        cursor = next;
    }
    assert(items@.map_values(|i: EnvelopeItem| i@) + Seq::<(Seq<char>, Seq<u8>)>::empty()
        =~= items@.map_values(|i: EnvelopeItem| i@));
    Ok(items)
}

proof fn lemma_items_from_within_limits(input: Seq<u8>, cursor: int, count: nat)
    requires
        count <= MAX_ITEMS,
    ensures
        items_from(input, cursor, count) matches Ok(items) ==> count + items.len() <= MAX_ITEMS
            && forall|i: int|
            0 <= i < items.len() && is_event_type(#[trigger] items[i].0) ==> items[i].1.len()
                <= MAX_EVENT_BYTES,
    decreases input.len() - cursor,
{
    if cursor < 0 || cursor >= input.len() {
    } else if input[cursor] == 10u8 {
        lemma_items_from_within_limits(input, cursor + 1, count);
    } else if count >= MAX_ITEMS {
    } else {
        match item_at(input, cursor) {
            Err(_) => {},
            Ok((item, next)) => {
                lemma_item_at_advances(input, cursor);
                lemma_items_from_within_limits(input, next, count + 1);
                match items_from(input, next, count + 1) {
                    Ok(rest) => {
                        let all = seq![item] + rest;
                        assert forall|i: int|
                            0 <= i < all.len() && is_event_type(#[trigger] all[i].0) implies all[i].1.len()
                            <= MAX_EVENT_BYTES by {
                            if i > 0 {
                                assert(all[i] == rest[i - 1]);
                            }
                        }
                    },
                    Err(_) => {},
                }
            },
        }
    }
}

/// An envelope that parses holds at most 100 items, and no event or
/// transaction payload among them exceeds 1 MiB.
pub proof fn lemma_parsed_envelope_within_limits(input: Seq<u8>)
    ensures
        parsed_envelope(input) matches Ok(items) ==> items.len() <= MAX_ITEMS && forall|i: int|
            0 <= i < items.len() && is_event_type(#[trigger] items[i].0) ==> items[i].1.len()
                <= MAX_EVENT_BYTES,
{
    let (h, cursor) = line_of(input, 0);
    if json_syntax_error(h) is None {
        lemma_items_from_within_limits(input, cursor, 0);
    }
}

/// Items framed as an envelope's body with their lengths: each item's
/// header line, a newline, its payload and a newline.
pub open spec fn framed(heads: Seq<Seq<u8>>, items: Seq<(Seq<char>, Seq<u8>)>) -> Seq<u8>
    decreases items.len(),
{
    if items.len() == 0 || heads.len() == 0 {
        Seq::empty()
    } else {
        heads[0] + seq![10u8] + items[0].1 + seq![10u8] + framed(heads.drop_first(), items.drop_first())
    }
}

/// What a framed item header must be for the item to read back: a non-empty
/// line of JSON that reads as an object whose `type` member is the item's
/// type and whose `length` member is its payload's length, within the event
/// size limit for events.
pub open spec fn header_reads_as(head: Seq<u8>, item: (Seq<char>, Seq<u8>)) -> bool {
    &&& head.len() > 0
    &&& !head.contains(10u8)
    &&& json_syntax_error(head) is None
    &&& json_value_of(head) is Object
    &&& member(json_value_of(head), "type"@) == Some(JsonData::Str(item.0))
    &&& item.1.len() <= usize::MAX
    &&& member(json_value_of(head), "length"@) == Some(
        JsonData::Number(NumberData::PosInt(item.1.len() as u64)),
    )
    &&& is_event_type(item.0) ==> item.1.len() <= MAX_EVENT_BYTES
}

proof fn lemma_newline_at(input: Seq<u8>, start: int, e: int)
    requires
        0 <= start <= e < input.len(),
        input[e] == 10u8,
        forall|j: int| start <= j < e ==> input[j] != 10u8,
    ensures
        newline_from(input, start) == e,
    decreases e - start,
{
    if start < e {
        lemma_newline_at(input, start + 1, e);
    }
}

proof fn lemma_framed_items_read_back(
    pre: Seq<u8>,
    heads: Seq<Seq<u8>>,
    items: Seq<(Seq<char>, Seq<u8>)>,
    count: nat,
)
    requires
        heads.len() == items.len(),
        count + items.len() <= MAX_ITEMS,
        forall|i: int| 0 <= i < items.len() ==> header_reads_as(#[trigger] heads[i], items[i]),
    ensures
        items_from(pre + framed(heads, items), pre.len() as int, count) == Ok::<
            Seq<(Seq<char>, Seq<u8>)>,
            ErrorData,
        >(items),
    decreases items.len(),
{
    let input = pre + framed(heads, items);
    let c = pre.len() as int;
    if items.len() == 0 {
        assert(input =~= pre);
        assert(items =~= Seq::<(Seq<char>, Seq<u8>)>::empty());
    } else {
        let h = heads[0];
        let p = items[0].1;
        let rest = framed(heads.drop_first(), items.drop_first());
        assert(header_reads_as(heads[0], items[0]));
        assert(item_header_of(h) == Ok::<(Seq<char>, Option<usize>), Seq<char>>(
            (items[0].0, Some(p.len() as usize)),
        ));
        let pre2 = pre + h + seq![10u8] + p + seq![10u8];
        assert(input =~= pre2 + rest);
        let e = c + h.len();
        assert(input[c] == h[0]);
        assert(h.contains(h[0]));
        assert forall|j: int| c <= j < e implies input[j] != 10u8 by {
            assert(input[j] == h[j - c]);
            if input[j] == 10u8 {
                assert(h.contains(h[j - c]));
            }
        }
        assert(input[e] == 10u8);
        lemma_newline_at(input, c, e);
        assert(input.subrange(c, e) =~= h);
        let after = e + 1;
        let end = after + p.len();
        assert(input.subrange(after, end) =~= p);
        assert(input[end] == 10u8);
        assert(end < input.len());
        assert(item_at(input, c) == Ok::<((Seq<char>, Seq<u8>), int), ErrorData>(
            (items[0], end + 1),
        ));
        assert(end + 1 == pre2.len());
        assert forall|i: int| 0 <= i < items.drop_first().len() implies header_reads_as(
            #[trigger] heads.drop_first()[i],
            items.drop_first()[i],
        ) by {
            assert(heads.drop_first()[i] == heads[i + 1]);
            assert(items.drop_first()[i] == items[i + 1]);
        }
        lemma_framed_items_read_back(pre2, heads.drop_first(), items.drop_first(), count + 1);
        lemma_item_at_advances(input, c);
        assert(input[c] != 10u8);
        assert(count < MAX_ITEMS);
        assert(items_from(input, end + 1, count + 1) == Ok::<Seq<(Seq<char>, Seq<u8>)>, ErrorData>(
            items.drop_first(),
        ));
        assert(seq![items[0]] + items.drop_first() =~= items);
    }
}

/// An envelope framed from a header line and items with length-bearing item
/// headers parses back to exactly those items, in order, when the header line
/// is JSON and each item header is a JSON object naming its item's type and
/// payload length.
pub proof fn lemma_framed_envelope_parses(
    header: Seq<u8>,
    heads: Seq<Seq<u8>>,
    items: Seq<(Seq<char>, Seq<u8>)>,
)
    requires
        !header.contains(10u8),
        json_syntax_error(header) is None,
        heads.len() == items.len(),
        items.len() <= MAX_ITEMS,
        forall|i: int| 0 <= i < items.len() ==> header_reads_as(#[trigger] heads[i], items[i]),
    ensures
        parsed_envelope(header + seq![10u8] + framed(heads, items)) == Ok::<
            Seq<(Seq<char>, Seq<u8>)>,
            ErrorData,
        >(items),
{
    let pre = header + seq![10u8];
    let input = pre + framed(heads, items);
    assert forall|j: int| 0 <= j < header.len() implies input[j] != 10u8 by {
        assert(input[j] == header[j]);
        if input[j] == 10u8 {
            assert(header.contains(header[j]));
        }
    }
    assert(input[header.len() as int] == 10u8);
    lemma_newline_at(input, 0, header.len() as int);
    assert(input.subrange(0, header.len() as int) =~= header);
    lemma_framed_items_read_back(pre, heads, items, 0);
}

/// A decoded body never exceeds the 20 MiB decompression limit.
pub proof fn lemma_decoded_within_limit(enc: Option<Seq<char>>, input: Seq<u8>)
    ensures
        decoded(enc, input) matches Ok(b) ==> b.len() <= MAX_DECOMPRESSED_BYTES,
{
}

} // verus!
