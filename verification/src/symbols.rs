//! Debug files (source maps and native symbol files) and the symbolication
//! of an event's stack frames with them.
use vstd::prelude::*;
use object::{Object, ObjectSymbol};
use crate::json::{
    inserted, items_of, member, member_text, member_text_or_empty, u64_of, with_member, JsonData,
    JsonNumber, JsonValue,
};
use crate::source_map::{decode_map, source_map_token, token_in, TokenInfo};
use crate::text::{chars_of, ends_with, has_prefix, has_suffix, slice_chars, starts_with, str_eq, string_of};

verus! {

/// The error `sourcemap::decode_slice` reports for `payload`, if any.
pub uninterp spec fn source_map_error(payload: Seq<u8>) -> Option<Seq<char>>;

/// The symbols of a native object file in table order, as (address, size,
/// name when it decodes); nothing when the file does not parse.
pub uninterp spec fn object_symbol_table(payload: Seq<u8>) -> Option<
    Seq<(u64, u64, Option<Seq<char>>)>,
>;

/// `object::File::parse`, then `symbols()` with each symbol's `address`,
/// `size` and `name` (kept when it decodes). Trusted: the result is the named
/// function of the argument.
#[verifier::external_body]
fn object_symbols(payload: &[u8]) -> (r: Option<Vec<(u64, u64, Option<String>)>>)
    ensures
        match r {
            Some(v) => object_symbol_table(payload@) == Some(symbols_view(v@)),
            None => object_symbol_table(payload@) is None,
        },
{
    let file = object::File::parse(payload).ok()?;
    Some(file.symbols().map(|s| (s.address(), s.size(), s.name().ok().map(str::to_owned))).collect())
}

pub open spec fn opt_text(o: Option<String>) -> Option<Seq<char>> {
    match o {
        Some(s) => Some(s@),
        None => None,
    }
}

pub open spec fn token_view(t: Option<TokenInfo>) -> Option<(Option<Seq<char>>, Option<Seq<char>>, u32, u32)> {
    match t {
        Some((src, name, l, c)) => Some((opt_text(src), opt_text(name), l, c)),
        None => None,
    }
}

pub open spec fn symbols_view(v: Seq<(u64, u64, Option<String>)>) -> Seq<(u64, u64, Option<Seq<char>>)> {
    v.map_values(|s: (u64, u64, Option<String>)| (s.0, s.1, opt_text(s.2)))
}

/// What an upload of `kind` must be: a source map that decodes, or a native
/// symbol file that starts like an ELF, Mach-O or PDB file.
pub open spec fn debug_file_problem(kind: Seq<char>, payload: Seq<u8>) -> Option<Seq<char>> {
    if kind == "source_map"@ {
        source_map_error(payload)
    } else if kind == "native_symbol"@ {
        if starts_with_bytes(payload, seq![0x7fu8, 0x45u8, 0x4cu8, 0x46u8]) || starts_with_bytes(
            payload,
            seq![0xfeu8, 0xedu8, 0xfau8],
        ) || starts_with_bytes(payload, pdb_magic()) {
            None
        } else {
            Some("unrecognized ELF, Mach-O, or PDB symbol file"@)
        }
    } else {
        Some("kind must be source_map or native_symbol"@)
    }
}

/// The bytes of `Microsoft C/C++`.
pub open spec fn pdb_magic() -> Seq<u8> {
    seq![
        0x4du8, 0x69u8, 0x63u8, 0x72u8, 0x6fu8, 0x73u8, 0x6fu8, 0x66u8, 0x74u8, 0x20u8, 0x43u8,
        0x2fu8, 0x43u8, 0x2bu8, 0x2bu8,
    ]
}

pub open spec fn starts_with_bytes(s: Seq<u8>, p: Seq<u8>) -> bool {
    p.len() <= s.len() && s.subrange(0, p.len() as int) == p
}

fn bytes_start_with(s: &[u8], p: &[u8]) -> (r: bool)
    ensures
        r == starts_with_bytes(s@, p@),
{
    if p.len() > s.len() {
        return false;
    }
    let mut i: usize = 0;
    while i < p.len()
        invariant
            p@.len() <= s@.len(),
            i <= p@.len(),
            forall|j: int| 0 <= j < i ==> s@[j] == p@[j],
        decreases p.len() - i,
    {
        if s[i] != p[i] {
            assert(s@.subrange(0, p@.len() as int)[i as int] != p@[i as int]);
            return false;
        }
        i = i + 1;
    }
    assert(s@.subrange(0, p@.len() as int) =~= p@);
    true
}

/// Checks an uploaded debug file of `kind` (`source_map` or
/// `native_symbol`), returning the reason it is refused.
pub fn validate_debug_file(kind: &str, payload: &[u8]) -> (r: Result<(), String>)
    ensures
        r is Ok <==> debug_file_problem(kind@, payload@) is None,
        r matches Err(e) ==> debug_file_problem(kind@, payload@) == Some(e@),
{
    if str_eq(kind, "source_map") {
        match decode_map(payload) {
            Err(e) => Err(e),
            Ok(_) => Ok(()),
        }
    } else if str_eq(kind, "native_symbol") {
        let elf: [u8; 4] = [0x7f, 0x45, 0x4c, 0x46];
        let macho: [u8; 3] = [0xfe, 0xed, 0xfa];
        let pdb: [u8; 15] = [
            0x4d, 0x69, 0x63, 0x72, 0x6f, 0x73, 0x6f, 0x66, 0x74, 0x20, 0x43, 0x2f, 0x43, 0x2b, 0x2b,
        ];
        assert(elf@ =~= seq![0x7fu8, 0x45u8, 0x4cu8, 0x46u8]);
        assert(macho@ =~= seq![0xfeu8, 0xedu8, 0xfau8]);
        assert(pdb@ =~= pdb_magic());
        if bytes_start_with(payload, elf.as_slice()) || bytes_start_with(payload, macho.as_slice())
            || bytes_start_with(payload, pdb.as_slice()) {
            Ok(())
        } else {
            Err("unrecognized ELF, Mach-O, or PDB symbol file".to_owned())
        }
    } else {
        Err("kind must be source_map or native_symbol".to_owned())
    }
}

/// A debug file of a release: its name and contents.
#[derive(Debug)]
pub struct DebugFile {
    pub name: String,
    pub payload: Vec<u8>,
}

pub open spec fn files_view(fs: Seq<DebugFile>) -> Seq<(Seq<char>, Seq<u8>)> {
    fs.map_values(|f: DebugFile| (f.name@, f.payload@))
}

/// `s` with every trailing `.map` removed, as `trim_end_matches(".map")`.
pub open spec fn without_map_suffix(s: Seq<char>) -> Seq<char>
    decreases s.len(),
{
    if s.len() >= 4 && ends_with(s, ".map"@) {
        without_map_suffix(s.subrange(0, s.len() - 4))
    } else {
        s
    }
}

/// `s` with every leading `0x` removed, as `trim_start_matches("0x")`.
pub open spec fn without_hex_prefix(s: Seq<char>) -> Seq<char>
    decreases s.len(),
{
    if s.len() >= 2 && starts_with(s, "0x"@) {
        without_hex_prefix(s.subrange(2, s.len() as int))
    } else {
        s
    }
}

/// The value of a hexadecimal digit.
pub open spec fn hex_digit(c: char) -> Option<nat> {
    if '0' <= c <= '9' {
        Some((c as nat - '0' as nat) as nat)
    } else if 'a' <= c <= 'f' {
        Some((c as nat - 'a' as nat + 10) as nat)
    } else if 'A' <= c <= 'F' {
        Some((c as nat - 'A' as nat + 10) as nat)
    } else {
        None
    }
}

pub open spec fn all_hex(s: Seq<char>) -> bool {
    forall|i: int| 0 <= i < s.len() ==> #[trigger] hex_digit(s[i]) is Some
}

/// The number the hexadecimal digits `s` stand for.
pub open spec fn hex_number(s: Seq<char>) -> nat
    decreases s.len(),
{
    if s.len() == 0 {
        0
    } else {
        hex_number(s.drop_last()) * 16 + hex_digit(s.last())->0
    }
}

/// What `u64::from_str_radix(s, 16)` gives: an optional `+`, then at least
/// one hexadecimal digit, the value fitting in 64 bits.
pub open spec fn parsed_hex(s: Seq<char>) -> Option<u64> {
    let digits = if s.len() > 0 && s[0] == '+' {
        s.drop_first()
    } else {
        s
    };
    if digits.len() == 0 || !all_hex(digits) || hex_number(digits) > u64::MAX {
        None
    } else {
        Some(hex_number(digits) as u64)
    }
}

proof fn lemma_hex_number_grows(s: Seq<char>, j: int)
    requires
        0 <= j <= s.len(),
        all_hex(s),
    ensures
        hex_number(s.take(j)) <= hex_number(s),
    decreases s.len() - j,
{
    if j < s.len() {
        lemma_hex_number_grows(s, j + 1);
        assert(s.take(j + 1).drop_last() =~= s.take(j));
        assert(hex_number(s.take(j + 1)) == hex_number(s.take(j)) * 16 + hex_digit(s[j])->0);
    } else {
        assert(s.take(j) =~= s);
    }
}

fn hex_digit_value(c: char) -> (r: Option<u64>)
    ensures
        match r {
            Some(v) => hex_digit(c) == Some(v as nat),
            None => hex_digit(c) is None,
        },
{
    if '0' <= c && c <= '9' {
        Some((c as u64) - ('0' as u64))
    } else if 'a' <= c && c <= 'f' {
        Some((c as u64) - ('a' as u64) + 10)
    } else if 'A' <= c && c <= 'F' {
        Some((c as u64) - ('A' as u64) + 10)
    } else {
        None
    }
}

fn parse_hex(s: &Vec<char>) -> (r: Option<u64>)
    ensures
        r == parsed_hex(s@),
{
    let start: usize = if s.len() > 0 && s[0] == '+' {
        1
    } else {
        0
    };
    let ghost digits = if s@.len() > 0 && s@[0] == '+' {
        s@.drop_first()
    } else {
        s@
    };
    assert(digits =~= s@.subrange(start as int, s@.len() as int));
    if start >= s.len() {
        return None;
    }
    let mut acc: u64 = 0;
    let mut i: usize = start;
    while i < s.len()
        invariant
            start <= i <= s.len(),
            digits == s@.subrange(start as int, s@.len() as int),
            digits == (if s@.len() > 0 && s@[0] == '+' {
                s@.drop_first()
            } else {
                s@
            }),
            all_hex(digits.take(i - start)),
            acc == hex_number(digits.take(i - start)),
        decreases s.len() - i,
    {
        let d = match hex_digit_value(s[i]) {
            Some(d) => d,
            None => {
                assert(digits[i - start] == s@[i as int]);
                assert(hex_digit(digits[(i - start) as int]) is None);
                assert(!all_hex(digits));
                return None;
            },
        };
        let ghost pre = digits.take(i - start);
        let ghost next = digits.take(i - start + 1);
        assert(next.drop_last() =~= pre);
        assert(next.last() == s@[i as int]);
        if acc > (u64::MAX - d) / 16 {
            proof {
                assert forall|j: int| 0 <= j < next.len() implies #[trigger] hex_digit(next[j]) is Some by {
                    if j < pre.len() {
                        assert(next[j] == pre[j]);
                    }
                }
                assert(all_hex(next));
                assert(hex_number(next) == acc * 16 + d);
                assert(hex_number(next) > u64::MAX) by (nonlinear_arith)
                    requires
                        acc > (u64::MAX - d) / 16,
                        hex_number(next) == acc * 16 + d,
                        d <= 15,
                ;
                if all_hex(digits) {
                    lemma_hex_number_grows(digits, i - start + 1);
                    assert(hex_number(digits) > u64::MAX);
                }
            }
            return None;
        }
        proof {
            assert(acc * 16 + d <= u64::MAX) by (nonlinear_arith)
                requires
                    acc <= (u64::MAX - d) / 16,
                    d <= 15,
            ;
        }
        acc = acc * 16 + d;
        i = i + 1;
    }
    assert(digits.take(s@.len() - start) =~= digits);
    Some(acc)
}

/// The generated position a frame asks about: its line and column, 1-based
/// in the frame (1 when absent), made 0-based and narrowed to 32 bits.
pub open spec fn frame_position(f: JsonData, key: Seq<char>) -> u32 {
    let n = match member(f, key) {
        Some(v) => match u64_of(v) {
            Some(n) => n,
            None => 1u64,
        },
        None => 1u64,
    };
    (if n >= 1 {
        n - 1
    } else {
        0
    }) as u32
}

/// The first source map whose name (without `.map` suffixes) ends the
/// frame's file name.
pub open spec fn map_for(maps: Seq<(Seq<char>, Seq<u8>)>, filename: Seq<char>) -> Option<Seq<u8>>
    decreases maps.len(),
{
    if maps.len() == 0 {
        None
    } else if ends_with(filename, without_map_suffix(maps[0].0)) {
        Some(maps[0].1)
    } else {
        map_for(maps.drop_first(), filename)
    }
}

/// The map used for a frame is the first uploaded source map, in upload
/// order, whose name without `.map` ends the frame's file name: maps before
/// it that match nothing do not stop it from being found.
pub proof fn lemma_first_matching_map_is_used(
    maps: Seq<(Seq<char>, Seq<u8>)>,
    filename: Seq<char>,
    i: int,
)
    requires
        0 <= i < maps.len(),
        ends_with(filename, without_map_suffix(maps[i].0)),
        forall|j: int| 0 <= j < i ==> !ends_with(filename, without_map_suffix(#[trigger] maps[j].0)),
    ensures
        map_for(maps, filename) == Some(maps[i].1),
    decreases i,
{
    if i > 0 {
        assert(!ends_with(filename, without_map_suffix(maps[0].0)));
        let rest = maps.drop_first();
        assert forall|j: int| 0 <= j < i - 1 implies !ends_with(
            filename,
            without_map_suffix(#[trigger] rest[j].0),
        ) by {
            assert(rest[j] == maps[j + 1]);
        }
        assert(rest[i - 1] == maps[i]);
        lemma_first_matching_map_is_used(rest, filename, i - 1);
    }
}

/// No source map is used for a frame whose file name no uploaded map's name
/// (without `.map`) ends.
pub proof fn lemma_no_matching_map_is_none(maps: Seq<(Seq<char>, Seq<u8>)>, filename: Seq<char>)
    requires
        forall|j: int|
            0 <= j < maps.len() ==> !ends_with(filename, without_map_suffix(#[trigger] maps[j].0)),
    ensures
        map_for(maps, filename) is None,
    decreases maps.len(),
{
    if maps.len() > 0 {
        assert(!ends_with(filename, without_map_suffix(maps[0].0)));
        let rest = maps.drop_first();
        assert forall|j: int| 0 <= j < rest.len() implies !ends_with(
            filename,
            without_map_suffix(#[trigger] rest[j].0),
        ) by {
            assert(rest[j] == maps[j + 1]);
        }
        lemma_no_matching_map_is_none(rest, filename);
    }
}

/// The one-based value of a zero-based source position, wrapping at 32 bits.
pub open spec fn one_based(x: u32) -> u64 {
    ((x as int + 1) % 0x1_0000_0000) as u64
}

/// A frame with a source-map token applied: source file and function name
/// when the token has them, then line and column.
pub open spec fn apply_token(
    f: JsonData,
    t: (Option<Seq<char>>, Option<Seq<char>>, u32, u32),
) -> JsonData {
    let f1 = match t.0 {
        Some(src) => inserted(f, "filename"@, JsonData::Str(src)),
        None => f,
    };
    let f2 = match t.1 {
        Some(name) => inserted(f1, "function"@, JsonData::Str(name)),
        None => f1,
    };
    let f3 = inserted(f2, "lineno"@, JsonData::Number(crate::json::NumberData::PosInt(one_based(t.2))));
    inserted(f3, "colno"@, JsonData::Number(crate::json::NumberData::PosInt(one_based(t.3))))
}

/// A frame after the source maps: remapped when a source map matches its
/// file and has a token for its position; the map's decoding error aborts.
pub open spec fn frame_after_maps(f: JsonData, maps: Seq<(Seq<char>, Seq<u8>)>) -> Result<(JsonData, bool), Seq<char>> {
    match map_for(maps, member_text_or_empty(f, "filename"@)) {
        None => Ok((f, false)),
        Some(payload) => match source_map_token(
            payload,
            frame_position(f, "lineno"@),
            frame_position(f, "colno"@),
        ) {
            Err(e) => Err(e),
            Ok(None) => Ok((f, false)),
            Ok(Some(t)) => if f is Object {
                Ok((apply_token(f, t), true))
            } else {
                Ok((f, false))
            },
        },
    }
}

/// Whether a symbol's range (at least one byte) holds `a`.
pub open spec fn covers(s: (u64, u64, Option<Seq<char>>), a: u64) -> bool {
    let size = if s.1 < 1 {
        1
    } else {
        s.1
    };
    let end = if s.0 + size > u64::MAX {
        u64::MAX as int
    } else {
        s.0 + size
    };
    s.0 <= a && end > a
}

/// The symbol holding `a` with the highest address, the last of equals.
pub open spec fn best_symbol(syms: Seq<(u64, u64, Option<Seq<char>>)>, a: u64) -> Option<
    (u64, u64, Option<Seq<char>>),
>
    decreases syms.len(),
{
    if syms.len() == 0 {
        None
    } else {
        let rest = best_symbol(syms.drop_last(), a);
        let s = syms.last();
        if covers(s, a) && match rest {
            Some(r) => s.0 >= r.0,
            None => true,
        } {
            Some(s)
        } else {
            rest
        }
    }
}

/// A frame after the native symbol files from the `k`-th on: the function is
/// named by the first file that parses and whose best symbol for the address
/// has a name.
pub open spec fn native_from(f: JsonData, natives: Seq<Seq<u8>>, a: u64, k: int) -> (JsonData, bool)
    decreases natives.len() - k,
{
    if k < 0 || k >= natives.len() {
        (f, false)
    } else {
        match object_symbol_table(natives[k]) {
            None => native_from(f, natives, a, k + 1),
            Some(syms) => match best_symbol(syms, a) {
                Some((_, _, Some(name))) => if f is Object {
                    (inserted(f, "function"@, JsonData::Str(name)), true)
                } else {
                    (f, false)
                },
                _ => native_from(f, natives, a, k + 1),
            },
        }
    }
}

/// The frame's instruction address, hexadecimal with optional `0x`.
pub open spec fn frame_address(f: JsonData) -> Option<u64> {
    match member_text(f, "instruction_addr"@) {
        Some(t) => parsed_hex(without_hex_prefix(t)),
        None => None,
    }
}

pub open spec fn frame_after_natives(f: JsonData, natives: Seq<Seq<u8>>) -> (JsonData, bool) {
    match frame_address(f) {
        Some(a) => native_from(f, natives, a, 0),
        None => (f, false),
    }
}

/// One frame symbolicated: source maps first, then native symbols.
pub open spec fn symbolicated_frame(
    f: JsonData,
    maps: Seq<(Seq<char>, Seq<u8>)>,
    natives: Seq<Seq<u8>>,
) -> Result<(JsonData, bool), Seq<char>> {
    match frame_after_maps(f, maps) {
        Err(e) => Err(e),
        Ok((g, c1)) => {
            let (h, c2) = frame_after_natives(g, natives);
            Ok((h, c1 || c2))
        },
    }
}

/// All frames symbolicated in order, and whether any changed; the first
/// source-map error aborts.
pub open spec fn symbolicated_frames(
    fs: Seq<JsonData>,
    maps: Seq<(Seq<char>, Seq<u8>)>,
    natives: Seq<Seq<u8>>,
) -> Result<(Seq<JsonData>, bool), Seq<char>>
    decreases fs.len(),
{
    if fs.len() == 0 {
        Ok((Seq::empty(), false))
    } else {
        match symbolicated_frame(fs[0], maps, natives) {
            Err(e) => Err(e),
            Ok((g, c)) => match symbolicated_frames(fs.drop_first(), maps, natives) {
                Err(e) => Err(e),
                Ok((gs, cs)) => Ok((seq![g] + gs, c || cs)),
            },
        }
    }
}

/// The frames of the first exception value, `values[0].stacktrace.frames`.
pub open spec fn first_value_frames(exc: JsonData) -> Option<Seq<JsonData>> {
    match member(exc, "values"@) {
        Some(v) => match items_of(v) {
            Some(xs) => if xs.len() > 0 {
                match member(xs[0], "stacktrace"@) {
                    Some(st) => match member(st, "frames"@) {
                        Some(f) => items_of(f),
                        None => None,
                    },
                    None => None,
                }
            } else {
                None
            },
            None => None,
        },
        None => None,
    }
}

/// The exception with the frames of its first value replaced.
pub open spec fn with_first_value_frames(exc: JsonData, frames: Seq<JsonData>) -> JsonData {
    let xs = items_of(member(exc, "values"@)->0)->0;
    let st = member(xs[0], "stacktrace"@)->0;
    let st2 = with_member(st, "frames"@, JsonData::Array(frames));
    let first2 = with_member(xs[0], "stacktrace"@, st2);
    with_member(exc, "values"@, JsonData::Array(xs.update(0, first2)))
}

/// The symbolicated exception of an event, or why there is none: no debug
/// file, no stack frames, a source map that does not decode, or no frame
/// that changed.
pub open spec fn symbolication(
    exc: JsonData,
    maps: Seq<(Seq<char>, Seq<u8>)>,
    natives: Seq<(Seq<char>, Seq<u8>)>,
) -> Result<JsonData, Seq<char>> {
    if maps.len() == 0 && natives.len() == 0 {
        Err("no debug file matches event release"@)
    } else {
        match first_value_frames(exc) {
            None => Err("event has no stack frames"@),
            Some(fs) => match symbolicated_frames(
                fs,
                maps,
                natives.map_values(|n: (Seq<char>, Seq<u8>)| n.1),
            ) {
                Err(e) => Err(e),
                Ok((gs, changed)) => if !changed {
                    Err("no stack frame matched uploaded source maps"@)
                } else {
                    Ok(with_first_value_frames(exc, gs))
                },
            },
        }
    }
}

/// Only events with a release can be symbolicated.
pub fn event_release(release: Option<String>) -> (r: Result<String, String>)
    ensures
        release is Some <==> r is Ok,
        r matches Ok(v) ==> v@ == release->0@,
        r matches Err(e) ==> e@ == "event has no release"@,
{
    match release {
        Some(r) => Ok(r),
        None => Err("event has no release".to_owned()),
    }
}

fn map_for_file(maps: &Vec<DebugFile>, filename: &Vec<char>) -> (r: Option<usize>)
    ensures
        match r {
            Some(i) => i < maps@.len() && map_for(files_view(maps@), filename@) == Some(
                maps@[i as int].payload@,
            ),
            None => map_for(files_view(maps@), filename@) is None,
        },
{
    let ghost fv = files_view(maps@);
    let mut i: usize = 0;
    assert(fv.subrange(0, fv.len() as int) =~= fv);
    while i < maps.len()
        invariant
            i <= maps@.len(),
            fv == files_view(maps@),
            map_for(fv, filename@) == map_for(fv.subrange(i as int, fv.len() as int), filename@),
        decreases maps.len() - i,
    {
        let ghost rest = fv.subrange(i as int, fv.len() as int);
        assert(rest.drop_first() =~= fv.subrange(i + 1, fv.len() as int));
        assert(rest[0] == (maps@[i as int].name@, maps@[i as int].payload@));
        let stem = strip_map_suffix(&chars_of(maps[i].name.as_str()));
        if has_suffix(filename, &stem) {
            return Some(i);
        }
        i = i + 1;
    }
    None
}

fn strip_map_suffix(s: &Vec<char>) -> (r: Vec<char>)
    ensures
        r@ == without_map_suffix(s@),
{
    let suffix = chars_of(".map");
    proof {
        reveal_strlit(".map");
    }
    let mut end: usize = s.len();
    let mut cur = slice_chars(s, 0, end);
    assert(cur@ =~= s@);
    while end >= 4 && has_suffix(&cur, &suffix)
        invariant
            end <= s.len(),
            cur@ == s@.subrange(0, end as int),
            suffix@ == ".map"@,
            without_map_suffix(s@) == without_map_suffix(cur@),
        decreases end,
    {
        end = end - 4;
        cur = slice_chars(s, 0, end);
        assert(cur@ =~= s@.subrange(0, end + 4).subrange(0, end as int));
    }
    cur
}

fn strip_hex_prefix(s: &Vec<char>) -> (r: Vec<char>)
    ensures
        r@ == without_hex_prefix(s@),
{
    let prefix = chars_of("0x");
    proof {
        reveal_strlit("0x");
    }
    let mut start: usize = 0;
    let mut cur = slice_chars(s, 0, s.len());
    assert(cur@ =~= s@);
    while s.len() - start >= 2 && has_prefix(&cur, &prefix)
        invariant
            start <= s.len(),
            cur@ == s@.subrange(start as int, s.len() as int),
            prefix@ == "0x"@,
            without_hex_prefix(s@) == without_hex_prefix(cur@),
        decreases s.len() - start,
    {
        start = start + 2;
        cur = slice_chars(s, start, s.len());
        assert(cur@ =~= s@.subrange(start - 2, s.len() as int).subrange(2, (s.len() - start + 2) as int));
    }
    cur
}

fn position_of(f: &JsonValue, key: &str) -> (r: u32)
    ensures
        r == frame_position(f@, key@),
{
    let n = match f.get(key) {
        Some(v) => match v.as_u64() {
            Some(n) => n,
            None => 1u64,
        },
        None => 1u64,
    };
    let m = n.saturating_sub(1);
    #[verifier::truncate]
    (m as u32)
}

fn text_value(t: String) -> (v: JsonValue)
    ensures
        v@ == JsonData::Str(t@),
{
    JsonValue::String(t)
}

fn one_based_value(x: u32) -> (v: JsonValue)
    ensures
        v@ == JsonData::Number(crate::json::NumberData::PosInt(one_based(x))),
{
    let n = x.wrapping_add(1) as u64;
    JsonValue::Number(JsonNumber::PosInt(n))
}

fn apply_map(f: JsonValue, maps: &Vec<DebugFile>) -> (r: Result<(JsonValue, bool), String>)
    ensures
        match r {
            Ok((g, c)) => frame_after_maps(f@, files_view(maps@)) == Ok::<(JsonData, bool), Seq<char>>((g@, c)),
            Err(e) => frame_after_maps(f@, files_view(maps@)) == Err::<(JsonData, bool), Seq<char>>(e@),
        },
{
    let filename = match f.member_str("filename") {
        Some(t) => chars_of(t),
        None => Vec::new(),
    };
    let line = position_of(&f, "lineno");
    let col = position_of(&f, "colno");
    let k = match map_for_file(maps, &filename) {
        Some(k) => k,
        None => return Ok((f, false)),
    };
    let token = match decode_map(maps[k].payload.as_slice()) {
        Err(e) => return Err(e),
        Ok(m) => match token_in(&m, line, col, maps[k].payload.len()) {
            None => return Ok((f, false)),
            Some(t) => t,
        },
    };
    let is_object = match &f {
        JsonValue::Object(_) => true,
        _ => false,
    };
    if !is_object {
        return Ok((f, false));
    }
    let (src, name, sl, sc) = token;
    let f1 = match src {
        Some(s) => f.insert_member("filename", text_value(s)),
        None => f,
    };
    let f2 = match name {
        Some(n) => f1.insert_member("function", text_value(n)),
        None => f1,
    };
    let f3 = f2.insert_member("lineno", one_based_value(sl));
    let f4 = f3.insert_member("colno", one_based_value(sc));
    Ok((f4, true))
}

fn best_symbol_of(syms: &Vec<(u64, u64, Option<String>)>, a: u64) -> (r: Option<usize>)
    ensures
        match r {
            Some(i) => i < syms@.len() && best_symbol(symbols_view(syms@), a) == Some(
                symbols_view(syms@)[i as int],
            ),
            None => best_symbol(symbols_view(syms@), a) is None,
        },
{
    let ghost sv = symbols_view(syms@);
    let mut best: Option<usize> = None;
    let mut i: usize = 0;
    while i < syms.len()
        invariant
            i <= syms@.len(),
            sv == symbols_view(syms@),
            match best {
                Some(b) => b < i && best_symbol(sv.take(i as int), a) == Some(sv[b as int]),
                None => best_symbol(sv.take(i as int), a) is None,
            },
        decreases syms.len() - i,
    {
        let (addr, size, _) = &syms[i];
        let span: u64 = if *size < 1 {
            1
        } else {
            *size
        };
        let end = addr.saturating_add(span);
        let hit = *addr <= a && end > a;
        assert(sv.take(i + 1).drop_last() =~= sv.take(i as int));
        assert(sv.take(i + 1).last() == sv[i as int]);
        assert(hit == covers(sv[i as int], a));
        let better = match best {
            Some(b) => *addr >= syms[b].0,
            None => true,
        };
        if hit && better {
            best = Some(i);
        }
        i = i + 1;
    }
    assert(sv.take(syms@.len() as int) =~= sv);
    best
}

fn apply_natives(f: JsonValue, natives: &Vec<DebugFile>) -> (r: (JsonValue, bool))
    ensures
        (r.0@, r.1) == frame_after_natives(f@, files_view(natives@).map_values(|n: (Seq<char>, Seq<u8>)| n.1)),
{
    let ghost nv = files_view(natives@).map_values(|n: (Seq<char>, Seq<u8>)| n.1);
    let address = match f.member_str("instruction_addr") {
        Some(t) => parse_hex(&strip_hex_prefix(&chars_of(t))),
        None => None,
    };
    let a = match address {
        Some(a) => a,
        None => return (f, false),
    };
    let mut k: usize = 0;
    while k < natives.len()
        invariant
            k <= natives@.len(),
            nv == files_view(natives@).map_values(|n: (Seq<char>, Seq<u8>)| n.1),
            frame_address(f@) == Some(a),
            frame_after_natives(f@, nv) == native_from(f@, nv, a, k as int),
        decreases natives.len() - k,
    {
        assert(nv[k as int] == natives@[k as int].payload@);
        match object_symbols(natives[k].payload.as_slice()) {
            None => {},
            Some(syms) => match best_symbol_of(&syms, a) {
                None => {},
                Some(b) => {
                    assert(symbols_view(syms@)[b as int] == (syms@[b as int].0, syms@[b as int].1, opt_text(syms@[b as int].2)));
                    match &syms[b].2 {
                        None => {},
                        Some(name) => {
                            let is_object = match &f {
                                JsonValue::Object(_) => true,
                                _ => false,
                            };
                            if is_object {
                                return (f.insert_member("function", text_value(name.clone())), true);
                            } else {
                                return (f, false);
                            }
                        },
                    }
                },
            },
        }
        k = k + 1;
    }
    (f, false)
}

fn symbolicate_frame(f: JsonValue, maps: &Vec<DebugFile>, natives: &Vec<DebugFile>) -> (r: Result<(JsonValue, bool), String>)
    ensures
        match r {
            Ok((g, c)) => symbolicated_frame(f@, files_view(maps@), files_view(natives@).map_values(|n: (Seq<char>, Seq<u8>)| n.1)) == Ok::<(JsonData, bool), Seq<char>>((g@, c)),
            Err(e) => symbolicated_frame(f@, files_view(maps@), files_view(natives@).map_values(|n: (Seq<char>, Seq<u8>)| n.1)) == Err::<(JsonData, bool), Seq<char>>(e@),
        },
{
    let (g, c1) = apply_map(f, maps)?;
    let (h, c2) = apply_natives(g, natives);
    Ok((h, c1 || c2))
}

/// Symbolicates the frames of an event's first exception value with the
/// release's source maps and native symbol files, returning the rewritten
/// exception, or why it could not be symbolicated.
pub fn symbolicate_exception(exception: JsonValue, maps: &Vec<DebugFile>, natives: &Vec<DebugFile>) -> (r: Result<JsonValue, String>)
    ensures
        match r {
            Ok(v) => symbolication(exception@, files_view(maps@), files_view(natives@)) == Ok::<JsonData, Seq<char>>(v@),
            Err(e) => symbolication(exception@, files_view(maps@), files_view(natives@)) == Err::<JsonData, Seq<char>>(e@),
        },
{
    let ghost nv = files_view(natives@).map_values(|n: (Seq<char>, Seq<u8>)| n.1);
    if maps.len() == 0 && natives.len() == 0 {
        return Err("no debug file matches event release".to_owned());
    }
    let (values, first, stacktrace, frames) = {
        let values = match exception.get("values") {
            Some(v) => v,
            None => return Err("event has no stack frames".to_owned()),
        };
        let xs = match values.as_array() {
            Some(xs) => xs,
            None => return Err("event has no stack frames".to_owned()),
        };
        if xs.len() == 0 {
            return Err("event has no stack frames".to_owned());
        }
        let st = match xs[0].get("stacktrace") {
            Some(st) => st,
            None => return Err("event has no stack frames".to_owned()),
        };
        let fv = match st.get("frames") {
            Some(fv) => fv,
            None => return Err("event has no stack frames".to_owned()),
        };
        let fs = match fv.as_array() {
            Some(fs) => fs,
            None => return Err("event has no stack frames".to_owned()),
        };
        (values.copy(), xs[0].copy(), st.copy(), fs)
    };
    let ghost fsd = first_value_frames(exception@)->0;
    let mut out: Vec<JsonValue> = Vec::new();
    let mut changed = false;
    let mut i: usize = 0;
    assert(fsd.subrange(0, fsd.len() as int) =~= fsd);
    while i < frames.len()
        invariant
            i <= frames@.len(),
            frames@.len() == fsd.len(),
            forall|j: int| #![trigger frames@[j]] 0 <= j < frames@.len() ==> frames@[j]@ == fsd[j],
            nv == files_view(natives@).map_values(|n: (Seq<char>, Seq<u8>)| n.1),
            !(maps@.len() == 0 && natives@.len() == 0),
            first_value_frames(exception@) == Some(fsd),
            out@.len() == i,
            symbolicated_frames(fsd, files_view(maps@), nv) == match symbolicated_frames(
                fsd.subrange(i as int, fsd.len() as int),
                files_view(maps@),
                nv,
            ) {
                Err(e) => Err(e),
                Ok((gs, cs)) => Ok::<(Seq<JsonData>, bool), Seq<char>>(
                    (out@.map_values(|v: JsonValue| v@) + gs, changed || cs),
                ),
            },
        decreases frames.len() - i,
    {
        let ghost rest = fsd.subrange(i as int, fsd.len() as int);
        assert(rest.drop_first() =~= fsd.subrange(i + 1, fsd.len() as int));
        assert(rest[0] == frames@[i as int]@);
        let frame = frames[i].copy();
        let (g, c) = match symbolicate_frame(frame, maps, natives) {
            Ok(gc) => gc,
            Err(e) => {
                assert(symbolicated_frames(rest, files_view(maps@), nv) == Err::<(Seq<JsonData>, bool), Seq<char>>(e@));
                return Err(e);
            },
        };
        let ghost before = out@.map_values(|v: JsonValue| v@);
        out.push(g);
        proof {
            assert(out@.map_values(|v: JsonValue| v@) =~= before.push(g@));
            match symbolicated_frames(fsd.subrange(i + 1, fsd.len() as int), files_view(maps@), nv) {
                Ok((gs, cs)) => {
                    assert(before + (seq![g@] + gs) =~= before.push(g@) + gs);
                },
                Err(_) => {},
            }
        }
        changed = changed || c;
        i = i + 1;
    }
    assert(out@.map_values(|v: JsonValue| v@) + Seq::<JsonData>::empty() =~= out@.map_values(|v: JsonValue| v@));
    if !changed {
        return Err("no stack frame matched uploaded source maps".to_owned());
    }
    let ghost gs = out@.map_values(|v: JsonValue| v@);
    let new_frames = JsonValue::Array(out);
    proof {
        new_frames.lemma_array_view();
        assert(new_frames@ == JsonData::Array(gs)) by {
            assert(new_frames@->Array_0 =~= gs);
        }
    }
    let st2 = stacktrace.set_member("frames", new_frames);
    let first2 = first.set_member("stacktrace", st2);
    let mut items = match values {
        JsonValue::Array(items) => items,
        _ => Vec::new(),
    };
    let ghost xs = items_of(member(exception@, "values"@)->0)->0;
    let ghost old_items = items@;
    proof {
        JsonValue::Array(items).lemma_array_view();
    }
    let ghost f2 = first2@;
    items.set(0, first2);
    let values2 = JsonValue::Array(items);
    proof {
        values2.lemma_array_view();
        assert(values2@->Array_0 =~= xs.update(0, f2));
    }
    Ok(exception.set_member("values", values2))
}

} // verus!
