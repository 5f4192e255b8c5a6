//! Looking up, in a decoded source map, the original position of a position
//! in generated code.
use vstd::prelude::*;
use sourcemap::DecodedMap;
use crate::symbols::{opt_text, source_map_error, token_view};

verus! {

#[verifier::external_type_specification]
#[verifier::external_body]
pub struct ExDecodedMap(sourcemap::DecodedMap);

/// A source-map token as the lookup hands it on: source file, name, source
/// line, source column.
pub type TokenInfo = (Option<String>, Option<String>, u32, u32);

/// A token of a regular source map: generated line and column, source line
/// and column, source file, name, and whether it maps a range.
pub type TokenRow = (u32, u32, u32, u32, Option<String>, Option<String>, bool);

/// The mathematical form of a token row.
pub type TokenData = (u32, u32, u32, u32, Option<Seq<char>>, Option<Seq<char>>, bool);

/// The map `sourcemap::decode_slice` makes of `payload` when it decodes.
pub uninterp spec fn decoded_map(payload: Seq<u8>) -> DecodedMap;

/// The tokens of a regular (or Hermes) source map, in table order; nothing
/// for an index map.
pub uninterp spec fn map_token_table(m: DecodedMap) -> Option<Seq<TokenData>>;

/// The sections of an index map, in table order: offset line, offset
/// column and embedded map; nothing for a regular map.
pub uninterp spec fn map_section_table(m: DecodedMap) -> Option<Seq<(u32, u32, Option<DecodedMap>)>>;

/// `sourcemap::decode_slice`, keeping the text of its error. Trusted: it
/// fails exactly when the named decoding error says so, and otherwise gives
/// the named decoded map.
#[verifier::external_body]
pub(crate) fn decode_map(payload: &[u8]) -> (r: Result<DecodedMap, String>)
    ensures
        r is Err <==> source_map_error(payload@) is Some,
        r matches Err(e) ==> source_map_error(payload@) == Some(e@),
        r matches Ok(m) ==> m == decoded_map(payload@),
{
    sourcemap::decode_slice(payload).map_err(|error| error.to_string())
}

pub open spec fn token_rows_view(v: Seq<TokenRow>) -> Seq<TokenData> {
    v.map_values(|t: TokenRow| (t.0, t.1, t.2, t.3, opt_text(t.4), opt_text(t.5), t.6))
}

/// For a `Regular` map, or the map inside a `Hermes` one, `SourceMap::tokens`
/// with each token's `get_dst_line`, `get_dst_col`, `get_src_line`,
/// `get_src_col`, `get_source`, `get_name` and `is_range`; nothing for an
/// `Index` map. Trusted: the result is the named token table.
#[verifier::external_body]
fn map_tokens(m: &DecodedMap) -> (r: Option<Vec<TokenRow>>)
    ensures
        match r {
            Some(v) => map_token_table(*m) == Some(token_rows_view(v@)),
            None => map_token_table(*m) is None,
        },
{
    let sm: &sourcemap::SourceMap = match m {
        DecodedMap::Regular(sm) => sm,
        DecodedMap::Hermes(smh) => smh,
        DecodedMap::Index(_) => return None,
    };
    Some(sm.tokens().map(|t| (
        t.get_dst_line(), t.get_dst_col(), t.get_src_line(), t.get_src_col(),
        t.get_source().map(str::to_owned), t.get_name().map(str::to_owned), t.is_range(),
    )).collect())
}

pub open spec fn section_rows_view<'a>(v: Seq<(u32, u32, Option<&'a DecodedMap>)>) -> Seq<
    (u32, u32, Option<DecodedMap>),
> {
    v.map_values(
        |s: (u32, u32, Option<&'a DecodedMap>)|
            (
                s.0,
                s.1,
                match s.2 {
                    Some(m) => Some(*m),
                    None => None,
                },
            ),
    )
}

/// For an `Index` map, `SourceMapIndex::sections` with each section's
/// `get_offset_line`, `get_offset_col` and `get_sourcemap`; nothing for
/// another map. Trusted: the result is the named section table.
#[verifier::external_body]
fn map_sections<'a>(m: &'a DecodedMap) -> (r: Option<Vec<(u32, u32, Option<&'a DecodedMap>)>>)
    ensures
        match r {
            Some(v) => map_section_table(*m) == Some(section_rows_view(v@)),
            None => map_section_table(*m) is None,
        },
{
    match m {
        DecodedMap::Index(smi) => Some(
            smi.sections().map(|s| (s.get_offset_line(), s.get_offset_col(), s.get_sourcemap())).collect(),
        ),
        _ => None,
    }
}

/// `a` comes before `b` in (line, column) order.
pub open spec fn key_below(a: (u32, u32), b: (u32, u32)) -> bool {
    a.0 < b.0 || (a.0 == b.0 && a.1 < b.1)
}

/// The first index from `i` on whose key is `q`.
pub open spec fn first_equal_from(ks: Seq<(u32, u32)>, q: (u32, u32), i: int) -> Option<int>
    decreases ks.len() - i,
{
    if i < 0 || i >= ks.len() {
        None
    } else if ks[i] == q {
        Some(i)
    } else {
        first_equal_from(ks, q, i + 1)
    }
}

/// The last index below `n` whose key comes before `q`.
pub open spec fn last_below(ks: Seq<(u32, u32)>, q: (u32, u32), n: int) -> Option<int>
    decreases n,
{
    if n <= 0 || n > ks.len() {
        None
    } else if key_below(ks[n - 1], q) {
        Some(n - 1)
    } else {
        last_below(ks, q, n - 1)
    }
}

/// Where a lookup of `q` lands in a table sorted by key (source maps keep
/// their tokens and sections so): the first entry whose key is `q`, else the
/// last entry before it.
pub open spec fn lower_bound(ks: Seq<(u32, u32)>, q: (u32, u32)) -> Option<int> {
    match first_equal_from(ks, q, 0) {
        Some(i) => Some(i),
        None => last_below(ks, q, ks.len() as int),
    }
}

proof fn lemma_first_equal_from(ks: Seq<(u32, u32)>, q: (u32, u32), i: int)
    ensures
        first_equal_from(ks, q, i) matches Some(j) ==> 0 <= j < ks.len() && ks[j] == q,
    decreases ks.len() - i,
{
    if 0 <= i < ks.len() && ks[i] != q {
        lemma_first_equal_from(ks, q, i + 1);
    }
}

proof fn lemma_last_below(ks: Seq<(u32, u32)>, q: (u32, u32), n: int)
    ensures
        last_below(ks, q, n) matches Some(j) ==> 0 <= j < ks.len() && key_below(ks[j], q),
    decreases n,
{
    if 0 < n <= ks.len() && !key_below(ks[n - 1], q) {
        lemma_last_below(ks, q, n - 1);
    }
}

/// A lookup lands on an entry at or before the position it looks up.
proof fn lemma_lower_bound(ks: Seq<(u32, u32)>, q: (u32, u32))
    ensures
        lower_bound(ks, q) matches Some(j) ==> 0 <= j < ks.len() && (ks[j] == q || key_below(
            ks[j],
            q,
        )),
{
    lemma_first_equal_from(ks, q, 0);
    lemma_last_below(ks, q, ks.len() as int);
}

fn lower_bound_of(ks: &Vec<(u32, u32)>, q: (u32, u32)) -> (r: Option<usize>)
    ensures
        match r {
            Some(i) => lower_bound(ks@, q) == Some(i as int),
            None => lower_bound(ks@, q) is None,
        },
{
    let mut i: usize = 0;
    while i < ks.len()
        invariant
            i <= ks.len(),
            first_equal_from(ks@, q, 0) == first_equal_from(ks@, q, i as int),
        decreases ks.len() - i,
    {
        let k = ks[i];
        if k.0 == q.0 && k.1 == q.1 {
            assert(ks@[i as int] == q);
            return Some(i);
        }
        i = i + 1;
    }
    let mut n: usize = ks.len();
    while n > 0
        invariant
            n <= ks.len(),
            lower_bound(ks@, q) == last_below(ks@, q, n as int),
        decreases n,
    {
        let k = ks[n - 1];
        if k.0 < q.0 || (k.0 == q.0 && k.1 < q.1) {
            return Some(n - 1);
        }
        n = n - 1;
    }
    None
}

pub open spec fn token_keys(ts: Seq<TokenData>) -> Seq<(u32, u32)> {
    ts.map_values(|t: TokenData| (t.0, t.1))
}

pub open spec fn saturating_add(a: u32, b: u32) -> u32 {
    if a + b > u32::MAX {
        u32::MAX
    } else {
        (a + b) as u32
    }
}

/// The token a regular map gives for a generated position: the token the
/// lookup lands on, a range token's source column moved on by the distance
/// from the range's start (saturating). A range token that starts at a
/// column past the position's, on an earlier line, gives no token.
pub open spec fn token_for(ts: Seq<TokenData>, line: u32, col: u32) -> Option<
    (Option<Seq<char>>, Option<Seq<char>>, u32, u32),
> {
    match lower_bound(token_keys(ts), (line, col)) {
        None => None,
        Some(i) => {
            let t = ts[i];
            if t.6 && t.1 > col {
                None
            } else {
                Some(
                    (
                        t.4,
                        t.5,
                        t.2,
                        if t.6 {
                            saturating_add(t.3, (col - t.1) as u32)
                        } else {
                            t.3
                        },
                    ),
                )
            }
        },
    }
}

pub open spec fn section_keys(ss: Seq<(u32, u32, Option<DecodedMap>)>) -> Seq<(u32, u32)> {
    ss.map_values(|s: (u32, u32, Option<DecodedMap>)| (s.0, s.1))
}

/// The token a decoded map gives for a generated position. A regular map
/// looks among its tokens; an index map finds the section the position falls
/// in and asks the section's embedded map, the position made relative to the
/// section's offset (the column only on the section's first line). At most
/// `depth` index maps nested in one another are followed.
pub open spec fn map_token(m: DecodedMap, line: u32, col: u32, depth: nat) -> Option<
    (Option<Seq<char>>, Option<Seq<char>>, u32, u32),
>
    decreases depth,
{
    match map_token_table(m) {
        Some(ts) => token_for(ts, line, col),
        None => match map_section_table(m) {
            None => None,
            Some(ss) => match lower_bound(section_keys(ss), (line, col)) {
                None => None,
                Some(k) => match ss[k].2 {
                    None => None,
                    Some(inner) => if depth == 0 {
                        None
                    } else {
                        map_token(
                            inner,
                            (line - ss[k].0) as u32,
                            if line == ss[k].0 {
                                (col - ss[k].1) as u32
                            } else {
                                col
                            },
                            (depth - 1) as nat,
                        )
                    },
                },
            },
        },
    }
}

/// The token a source map gives for a generated position, or the error
/// decoding it reports. Index maps are followed as deep as the payload has
/// bytes, which no real nesting reaches.
pub open spec fn source_map_token(payload: Seq<u8>, line: u32, col: u32) -> Result<
    Option<(Option<Seq<char>>, Option<Seq<char>>, u32, u32)>,
    Seq<char>,
> {
    match source_map_error(payload) {
        Some(e) => Err(e),
        None => Ok(map_token(decoded_map(payload), line, col, payload.len())),
    }
}

fn copy_text(o: &Option<String>) -> (r: Option<String>)
    ensures
        opt_text(r) == opt_text(*o),
{
    match o {
        Some(s) => Some(s.clone()),
        None => None,
    }
}

fn token_from_rows(ts: &Vec<TokenRow>, line: u32, col: u32) -> (r: Option<TokenInfo>)
    ensures
        token_view(r) == token_for(token_rows_view(ts@), line, col),
{
    let ghost tv = token_rows_view(ts@);
    let mut keys: Vec<(u32, u32)> = Vec::new();
    let mut i: usize = 0;
    while i < ts.len()
        invariant
            i <= ts.len(),
            tv == token_rows_view(ts@),
            keys@ == token_keys(tv).take(i as int),
        decreases ts.len() - i,
    {
        keys.push((ts[i].0, ts[i].1));
        assert(token_keys(tv).take(i + 1) =~= token_keys(tv).take(i as int).push(
            (ts@[i as int].0, ts@[i as int].1),
        ));
        i = i + 1;
    }
    assert(keys@ =~= token_keys(tv));
    match lower_bound_of(&keys, (line, col)) {
        None => None,
        Some(k) => {
            proof {
                lemma_lower_bound(keys@, (line, col));
            }
            let t = &ts[k];
            if t.6 && t.1 > col {
                None
            } else {
                let sc = if t.6 {
                    let off = col - t.1;
                    if t.3 > u32::MAX - off {
                        u32::MAX
                    } else {
                        t.3 + off
                    }
                } else {
                    t.3
                };
                Some((copy_text(&t.4), copy_text(&t.5), t.2, sc))
            }
        },
    }
}

/// The token `m` gives for a generated position, following at most `depth`
/// nested index maps.
pub(crate) fn token_in(m: &DecodedMap, line: u32, col: u32, depth: usize) -> (r: Option<TokenInfo>)
    ensures
        token_view(r) == map_token(*m, line, col, depth as nat),
    decreases depth,
{
    match map_tokens(m) {
        Some(ts) => token_from_rows(&ts, line, col),
        None => match map_sections(m) {
            None => None,
            Some(ss) => {
                let ghost sv = section_rows_view(ss@);
                let mut keys: Vec<(u32, u32)> = Vec::new();
                let mut i: usize = 0;
                while i < ss.len()
                    invariant
                        i <= ss.len(),
                        sv == section_rows_view(ss@),
                        keys@ == section_keys(sv).take(i as int),
                    decreases ss.len() - i,
                {
                    keys.push((ss[i].0, ss[i].1));
                    assert(section_keys(sv).take(i + 1) =~= section_keys(sv).take(i as int).push(
                        (ss@[i as int].0, ss@[i as int].1),
                    ));
                    i = i + 1;
                }
                assert(keys@ =~= section_keys(sv));
                match lower_bound_of(&keys, (line, col)) {
                    None => None,
                    Some(k) => {
                        proof {
                            lemma_lower_bound(keys@, (line, col));
                        }
                        let ol = ss[k].0;
                        let oc = ss[k].1;
                        match ss[k].2 {
                            None => None,
                            Some(inner) => {
                                if depth == 0 {
                                    None
                                } else {
                                    let c = if line == ol {
                                        col - oc
                                    } else {
                                        col
                                    };
                                    token_in(inner, line - ol, c, depth - 1)
                                }
                            },
                        }
                    },
                }
            },
        },
    }
}

} // verus!
