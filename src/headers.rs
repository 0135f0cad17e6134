use vstd::prelude::*;
use vstd::utf8::*;
use crate::text::{ascii_text, lossy_utf8};
use axum::http::header::{HeaderMap, HeaderName, HeaderValue};

verus! {

/// Most entries a header collection built here may hold. `HeaderMap` may have to double its
/// index table when hashes collide, and it panics once that table would pass 32768 slots;
/// with fewer than 6554 names that cannot happen, and this bound stays well below.
pub const MAX_HEADERS: usize = 4096;

/// The value type of `HeaderMap`, which every `HeaderMap` in a signature names by default.
#[verifier::external_type_specification]
#[verifier::external_body]
pub struct ExHeaderValue(HeaderValue);

#[verifier::external_type_specification]
#[verifier::external_body]
#[verifier::reject_recursive_types(T)]
pub struct ExHeaderMap<T>(HeaderMap<T>);

/// What a header collection holds, in the order its iterator yields it: for each value,
/// the name it is stored under and the value's bytes.
pub uninterp spec fn header_entries(m: HeaderMap) -> Seq<(Seq<char>, Seq<u8>)>;

/// A character that may stand in a header name as stored (RFC 9110 `tchar`, lower case).
pub open spec fn is_token_char(c: char) -> bool {
    ('a' <= c && c <= 'z') || ('0' <= c && c <= '9') || c == '!' || ('#' <= c && c <= '\'')
        || c == '*' || c == '+' || c == '-' || c == '.' || ('^' <= c && c <= '`') || c == '|'
        || c == '~'
}

pub open spec fn is_upper_char(c: char) -> bool {
    'A' <= c && c <= 'Z'
}

/// A character as a header name stores it: ASCII capitals lowered, the rest kept.
pub open spec fn lower_char(c: char) -> char {
    if is_upper_char(c) {
        ((c as u32) + 32) as char
    } else {
        c
    }
}

pub open spec fn lower_name(s: Seq<char>) -> Seq<char> {
    Seq::new(s.len(), |i: int| lower_char(s[i]))
}

/// The texts that parse as a header name: 1 to 65535 token characters or capitals.
pub open spec fn name_accepted(s: Seq<char>) -> bool {
    1 <= s.len() <= 65535 && forall|i: int|
        0 <= i < s.len() ==> is_token_char(#[trigger] s[i]) || is_upper_char(s[i])
}

/// A header name in the form it is stored in: accepted and already lower case.
pub open spec fn is_stored_name(s: Seq<char>) -> bool {
    1 <= s.len() <= 65535 && forall|i: int| 0 <= i < s.len() ==> is_token_char(#[trigger] s[i])
}

/// A byte that a header value may hold.
pub open spec fn value_byte_ok(b: u8) -> bool {
    (b >= 32 && b != 127) || b == 9
}

pub open spec fn value_bytes_ok(b: Seq<u8>) -> bool {
    forall|i: int| 0 <= i < b.len() ==> value_byte_ok(#[trigger] b[i])
}

/// A byte that reads back as text: a tab or visible ASCII.
pub open spec fn visible_byte(b: u8) -> bool {
    (32 <= b < 127) || b == 9
}

pub open spec fn visible_char(c: char) -> bool {
    (' ' <= c && c <= '~') || c == '\t'
}

/// A header value as text: its bytes when they are all visible ASCII, else empty.
pub open spec fn value_text(b: Seq<u8>) -> Seq<char> {
    if forall|i: int| 0 <= i < b.len() ==> visible_byte(#[trigger] b[i]) {
        ascii_text(b)
    } else {
        Seq::empty()
    }
}


pub open spec fn pair_view(p: (String, String)) -> (Seq<char>, Seq<char>) {
    (p.0@, p.1@)
}

pub open spec fn pairs_view(v: Seq<(String, String)>) -> Seq<(Seq<char>, Seq<char>)> {
    v.map_values(|p: (String, String)| pair_view(p))
}

pub open spec fn raw_view(v: Seq<(String, Vec<u8>)>) -> Seq<(Seq<char>, Seq<u8>)> {
    v.map_values(|p: (String, Vec<u8>)| (p.0@, p.1@))
}

/// The index of the last entry stored under `k`, if any.
pub open spec fn last_under(s: Seq<(Seq<char>, Seq<u8>)>, k: Seq<char>) -> int {
    choose|j: int| 0 <= j < s.len() && s[j].0 == k && forall|i: int| j < i < s.len() ==> s[i].0 != k
}

/// The entries after one more value is appended under `k`: it joins the end of the values
/// already stored under `k`, or starts a new name at the end.
pub open spec fn appended(s: Seq<(Seq<char>, Seq<u8>)>, k: Seq<char>, v: Seq<u8>) -> Seq<
    (Seq<char>, Seq<u8>),
> {
    if exists|j: int| 0 <= j < s.len() && s[j].0 == k {
        s.insert(last_under(s, k) + 1, (k, v))
    } else {
        s.push((k, v))
    }
}

/// The entries of a fresh collection after appending each entry of `e` in turn.
pub open spec fn filled(e: Seq<(Seq<char>, Seq<u8>)>) -> Seq<(Seq<char>, Seq<u8>)>
    decreases e.len(),
{
    if e.len() == 0 {
        Seq::empty()
    } else {
        appended(filled(e.drop_last()), e.last().0, e.last().1)
    }
}

/// The pairs that the lenient translation keeps, in order and with stored names: a pair whose
/// name or value does not parse is left out.
pub open spec fn kept_entries(pairs: Seq<(Seq<char>, Seq<char>)>) -> Seq<(Seq<char>, Seq<u8>)>
    decreases pairs.len(),
{
    if pairs.len() == 0 {
        Seq::empty()
    } else {
        let rest = kept_entries(pairs.drop_last());
        let k = pairs.last().0;
        let v = encode_utf8(pairs.last().1);
        if name_accepted(k) && value_bytes_ok(v) {
            rest.push((lower_name(k), v))
        } else {
            rest
        }
    }
}

/// The native collection that the header pairs translate to.
pub open spec fn native_of(pairs: Seq<(Seq<char>, Seq<char>)>) -> Seq<(Seq<char>, Seq<u8>)> {
    filled(kept_entries(pairs))
}

/// Header entries read back as text pairs.
pub open spec fn text_pairs(e: Seq<(Seq<char>, Seq<u8>)>) -> Seq<(Seq<char>, Seq<char>)> {
    e.map_values(|p: (Seq<char>, Seq<u8>)| (p.0, value_text(p.1)))
}

/// Every name occurs in one run: two equal names have only that name between them.
pub open spec fn names_grouped(ns: Seq<Seq<char>>) -> bool {
    forall|i: int, j: int, l: int|
        0 <= i < j < l < ns.len() && #[trigger] ns[i] == #[trigger] ns[l] ==> #[trigger] ns[j]
            == ns[i]
}

pub open spec fn visible_text(v: Seq<char>) -> bool {
    forall|i: int| 0 <= i < v.len() ==> visible_char(#[trigger] v[i])
}

/// Relies on `HeaderName::try_from(&str)` (http): accepts exactly the texts of 1 to 65535
/// token characters or ASCII capitals, and stores them with the capitals lowered.
#[verifier::external_body]
fn parse_header_name(s: &str) -> (r: Option<String>)
    ensures
        r is Some <==> name_accepted(s@),
        r matches Some(t) ==> t@ == lower_name(s@),
{
    HeaderName::try_from(s).ok().map(|n| n.as_str().to_string())
}

/// Relies on `HeaderValue::from_bytes` (http): accepts exactly the byte strings in which
/// every byte is a tab, or at least 32 and not 127.
#[verifier::external_body]
fn header_value_accepted(b: &[u8]) -> (r: bool)
    ensures
        r == value_bytes_ok(b@),
{
    HeaderValue::from_bytes(b).is_ok()
}

/// Relies on `HeaderMap::append` (http): the value goes after the values already stored
/// under the name, or starts a new name after all others. It panics only when the map would
/// need an index table of more than 32768 slots, which takes at least 6554 names; below
/// `MAX_HEADERS` entries that cannot happen.
#[verifier::external_body]
fn append_header(m: &mut HeaderMap, name: &str, value: &[u8])
    requires
        is_stored_name(name@),
        value_bytes_ok(value@),
        header_entries(*old(m)).len() < MAX_HEADERS,
    ensures
        header_entries(*final(m)) == appended(header_entries(*old(m)), name@, value@),
{
    m.append(HeaderName::try_from(name).unwrap(), HeaderValue::from_bytes(value).unwrap());
}

/// Relies on `HeaderMap::new` (http): an empty collection.
#[verifier::external_body]
fn empty_header_map() -> (r: HeaderMap)
    ensures
        header_entries(r) == Seq::<(Seq<char>, Seq<u8>)>::empty(),
{
    HeaderMap::new()
}

/// Relies on `HeaderMap::iter` (http): every stored name and value, in iteration order.
#[verifier::external_body]
fn header_map_entries(m: &HeaderMap) -> (r: Vec<(String, Vec<u8>)>)
    ensures
        raw_view(r@) == header_entries(*m),
{
    m.iter().map(|(k, v)| (k.as_str().to_string(), v.as_bytes().to_vec())).collect()
}


proof fn lemma_lower_name_stored(s: Seq<char>)
    requires
        name_accepted(s),
    ensures
        is_stored_name(lower_name(s)),
{
    assert forall|i: int| 0 <= i < s.len() implies is_token_char(#[trigger] lower_name(s)[i]) by {
        assert(is_token_char(s[i]) || is_upper_char(s[i]));
    }
}

proof fn lemma_last_under(s: Seq<(Seq<char>, Seq<u8>)>, k: Seq<char>, j: int)
    requires
        0 <= j < s.len(),
        s[j].0 == k,
    ensures
        0 <= last_under(s, k) < s.len(),
        s[last_under(s, k)].0 == k,
        forall|i: int| last_under(s, k) < i < s.len() ==> s[i].0 != k,
    decreases s.len() - j,
{
    if exists|l: int| j < l < s.len() && s[l].0 == k {
        let l = choose|l: int| j < l < s.len() && s[l].0 == k;
        lemma_last_under(s, k, l);
    } else {
        assert(forall|i: int| j < i < s.len() ==> s[i].0 != k);
    }
}

proof fn lemma_appended_len(s: Seq<(Seq<char>, Seq<u8>)>, k: Seq<char>, v: Seq<u8>)
    ensures
        appended(s, k, v).len() == s.len() + 1,
{
    if exists|j: int| 0 <= j < s.len() && s[j].0 == k {
        let j = choose|j: int| 0 <= j < s.len() && s[j].0 == k;
        lemma_last_under(s, k, j);
    }
}

proof fn lemma_filled_len(e: Seq<(Seq<char>, Seq<u8>)>)
    ensures
        filled(e).len() == e.len(),
    decreases e.len(),
{
    if e.len() > 0 {
        lemma_filled_len(e.drop_last());
        lemma_appended_len(filled(e.drop_last()), e.last().0, e.last().1);
    }
}

proof fn lemma_kept_len(p: Seq<(Seq<char>, Seq<char>)>)
    ensures
        kept_entries(p).len() <= p.len(),
    decreases p.len(),
{
    if p.len() > 0 {
        lemma_kept_len(p.drop_last());
    }
}

proof fn lemma_visible_value(v: Seq<char>)
    requires
        visible_text(v),
    ensures
        value_bytes_ok(encode_utf8(v)),
        value_text(encode_utf8(v)) == v,
{
    assert forall|i: int| 0 <= i < v.len() implies #[trigger] v[i] <= '\u{7f}' by {
        assert(visible_char(v[i]));
    }
    assert(is_ascii_chars(v));
    is_ascii_chars_encode_utf8(v);
    let b = encode_utf8(v);
    assert forall|i: int| 0 <= i < b.len() implies visible_byte(#[trigger] b[i]) by {
        assert(visible_char(v[i]));
    }
    assert(value_text(b) =~= v);
}

proof fn lemma_kept_all(p: Seq<(Seq<char>, Seq<char>)>)
    requires
        forall|i: int|
            0 <= i < p.len() ==> is_stored_name(#[trigger] p[i].0) && visible_text(p[i].1),
    ensures
        kept_entries(p) == p.map_values(|x: (Seq<char>, Seq<char>)| (x.0, encode_utf8(x.1))),
    decreases p.len(),
{
    if p.len() > 0 {
        let q = p.drop_last();
        lemma_kept_all(q);
        let (k, v) = p.last();
        assert(is_stored_name(p[p.len() - 1].0));
        lemma_visible_value(v);
        assert(lower_name(k) =~= k);
        assert(p.map_values(|x: (Seq<char>, Seq<char>)| (x.0, encode_utf8(x.1))) =~= q.map_values(
            |x: (Seq<char>, Seq<char>)| (x.0, encode_utf8(x.1)),
        ).push((k, encode_utf8(v))));
    }
}

proof fn lemma_filled_grouped(e: Seq<(Seq<char>, Seq<u8>)>)
    requires
        names_grouped(e.map_values(|x: (Seq<char>, Seq<u8>)| x.0)),
    ensures
        filled(e) == e,
    decreases e.len(),
{
    if e.len() > 0 {
        let d = e.drop_last();
        let ns = e.map_values(|x: (Seq<char>, Seq<u8>)| x.0);
        assert(d.map_values(|x: (Seq<char>, Seq<u8>)| x.0) =~= ns.drop_last());
        lemma_filled_grouped(d);
        let (k, v) = e.last();
        if exists|j: int| 0 <= j < d.len() && d[j].0 == k {
            let j = choose|j: int| 0 <= j < d.len() && d[j].0 == k;
            lemma_last_under(d, k, j);
            let n = d.len() - 1;
            if j < n {
                assert(ns[j] == ns[e.len() - 1]);
                assert(ns[n] == ns[j]);
            }
            assert(d[n].0 == k);
            assert(last_under(d, k) == n);
            assert(d.insert(n + 1, (k, v)) =~= e);
        } else {
            assert(d.push((k, v)) =~= e);
        }
    }
}

/// Header pairs come back unchanged, in order and with their duplicates, through the native
/// collection, when every name is already in stored form (lower case), every value is visible
/// ASCII, and the pairs that share a name stand next to each other.
pub proof fn lemma_header_round_trip(pairs: Seq<(Seq<char>, Seq<char>)>)
    requires
        forall|i: int|
            0 <= i < pairs.len() ==> is_stored_name(#[trigger] pairs[i].0) && visible_text(
                pairs[i].1,
            ),
        names_grouped(pairs.map_values(|x: (Seq<char>, Seq<char>)| x.0)),
    ensures
        text_pairs(native_of(pairs)) == pairs,
{
    lemma_kept_all(pairs);
    let e = pairs.map_values(|x: (Seq<char>, Seq<char>)| (x.0, encode_utf8(x.1)));
    assert(e.map_values(|x: (Seq<char>, Seq<u8>)| x.0) =~= pairs.map_values(
        |x: (Seq<char>, Seq<char>)| x.0,
    ));
    lemma_filled_grouped(e);
    assert forall|i: int| 0 <= i < pairs.len() implies #[trigger] text_pairs(e)[i] == pairs[i] by {
        assert(is_stored_name(pairs[i].0));
        assert(visible_text(pairs[i].1));
        lemma_visible_value(pairs[i].1);
    }
    assert(text_pairs(e) =~= pairs);
}

proof fn lemma_kept_skips(
    front: Seq<(Seq<char>, Seq<char>)>,
    name: Seq<char>,
    value: Seq<char>,
    back: Seq<(Seq<char>, Seq<char>)>,
)
    requires
        !name_accepted(name),
    ensures
        kept_entries(front + seq![(name, value)] + back) == kept_entries(front + back),
    decreases back.len(),
{
    if back.len() == 0 {
        assert(front + seq![(name, value)] + back =~= front.push((name, value)));
        assert((front + seq![(name, value)] + back).drop_last() =~= front);
        assert(front + back =~= front);
    } else {
        let b = back.drop_last();
        lemma_kept_skips(front, name, value, b);
        assert((front + seq![(name, value)] + back).drop_last() =~= front + seq![(name, value)] + b);
        assert((front + back).drop_last() =~= front + b);
        assert((front + seq![(name, value)] + back).last() == back.last());
        assert((front + back).last() == back.last());
    }
}

/// A pair whose name holds a control character is left out of the native collection, and the
/// pairs around it translate as they would without it.
pub proof fn lemma_invalid_name_dropped(
    front: Seq<(Seq<char>, Seq<char>)>,
    name: Seq<char>,
    value: Seq<char>,
    back: Seq<(Seq<char>, Seq<char>)>,
    at: int,
)
    requires
        0 <= at < name.len(),
        name[at] < ' ',
    ensures
        native_of(front + seq![(name, value)] + back) == native_of(front + back),
{
    assert(!is_token_char(name[at]) && !is_upper_char(name[at]));
    lemma_kept_skips(front, name, value, back);
}

/// Translates header pairs into a native header collection. A pair whose name or value does
/// not parse is dropped and the others are kept, in order; names are stored in lower case.
pub fn to_native(pairs: &Vec<(String, String)>) -> (r: HeaderMap)
    requires
        pairs@.len() < MAX_HEADERS,
    ensures
        header_entries(r) == native_of(pairs_view(pairs@)),
{
    let mut m = empty_header_map();
    let mut i: usize = 0;
    while i < pairs.len()
        invariant
            i <= pairs@.len() < MAX_HEADERS,
            header_entries(m) == native_of(pairs_view(pairs@.subrange(0, i as int))),
        decreases pairs@.len() - i,
    {
        proof {
            lemma_kept_len(pairs_view(pairs@.subrange(0, i as int)));
            lemma_filled_len(kept_entries(pairs_view(pairs@.subrange(0, i as int))));
        }
        let name = pairs[i].0.as_str();
        let value = pairs[i].1.as_str().as_bytes();
        let ghost before = header_entries(m);
        match parse_header_name(name) {
            Some(n) => {
                if header_value_accepted(value) {
                    proof {
                        lemma_lower_name_stored(name@);
                    }
                    append_header(&mut m, n.as_str(), value);
                }
            },
            None => {},
        }
        proof {
            let q = pairs_view(pairs@.subrange(0, i + 1));
            assert(q.drop_last() =~= pairs_view(pairs@.subrange(0, i as int)));
            assert(q.last() == pair_view(pairs@[i as int]));
            assert(q.last().0 == name@);
            assert(q.last().1 == pairs@[i as int].1@);
            assert(value@ == encode_utf8(q.last().1));
            if name_accepted(name@) && value_bytes_ok(value@) {
                assert(kept_entries(q) == kept_entries(q.drop_last()).push((lower_name(name@), value@)));
                let x = (lower_name(name@), value@);
                assert(kept_entries(q).drop_last() =~= kept_entries(q.drop_last()));
                assert(kept_entries(q).last() == x);
                assert(header_entries(m) == appended(before, lower_name(name@), value@));
                assert(native_of(q) == appended(native_of(q.drop_last()), x.0, x.1));
            } else {
                assert(kept_entries(q) == kept_entries(q.drop_last()));
                assert(header_entries(m) == before);
            }
        }
        i += 1;
    }
    proof {
        assert(pairs@.subrange(0, pairs@.len() as int) =~= pairs@);
    }
    m
}

/// Whether every byte is a tab or visible ASCII.
fn all_visible(b: &[u8]) -> (r: bool)
    ensures
        r == forall|i: int| 0 <= i < b@.len() ==> visible_byte(#[trigger] b@[i]),
{
    let mut i: usize = 0;
    while i < b.len()
        invariant
            i <= b@.len(),
            forall|j: int| 0 <= j < i ==> visible_byte(#[trigger] b@[j]),
        decreases b@.len() - i,
    {
        if !(b[i] == 9 || (32 <= b[i] && b[i] < 127)) {
            return false;
        }
        i += 1;
    }
    true
}

/// A header value as text: its bytes when all are tab or visible ASCII, else the empty string.
pub fn header_value_text(b: &[u8]) -> (r: String)
    ensures
        r@ == value_text(b@),
{
    if all_visible(b) {
        lossy_utf8(b)
    } else {
        String::new()
    }
}

/// Reads a native header collection back as text pairs, in iteration order; a value that is
/// not visible ASCII reads as the empty string.
pub fn from_native(m: &HeaderMap) -> (r: Vec<(String, String)>)
    ensures
        pairs_view(r@) == text_pairs(header_entries(*m)),
{
    let entries = header_map_entries(m);
    let mut out: Vec<(String, String)> = Vec::new();
    let mut i: usize = 0;
    while i < entries.len()
        invariant
            i <= entries@.len(),
            raw_view(entries@) == header_entries(*m),
            pairs_view(out@) == text_pairs(raw_view(entries@.subrange(0, i as int))),
        decreases entries@.len() - i,
    {
        let name = entries[i].0.clone();
        let value = header_value_text(entries[i].1.as_slice());
        let ghost prev = out@;
        out.push((name, value));
        proof {
            assert(out@ == prev.push((name, value)));
            assert(name@ == raw_view(entries@)[i as int].0);
            assert(value@ == value_text(raw_view(entries@)[i as int].1));
            assert(raw_view(entries@.subrange(0, i + 1)) =~= raw_view(
                entries@.subrange(0, i as int),
            ).push(raw_view(entries@)[i as int]));
            let t = (raw_view(entries@)[i as int].0, value_text(raw_view(entries@)[i as int].1));
            assert(pairs_view(out@) =~= pairs_view(prev).push(t));
            assert(text_pairs(raw_view(entries@.subrange(0, i + 1))) =~= text_pairs(
                raw_view(entries@.subrange(0, i as int)),
            ).push(t));
        }
        i += 1;
    }
    proof {
        assert(entries@.subrange(0, entries@.len() as int) =~= entries@);
    }
    out
}

} // verus!
