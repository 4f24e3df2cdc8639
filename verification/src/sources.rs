//! Classification of registry sources. A registry document may come over
//! the network (`http`/`https`), from a local file (`file`), or inline as a
//! hex-encoded `data` URL; anything else is refused loudly.

use vstd::prelude::*;
use vstd::utf8::{valid_utf8, decode_utf8};

use crate::text::{is_hex_digit, hex_digit_val, str_to_chars, chars_to_string};

verus! {

/// Mathematical image of a classified source.
pub enum SourceKindV {
    Http,
    File,
    DataHex(Seq<char>),
    Unsupported,
}

/// A registry source, classified from its URL: fetch over the network,
/// read a local file, or decode the hex payload carried in the URL itself.
#[derive(Debug, Clone)]
pub enum SourceKind {
    Http,
    File,
    DataHex(String),
    Unsupported,
}

impl View for SourceKind {
    type V = SourceKindV;

    open spec fn view(&self) -> SourceKindV {
        match self {
            SourceKind::Http => SourceKindV::Http,
            SourceKind::File => SourceKindV::File,
            SourceKind::DataHex(p) => SourceKindV::DataHex(p@),
            SourceKind::Unsupported => SourceKindV::Unsupported,
        }
    }
}

/// Index of the first occurrence of `c` in `s`, or `-1` when absent.
pub open spec fn idx_of(s: Seq<char>, c: char) -> int
    decreases s.len(),
{
    if s.len() == 0 {
        -1
    } else if s[0] == c {
        0
    } else if idx_of(s.drop_first(), c) < 0 {
        -1
    } else {
        idx_of(s.drop_first(), c) + 1
    }
}

/// `idx_of` stays in range and lands on its character.
pub proof fn lemma_idx_of_range(s: Seq<char>, c: char)
    ensures
        -1 <= idx_of(s, c) < s.len(),
        idx_of(s, c) >= 0 ==> s[idx_of(s, c)] == c,
    decreases s.len(),
{
    if s.len() > 0 && s[0] != c {
        lemma_idx_of_range(s.drop_first(), c);
    }
}

/// `idx_of` answers `i` when `c` first occurs at `i`.
pub proof fn lemma_idx_of_found(s: Seq<char>, c: char, i: int)
    requires
        0 <= i < s.len(),
        s[i] == c,
        forall|j: int| 0 <= j < i ==> s[j] != c,
    ensures
        idx_of(s, c) == i,
    decreases i,
{
    if i > 0 {
        assert(s[0] != c);
        assert(s.drop_first()[i - 1] == c);
        assert(forall|j: int| 0 <= j < i - 1 ==> #[trigger] s.drop_first()[j] == s[j + 1]);
        lemma_idx_of_found(s.drop_first(), c, i - 1);
    }
}

/// `idx_of` answers `-1` when `c` does not occur.
pub proof fn lemma_idx_of_absent(s: Seq<char>, c: char)
    requires
        forall|j: int| 0 <= j < s.len() ==> s[j] != c,
    ensures
        idx_of(s, c) == -1,
    decreases s.len(),
{
    if s.len() > 0 {
        assert(forall|j: int| 0 <= j < s.drop_first().len()
            ==> #[trigger] s.drop_first()[j] == s[j + 1]);
        lemma_idx_of_absent(s.drop_first(), c);
    }
}

/// Finds the first occurrence of `c` in `v`.
pub fn find_char(v: &Vec<char>, start: usize, c: char) -> (r: Option<usize>)
    requires
        start <= v@.len(),
    ensures
        r matches Some(i) ==> start <= i < v@.len()
            && idx_of(v@.subrange(start as int, v@.len() as int), c) == i - start,
        r is None ==> idx_of(v@.subrange(start as int, v@.len() as int), c) == -1,
{
    let ghost sub = v@.subrange(start as int, v@.len() as int);
    let mut i: usize = start;
    let n: usize = v.len();
    while i < n
        invariant
            start <= i <= n,
            n == v@.len(),
            sub == v@.subrange(start as int, v@.len() as int),
            forall|j: int| start <= j < i ==> v@[j] != c,
        decreases n - i,
    {
        if v[i] == c {
            proof {
                assert(sub[i - start] == c);
                assert(forall|j: int| 0 <= j < i - start ==> #[trigger] sub[j] == v@[j + start]);
                lemma_idx_of_found(sub, c, i - start);
            }
            return Some(i);
        }
        i = i + 1;
    }
    proof {
        assert(forall|j: int| 0 <= j < sub.len() ==> #[trigger] sub[j] == v@[j + start]);
        lemma_idx_of_absent(sub, c);
    }
    None
}

/// Case-insensitive ASCII match of one character against a lower-case
/// pattern character.
pub open spec fn ascii_ci_eq(a: char, p: char) -> bool {
    a == p || ('A' as u32 <= a as u32 <= 'Z' as u32 && a as u32 + 32 == p as u32)
}

/// Case-insensitive ASCII match against a lower-case pattern, as URL
/// schemes are compared.
pub open spec fn matches_ci(s: Seq<char>, pat: Seq<char>) -> bool {
    s.len() == pat.len() && forall|i: int| 0 <= i < s.len() ==> ascii_ci_eq(s[i], #[trigger] pat[i])
}

/// Compares `v[start..end]` case-insensitively against a lower-case pattern.
fn chars_match_ci(v: &Vec<char>, start: usize, end: usize, pat: &Vec<char>) -> (r: bool)
    requires
        start <= end <= v@.len(),
    ensures
        r == matches_ci(v@.subrange(start as int, end as int), pat@),
{
    let ghost sub = v@.subrange(start as int, end as int);
    if end - start != pat.len() {
        return false;
    }
    let mut i: usize = 0;
    let n: usize = pat.len();
    while i < n
        invariant
            i <= n,
            n == pat@.len(),
            start + n == end,
            end <= v@.len(),
            sub == v@.subrange(start as int, end as int),
            forall|j: int| 0 <= j < i ==> ascii_ci_eq(sub[j], #[trigger] pat@[j]),
        decreases n - i,
    {
        let a: char = v[start + i];
        let p: char = pat[i];
        let au: u32 = a as u32;
        let pu: u32 = p as u32;
        let ok: bool = a == p || ('A' as u32 <= au && au <= 'Z' as u32 && au + 32 == pu);
        if !ok {
            assert(sub[i as int] == a);
            return false;
        }
        assert(sub[i as int] == a);
        i = i + 1;
    }
    true
}

/// Compares `v[start..end]` exactly against a pattern.
fn chars_match_exact(v: &Vec<char>, start: usize, end: usize, pat: &Vec<char>) -> (r: bool)
    requires
        start <= end <= v@.len(),
    ensures
        r == (v@.subrange(start as int, end as int) == pat@),
{
    let ghost sub = v@.subrange(start as int, end as int);
    if end - start != pat.len() {
        return false;
    }
    let mut i: usize = 0;
    let n: usize = pat.len();
    while i < n
        invariant
            i <= n,
            n == pat@.len(),
            start + n == end,
            end <= v@.len(),
            sub == v@.subrange(start as int, end as int),
            forall|j: int| 0 <= j < i ==> sub[j] == #[trigger] pat@[j],
        decreases n - i,
    {
        let a: char = v[start + i];
        if a != pat[i] {
            assert(sub[i as int] == a);
            assert(sub != pat@);
            return false;
        }
        assert(sub[i as int] == a);
        i = i + 1;
    }
    assert(sub =~= pat@);
    true
}

/// Collects `v[start..end]` into a vector of its own.
fn sub_chars(v: &Vec<char>, start: usize, end: usize) -> (r: Vec<char>)
    requires
        start <= end <= v@.len(),
    ensures
        r@ == v@.subrange(start as int, end as int),
{
    let mut r: Vec<char> = Vec::new();
    let mut i: usize = start;
    while i < end
        invariant
            start <= i <= end <= v@.len(),
            r@ == v@.subrange(start as int, i as int),
        decreases end - i,
    {
        r.push(v[i]);
        assert(r@ =~= v@.subrange(start as int, i + 1 as int));
        i = i + 1;
    }
    r
}

pub open spec fn pat_http() -> Seq<char> {
    seq!['h', 't', 't', 'p']
}

pub open spec fn pat_https() -> Seq<char> {
    seq!['h', 't', 't', 'p', 's']
}

pub open spec fn pat_file() -> Seq<char> {
    seq!['f', 'i', 'l', 'e']
}

pub open spec fn pat_data() -> Seq<char> {
    seq!['d', 'a', 't', 'a']
}

pub open spec fn pat_hex() -> Seq<char> {
    seq!['h', 'e', 'x']
}

/// How the payload of a `data:` URL is read: an explicit `<encoding>;` tag
/// selects the encoding, and only `hex` is understood; a payload without a
/// tag is taken as hex.
pub open spec fn classify_data(rest: Seq<char>) -> SourceKindV {
    if idx_of(rest, ';') < 0 {
        SourceKindV::DataHex(rest)
    } else if rest.subrange(0, idx_of(rest, ';')) == pat_hex() {
        SourceKindV::DataHex(rest.subrange(idx_of(rest, ';') + 1, rest.len() as int))
    } else {
        SourceKindV::Unsupported
    }
}

/// How a scheme picks the source kind.
pub open spec fn classify_scheme(sch: Seq<char>, rest: Seq<char>) -> SourceKindV {
    if matches_ci(sch, pat_http()) || matches_ci(sch, pat_https()) {
        SourceKindV::Http
    } else if matches_ci(sch, pat_file()) {
        SourceKindV::File
    } else if matches_ci(sch, pat_data()) {
        classify_data(rest)
    } else {
        SourceKindV::Unsupported
    }
}

/// How a URL string is classified: the part before the first colon is the
/// scheme; a URL without a colon is no URL at all.
pub open spec fn spec_classify(s: Seq<char>) -> SourceKindV {
    if idx_of(s, ':') < 0 {
        SourceKindV::Unsupported
    } else {
        classify_scheme(
            s.subrange(0, idx_of(s, ':')),
            s.subrange(idx_of(s, ':') + 1, s.len() as int),
        )
    }
}

/// Classifies a registry source URL.
pub fn classify_source(url: &str) -> (r: SourceKind)
    ensures
        r@ == spec_classify(url@),
{
    let chars: Vec<char> = str_to_chars(url);
    let colon: Option<usize> = find_char(&chars, 0, ':');
    proof {
        assert(chars@.subrange(0, chars@.len() as int) =~= chars@);
    }
    match colon {
        None => SourceKind::Unsupported,
        Some(j) => {
            let n: usize = chars.len();
            let p_http: Vec<char> = vec!['h', 't', 't', 'p'];
            let p_https: Vec<char> = vec!['h', 't', 't', 'p', 's'];
            let p_file: Vec<char> = vec!['f', 'i', 'l', 'e'];
            let p_data: Vec<char> = vec!['d', 'a', 't', 'a'];
            if chars_match_ci(&chars, 0, j, &p_http) || chars_match_ci(&chars, 0, j, &p_https) {
                SourceKind::Http
            } else if chars_match_ci(&chars, 0, j, &p_file) {
                SourceKind::File
            } else if chars_match_ci(&chars, 0, j, &p_data) {
                let ghost rest = chars@.subrange(j + 1 as int, chars@.len() as int);
                match find_char(&chars, j + 1, ';') {
                    None => {
                        let payload: Vec<char> = sub_chars(&chars, j + 1, n);
                        SourceKind::DataHex(chars_to_string(&payload))
                    },
                    Some(k) => {
                        proof {
                            assert(rest.subrange(0, k - (j + 1)) =~= chars@.subrange(
                                j + 1 as int,
                                k as int,
                            ));
                            assert(rest.subrange(k - (j + 1) + 1, rest.len() as int)
                                =~= chars@.subrange(k + 1 as int, chars@.len() as int));
                        }
                        let p_hex: Vec<char> = vec!['h', 'e', 'x'];
                        if chars_match_exact(&chars, j + 1, k, &p_hex) {
                            let payload: Vec<char> = sub_chars(&chars, k + 1, n);
                            SourceKind::DataHex(chars_to_string(&payload))
                        } else {
                            SourceKind::Unsupported
                        }
                    },
                }
            } else {
                SourceKind::Unsupported
            }
        },
    }
}

/// Even-length string of hexadecimal digits.
pub open spec fn is_hex_seq(s: Seq<char>) -> bool {
    s.len() % 2 == 0 && forall|i: int| 0 <= i < s.len() ==> is_hex_digit(#[trigger] s[i])
}

/// The bytes a hex string denotes, two digits a byte, high digit first.
pub open spec fn hex_bytes(s: Seq<char>) -> Seq<u8> {
    Seq::new((s.len() / 2) as nat, |i: int| (hex_digit_val(s[2 * i]) * 16 + hex_digit_val(s[2 * i + 1])) as u8)
}

/// Relies on `hex::decode`: it succeeds exactly on even-length strings of
/// hexadecimal digits, pairing digits into bytes, high digit first.
#[verifier::external_body]
pub(crate) fn hex_decode(s: &str) -> (r: Option<Vec<u8>>)
    ensures
        r is Some <==> is_hex_seq(s@),
        r matches Some(b) ==> b@ == hex_bytes(s@),
{
    hex::decode(s).ok()
}

/// Relies on `String::from_utf8`: it succeeds exactly on valid UTF-8 and
/// decodes the bytes into the characters they encode.
#[verifier::external_body]
pub(crate) fn bytes_to_string(v: Vec<u8>) -> (r: Option<String>)
    ensures
        r is Some <==> valid_utf8(v@),
        r matches Some(s) ==> s@ == decode_utf8(v@),
{
    String::from_utf8(v).ok()
}

/// Decodes the payload of a hex `data:` URL into document text.
pub fn decode_hex_payload(payload: &str) -> (r: Option<String>)
    ensures
        r is Some <==> is_hex_seq(payload@) && valid_utf8(hex_bytes(payload@)),
        r matches Some(s) ==> s@ == decode_utf8(hex_bytes(payload@)),
{
    match hex_decode(payload) {
        None => None,
        Some(b) => bytes_to_string(b),
    }
}

/// Loads a registry from the payload of a hex `data:` URL: the payload
/// decodes to UTF-8 text that must be a well-formed registry document.
pub fn registry_from_hex_payload(payload: &str) -> (r: Option<crate::registry::Registry>)
    ensures
        r matches Some(reg) ==> reg.wf() && is_hex_seq(payload@) && valid_utf8(
            hex_bytes(payload@),
        ) && crate::json::parse_registry_doc(decode_utf8(hex_bytes(payload@))) == Some(
            crate::json::mod_entries(reg.mods@),
        ),
        r is None ==> !is_hex_seq(payload@) || !valid_utf8(hex_bytes(payload@))
            || crate::json::parse_registry_doc(decode_utf8(hex_bytes(payload@))) is None,
{
    match decode_hex_payload(payload) {
        None => None,
        Some(text) => crate::json::registry_from_json(text.as_str()),
    }
}

} // verus!
