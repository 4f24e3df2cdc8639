//! The textual form of the manifest and registry documents: a small JSON
//! codec over character sequences. The writer emits the canonical compact
//! form; the reader accepts that form with JSON whitespace between
//! tokens, and decodes the standard string escapes. Writing a document
//! and reading it back yields the same value.

use vstd::prelude::*;

use crate::records::{Metadata, Record, Records, RecordV};
use crate::text::{
    is_hex_digit, hex_digit_val, is_dec_digit, hex_digit_char, digits_val, dec_rep, str_to_chars,
    chars_to_string, push_dec_u64, hex_digit_char_of,
};

verus! {

/// JSON whitespace.
pub open spec fn is_json_ws(c: char) -> bool {
    c == ' ' || c == '\t' || c == '\n' || c == '\r'
}

/// The input with leading whitespace dropped.
pub open spec fn skip_ws(s: Seq<char>) -> Seq<char>
    decreases s.len(),
{
    if s.len() > 0 && is_json_ws(s[0]) {
        skip_ws(s.drop_first())
    } else {
        s
    }
}

/// Skipping does nothing when nothing leads with whitespace.
pub proof fn lemma_skip_ws_id(s: Seq<char>)
    requires
        s.len() == 0 || !is_json_ws(s[0]),
    ensures
        skip_ws(s) == s,
{
}

/// Skipping whitespace twice is skipping it once.
pub proof fn lemma_skip_ws_idem(s: Seq<char>)
    ensures
        skip_ws(skip_ws(s)) == skip_ws(s),
    decreases s.len(),
{
    if s.len() > 0 && is_json_ws(s[0]) {
        lemma_skip_ws_idem(s.drop_first());
    }
}

/// The control character with code `v`.
pub open spec fn ctl_char(v: int) -> char {
    if v == 0x0 { '\u{0}' }
    else if v == 0x1 { '\u{1}' }
    else if v == 0x2 { '\u{2}' }
    else if v == 0x3 { '\u{3}' }
    else if v == 0x4 { '\u{4}' }
    else if v == 0x5 { '\u{5}' }
    else if v == 0x6 { '\u{6}' }
    else if v == 0x7 { '\u{7}' }
    else if v == 0x8 { '\u{8}' }
    else if v == 0x9 { '\u{9}' }
    else if v == 0xa { '\u{a}' }
    else if v == 0xb { '\u{b}' }
    else if v == 0xc { '\u{c}' }
    else if v == 0xd { '\u{d}' }
    else if v == 0xe { '\u{e}' }
    else if v == 0xf { '\u{f}' }
    else if v == 0x10 { '\u{10}' }
    else if v == 0x11 { '\u{11}' }
    else if v == 0x12 { '\u{12}' }
    else if v == 0x13 { '\u{13}' }
    else if v == 0x14 { '\u{14}' }
    else if v == 0x15 { '\u{15}' }
    else if v == 0x16 { '\u{16}' }
    else if v == 0x17 { '\u{17}' }
    else if v == 0x18 { '\u{18}' }
    else if v == 0x19 { '\u{19}' }
    else if v == 0x1a { '\u{1a}' }
    else if v == 0x1b { '\u{1b}' }
    else if v == 0x1c { '\u{1c}' }
    else if v == 0x1d { '\u{1d}' }
    else if v == 0x1e { '\u{1e}' }
    else { '\u{1f}' }
}

/// A character is its own code's control character.
pub proof fn lemma_ctl_char_code(c: char)
    requires
        c as u32 <= 0x1f,
    ensures
        ctl_char(c as u32 as int) == c,
{
}

/// The control character with code `v`, as executable code.
pub fn ctl_char_of(v: u32) -> (c: char)
    requires
        v <= 0x1f,
    ensures
        c == ctl_char(v as int),
{
    if v == 0x0 { '\u{0}' }
    else if v == 0x1 { '\u{1}' }
    else if v == 0x2 { '\u{2}' }
    else if v == 0x3 { '\u{3}' }
    else if v == 0x4 { '\u{4}' }
    else if v == 0x5 { '\u{5}' }
    else if v == 0x6 { '\u{6}' }
    else if v == 0x7 { '\u{7}' }
    else if v == 0x8 { '\u{8}' }
    else if v == 0x9 { '\u{9}' }
    else if v == 0xa { '\u{a}' }
    else if v == 0xb { '\u{b}' }
    else if v == 0xc { '\u{c}' }
    else if v == 0xd { '\u{d}' }
    else if v == 0xe { '\u{e}' }
    else if v == 0xf { '\u{f}' }
    else if v == 0x10 { '\u{10}' }
    else if v == 0x11 { '\u{11}' }
    else if v == 0x12 { '\u{12}' }
    else if v == 0x13 { '\u{13}' }
    else if v == 0x14 { '\u{14}' }
    else if v == 0x15 { '\u{15}' }
    else if v == 0x16 { '\u{16}' }
    else if v == 0x17 { '\u{17}' }
    else if v == 0x18 { '\u{18}' }
    else if v == 0x19 { '\u{19}' }
    else if v == 0x1a { '\u{1a}' }
    else if v == 0x1b { '\u{1b}' }
    else if v == 0x1c { '\u{1c}' }
    else if v == 0x1d { '\u{1d}' }
    else if v == 0x1e { '\u{1e}' }
    else { '\u{1f}' }
}

/// How the writer renders one character inside a string: quotes and
/// backslashes get a backslash, control characters a `\u00..` escape,
/// everything else stands as it is.
pub open spec fn esc_char(c: char) -> Seq<char> {
    if c == '"' {
        seq!['\\', '"']
    } else if c == '\\' {
        seq!['\\', '\\']
    } else if c as u32 <= 0x1f {
        seq!['\\', 'u', '0', '0', hex_digit_char(c as u32 as int / 16), hex_digit_char(
            c as u32 as int % 16,
        )]
    } else {
        seq![c]
    }
}

/// The body of an encoded string: each character rendered in order.
pub open spec fn enc_str_body(s: Seq<char>) -> Seq<char>
    decreases s.len(),
{
    if s.len() == 0 {
        Seq::empty()
    } else {
        esc_char(s[0]) + enc_str_body(s.drop_first())
    }
}

/// An encoded string, quotes included.
pub open spec fn enc_string(s: Seq<char>) -> Seq<char> {
    seq!['"'] + enc_str_body(s) + seq!['"']
}

/// What a short escape after a backslash decodes to.
pub open spec fn short_unescape(c: char) -> Option<char> {
    if c == '"' { Some('"') }
    else if c == '\\' { Some('\\') }
    else if c == '/' { Some('/') }
    else if c == 'b' { Some('\u{8}') }
    else if c == 'f' { Some('\u{c}') }
    else if c == 'n' { Some('\n') }
    else if c == 'r' { Some('\r') }
    else if c == 't' { Some('\t') }
    else { None }
}

/// What a `\u00..` escape decodes to: only control-character codes are
/// accepted, which is all the writer ever emits.
pub open spec fn u_unescape(c1: char, c2: char, c3: char, c4: char) -> Option<char> {
    if c1 == '0' && c2 == '0' && is_hex_digit(c3) && is_hex_digit(c4) && hex_digit_val(c3) * 16
        + hex_digit_val(c4) <= 0x1f {
        Some(ctl_char(hex_digit_val(c3) * 16 + hex_digit_val(c4)))
    } else {
        None
    }
}

/// Reads a string body up to and including its closing quote: the decoded
/// characters and what follows the quote.
pub open spec fn parse_str_body(s: Seq<char>) -> Option<(Seq<char>, Seq<char>)>
    decreases s.len(),
{
    if s.len() == 0 {
        None
    } else if s[0] == '"' {
        Some((Seq::empty(), s.drop_first()))
    } else if s[0] == '\\' {
        if s.len() < 2 {
            None
        } else if s[1] == 'u' {
            if s.len() < 6 {
                None
            } else {
                match u_unescape(s[2], s[3], s[4], s[5]) {
                    Some(c) => match parse_str_body(s.subrange(6, s.len() as int)) {
                        Some(p) => Some((seq![c] + p.0, p.1)),
                        None => None,
                    },
                    None => None,
                }
            }
        } else {
            match short_unescape(s[1]) {
                Some(c) => match parse_str_body(s.subrange(2, s.len() as int)) {
                    Some(p) => Some((seq![c] + p.0, p.1)),
                    None => None,
                },
                None => None,
            }
        }
    } else if s[0] as u32 <= 0x1f {
        None
    } else {
        match parse_str_body(s.drop_first()) {
            Some(p) => Some((seq![s[0]] + p.0, p.1)),
            None => None,
        }
    }
}

/// Reads a whole string token, opening quote first.
pub open spec fn parse_string(s: Seq<char>) -> Option<(Seq<char>, Seq<char>)> {
    if s.len() > 0 && s[0] == '"' {
        parse_str_body(s.drop_first())
    } else {
        None
    }
}

/// Reading an encoded string body gives back the characters it encodes
/// and consumes exactly through the closing quote.
pub proof fn lemma_enc_str_body_rt(s: Seq<char>, rest: Seq<char>)
    ensures
        parse_str_body(enc_str_body(s) + seq!['"'] + rest) == Some((s, rest)),
    decreases s.len(),
{
    let whole = enc_str_body(s) + seq!['"'] + rest;
    if s.len() == 0 {
        assert(whole =~= seq!['"'] + rest);
        assert(whole[0] == '"');
        assert(whole.drop_first() =~= rest);
    } else {
        lemma_enc_str_body_rt(s.drop_first(), rest);
        let tail = enc_str_body(s.drop_first()) + seq!['"'] + rest;
        let c = s[0];
        assert(enc_str_body(s) =~= esc_char(c) + enc_str_body(s.drop_first()));
        if c == '"' {
            assert(whole =~= seq!['\\', '"'] + tail);
            assert(whole[0] == '\\' && whole[1] == '"');
            assert(whole.subrange(2, whole.len() as int) =~= tail);
            assert(short_unescape('"') == Some('"'));
            assert(parse_str_body(whole) == Some((seq![c] + s.drop_first(), rest)));
            assert(seq![c] + s.drop_first() =~= s);
        } else if c == '\\' {
            assert(whole =~= seq!['\\', '\\'] + tail);
            assert(whole[0] == '\\' && whole[1] == '\\');
            assert(whole.subrange(2, whole.len() as int) =~= tail);
            assert(parse_str_body(whole) == Some((seq![c] + s.drop_first(), rest)));
            assert(seq![c] + s.drop_first() =~= s);
        } else if c as u32 <= 0x1f {
            let hi = c as u32 as int / 16;
            let lo = c as u32 as int % 16;
            assert(whole =~= seq!['\\', 'u', '0', '0', hex_digit_char(hi), hex_digit_char(lo)]
                + tail);
            assert(whole[0] == '\\' && whole[1] == 'u' && whole[2] == '0' && whole[3] == '0');
            assert(whole[4] == hex_digit_char(hi) && whole[5] == hex_digit_char(lo));
            assert(whole.subrange(6, whole.len() as int) =~= tail);
            crate::text::lemma_hex_digit_char_val(hi);
            crate::text::lemma_hex_digit_char_val(lo);
            assert(hex_digit_val(hex_digit_char(hi)) * 16 + hex_digit_val(hex_digit_char(lo))
                == c as u32);
            lemma_ctl_char_code(c);
            assert(u_unescape(whole[2], whole[3], whole[4], whole[5]) == Some(c));
            assert(parse_str_body(whole) == Some((seq![c] + s.drop_first(), rest)));
            assert(seq![c] + s.drop_first() =~= s);
        } else {
            assert(whole =~= seq![c] + tail);
            assert(whole[0] == c);
            assert(whole[0] != '"' && whole[0] != '\\');
            assert(whole.drop_first() =~= tail);
            assert(parse_str_body(whole) == Some((seq![c] + s.drop_first(), rest)));
            assert(seq![c] + s.drop_first() =~= s);
        }
    }
}

/// Reading an encoded string gives back its characters.
pub proof fn lemma_enc_string_rt(s: Seq<char>, rest: Seq<char>)
    ensures
        parse_string(enc_string(s) + rest) == Some((s, rest)),
{
    let whole = enc_string(s) + rest;
    assert(whole[0] == '"');
    assert(whole.drop_first() =~= enc_str_body(s) + seq!['"'] + rest);
    lemma_enc_str_body_rt(s, rest);
}

/// The longest digit prefix and what follows it.
pub open spec fn take_digits(s: Seq<char>) -> (Seq<char>, Seq<char>)
    decreases s.len(),
{
    if s.len() > 0 && is_dec_digit(s[0]) {
        (seq![s[0]] + take_digits(s.drop_first()).0, take_digits(s.drop_first()).1)
    } else {
        (Seq::empty(), s)
    }
}

/// Reads a number token: one or more digits denoting a value that fits
/// in a `u64`.
pub open spec fn parse_u64_tok(s: Seq<char>) -> Option<(u64, Seq<char>)> {
    if take_digits(s).0.len() > 0 && digits_val(take_digits(s).0) <= u64::MAX {
        Some((digits_val(take_digits(s).0) as u64, take_digits(s).1))
    } else {
        None
    }
}

/// Taking digits off a digit string followed by a non-digit splits
/// exactly there.
pub proof fn lemma_take_digits_exact(d: Seq<char>, rest: Seq<char>)
    requires
        forall|i: int| 0 <= i < d.len() ==> is_dec_digit(#[trigger] d[i]),
        rest.len() == 0 || !is_dec_digit(rest[0]),
    ensures
        take_digits(d + rest) == (d, rest),
    decreases d.len(),
{
    let whole = d + rest;
    if d.len() == 0 {
        assert(whole =~= rest);
    } else {
        assert(whole[0] == d[0]);
        assert(whole.drop_first() =~= d.drop_first() + rest);
        lemma_take_digits_exact(d.drop_first(), rest);
        assert(take_digits(whole).0 =~= seq![d[0]] + d.drop_first());
        assert(seq![d[0]] + d.drop_first() =~= d);
    }
}

/// Reading an encoded number gives the number back.
pub proof fn lemma_enc_u64_rt(n: u64, rest: Seq<char>)
    requires
        rest.len() == 0 || !is_dec_digit(rest[0]),
    ensures
        parse_u64_tok(dec_rep(n as nat) + rest) == Some((n, rest)),
{
    crate::text::lemma_dec_rep_val(n as nat);
    lemma_take_digits_exact(dec_rep(n as nat), rest);
}

/// Skipping whitespace never lengthens the input.
pub proof fn lemma_skip_ws_len(s: Seq<char>)
    ensures
        skip_ws(s).len() <= s.len(),
    decreases s.len(),
{
    if s.len() > 0 && is_json_ws(s[0]) {
        lemma_skip_ws_len(s.drop_first());
    }
}

/// Reading a string consumes at least its quotes.
pub proof fn lemma_parse_str_body_len(s: Seq<char>)
    ensures
        parse_str_body(s) matches Some(p) ==> p.1.len() < s.len(),
    decreases s.len(),
{
    if s.len() > 0 && s[0] != '"' {
        if s[0] == '\\' && s.len() >= 2 {
            if s[1] == 'u' {
                if s.len() >= 6 {
                    lemma_parse_str_body_len(s.subrange(6, s.len() as int));
                }
            } else {
                lemma_parse_str_body_len(s.subrange(2, s.len() as int));
            }
        } else {
            lemma_parse_str_body_len(s.drop_first());
        }
    }
}

/// Reads one expected punctuation character, whitespace allowed before
/// it.
pub open spec fn tok_char(s: Seq<char>, c: char) -> Option<Seq<char>> {
    if skip_ws(s).len() > 0 && skip_ws(s)[0] == c {
        Some(skip_ws(s).drop_first())
    } else {
        None
    }
}

/// Reads a string token, whitespace allowed before it.
pub open spec fn tok_string(s: Seq<char>) -> Option<(Seq<char>, Seq<char>)> {
    parse_string(skip_ws(s))
}

/// Reads a number token, whitespace allowed before it.
pub open spec fn tok_u64(s: Seq<char>) -> Option<(u64, Seq<char>)> {
    parse_u64_tok(skip_ws(s))
}

/// Reads a string token and demands it spell a given key.
pub open spec fn tok_key(s: Seq<char>, pat: Seq<char>) -> Option<Seq<char>> {
    match tok_string(s) {
        Some(p) => if p.0 == pat {
            Some(p.1)
        } else {
            None
        },
        None => None,
    }
}

pub open spec fn null_lit() -> Seq<char> {
    seq!['n', 'u', 'l', 'l']
}

/// Reads a metadata slot: `null` for an empty slot, an empty object for
/// a filled one.
pub open spec fn tok_metadata(s: Seq<char>) -> Option<(bool, Seq<char>)> {
    if skip_ws(s).len() >= 4 && skip_ws(s).subrange(0, 4) == null_lit() {
        Some((false, skip_ws(s).subrange(4, skip_ws(s).len() as int)))
    } else {
        match tok_char(s, '{') {
            Some(r) => match tok_char(r, '}') {
                Some(r2) => Some((true, r2)),
                None => None,
            },
            None => None,
        }
    }
}

/// `tok_char` consumes its character.
pub proof fn lemma_tok_char_len(s: Seq<char>, c: char)
    ensures
        tok_char(s, c) matches Some(r) ==> r.len() < s.len(),
{
    lemma_skip_ws_len(s);
}

/// `tok_string` consumes its quotes.
pub proof fn lemma_tok_string_len(s: Seq<char>)
    ensures
        tok_string(s) matches Some(p) ==> p.1.len() < s.len(),
{
    lemma_skip_ws_len(s);
    if skip_ws(s).len() > 0 && skip_ws(s)[0] == '"' {
        lemma_parse_str_body_len(skip_ws(s).drop_first());
    }
}

/// `tok_u64` consumes its digits.
pub proof fn lemma_tok_u64_len(s: Seq<char>)
    ensures
        tok_u64(s) matches Some(p) ==> p.1.len() < s.len(),
{
    lemma_skip_ws_len(s);
    let t = skip_ws(s);
    if take_digits(t).0.len() > 0 {
        lemma_take_digits_len(t);
    }
}

/// Taking digits consumes them.
pub proof fn lemma_take_digits_len(s: Seq<char>)
    ensures
        take_digits(s).1.len() + take_digits(s).0.len() == s.len(),
    decreases s.len(),
{
    if s.len() > 0 && is_dec_digit(s[0]) {
        lemma_take_digits_len(s.drop_first());
    }
}

/// `tok_metadata` consumes its token.
pub proof fn lemma_tok_metadata_len(s: Seq<char>)
    ensures
        tok_metadata(s) matches Some(p) ==> p.1.len() < s.len(),
{
    lemma_skip_ws_len(s);
    lemma_tok_char_len(s, '{');
    match tok_char(s, '{') {
        Some(r) => {
            lemma_tok_char_len(r, '}');
        },
        None => {},
    }
}

/// `tok_key` consumes its key.
pub proof fn lemma_tok_key_len(s: Seq<char>, pat: Seq<char>)
    ensures
        tok_key(s, pat) matches Some(r) ==> r.len() < s.len(),
{
    lemma_tok_string_len(s);
}

/// Reads the items of a non-empty string array, first string first.
pub open spec fn parse_arr_more(s: Seq<char>) -> Option<(Seq<Seq<char>>, Seq<char>)>
    decreases s.len(),
    via parse_arr_more_dec
{
    match tok_string(s) {
        None => None,
        Some(p) => match tok_char(p.1, ',') {
            Some(r2) => match parse_arr_more(r2) {
                Some(q) => Some((seq![p.0] + q.0, q.1)),
                None => None,
            },
            None => match tok_char(p.1, ']') {
                Some(r2) => Some((seq![p.0], r2)),
                None => None,
            },
        },
    }
}

#[via_fn]
proof fn parse_arr_more_dec(s: Seq<char>) {
    lemma_tok_string_len(s);
    match tok_string(s) {
        Some(p) => {
            lemma_tok_char_len(p.1, ',');
        },
        None => {},
    }
}

/// Reads a string array, brackets included.
pub open spec fn parse_arr(s: Seq<char>) -> Option<(Seq<Seq<char>>, Seq<char>)> {
    match tok_char(s, '[') {
        None => None,
        Some(r) => match tok_char(r, ']') {
            Some(r2) => Some((Seq::empty(), r2)),
            None => parse_arr_more(r),
        },
    }
}

/// `parse_arr_more` consumes at least its closing bracket.
pub proof fn lemma_parse_arr_more_len(s: Seq<char>)
    ensures
        parse_arr_more(s) matches Some(p) ==> p.1.len() < s.len(),
    decreases s.len(),
{
    lemma_tok_string_len(s);
    match tok_string(s) {
        Some(p) => {
            lemma_tok_char_len(p.1, ',');
            lemma_tok_char_len(p.1, ']');
            match tok_char(p.1, ',') {
                Some(r2) => {
                    lemma_parse_arr_more_len(r2);
                },
                None => {},
            }
        },
        None => {},
    }
}

/// `parse_arr` consumes at least its brackets.
pub proof fn lemma_parse_arr_len(s: Seq<char>)
    ensures
        parse_arr(s) matches Some(p) ==> p.1.len() < s.len(),
{
    lemma_tok_char_len(s, '[');
    match tok_char(s, '[') {
        Some(r) => {
            lemma_tok_char_len(r, ']');
            lemma_parse_arr_more_len(r);
        },
        None => {},
    }
}

pub open spec fn key_metadata() -> Seq<char> {
    seq!['m', 'e', 't', 'a', 'd', 'a', 't', 'a']
}

pub open spec fn key_update_time() -> Seq<char> {
    seq!['u', 'p', 'd', 'a', 't', 'e', '_', 't', 'i', 'm', 'e']
}

pub open spec fn key_version() -> Seq<char> {
    seq!['v', 'e', 'r', 's', 'i', 'o', 'n']
}

pub open spec fn key_files() -> Seq<char> {
    seq!['f', 'i', 'l', 'e', 's']
}

pub open spec fn key_id() -> Seq<char> {
    seq!['i', 'd']
}

pub open spec fn key_url() -> Seq<char> {
    seq!['u', 'r', 'l']
}

pub open spec fn key_image_url() -> Seq<char> {
    seq!['i', 'm', 'a', 'g', 'e', '_', 'u', 'r', 'l']
}

pub open spec fn key_name() -> Seq<char> {
    seq!['n', 'a', 'm', 'e']
}

/// Reads `"<key>": <string>`.
pub open spec fn parse_field_string(s: Seq<char>, key: Seq<char>) -> Option<(Seq<char>, Seq<char>)> {
    match tok_key(s, key) {
        None => None,
        Some(r) => match tok_char(r, ':') {
            None => None,
            Some(r2) => tok_string(r2),
        },
    }
}

/// Reads `"<key>": <number>`.
pub open spec fn parse_field_u64(s: Seq<char>, key: Seq<char>) -> Option<(u64, Seq<char>)> {
    match tok_key(s, key) {
        None => None,
        Some(r) => match tok_char(r, ':') {
            None => None,
            Some(r2) => tok_u64(r2),
        },
    }
}

/// Reads the metadata field of a record, trailing comma included.
pub open spec fn parse_record_meta(s: Seq<char>) -> Option<(bool, Seq<char>)> {
    match tok_key(s, key_metadata()) {
        None => None,
        Some(r) => match tok_char(r, ':') {
            None => None,
            Some(r2) => match tok_metadata(r2) {
                None => None,
                Some(p) => match tok_char(p.1, ',') {
                    None => None,
                    Some(r3) => Some((p.0, r3)),
                },
            },
        },
    }
}

/// Reads one record object: the four fields in their canonical order.
pub open spec fn parse_record(s: Seq<char>) -> Option<(crate::records::RecordV, Seq<char>)> {
    match tok_char(s, '{') {
        None => None,
        Some(r0) => match parse_record_meta(r0) {
            None => None,
            Some((md, r1)) => match parse_field_u64(r1, key_update_time()) {
                None => None,
                Some((ut, r2)) => match tok_char(r2, ',') {
                    None => None,
                    Some(r3) => match parse_field_string(r3, key_version()) {
                        None => None,
                        Some((ver, r4)) => match tok_char(r4, ',') {
                            None => None,
                            Some(r5) => match tok_key(r5, key_files()) {
                                None => None,
                                Some(r6) => match tok_char(r6, ':') {
                                    None => None,
                                    Some(r7) => match parse_arr(r7) {
                                        None => None,
                                        Some((fls, r8)) => match tok_char(r8, '}') {
                                            None => None,
                                            Some(r9) => Some(
                                                (
                                                    crate::records::RecordV {
                                                        metadata: md,
                                                        update_time: ut,
                                                        version: ver,
                                                        files: fls,
                                                    },
                                                    r9,
                                                ),
                                            ),
                                        },
                                    },
                                },
                            },
                        },
                    },
                },
            },
        },
    }
}

/// `parse_record` consumes at least its braces.
pub proof fn lemma_parse_record_len(s: Seq<char>)
    ensures
        parse_record(s) matches Some(p) ==> p.1.len() < s.len(),
{
    lemma_tok_char_len(s, '{');
    match tok_char(s, '{') {
        None => {},
        Some(r0) => {
            lemma_tok_key_len(r0, key_metadata());
            match tok_key(r0, key_metadata()) {
                None => {},
                Some(ra) => {
                    lemma_tok_char_len(ra, ':');
                    match tok_char(ra, ':') {
                        None => {},
                        Some(rb) => {
                            lemma_tok_metadata_len(rb);
                            match tok_metadata(rb) {
                                None => {},
                                Some(pmd) => {
                                    lemma_tok_char_len(pmd.1, ',');
                                    match tok_char(pmd.1, ',') {
                                        None => {},
                                        Some(r1) => {
                                            lemma_parse_record_len_tail(r1);
                                        },
                                    }
                                },
                            }
                        },
                    }
                },
            }
        },
    }
}

/// Consumption of the fields after the metadata slot.
proof fn lemma_parse_record_len_tail(r1: Seq<char>)
    ensures
        parse_field_u64(r1, key_update_time()) matches Some(pu) ==> pu.1.len() < r1.len()
            && (tok_char(pu.1, ',') matches Some(r3) ==> r3.len() < r1.len() && (parse_field_string(
            r3,
            key_version(),
        ) matches Some(pv) ==> pv.1.len() < r1.len() && (tok_char(pv.1, ',') matches Some(r5)
            ==> (tok_key(r5, key_files()) matches Some(r6) ==> (tok_char(r6, ':') matches Some(r7)
            ==> (parse_arr(r7) matches Some(pa) ==> (tok_char(pa.1, '}') matches Some(r9)
            ==> r9.len() < r1.len()))))))),
{
    lemma_tok_key_len(r1, key_update_time());
    match tok_key(r1, key_update_time()) {
        None => {},
        Some(ra) => {
            lemma_tok_char_len(ra, ':');
            match tok_char(ra, ':') {
                None => {},
                Some(rb) => {
                    lemma_tok_u64_len(rb);
                },
            }
        },
    }
    match parse_field_u64(r1, key_update_time()) {
        None => {},
        Some(pu) => {
            lemma_tok_char_len(pu.1, ',');
            match tok_char(pu.1, ',') {
                None => {},
                Some(r3) => {
                    lemma_tok_key_len(r3, key_version());
                    match tok_key(r3, key_version()) {
                        None => {},
                        Some(ra) => {
                            lemma_tok_char_len(ra, ':');
                            match tok_char(ra, ':') {
                                None => {},
                                Some(rb) => {
                                    lemma_tok_string_len(rb);
                                },
                            }
                        },
                    }
                    match parse_field_string(r3, key_version()) {
                        None => {},
                        Some(pv) => {
                            lemma_tok_char_len(pv.1, ',');
                            match tok_char(pv.1, ',') {
                                None => {},
                                Some(r5) => {
                                    lemma_tok_key_len(r5, key_files());
                                    match tok_key(r5, key_files()) {
                                        None => {},
                                        Some(r6) => {
                                            lemma_tok_char_len(r6, ':');
                                            match tok_char(r6, ':') {
                                                None => {},
                                                Some(r7) => {
                                                    lemma_parse_arr_len(r7);
                                                    match parse_arr(r7) {
                                                        None => {},
                                                        Some(pa) => {
                                                            lemma_tok_char_len(pa.1, '}');
                                                        },
                                                    }
                                                },
                                            }
                                        },
                                    }
                                },
                            }
                        },
                    }
                },
            }
        },
    }
}

/// Reads the members of a non-empty manifest document, first member
/// first.
pub open spec fn parse_members(s: Seq<char>) -> Option<
    (Seq<(Seq<char>, crate::records::RecordV)>, Seq<char>),
>
    decreases s.len(),
    via parse_members_dec
{
    match tok_string(s) {
        None => None,
        Some((k, r)) => match tok_char(r, ':') {
            None => None,
            Some(r2) => match parse_record(r2) {
                None => None,
                Some((v, r3)) => match tok_char(r3, ',') {
                    Some(r4) => match parse_members(r4) {
                        Some((es, r5)) => Some((seq![(k, v)] + es, r5)),
                        None => None,
                    },
                    None => match tok_char(r3, '}') {
                        Some(r4) => Some((seq![(k, v)], r4)),
                        None => None,
                    },
                },
            },
        },
    }
}

#[via_fn]
proof fn parse_members_dec(s: Seq<char>) {
    lemma_tok_string_len(s);
    match tok_string(s) {
        None => {},
        Some((k, r)) => {
            lemma_tok_char_len(r, ':');
            match tok_char(r, ':') {
                None => {},
                Some(r2) => {
                    lemma_parse_record_len(r2);
                    match parse_record(r2) {
                        None => {},
                        Some((v, r3)) => {
                            lemma_tok_char_len(r3, ',');
                        },
                    }
                },
            }
        },
    }
}

/// Pairwise-distinct member keys.
pub open spec fn distinct_keys(es: Seq<(Seq<char>, crate::records::RecordV)>) -> bool {
    forall|i: int, j: int| 0 <= i < j < es.len() ==> (#[trigger] es[i]).0 != (#[trigger] es[j]).0
}

/// Reads a whole manifest document: a JSON object from mod id to record,
/// nothing but whitespace after it, every id listed once.
pub open spec fn parse_records_doc(s: Seq<char>) -> Option<
    Seq<(Seq<char>, crate::records::RecordV)>,
> {
    match tok_char(s, '{') {
        None => None,
        Some(r) => match tok_char(r, '}') {
            Some(r2) => if skip_ws(r2).len() == 0 {
                Some(Seq::empty())
            } else {
                None
            },
            None => match parse_members(r) {
                Some((es, r2)) => if skip_ws(r2).len() == 0 && distinct_keys(es) {
                    Some(es)
                } else {
                    None
                },
                None => None,
            },
        },
    }
}

/// The written form of a metadata slot.
pub open spec fn enc_metadata(md: bool) -> Seq<char> {
    if md {
        seq!['{', '}']
    } else {
        null_lit()
    }
}

/// The written items of a string array, commas between them.
pub open spec fn enc_arr_items(items: Seq<Seq<char>>) -> Seq<char>
    decreases items.len(),
{
    if items.len() == 0 {
        Seq::empty()
    } else if items.len() == 1 {
        enc_string(items[0])
    } else {
        enc_string(items[0]) + seq![','] + enc_arr_items(items.drop_first())
    }
}

/// The written form of a string array.
pub open spec fn enc_arr(items: Seq<Seq<char>>) -> Seq<char> {
    seq!['['] + enc_arr_items(items) + seq![']']
}

/// The written form of one record object.
pub open spec fn enc_record(v: crate::records::RecordV) -> Seq<char> {
    seq!['{'] + enc_string(key_metadata()) + seq![':'] + enc_metadata(v.metadata) + seq![',']
        + enc_string(key_update_time()) + seq![':'] + dec_rep(v.update_time as nat) + seq![',']
        + enc_string(key_version()) + seq![':'] + enc_string(v.version) + seq![','] + enc_string(
        key_files(),
    ) + seq![':'] + enc_arr(v.files) + seq!['}']
}

/// The written form of one manifest member.
pub open spec fn enc_member(e: (Seq<char>, crate::records::RecordV)) -> Seq<char> {
    enc_string(e.0) + seq![':'] + enc_record(e.1)
}

/// The written members of a non-empty manifest, commas between them.
pub open spec fn enc_members(es: Seq<(Seq<char>, crate::records::RecordV)>) -> Seq<char>
    decreases es.len(),
{
    if es.len() == 0 {
        Seq::empty()
    } else if es.len() == 1 {
        enc_member(es[0])
    } else {
        enc_member(es[0]) + seq![','] + enc_members(es.drop_first())
    }
}

/// The written form of a whole manifest document.
pub open spec fn enc_records_doc(es: Seq<(Seq<char>, crate::records::RecordV)>) -> Seq<char> {
    seq!['{'] + enc_members(es) + seq!['}']
}

/// Reading an expected punctuation character placed first gives the rest.
pub proof fn lemma_tok_char_rt(c: char, rest: Seq<char>)
    requires
        !is_json_ws(c),
    ensures
        tok_char(seq![c] + rest, c) == Some(rest),
{
    let s = seq![c] + rest;
    assert(s[0] == c);
    lemma_skip_ws_id(s);
    assert(s.drop_first() =~= rest);
}

/// A different punctuation character is refused.
pub proof fn lemma_tok_char_miss(c: char, rest: Seq<char>, d: char)
    requires
        !is_json_ws(c),
        c != d,
    ensures
        tok_char(seq![c] + rest, d) is None,
{
    let s = seq![c] + rest;
    assert(s[0] == c);
    lemma_skip_ws_id(s);
}

/// Reading an encoded string token gives the string back.
pub proof fn lemma_tok_string_rt(x: Seq<char>, rest: Seq<char>)
    ensures
        tok_string(enc_string(x) + rest) == Some((x, rest)),
{
    let s = enc_string(x) + rest;
    assert(s[0] == '"');
    lemma_skip_ws_id(s);
    lemma_enc_string_rt(x, rest);
}

/// Reading an encoded key gives the rest.
pub proof fn lemma_tok_key_rt(k: Seq<char>, rest: Seq<char>)
    ensures
        tok_key(enc_string(k) + rest, k) == Some(rest),
{
    lemma_tok_string_rt(k, rest);
}

/// Reading an encoded number token gives the number back, as long as a
/// non-digit follows.
pub proof fn lemma_tok_u64_rt(n: u64, rest: Seq<char>)
    requires
        rest.len() > 0,
        !is_dec_digit(rest[0]),
    ensures
        tok_u64(dec_rep(n as nat) + rest) == Some((n, rest)),
{
    crate::text::lemma_dec_rep_val(n as nat);
    let s = dec_rep(n as nat) + rest;
    assert(s[0] == dec_rep(n as nat)[0]);
    assert(is_dec_digit(s[0]));
    assert(!is_json_ws(s[0]));
    lemma_skip_ws_id(s);
    lemma_enc_u64_rt(n, rest);
}

/// Reading an encoded metadata slot gives the slot back.
pub proof fn lemma_tok_metadata_rt(md: bool, rest: Seq<char>)
    ensures
        tok_metadata(enc_metadata(md) + rest) == Some((md, rest)),
{
    let s = enc_metadata(md) + rest;
    if md {
        assert(s[0] == '{');
        lemma_skip_ws_id(s);
        if s.len() >= 4 {
            assert(s.subrange(0, 4)[0] == '{');
            assert(s.subrange(0, 4) != null_lit());
        }
        assert(s =~= seq!['{'] + (seq!['}'] + rest));
        lemma_tok_char_rt('{', seq!['}'] + rest);
        lemma_tok_char_rt('}', rest);
    } else {
        assert(s[0] == 'n');
        lemma_skip_ws_id(s);
        assert(s.len() >= 4);
        assert(s.subrange(0, 4) =~= null_lit());
        assert(s.subrange(4, s.len() as int) =~= rest);
    }
}

/// Reading encoded array items gives the items back.
pub proof fn lemma_arr_more_rt(items: Seq<Seq<char>>, rest: Seq<char>)
    requires
        items.len() >= 1,
    ensures
        parse_arr_more(enc_arr_items(items) + seq![']'] + rest) == Some((items, rest)),
    decreases items.len(),
{
    let s = enc_arr_items(items) + seq![']'] + rest;
    if items.len() == 1 {
        assert(s =~= enc_string(items[0]) + (seq![']'] + rest));
        lemma_tok_string_rt(items[0], seq![']'] + rest);
        lemma_tok_char_miss(']', rest, ',');
        lemma_tok_char_rt(']', rest);
        assert(parse_arr_more(s) == Some((seq![items[0]], rest)));
        assert(seq![items[0]] =~= items);
    } else {
        let tail = enc_arr_items(items.drop_first()) + seq![']'] + rest;
        assert(s =~= enc_string(items[0]) + (seq![','] + tail));
        lemma_tok_string_rt(items[0], seq![','] + tail);
        lemma_tok_char_rt(',', tail);
        lemma_arr_more_rt(items.drop_first(), rest);
        assert(parse_arr_more(s) == Some((seq![items[0]] + items.drop_first(), rest)));
        assert(seq![items[0]] + items.drop_first() =~= items);
    }
}

/// Reading an encoded array gives the items back.
pub proof fn lemma_enc_arr_rt(items: Seq<Seq<char>>, rest: Seq<char>)
    ensures
        parse_arr(enc_arr(items) + rest) == Some((items, rest)),
{
    let s = enc_arr(items) + rest;
    let inner = enc_arr_items(items) + seq![']'] + rest;
    assert(s =~= seq!['['] + inner);
    lemma_tok_char_rt('[', inner);
    if items.len() == 0 {
        assert(inner =~= seq![']'] + rest);
        lemma_tok_char_rt(']', rest);
    } else {
        assert(inner[0] == enc_string(items[0])[0]);
        assert(inner[0] == '"');
        assert(inner =~= seq!['"'] + inner.drop_first());
        lemma_tok_char_miss('"', inner.drop_first(), ']');
        lemma_arr_more_rt(items, rest);
    }
}

/// Reading an encoded metadata field gives the slot and the rest.
proof fn lemma_meta_field_rt(md: bool, t1k: Seq<char>)
    ensures
        parse_record_meta(enc_string(key_metadata()) + (seq![':'] + (enc_metadata(md) + (seq![',']
            + t1k)))) == Some((md, t1k)),
{
    lemma_tok_key_rt(key_metadata(), seq![':'] + (enc_metadata(md) + (seq![','] + t1k)));
    lemma_tok_char_rt(':', enc_metadata(md) + (seq![','] + t1k));
    lemma_tok_metadata_rt(md, seq![','] + t1k);
    lemma_tok_char_rt(',', t1k);
}

/// Reading an encoded number field gives the number and the rest.
proof fn lemma_field_u64_rt(key: Seq<char>, n: u64, rest: Seq<char>)
    requires
        rest.len() > 0,
        !is_dec_digit(rest[0]),
    ensures
        parse_field_u64(enc_string(key) + (seq![':'] + (dec_rep(n as nat) + rest)), key) == Some(
            (n, rest),
        ),
{
    lemma_tok_key_rt(key, seq![':'] + (dec_rep(n as nat) + rest));
    lemma_tok_char_rt(':', dec_rep(n as nat) + rest);
    lemma_tok_u64_rt(n, rest);
}

/// Reading an encoded string field gives the string and the rest.
proof fn lemma_field_string_rt(key: Seq<char>, x: Seq<char>, rest: Seq<char>)
    ensures
        parse_field_string(enc_string(key) + (seq![':'] + (enc_string(x) + rest)), key) == Some(
            (x, rest),
        ),
{
    lemma_tok_key_rt(key, seq![':'] + (enc_string(x) + rest));
    lemma_tok_char_rt(':', enc_string(x) + rest);
    lemma_tok_string_rt(x, rest);
}

/// Reading an encoded record gives the record back.
#[verifier::rlimit(100)]
pub proof fn lemma_enc_record_rt(v: crate::records::RecordV, rest: Seq<char>)
    ensures
        parse_record(enc_record(v) + rest) == Some((v, rest)),
{
    let t8 = seq!['}'] + rest;
    let t7 = enc_arr(v.files) + t8;
    let t6 = seq![':'] + t7;
    let t5 = enc_string(key_files()) + t6;
    let t4c = seq![','] + t5;
    let t4 = enc_string(v.version) + t4c;
    let t3 = seq![':'] + t4;
    let t3k = enc_string(key_version()) + t3;
    let t2c = seq![','] + t3k;
    let t2 = dec_rep(v.update_time as nat) + t2c;
    let t1 = seq![':'] + t2;
    let t1k = enc_string(key_update_time()) + t1;
    let t0c = seq![','] + t1k;
    let t0 = enc_metadata(v.metadata) + t0c;
    let tm = seq![':'] + t0;
    let tmk = enc_string(key_metadata()) + tm;
    let whole = enc_record(v) + rest;
    assert(whole =~= seq!['{'] + tmk);
    lemma_tok_char_rt('{', tmk);
    lemma_meta_field_rt(v.metadata, t1k);
    assert(parse_record_meta(tmk) == Some((v.metadata, t1k)));
    assert(t2c[0] == ',');
    lemma_field_u64_rt(key_update_time(), v.update_time, t2c);
    assert(parse_field_u64(t1k, key_update_time()) == Some((v.update_time, t2c)));
    lemma_tok_char_rt(',', t3k);
    lemma_field_string_rt(key_version(), v.version, t4c);
    assert(parse_field_string(t3k, key_version()) == Some((v.version, t4c)));
    lemma_tok_char_rt(',', t5);
    lemma_tok_key_rt(key_files(), t6);
    lemma_tok_char_rt(':', t7);
    lemma_enc_arr_rt(v.files, t8);
    lemma_tok_char_rt('}', rest);
    assert(parse_record(whole) == Some(
        (
            crate::records::RecordV {
                metadata: v.metadata,
                update_time: v.update_time,
                version: v.version,
                files: v.files,
            },
            rest,
        ),
    ));
    assert(crate::records::RecordV {
        metadata: v.metadata,
        update_time: v.update_time,
        version: v.version,
        files: v.files,
    } == v);
}

/// Reading encoded members gives the members back.
#[verifier::rlimit(100)]
pub proof fn lemma_members_rt(es: Seq<(Seq<char>, crate::records::RecordV)>, rest: Seq<char>)
    requires
        es.len() >= 1,
    ensures
        parse_members(enc_members(es) + seq!['}'] + rest) == Some((es, rest)),
    decreases es.len(),
{
    let s = enc_members(es) + seq!['}'] + rest;
    if es.len() == 1 {
        let t1 = seq!['}'] + rest;
        let t0 = enc_record(es[0].1) + t1;
        let tk = seq![':'] + t0;
        assert(s =~= enc_string(es[0].0) + tk);
        lemma_tok_string_rt(es[0].0, tk);
        assert(tk =~= seq![':'] + t0);
        lemma_tok_char_rt(':', t0);
        assert(t0 =~= enc_record(es[0].1) + t1);
        lemma_enc_record_rt(es[0].1, t1);
        assert(t1 =~= seq!['}'] + rest);
        lemma_tok_char_miss('}', rest, ',');
        lemma_tok_char_rt('}', rest);
        assert(parse_members(s) == Some((seq![(es[0].0, es[0].1)], rest)));
        assert(seq![(es[0].0, es[0].1)] =~= es);
    } else {
        let t2 = enc_members(es.drop_first()) + seq!['}'] + rest;
        let t1 = seq![','] + t2;
        let t0 = enc_record(es[0].1) + t1;
        let tk = seq![':'] + t0;
        assert(s =~= enc_string(es[0].0) + tk);
        lemma_tok_string_rt(es[0].0, tk);
        assert(tk =~= seq![':'] + t0);
        lemma_tok_char_rt(':', t0);
        assert(t0 =~= enc_record(es[0].1) + t1);
        lemma_enc_record_rt(es[0].1, t1);
        assert(t1 =~= seq![','] + t2);
        lemma_tok_char_rt(',', t2);
        lemma_members_rt(es.drop_first(), rest);
        assert(parse_members(s) == Some((seq![(es[0].0, es[0].1)] + es.drop_first(), rest)));
        assert(seq![(es[0].0, es[0].1)] + es.drop_first() =~= es);
    }
}

/// The members an entry list of the manifest denotes.
pub open spec fn rec_entries(rs: Seq<(String, Record)>) -> Seq<(Seq<char>, RecordV)> {
    rs.map_values(|p: (String, Record)| (p.0@, p.1@))
}

/// Appending one more character extends the encoded body at its end.
pub proof fn lemma_enc_str_body_snoc(a: Seq<char>, c: char)
    ensures
        enc_str_body(a.push(c)) == enc_str_body(a) + esc_char(c),
    decreases a.len(),
{
    if a.len() == 0 {
        assert(a.push(c) =~= seq![c]);
        assert(a.push(c).drop_first() =~= Seq::<char>::empty());
        assert(enc_str_body(Seq::<char>::empty()) =~= Seq::<char>::empty());
        assert(enc_str_body(a.push(c)) =~= esc_char(c) + Seq::<char>::empty());
        assert(enc_str_body(a) + esc_char(c) =~= esc_char(c) + Seq::<char>::empty());
    } else {
        assert(a.push(c)[0] == a[0]);
        assert(a.push(c).drop_first() =~= a.drop_first().push(c));
        lemma_enc_str_body_snoc(a.drop_first(), c);
        assert(enc_str_body(a.push(c)) =~= enc_str_body(a) + esc_char(c));
    }
}

/// Appending one more item extends the encoded array at its end.
pub proof fn lemma_enc_arr_items_snoc(items: Seq<Seq<char>>, x: Seq<char>)
    ensures
        items.len() == 0 ==> enc_arr_items(items.push(x)) == enc_string(x),
        items.len() > 0 ==> enc_arr_items(items.push(x)) == enc_arr_items(items) + seq![',']
            + enc_string(x),
    decreases items.len(),
{
    if items.len() == 0 {
        assert(items.push(x) =~= seq![x]);
    } else if items.len() == 1 {
        assert(items.push(x)[0] == items[0]);
        assert(items.push(x).drop_first() =~= seq![x]);
        assert(enc_arr_items(seq![x]) == enc_string(x));
        assert(enc_arr_items(items.push(x)) =~= enc_arr_items(items) + seq![','] + enc_string(x));
    } else {
        assert(items.push(x)[0] == items[0]);
        assert(items.push(x).drop_first() =~= items.drop_first().push(x));
        lemma_enc_arr_items_snoc(items.drop_first(), x);
        assert(enc_arr_items(items.push(x)) =~= enc_arr_items(items) + seq![','] + enc_string(x));
    }
}

/// Appending one more member extends the encoded member list at its end.
pub proof fn lemma_enc_members_snoc(es: Seq<(Seq<char>, RecordV)>, e: (Seq<char>, RecordV))
    ensures
        es.len() == 0 ==> enc_members(es.push(e)) == enc_member(e),
        es.len() > 0 ==> enc_members(es.push(e)) == enc_members(es) + seq![','] + enc_member(e),
    decreases es.len(),
{
    if es.len() == 0 {
        assert(es.push(e) =~= seq![e]);
    } else if es.len() == 1 {
        assert(es.push(e)[0] == es[0]);
        assert(es.push(e).drop_first() =~= seq![e]);
        assert(enc_members(seq![e]) == enc_member(e));
        assert(enc_members(es.push(e)) =~= enc_members(es) + seq![','] + enc_member(e));
    } else {
        assert(es.push(e)[0] == es[0]);
        assert(es.push(e).drop_first() =~= es.drop_first().push(e));
        lemma_enc_members_snoc(es.drop_first(), e);
        assert(enc_members(es.push(e)) =~= enc_members(es) + seq![','] + enc_member(e));
    }
}

/// Appends one string in its encoded form, quotes and escapes included.
fn push_enc_string(out: &mut Vec<char>, s: &str)
    ensures
        final(out)@ == old(out)@ + enc_string(s@),
{
    let chars: Vec<char> = str_to_chars(s);
    out.push('"');
    let mut i: usize = 0;
    let n: usize = chars.len();
    while i < n
        invariant
            i <= n,
            n == chars@.len(),
            chars@ == s@,
            out@ == old(out)@ + seq!['"'] + enc_str_body(s@.subrange(0, i as int)),
        decreases n - i,
    {
        let ghost pre = s@.subrange(0, i as int);
        let ghost cur = s@.subrange(0, i + 1 as int);
        proof {
            assert(cur =~= pre.push(s@[i as int]));
            lemma_enc_str_body_snoc(pre, s@[i as int]);
        }
        let c: char = chars[i];
        let u: u32 = c as u32;
        if c == '"' {
            out.push('\\');
            out.push('"');
        } else if c == '\\' {
            out.push('\\');
            out.push('\\');
        } else if u <= 0x1f {
            out.push('\\');
            out.push('u');
            out.push('0');
            out.push('0');
            let hi: char = hex_digit_char_of((u / 16) as u64);
            let lo: char = hex_digit_char_of((u % 16) as u64);
            out.push(hi);
            out.push(lo);
        } else {
            out.push(c);
        }
        proof {
            assert(out@ =~= old(out)@ + seq!['"'] + (enc_str_body(pre) + esc_char(s@[i as int])));
        }
        i = i + 1;
    }
    out.push('"');
    proof {
        assert(s@.subrange(0, n as int) =~= s@);
        assert(out@ =~= old(out)@ + enc_string(s@));
    }
}

/// Appends one record object in its encoded form.
#[verifier::rlimit(100)]
fn push_enc_record(out: &mut Vec<char>, rec: &Record)
    ensures
        final(out)@ == old(out)@ + enc_record(rec@),
{
    proof {
        reveal_strlit("metadata");
        reveal_strlit("update_time");
        reveal_strlit("version");
        reveal_strlit("files");
        assert("metadata"@ =~= key_metadata());
        assert("update_time"@ =~= key_update_time());
        assert("version"@ =~= key_version());
        assert("files"@ =~= key_files());
    }
    out.push('{');
    push_enc_string(out, "metadata");
    out.push(':');
    match &rec.metadata {
        Some(_) => {
            out.push('{');
            out.push('}');
        },
        None => {
            out.push('n');
            out.push('u');
            out.push('l');
            out.push('l');
        },
    }
    out.push(',');
    push_enc_string(out, "update_time");
    out.push(':');
    push_dec_u64(out, rec.update_time);
    out.push(',');
    push_enc_string(out, "version");
    out.push(':');
    push_enc_string(out, rec.version.as_str());
    out.push(',');
    push_enc_string(out, "files");
    out.push(':');
    out.push('[');
    let mut i: usize = 0;
    let n: usize = rec.files.len();
    let ghost base = out@;
    while i < n
        invariant
            i <= n,
            n == rec.files@.len(),
            rec@.files.len() == n,
            forall|j: int| 0 <= j < n ==> rec@.files[j] == (#[trigger] rec.files@[j])@,
            base == out@ <==> i == 0,
            out@ == base + enc_arr_items(rec@.files.subrange(0, i as int)),
        decreases n - i,
    {
        let ghost pre = rec@.files.subrange(0, i as int);
        let ghost cur = rec@.files.subrange(0, i + 1 as int);
        proof {
            assert(cur =~= pre.push(rec@.files[i as int]));
            lemma_enc_arr_items_snoc(pre, rec@.files[i as int]);
        }
        if i > 0 {
            out.push(',');
        }
        push_enc_string(out, rec.files[i].as_str());
        proof {
            if i == 0 {
                assert(out@ =~= base + enc_arr_items(cur));
            } else {
                assert(out@ =~= base + (enc_arr_items(pre) + seq![','] + enc_string(
                    rec@.files[i as int],
                )));
                assert(out@ =~= base + enc_arr_items(cur));
            }
        }
        i = i + 1;
    }
    proof {
        assert(rec@.files.subrange(0, n as int) =~= rec@.files);
    }
    out.push(']');
    out.push('}');
    proof {
        assert(out@ =~= old(out)@ + enc_record(rec@));
    }
}

/// Writes a manifest in its canonical textual form.
pub fn records_to_json(records: &Records) -> (r: String)
    ensures
        r@ == enc_records_doc(rec_entries(records.records@)),
{
    let mut out: Vec<char> = Vec::new();
    out.push('{');
    let mut i: usize = 0;
    let n: usize = records.records.len();
    let ghost base = out@;
    while i < n
        invariant
            i <= n,
            n == records.records@.len(),
            base == seq!['{'],
            base == out@ <==> i == 0,
            out@ == base + enc_members(rec_entries(records.records@).subrange(0, i as int)),
        decreases n - i,
    {
        let ghost all = rec_entries(records.records@);
        let ghost pre = all.subrange(0, i as int);
        let ghost cur = all.subrange(0, i + 1 as int);
        proof {
            assert(cur =~= pre.push(all[i as int]));
            lemma_enc_members_snoc(pre, all[i as int]);
        }
        if i > 0 {
            out.push(',');
        }
        push_enc_string(&mut out, records.records[i].0.as_str());
        out.push(':');
        push_enc_record(&mut out, &records.records[i].1);
        proof {
            assert(enc_member(all[i as int]) =~= enc_string(records.records@[i as int].0@)
                + seq![':'] + enc_record(records.records@[i as int].1@));
            if i == 0 {
                assert(out@ =~= base + enc_members(cur));
            } else {
                assert(out@ =~= base + (enc_members(pre) + seq![','] + enc_member(all[i as int])));
                assert(out@ =~= base + enc_members(cur));
            }
        }
        i = i + 1;
    }
    out.push('}');
    proof {
        assert(rec_entries(records.records@).subrange(0, n as int) =~= rec_entries(
            records.records@,
        ));
        assert(out@ =~= enc_records_doc(rec_entries(records.records@)));
    }
    chars_to_string(&out)
}

/// Writing a manifest and reading it back yields the same members: the
/// key set and each key's record survive the trip exactly.
pub proof fn lemma_records_doc_rt(es: Seq<(Seq<char>, crate::records::RecordV)>)
    requires
        distinct_keys(es),
    ensures
        parse_records_doc(enc_records_doc(es)) == Some(es),
{
    let s = enc_records_doc(es);
    if es.len() == 0 {
        let t = seq!['}'] + Seq::<char>::empty();
        assert(s =~= seq!['{'] + t);
        lemma_tok_char_rt('{', t);
        assert(t =~= seq!['}'] + Seq::<char>::empty());
        lemma_tok_char_rt('}', Seq::<char>::empty());
        assert(skip_ws(Seq::<char>::empty()).len() == 0);
    } else {
        let inner = enc_members(es) + seq!['}'] + Seq::<char>::empty();
        assert(s =~= seq!['{'] + inner);
        lemma_tok_char_rt('{', inner);
        assert(enc_members(es)[0] == enc_string(es[0].0)[0]);
        assert(inner[0] == '"');
        assert(inner =~= seq!['"'] + inner.drop_first());
        lemma_tok_char_miss('"', inner.drop_first(), '}');
        lemma_members_rt(es, Seq::<char>::empty());
        assert(skip_ws(Seq::<char>::empty()).len() == 0);
    }
}

/// What remains of `s` from position `i` on.
pub open spec fn tail_of(s: Seq<char>, i: int) -> Seq<char> {
    s.subrange(i, s.len() as int)
}

/// JSON whitespace, as executable code.
fn is_ws_char(c: char) -> (r: bool)
    ensures
        r == is_json_ws(c),
{
    c == ' ' || c == '\t' || c == '\n' || c == '\r'
}

/// Advances past whitespace.
fn skip_ws_at(v: &Vec<char>, i: usize) -> (j: usize)
    requires
        i <= v@.len(),
    ensures
        i <= j <= v@.len(),
        tail_of(v@, j as int) == skip_ws(tail_of(v@, i as int)),
{
    let mut j: usize = i;
    let n: usize = v.len();
    while j < n && is_ws_char(v[j])
        invariant
            i <= j <= n,
            n == v@.len(),
            skip_ws(tail_of(v@, i as int)) == skip_ws(tail_of(v@, j as int)),
        decreases n - j,
    {
        proof {
            assert(tail_of(v@, j as int)[0] == v@[j as int]);
            assert(tail_of(v@, j as int).drop_first() =~= tail_of(v@, j + 1 as int));
        }
        j = j + 1;
    }
    proof {
        if j < n {
            assert(tail_of(v@, j as int)[0] == v@[j as int]);
            lemma_skip_ws_id(tail_of(v@, j as int));
        } else {
            assert(tail_of(v@, j as int).len() == 0);
            lemma_skip_ws_id(tail_of(v@, j as int));
        }
    }
    j
}

/// Reads one expected punctuation character.
fn tok_char_at(v: &Vec<char>, i: usize, c: char) -> (r: Option<usize>)
    requires
        i <= v@.len(),
    ensures
        r matches Some(j) ==> i < j <= v@.len() && tok_char(tail_of(v@, i as int), c) == Some(
            tail_of(v@, j as int),
        ),
        r is None ==> tok_char(tail_of(v@, i as int), c) is None,
{
    let j0: usize = skip_ws_at(v, i);
    if j0 < v.len() && v[j0] == c {
        proof {
            assert(tail_of(v@, j0 as int)[0] == v@[j0 as int]);
            assert(tail_of(v@, j0 as int).drop_first() =~= tail_of(v@, j0 + 1 as int));
        }
        Some(j0 + 1)
    } else {
        proof {
            if j0 < v@.len() {
                assert(tail_of(v@, j0 as int)[0] == v@[j0 as int]);
            }
        }
        None
    }
}

/// Reads one string token.
fn tok_string_at(v: &Vec<char>, i: usize) -> (r: Option<(Vec<char>, usize)>)
    requires
        i <= v@.len(),
    ensures
        r matches Some(p) ==> i < p.1 <= v@.len() && tok_string(tail_of(v@, i as int)) == Some(
            (p.0@, tail_of(v@, p.1 as int)),
        ),
        r is None ==> tok_string(tail_of(v@, i as int)) is None,
{
    let n: usize = v.len();
    let j0: usize = skip_ws_at(v, i);
    if !(j0 < n && v[j0] == '"') {
        proof {
            if j0 < v@.len() {
                assert(tail_of(v@, j0 as int)[0] == v@[j0 as int]);
            }
        }
        return None;
    }
    proof {
        assert(tail_of(v@, j0 as int)[0] == v@[j0 as int]);
        assert(tail_of(v@, j0 as int).drop_first() =~= tail_of(v@, j0 + 1 as int));
    }
    let ghost t0 = tail_of(v@, j0 + 1 as int);
    let mut out: Vec<char> = Vec::new();
    let mut cur: usize = j0 + 1;
    loop
        invariant
            i <= j0,
            j0 + 1 <= cur <= n,
            n == v@.len(),
            t0 == tail_of(v@, j0 + 1 as int),
            tail_of(v@, j0 as int)[0] == '"',
            tail_of(v@, j0 as int).drop_first() == t0,
            tok_string(tail_of(v@, i as int)) == parse_str_body(t0),
            parse_str_body(t0) == (match parse_str_body(tail_of(v@, cur as int)) {
                Some(p) => Some((out@ + p.0, p.1)),
                None => None,
            }),
        decreases n - cur,
    {
        let ghost t = tail_of(v@, cur as int);
        if cur >= n {
            proof {
                assert(t.len() == 0);
            }
            return None;
        }
        proof {
            assert(t[0] == v@[cur as int]);
            assert(t.drop_first() =~= tail_of(v@, cur + 1 as int));
        }
        let c: char = v[cur];
        if c == '"' {
            proof {
                assert(parse_str_body(t) == Some((Seq::<char>::empty(), tail_of(v@, cur + 1 as int))));
                assert(out@ + Seq::<char>::empty() =~= out@);
            }
            return Some((out, cur + 1));
        } else if c == '\\' {
            if cur + 1 >= n {
                proof {
                    assert(t.len() < 2);
                }
                return None;
            }
            proof {
                assert(t[1] == v@[cur + 1 as int]);
            }
            let e: char = v[cur + 1];
            if e == 'u' {
                if n - cur < 6 {
                    proof {
                        assert(t.len() < 6);
                    }
                    return None;
                }
                proof {
                    assert(t[2] == v@[cur + 2 as int]);
                    assert(t[3] == v@[cur + 3 as int]);
                    assert(t[4] == v@[cur + 4 as int]);
                    assert(t[5] == v@[cur + 5 as int]);
                    assert(t.subrange(6, t.len() as int) =~= tail_of(v@, cur + 6 as int));
                }
                let c2: char = v[cur + 2];
                let c3: char = v[cur + 3];
                let c4: char = v[cur + 4];
                let c5: char = v[cur + 5];
                if !(c2 == '0' && c3 == '0') {
                    return None;
                }
                let h4: Option<u8> = crate::text::hex_digit_of(c4);
                let h5: Option<u8> = crate::text::hex_digit_of(c5);
                match (h4, h5) {
                    (Some(a), Some(b)) => {
                        let val: u32 = (a as u32) * 16 + (b as u32);
                        if val > 0x1f {
                            return None;
                        }
                        let d: char = ctl_char_of(val);
                        proof {
                            assert(u_unescape(t[2], t[3], t[4], t[5]) == Some(d));
                        }
                        let ghost old_out = out@;
                        out.push(d);
                        proof {
                            assert(out@ =~= old_out.push(d));
                            assert forall|p0: Seq<char>| true implies old_out + (seq![d] + p0)
                                =~= out@ + p0 by {}
                        }
                        cur = cur + 6;
                    },
                    _ => {
                        return None;
                    },
                }
            } else {
                let dec: Option<char> = if e == '"' {
                    Some('"')
                } else if e == '\\' {
                    Some('\\')
                } else if e == '/' {
                    Some('/')
                } else if e == 'b' {
                    Some('\u{8}')
                } else if e == 'f' {
                    Some('\u{c}')
                } else if e == 'n' {
                    Some('\n')
                } else if e == 'r' {
                    Some('\r')
                } else if e == 't' {
                    Some('\t')
                } else {
                    None
                };
                proof {
                    assert(dec == short_unescape(e));
                    assert(t.subrange(2, t.len() as int) =~= tail_of(v@, cur + 2 as int));
                }
                match dec {
                    None => {
                        return None;
                    },
                    Some(d) => {
                        let ghost old_out = out@;
                        out.push(d);
                        proof {
                            assert(out@ =~= old_out.push(d));
                            assert forall|p0: Seq<char>| true implies old_out + (seq![d] + p0)
                                =~= out@ + p0 by {}
                        }
                        cur = cur + 2;
                    },
                }
            }
        } else if (c as u32) <= 0x1f {
            return None;
        } else {
            let ghost old_out = out@;
            out.push(c);
            proof {
                assert(out@ =~= old_out.push(c));
                assert forall|p0: Seq<char>| true implies old_out + (seq![c] + p0) =~= out@ + p0
                    by {}
            }
            cur = cur + 1;
        }
    }
}

/// Reads one number token.
fn tok_u64_at(v: &Vec<char>, i: usize) -> (r: Option<(u64, usize)>)
    requires
        i <= v@.len(),
    ensures
        r matches Some(p) ==> i < p.1 <= v@.len() && tok_u64(tail_of(v@, i as int)) == Some(
            (p.0, tail_of(v@, p.1 as int)),
        ),
        r is None ==> tok_u64(tail_of(v@, i as int)) is None,
{
    let n: usize = v.len();
    let j0: usize = skip_ws_at(v, i);
    let ghost t = tail_of(v@, j0 as int);
    let mut dend: usize = j0;
    while dend < n && crate::text::dec_digit_of(v[dend]).is_some()
        invariant
            j0 <= dend <= n,
            n == v@.len(),
            forall|k: int| j0 <= k < dend ==> is_dec_digit(#[trigger] v@[k]),
        decreases n - dend,
    {
        dend = dend + 1;
    }
    let ghost d = v@.subrange(j0 as int, dend as int);
    proof {
        assert(forall|k: int| 0 <= k < d.len() ==> is_dec_digit(#[trigger] d[k]));
        assert(t =~= d + tail_of(v@, dend as int));
        if dend < n {
            assert(tail_of(v@, dend as int)[0] == v@[dend as int]);
            assert(!is_dec_digit(tail_of(v@, dend as int)[0]));
        }
        lemma_take_digits_exact(d, tail_of(v@, dend as int));
    }
    if dend == j0 {
        return None;
    }
    let mut acc: u64 = 0;
    let mut k: usize = j0;
    while k < dend
        invariant
            i <= j0 <= k <= dend <= n,
            n == v@.len(),
            d == v@.subrange(j0 as int, dend as int),
            d.len() > 0,
            tail_of(v@, j0 as int) == skip_ws(tail_of(v@, i as int)),
            take_digits(tail_of(v@, j0 as int)) == (d, tail_of(v@, dend as int)),
            forall|q: int| j0 <= q < dend ==> is_dec_digit(#[trigger] v@[q]),
            acc == digits_val(v@.subrange(j0 as int, k as int)),
        decreases dend - k,
    {
        let ghost pre = v@.subrange(j0 as int, k as int);
        let ghost cur = v@.subrange(j0 as int, k + 1 as int);
        proof {
            assert(cur.drop_last() =~= pre);
            assert(cur.last() == v@[k as int]);
        }
        let dig: Option<u8> = crate::text::dec_digit_of(v[k]);
        match dig {
            None => {
                proof {
                    assert(false);
                }
                return None;
            },
            Some(dv) => {
                match acc.checked_mul(10) {
                    None => {
                        proof {
                            assert(cur =~= d.subrange(0, k as int + 1 - j0 as int));
                            crate::text::lemma_digits_val_prefix_le(d, k as int + 1 - j0 as int);
                            assert(digits_val(d) > u64::MAX);
                        }
                        return None;
                    },
                    Some(m) => {
                        match m.checked_add(dv as u64) {
                            None => {
                                proof {
                                    assert(cur =~= d.subrange(0, k as int + 1 - j0 as int));
                                    crate::text::lemma_digits_val_prefix_le(
                                        d,
                                        k as int + 1 - j0 as int,
                                    );
                                    assert(digits_val(d) > u64::MAX);
                                }
                                return None;
                            },
                            Some(nv) => {
                                acc = nv;
                            },
                        }
                    },
                }
            },
        }
        k = k + 1;
    }
    proof {
        assert(v@.subrange(j0 as int, dend as int) =~= d);
    }
    Some((acc, dend))
}

/// Whether two character vectors hold the same characters.
fn chars_eq(a: &Vec<char>, b: &Vec<char>) -> (r: bool)
    ensures
        r == (a@ == b@),
{
    if a.len() != b.len() {
        return false;
    }
    let mut i: usize = 0;
    let n: usize = a.len();
    while i < n
        invariant
            i <= n,
            n == a@.len() == b@.len(),
            forall|j: int| 0 <= j < i ==> a@[j] == b@[j],
        decreases n - i,
    {
        if a[i] != b[i] {
            return false;
        }
        i = i + 1;
    }
    proof {
        assert(a@ =~= b@);
    }
    true
}

/// Reads a string token and demands a given key.
fn tok_key_at(v: &Vec<char>, i: usize, pat: &Vec<char>) -> (r: Option<usize>)
    requires
        i <= v@.len(),
    ensures
        r matches Some(j) ==> i < j <= v@.len() && tok_key(tail_of(v@, i as int), pat@) == Some(
            tail_of(v@, j as int),
        ),
        r is None ==> tok_key(tail_of(v@, i as int), pat@) is None,
{
    match tok_string_at(v, i) {
        None => None,
        Some((k, j)) => {
            if chars_eq(&k, pat) {
                Some(j)
            } else {
                None
            }
        },
    }
}

/// Reads a metadata slot.
fn tok_metadata_at(v: &Vec<char>, i: usize) -> (r: Option<(bool, usize)>)
    requires
        i <= v@.len(),
    ensures
        r matches Some(p) ==> i <= p.1 <= v@.len() && tok_metadata(tail_of(v@, i as int)) == Some(
            (p.0, tail_of(v@, p.1 as int)),
        ),
        r is None ==> tok_metadata(tail_of(v@, i as int)) is None,
{
    let n: usize = v.len();
    let j0: usize = skip_ws_at(v, i);
    let ghost t = tail_of(v@, j0 as int);
    if n - j0 >= 4 && v[j0] == 'n' {
        proof {
            assert(t[0] == 'n' && t.len() >= 4);
        }
        if v[j0 + 1] == 'u' && v[j0 + 2] == 'l' && v[j0 + 3] == 'l' {
            proof {
                assert(t.subrange(0, 4) =~= null_lit());
                assert(t.subrange(4, t.len() as int) =~= tail_of(v@, j0 + 4 as int));
            }
            return Some((false, j0 + 4));
        }
        proof {
            assert(t[1] == v@[j0 + 1 as int] && t[2] == v@[j0 + 2 as int] && t[3] == v@[j0
                + 3 as int]);
            assert(t.subrange(0, 4) != null_lit());
            assert(skip_ws(tail_of(v@, i as int))[0] == 'n');
            assert(tok_char(tail_of(v@, i as int), '{') is None);
        }
        return None;
    }
    proof {
        if t.len() >= 4 {
            assert(t.subrange(0, 4)[0] == t[0]);
            assert(t[0] == v@[j0 as int]);
            assert(t.subrange(0, 4) != null_lit());
        }
        lemma_skip_ws_idem(tail_of(v@, i as int));
        assert(skip_ws(t) == t);
    }
    match tok_char_at(v, j0, '{') {
        None => {
            proof {
                assert(tok_char(t, '{') is None);
                assert(tok_char(tail_of(v@, i as int), '{') is None);
            }
            None
        },
        Some(j1) => {
            proof {
                assert(tok_char(tail_of(v@, i as int), '{') == tok_char(t, '{'));
            }
            match tok_char_at(v, j1, '}') {
                None => None,
                Some(j2) => Some((true, j2)),
            }
        },
    }
}

/// Reads a string array.
fn parse_arr_at(v: &Vec<char>, i: usize) -> (r: Option<(Vec<String>, usize)>)
    requires
        i <= v@.len(),
    ensures
        r matches Some(p) ==> i < p.1 <= v@.len() && parse_arr(tail_of(v@, i as int)) == Some(
            (p.0.deep_view(), tail_of(v@, p.1 as int)),
        ),
        r is None ==> parse_arr(tail_of(v@, i as int)) is None,
{
    let n: usize = v.len();
    match tok_char_at(v, i, '[') {
        None => {
            return None;
        },
        Some(j1) => {
            match tok_char_at(v, j1, ']') {
                Some(j2) => {
                    let items: Vec<String> = Vec::new();
                    proof {
                        assert(items.deep_view() =~= Seq::<Seq<char>>::empty());
                    }
                    return Some((items, j2));
                },
                None => {},
            }
            let ghost first = tail_of(v@, j1 as int);
            let mut items: Vec<String> = Vec::new();
            let mut cur: usize = j1;
            loop
                invariant
                    i <= j1 <= cur <= n,
                    n == v@.len(),
                    first == tail_of(v@, j1 as int),
                    tok_char(tail_of(v@, i as int), '[') == Some(first),
                    tok_char(first, ']') is None,
                    parse_arr_more(first) == (match parse_arr_more(tail_of(v@, cur as int)) {
                        Some(q) => Some((items.deep_view() + q.0, q.1)),
                        None => None,
                    }),
                decreases n - cur,
            {
                let ghost t = tail_of(v@, cur as int);
                match tok_string_at(v, cur) {
                    None => {
                        return None;
                    },
                    Some((x, j)) => {
                        let xs: String = chars_to_string(&x);
                        let ghost old_items = items.deep_view();
                        items.push(xs);
                        proof {
                            assert(items.deep_view() =~= old_items.push(x@));
                        }
                        match tok_char_at(v, j, ',') {
                            Some(j2) => {
                                proof {
                                    assert forall|q0: Seq<Seq<char>>| true implies old_items + (
                                    seq![x@] + q0) =~= items.deep_view() + q0 by {}
                                }
                                cur = j2;
                            },
                            None => {
                                match tok_char_at(v, j, ']') {
                                    Some(j2) => {
                                        proof {
                                            assert(parse_arr_more(t) == Some(
                                                (seq![x@], tail_of(v@, j2 as int)),
                                            ));
                                            assert(old_items + seq![x@] =~= items.deep_view());
                                        }
                                        return Some((items, j2));
                                    },
                                    None => {
                                        return None;
                                    },
                                }
                            },
                        }
                    },
                }
            }
        },
    }
}

/// Reads one record object.
fn parse_record_at(v: &Vec<char>, i: usize) -> (r: Option<(Record, usize)>)
    requires
        i <= v@.len(),
    ensures
        r matches Some(p) ==> i < p.1 <= v@.len() && parse_record(tail_of(v@, i as int)) == Some(
            (p.0@, tail_of(v@, p.1 as int)),
        ),
        r is None ==> parse_record(tail_of(v@, i as int)) is None,
{
    let k_metadata: Vec<char> = vec!['m', 'e', 't', 'a', 'd', 'a', 't', 'a'];
    let k_update_time: Vec<char> = vec!['u', 'p', 'd', 'a', 't', 'e', '_', 't', 'i', 'm', 'e'];
    let k_version: Vec<char> = vec!['v', 'e', 'r', 's', 'i', 'o', 'n'];
    let k_files: Vec<char> = vec!['f', 'i', 'l', 'e', 's'];
    proof {
        assert(k_metadata@ =~= key_metadata());
        assert(k_update_time@ =~= key_update_time());
        assert(k_version@ =~= key_version());
        assert(k_files@ =~= key_files());
    }
    let r0: usize = match tok_char_at(v, i, '{') {
        None => {
            return None;
        },
        Some(j) => j,
    };
    let ra: usize = match tok_key_at(v, r0, &k_metadata) {
        None => {
            return None;
        },
        Some(j) => j,
    };
    let rb: usize = match tok_char_at(v, ra, ':') {
        None => {
            return None;
        },
        Some(j) => j,
    };
    let (md, rc): (bool, usize) = match tok_metadata_at(v, rb) {
        None => {
            return None;
        },
        Some(p) => p,
    };
    let r1: usize = match tok_char_at(v, rc, ',') {
        None => {
            return None;
        },
        Some(j) => j,
    };
    proof {
        assert(parse_record_meta(tail_of(v@, r0 as int)) == Some((md, tail_of(v@, r1 as int))));
    }
    let rd: usize = match tok_key_at(v, r1, &k_update_time) {
        None => {
            return None;
        },
        Some(j) => j,
    };
    let re: usize = match tok_char_at(v, rd, ':') {
        None => {
            return None;
        },
        Some(j) => j,
    };
    let (ut, r2): (u64, usize) = match tok_u64_at(v, re) {
        None => {
            return None;
        },
        Some(p) => p,
    };
    proof {
        assert(parse_field_u64(tail_of(v@, r1 as int), key_update_time()) == Some(
            (ut, tail_of(v@, r2 as int)),
        ));
    }
    let r3: usize = match tok_char_at(v, r2, ',') {
        None => {
            return None;
        },
        Some(j) => j,
    };
    let rf: usize = match tok_key_at(v, r3, &k_version) {
        None => {
            return None;
        },
        Some(j) => j,
    };
    let rg: usize = match tok_char_at(v, rf, ':') {
        None => {
            return None;
        },
        Some(j) => j,
    };
    let (ver, r4): (Vec<char>, usize) = match tok_string_at(v, rg) {
        None => {
            return None;
        },
        Some(p) => p,
    };
    proof {
        assert(parse_field_string(tail_of(v@, r3 as int), key_version()) == Some(
            (ver@, tail_of(v@, r4 as int)),
        ));
    }
    let r5: usize = match tok_char_at(v, r4, ',') {
        None => {
            return None;
        },
        Some(j) => j,
    };
    let r6: usize = match tok_key_at(v, r5, &k_files) {
        None => {
            return None;
        },
        Some(j) => j,
    };
    let r7: usize = match tok_char_at(v, r6, ':') {
        None => {
            return None;
        },
        Some(j) => j,
    };
    let (files, r8): (Vec<String>, usize) = match parse_arr_at(v, r7) {
        None => {
            return None;
        },
        Some(p) => p,
    };
    let r9: usize = match tok_char_at(v, r8, '}') {
        None => {
            return None;
        },
        Some(j) => j,
    };
    let rec: Record = Record {
        metadata: if md {
            Some(Metadata {  })
        } else {
            None
        },
        update_time: ut,
        version: chars_to_string(&ver),
        files,
    };
    proof {
        assert(rec@.files =~= rec.files.deep_view());
        assert(rec@ == (RecordV { metadata: md, update_time: ut, version: ver@, files: rec.files.deep_view() }));
        assert(parse_record(tail_of(v@, i as int)) == Some((rec@, tail_of(v@, r9 as int))));
    }
    Some((rec, r9))
}

/// Reads a whole manifest document. `None` means the text is not a
/// well-formed manifest: bad syntax, trailing text, or a repeated id.
#[verifier::rlimit(100)]
pub fn records_from_json(text: &str) -> (r: Option<Records>)
    ensures
        r matches Some(recs) ==> recs.wf() && parse_records_doc(text@) == Some(
            rec_entries(recs.records@),
        ),
        r is None ==> parse_records_doc(text@) is None,
{
    let v: Vec<char> = str_to_chars(text);
    let n: usize = v.len();
    proof {
        assert(tail_of(v@, 0) =~= text@);
    }
    let j1: usize = match tok_char_at(&v, 0, '{') {
        None => {
            return None;
        },
        Some(j) => j,
    };
    match tok_char_at(&v, j1, '}') {
        Some(j2) => {
            let j3: usize = skip_ws_at(&v, j2);
            if j3 == n {
                proof {
                    assert(skip_ws(tail_of(v@, j2 as int)).len() == 0);
                }
                let recs: Records = Records { records: Vec::new() };
                proof {
                    assert(rec_entries(recs.records@) =~= Seq::<(Seq<char>, RecordV)>::empty());
                }
                return Some(recs);
            } else {
                proof {
                    assert(skip_ws(tail_of(v@, j2 as int)).len() > 0);
                }
                return None;
            }
        },
        None => {},
    }
    let ghost first = tail_of(v@, j1 as int);
    proof {
        assert(tail_of(v@, 0) =~= text@);
    }
    let mut entries: Vec<(String, Record)> = Vec::new();
    let mut cur: usize = j1;
    loop
        invariant
            j1 <= cur <= n,
            n == v@.len(),
            v@ == text@,
            first == tail_of(v@, j1 as int),
            tok_char(text@, '{') == Some(first),
            tok_char(first, '}') is None,
            parse_members(first) == (match parse_members(tail_of(v@, cur as int)) {
                Some(q) => Some((rec_entries(entries@) + q.0, q.1)),
                None => None,
            }),
            crate::kvlist::kv_dup_free(entries@),
        decreases n - cur,
    {
        let ghost t = tail_of(v@, cur as int);
        let (kv, j) = match tok_string_at(&v, cur) {
            None => {
                proof {
                    assert(parse_members(t) is None);
                    assert(parse_members(first) is None);
                    assert(parse_records_doc(text@) is None);
                }
                return None;
            },
            Some(p) => p,
        };
        let j2: usize = match tok_char_at(&v, j, ':') {
            None => {
                proof {
                    assert(parse_members(t) is None);
                    assert(parse_members(first) is None);
                    assert(parse_records_doc(text@) is None);
                }
                return None;
            },
            Some(jj) => jj,
        };
        let (rec, j3): (Record, usize) = match parse_record_at(&v, j2) {
            None => {
                proof {
                    assert(parse_members(t) is None);
                    assert(parse_members(first) is None);
                    assert(parse_records_doc(text@) is None);
                }
                return None;
            },
            Some(p) => p,
        };
        let key: String = chars_to_string(&kv);
        // a repeated id makes the whole document invalid
        let mut di: usize = 0;
        let dn: usize = entries.len();
        while di < dn
            invariant
                di <= dn,
                dn == entries@.len(),
                key@ == kv@,
                t == tail_of(v@, cur as int),
                n == v@.len(),
                cur <= n,
                v@ == text@,
                tok_char(text@, '{') == Some(first),
                tok_char(first, '}') is None,
                tok_string(t) == Some((kv@, tail_of(v@, j as int))),
                parse_members(first) == (match parse_members(tail_of(v@, cur as int)) {
                    Some(q) => Some((rec_entries(entries@) + q.0, q.1)),
                    None => None,
                }),
                forall|q: int| 0 <= q < di ==> (#[trigger] entries@[q]).0@ != key@,
            decreases dn - di,
        {
            if crate::text::str_eq(entries[di].0.as_str(), key.as_str()) {
                proof {
                    lemma_members_starts_with_key(t, kv@);
                    match parse_members(t) {
                        None => {
                            assert(parse_members(first) is None);
                        },
                        Some(q) => {
                            let es = rec_entries(entries@) + q.0;
                            assert(q.0[0].0 == kv@);
                            assert(es[di as int].0 == entries@[di as int].0@);
                            assert(es[entries@.len() as int] == q.0[0]);
                            assert(!distinct_keys(es));
                        },
                    }
                    assert(parse_records_doc(text@) is None);
                }
                return None;
            }
            di = di + 1;
        }
        let ghost old_entries = entries@;
        entries.push((key, rec));
        proof {
            assert(rec_entries(entries@) =~= rec_entries(old_entries).push((kv@, rec@)));
            assert forall|a: int, b: int| 0 <= a < b < entries@.len()
                implies (#[trigger] entries@[a]).0@ != (#[trigger] entries@[b]).0@ by {
                if b < entries@.len() - 1 {
                    assert(entries@[a] == old_entries[a] && entries@[b] == old_entries[b]);
                } else {
                    assert(entries@[a] == old_entries[a]);
                }
            }
        }
        match tok_char_at(&v, j3, ',') {
            Some(j4) => {
                proof {
                    assert forall|q0: Seq<(Seq<char>, RecordV)>| true implies rec_entries(
                        old_entries,
                    ) + (seq![(kv@, rec@)] + q0) =~= rec_entries(entries@) + q0 by {}
                }
                cur = j4;
            },
            None => {
                match tok_char_at(&v, j3, '}') {
                    Some(j4) => {
                        let j5: usize = skip_ws_at(&v, j4);
                        if j5 != n {
                            proof {
                                assert(skip_ws(tail_of(v@, j4 as int)).len() > 0);
                                assert(parse_members(t) == Some(
                                    (seq![(kv@, rec@)], tail_of(v@, j4 as int)),
                                ));
                            }
                            return None;
                        }
                        proof {
                            assert(parse_members(t) == Some(
                                (seq![(kv@, rec@)], tail_of(v@, j4 as int)),
                            ));
                            assert(rec_entries(old_entries) + seq![(kv@, rec@)] =~= rec_entries(
                                entries@,
                            ));
                            assert(skip_ws(tail_of(v@, j4 as int)).len() == 0);
                            assert(distinct_keys(rec_entries(entries@))) by {
                                assert forall|a: int, b: int|
                                    0 <= a < b < rec_entries(entries@).len()
                                    implies (#[trigger] rec_entries(entries@)[a]).0 != (
                                #[trigger] rec_entries(entries@)[b]).0 by {
                                    assert(rec_entries(entries@)[a].0 == entries@[a].0@);
                                    assert(rec_entries(entries@)[b].0 == entries@[b].0@);
                                }
                            }
                        }
                        let recs: Records = Records { records: entries };
                        return Some(recs);
                    },
                    None => {
                        return None;
                    },
                }
            },
        }
    }
}

/// A successful member read starts at the key just read.
proof fn lemma_members_starts_with_key(t: Seq<char>, k: Seq<char>)
    requires
        tok_string(t) matches Some(p) && p.0 == k,
    ensures
        parse_members(t) matches Some(q) ==> q.0.len() > 0 && q.0[0].0 == k,
{
}

/// Reads one registry listing: the five fields in their canonical order.
pub open spec fn parse_mod(s: Seq<char>) -> Option<(crate::registry::ModV, Seq<char>)> {
    match tok_char(s, '{') {
        None => None,
        Some(r0) => match parse_field_string(r0, key_id()) {
            None => None,
            Some((idv, r1)) => match tok_char(r1, ',') {
                None => None,
                Some(r2) => match parse_field_string(r2, key_version()) {
                    None => None,
                    Some((ver, r3)) => match tok_char(r3, ',') {
                        None => None,
                        Some(r4) => match parse_field_string(r4, key_url()) {
                            None => None,
                            Some((url, r5)) => match tok_char(r5, ',') {
                                None => None,
                                Some(r6) => match parse_field_string(r6, key_image_url()) {
                                    None => None,
                                    Some((img, r7)) => match tok_char(r7, ',') {
                                        None => None,
                                        Some(r8) => match parse_field_string(r8, key_name()) {
                                            None => None,
                                            Some((nm, r9)) => match tok_char(r9, '}') {
                                                None => None,
                                                Some(r10) => Some(
                                                    (
                                                        crate::registry::ModV {
                                                            id: idv,
                                                            version: ver,
                                                            url: url,
                                                            image_url: img,
                                                            name: nm,
                                                        },
                                                        r10,
                                                    ),
                                                ),
                                            },
                                        },
                                    },
                                },
                            },
                        },
                    },
                },
            },
        },
    }
}

/// `parse_field_string` consumes its key and value.
pub proof fn lemma_parse_field_string_len(s: Seq<char>, key: Seq<char>)
    ensures
        parse_field_string(s, key) matches Some(p) ==> p.1.len() < s.len(),
{
    lemma_tok_key_len(s, key);
    match tok_key(s, key) {
        None => {},
        Some(r) => {
            lemma_tok_char_len(r, ':');
            match tok_char(r, ':') {
                None => {},
                Some(r2) => {
                    lemma_tok_string_len(r2);
                },
            }
        },
    }
}

/// `parse_mod` consumes at least its braces.
pub proof fn lemma_parse_mod_len(s: Seq<char>)
    ensures
        parse_mod(s) matches Some(p) ==> p.1.len() < s.len(),
{
    lemma_tok_char_len(s, '{');
    match tok_char(s, '{') {
        None => {},
        Some(r0) => {
            lemma_parse_field_string_len(r0, key_id());
            match parse_field_string(r0, key_id()) {
                None => {},
                Some((_, r1)) => {
                    lemma_tok_char_len(r1, ',');
                    match tok_char(r1, ',') {
                        None => {},
                        Some(r2) => {
                            lemma_parse_field_string_len(r2, key_version());
                            match parse_field_string(r2, key_version()) {
                                None => {},
                                Some((_, r3)) => {
                                    lemma_tok_char_len(r3, ',');
                                    match tok_char(r3, ',') {
                                        None => {},
                                        Some(r4) => {
                                            lemma_parse_field_string_len(r4, key_url());
                                            match parse_field_string(r4, key_url()) {
                                                None => {},
                                                Some((_, r5)) => {
                                                    lemma_tok_char_len(r5, ',');
                                                    match tok_char(r5, ',') {
                                                        None => {},
                                                        Some(r6) => {
                                                            lemma_parse_mod_len_tail(r6);
                                                        },
                                                    }
                                                },
                                            }
                                        },
                                    }
                                },
                            }
                        },
                    }
                },
            }
        },
    }
}

/// Consumption of the last two listing fields.
proof fn lemma_parse_mod_len_tail(r6: Seq<char>)
    ensures
        parse_field_string(r6, key_image_url()) matches Some(pi) ==> pi.1.len() < r6.len() && (
        tok_char(pi.1, ',') matches Some(r8) ==> (parse_field_string(r8, key_name()) matches Some(
            pn,
        ) ==> (tok_char(pn.1, '}') matches Some(r10) ==> r10.len() < r6.len()))),
{
    lemma_parse_field_string_len(r6, key_image_url());
    match parse_field_string(r6, key_image_url()) {
        None => {},
        Some(pi) => {
            lemma_tok_char_len(pi.1, ',');
            match tok_char(pi.1, ',') {
                None => {},
                Some(r8) => {
                    lemma_parse_field_string_len(r8, key_name());
                    match parse_field_string(r8, key_name()) {
                        None => {},
                        Some(pn) => {
                            lemma_tok_char_len(pn.1, '}');
                        },
                    }
                },
            }
        },
    }
}

/// Reads the members of a non-empty registry document.
pub open spec fn parse_reg_members(s: Seq<char>) -> Option<
    (Seq<(Seq<char>, crate::registry::ModV)>, Seq<char>),
>
    decreases s.len(),
    via parse_reg_members_dec
{
    match tok_string(s) {
        None => None,
        Some((k, r)) => match tok_char(r, ':') {
            None => None,
            Some(r2) => match parse_mod(r2) {
                None => None,
                Some((v, r3)) => match tok_char(r3, ',') {
                    Some(r4) => match parse_reg_members(r4) {
                        Some((es, r5)) => Some((seq![(k, v)] + es, r5)),
                        None => None,
                    },
                    None => match tok_char(r3, '}') {
                        Some(r4) => Some((seq![(k, v)], r4)),
                        None => None,
                    },
                },
            },
        },
    }
}

#[via_fn]
proof fn parse_reg_members_dec(s: Seq<char>) {
    lemma_tok_string_len(s);
    match tok_string(s) {
        None => {},
        Some((k, r)) => {
            lemma_tok_char_len(r, ':');
            match tok_char(r, ':') {
                None => {},
                Some(r2) => {
                    lemma_parse_mod_len(r2);
                    match parse_mod(r2) {
                        None => {},
                        Some((v, r3)) => {
                            lemma_tok_char_len(r3, ',');
                        },
                    }
                },
            }
        },
    }
}

/// Pairwise-distinct listing keys.
pub open spec fn distinct_mod_keys(es: Seq<(Seq<char>, crate::registry::ModV)>) -> bool {
    forall|i: int, j: int| 0 <= i < j < es.len() ==> (#[trigger] es[i]).0 != (#[trigger] es[j]).0
}

/// Reads a whole registry document: a JSON object from mod id to
/// listing, nothing but whitespace after it, every id listed once.
pub open spec fn parse_registry_doc(s: Seq<char>) -> Option<
    Seq<(Seq<char>, crate::registry::ModV)>,
> {
    match tok_char(s, '{') {
        None => None,
        Some(r) => match tok_char(r, '}') {
            Some(r2) => if skip_ws(r2).len() == 0 {
                Some(Seq::empty())
            } else {
                None
            },
            None => match parse_reg_members(r) {
                Some((es, r2)) => if skip_ws(r2).len() == 0 && distinct_mod_keys(es) {
                    Some(es)
                } else {
                    None
                },
                None => None,
            },
        },
    }
}

/// The members an entry list of a registry denotes.
pub open spec fn mod_entries(
    rs: Seq<(String, crate::registry::Mod)>,
) -> Seq<(Seq<char>, crate::registry::ModV)> {
    rs.map_values(|p: (String, crate::registry::Mod)| (p.0@, p.1@))
}

/// Reads `"<key>": <string>` and hands the value back as a `String`.
fn parse_field_string_at(v: &Vec<char>, i: usize, key: &Vec<char>) -> (r: Option<(String, usize)>)
    requires
        i <= v@.len(),
    ensures
        r matches Some(p) ==> i < p.1 <= v@.len() && parse_field_string(
            tail_of(v@, i as int),
            key@,
        ) == Some((p.0@, tail_of(v@, p.1 as int))),
        r is None ==> parse_field_string(tail_of(v@, i as int), key@) is None,
{
    let ra: usize = match tok_key_at(v, i, key) {
        None => {
            return None;
        },
        Some(j) => j,
    };
    let rb: usize = match tok_char_at(v, ra, ':') {
        None => {
            return None;
        },
        Some(j) => j,
    };
    match tok_string_at(v, rb) {
        None => None,
        Some((x, j)) => Some((chars_to_string(&x), j)),
    }
}

/// Reads one registry listing.
fn parse_mod_at(v: &Vec<char>, i: usize) -> (r: Option<(crate::registry::Mod, usize)>)
    requires
        i <= v@.len(),
    ensures
        r matches Some(p) ==> i < p.1 <= v@.len() && parse_mod(tail_of(v@, i as int)) == Some(
            (p.0@, tail_of(v@, p.1 as int)),
        ),
        r is None ==> parse_mod(tail_of(v@, i as int)) is None,
{
    let k_id: Vec<char> = vec!['i', 'd'];
    let k_version: Vec<char> = vec!['v', 'e', 'r', 's', 'i', 'o', 'n'];
    let k_url: Vec<char> = vec!['u', 'r', 'l'];
    let k_image_url: Vec<char> = vec!['i', 'm', 'a', 'g', 'e', '_', 'u', 'r', 'l'];
    let k_name: Vec<char> = vec!['n', 'a', 'm', 'e'];
    proof {
        assert(k_id@ =~= key_id());
        assert(k_version@ =~= key_version());
        assert(k_url@ =~= key_url());
        assert(k_image_url@ =~= key_image_url());
        assert(k_name@ =~= key_name());
    }
    let r0: usize = match tok_char_at(v, i, '{') {
        None => {
            return None;
        },
        Some(j) => j,
    };
    let (idv, r1): (String, usize) = match parse_field_string_at(v, r0, &k_id) {
        None => {
            return None;
        },
        Some(p) => p,
    };
    let r2: usize = match tok_char_at(v, r1, ',') {
        None => {
            return None;
        },
        Some(j) => j,
    };
    let (ver, r3): (String, usize) = match parse_field_string_at(v, r2, &k_version) {
        None => {
            return None;
        },
        Some(p) => p,
    };
    let r4: usize = match tok_char_at(v, r3, ',') {
        None => {
            return None;
        },
        Some(j) => j,
    };
    let (url, r5): (String, usize) = match parse_field_string_at(v, r4, &k_url) {
        None => {
            return None;
        },
        Some(p) => p,
    };
    let r6: usize = match tok_char_at(v, r5, ',') {
        None => {
            return None;
        },
        Some(j) => j,
    };
    let (img, r7): (String, usize) = match parse_field_string_at(v, r6, &k_image_url) {
        None => {
            return None;
        },
        Some(p) => p,
    };
    let r8: usize = match tok_char_at(v, r7, ',') {
        None => {
            return None;
        },
        Some(j) => j,
    };
    let (nm, r9): (String, usize) = match parse_field_string_at(v, r8, &k_name) {
        None => {
            return None;
        },
        Some(p) => p,
    };
    let r10: usize = match tok_char_at(v, r9, '}') {
        None => {
            return None;
        },
        Some(j) => j,
    };
    let m: crate::registry::Mod = crate::registry::Mod {
        id: idv,
        version: ver,
        url,
        image_url: img,
        name: nm,
    };
    Some((m, r10))
}

/// Reads a whole registry document. `None` means the text is not a
/// well-formed registry: bad syntax, trailing text, or a repeated id.
#[verifier::rlimit(100)]
pub fn registry_from_json(text: &str) -> (r: Option<crate::registry::Registry>)
    ensures
        r matches Some(reg) ==> reg.wf() && parse_registry_doc(text@) == Some(
            mod_entries(reg.mods@),
        ),
        r is None ==> parse_registry_doc(text@) is None,
{
    let v: Vec<char> = str_to_chars(text);
    let n: usize = v.len();
    proof {
        assert(tail_of(v@, 0) =~= text@);
    }
    let j1: usize = match tok_char_at(&v, 0, '{') {
        None => {
            return None;
        },
        Some(j) => j,
    };
    match tok_char_at(&v, j1, '}') {
        Some(j2) => {
            let j3: usize = skip_ws_at(&v, j2);
            if j3 == n {
                proof {
                    assert(skip_ws(tail_of(v@, j2 as int)).len() == 0);
                }
                let reg: crate::registry::Registry = crate::registry::Registry {
                    mods: Vec::new(),
                };
                proof {
                    assert(mod_entries(reg.mods@) =~= Seq::<
                        (Seq<char>, crate::registry::ModV),
                    >::empty());
                }
                return Some(reg);
            } else {
                proof {
                    assert(skip_ws(tail_of(v@, j2 as int)).len() > 0);
                }
                return None;
            }
        },
        None => {},
    }
    let ghost first = tail_of(v@, j1 as int);
    proof {
        assert(tail_of(v@, 0) =~= text@);
    }
    let mut entries: Vec<(String, crate::registry::Mod)> = Vec::new();
    let mut cur: usize = j1;
    loop
        invariant
            j1 <= cur <= n,
            n == v@.len(),
            v@ == text@,
            first == tail_of(v@, j1 as int),
            tok_char(text@, '{') == Some(first),
            tok_char(first, '}') is None,
            parse_reg_members(first) == (match parse_reg_members(tail_of(v@, cur as int)) {
                Some(q) => Some((mod_entries(entries@) + q.0, q.1)),
                None => None,
            }),
            crate::kvlist::kv_dup_free(entries@),
        decreases n - cur,
    {
        let ghost t = tail_of(v@, cur as int);
        let (kv, j) = match tok_string_at(&v, cur) {
            None => {
                proof {
                    assert(parse_reg_members(t) is None);
                    assert(parse_reg_members(first) is None);
                    assert(parse_registry_doc(text@) is None);
                }
                return None;
            },
            Some(p) => p,
        };
        let j2: usize = match tok_char_at(&v, j, ':') {
            None => {
                proof {
                    assert(parse_reg_members(t) is None);
                    assert(parse_reg_members(first) is None);
                    assert(parse_registry_doc(text@) is None);
                }
                return None;
            },
            Some(jj) => jj,
        };
        let (m, j3): (crate::registry::Mod, usize) = match parse_mod_at(&v, j2) {
            None => {
                proof {
                    assert(parse_reg_members(t) is None);
                    assert(parse_reg_members(first) is None);
                    assert(parse_registry_doc(text@) is None);
                }
                return None;
            },
            Some(p) => p,
        };
        let key: String = chars_to_string(&kv);
        // a repeated id makes the whole document invalid
        let mut di: usize = 0;
        let dn: usize = entries.len();
        while di < dn
            invariant
                di <= dn,
                dn == entries@.len(),
                key@ == kv@,
                t == tail_of(v@, cur as int),
                n == v@.len(),
                cur <= n,
                v@ == text@,
                tok_char(text@, '{') == Some(first),
                tok_char(first, '}') is None,
                tok_string(t) == Some((kv@, tail_of(v@, j as int))),
                parse_reg_members(first) == (match parse_reg_members(tail_of(v@, cur as int)) {
                    Some(q) => Some((mod_entries(entries@) + q.0, q.1)),
                    None => None,
                }),
                forall|q: int| 0 <= q < di ==> (#[trigger] entries@[q]).0@ != key@,
            decreases dn - di,
        {
            if crate::text::str_eq(entries[di].0.as_str(), key.as_str()) {
                proof {
                    lemma_reg_members_starts_with_key(t, kv@);
                    match parse_reg_members(t) {
                        None => {
                            assert(parse_reg_members(first) is None);
                        },
                        Some(q) => {
                            let es = mod_entries(entries@) + q.0;
                            assert(q.0[0].0 == kv@);
                            assert(es[di as int].0 == entries@[di as int].0@);
                            assert(es[entries@.len() as int] == q.0[0]);
                            assert(!distinct_mod_keys(es));
                        },
                    }
                    assert(parse_registry_doc(text@) is None);
                }
                return None;
            }
            di = di + 1;
        }
        let ghost old_entries = entries@;
        entries.push((key, m));
        proof {
            assert(mod_entries(entries@) =~= mod_entries(old_entries).push((kv@, m@)));
            assert forall|a: int, b: int| 0 <= a < b < entries@.len()
                implies (#[trigger] entries@[a]).0@ != (#[trigger] entries@[b]).0@ by {
                if b < entries@.len() - 1 {
                    assert(entries@[a] == old_entries[a] && entries@[b] == old_entries[b]);
                } else {
                    assert(entries@[a] == old_entries[a]);
                }
            }
        }
        match tok_char_at(&v, j3, ',') {
            Some(j4) => {
                proof {
                    assert forall|q0: Seq<(Seq<char>, crate::registry::ModV)>| true
                        implies mod_entries(old_entries) + (seq![(kv@, m@)] + q0) =~= mod_entries(
                        entries@,
                    ) + q0 by {}
                }
                cur = j4;
            },
            None => {
                match tok_char_at(&v, j3, '}') {
                    Some(j4) => {
                        let j5: usize = skip_ws_at(&v, j4);
                        if j5 != n {
                            proof {
                                assert(skip_ws(tail_of(v@, j4 as int)).len() > 0);
                                assert(parse_reg_members(t) == Some(
                                    (seq![(kv@, m@)], tail_of(v@, j4 as int)),
                                ));
                            }
                            return None;
                        }
                        proof {
                            assert(parse_reg_members(t) == Some(
                                (seq![(kv@, m@)], tail_of(v@, j4 as int)),
                            ));
                            assert(mod_entries(old_entries) + seq![(kv@, m@)] =~= mod_entries(
                                entries@,
                            ));
                            assert(skip_ws(tail_of(v@, j4 as int)).len() == 0);
                            assert(distinct_mod_keys(mod_entries(entries@))) by {
                                assert forall|a: int, b: int|
                                    0 <= a < b < mod_entries(entries@).len()
                                    implies (#[trigger] mod_entries(entries@)[a]).0 != (
                                #[trigger] mod_entries(entries@)[b]).0 by {
                                    assert(mod_entries(entries@)[a].0 == entries@[a].0@);
                                    assert(mod_entries(entries@)[b].0 == entries@[b].0@);
                                }
                            }
                        }
                        let reg: crate::registry::Registry = crate::registry::Registry {
                            mods: entries,
                        };
                        return Some(reg);
                    },
                    None => {
                        proof {
                            assert(parse_reg_members(t) is None);
                            assert(parse_reg_members(first) is None);
                            assert(parse_registry_doc(text@) is None);
                        }
                        return None;
                    },
                }
            },
        }
    }
}

/// A successful registry member read starts at the key just read.
proof fn lemma_reg_members_starts_with_key(t: Seq<char>, k: Seq<char>)
    requires
        tok_string(t) matches Some(p) && p.0 == k,
    ensures
        parse_reg_members(t) matches Some(q) ==> q.0.len() > 0 && q.0[0].0 == k,
{
}

} // verus!
