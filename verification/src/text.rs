//! Characters, digits and string/character-sequence conversions shared by
//! the manifest and registry codecs.

use vstd::prelude::*;

verus! {

/// Decimal digit.
pub open spec fn is_dec_digit(c: char) -> bool {
    '0' as u32 <= c as u32 <= '9' as u32
}

/// Value of a decimal digit.
pub open spec fn dec_digit_val(c: char) -> int {
    c as u32 - '0' as u32
}

/// Hexadecimal digit, either case.
pub open spec fn is_hex_digit(c: char) -> bool {
    is_dec_digit(c) || 'a' as u32 <= c as u32 <= 'f' as u32 || 'A' as u32 <= c as u32 <= 'F' as u32
}

/// Value of a hexadecimal digit.
pub open spec fn hex_digit_val(c: char) -> int {
    if is_dec_digit(c) {
        dec_digit_val(c)
    } else if 'a' as u32 <= c as u32 <= 'f' as u32 {
        c as u32 - 'a' as u32 + 10
    } else {
        c as u32 - 'A' as u32 + 10
    }
}

/// The decimal digit character of a value below ten.
pub open spec fn dec_digit_char(v: int) -> char {
    if v == 0 { '0' }
    else if v == 1 { '1' }
    else if v == 2 { '2' }
    else if v == 3 { '3' }
    else if v == 4 { '4' }
    else if v == 5 { '5' }
    else if v == 6 { '6' }
    else if v == 7 { '7' }
    else if v == 8 { '8' }
    else { '9' }
}

/// The lower-case hexadecimal digit character of a value below sixteen.
pub open spec fn hex_digit_char(v: int) -> char {
    if v < 10 { dec_digit_char(v) }
    else if v == 10 { 'a' }
    else if v == 11 { 'b' }
    else if v == 12 { 'c' }
    else if v == 13 { 'd' }
    else if v == 14 { 'e' }
    else { 'f' }
}

/// The decimal representation of `n`, most significant digit first.
pub open spec fn dec_rep(n: nat) -> Seq<char>
    decreases n,
{
    if n < 10 {
        seq![dec_digit_char(n as int)]
    } else {
        dec_rep(n / 10) + seq![dec_digit_char((n % 10) as int)]
    }
}

/// The number denoted by a sequence of decimal digits.
pub open spec fn digits_val(d: Seq<char>) -> nat
    decreases d.len(),
{
    if d.len() == 0 {
        0
    } else {
        digits_val(d.drop_last()) * 10 + dec_digit_val(d.last()) as nat
    }
}

/// A digit character carries the value it was made from.
pub proof fn lemma_dec_digit_char_val(v: int)
    requires
        0 <= v < 10,
    ensures
        is_dec_digit(dec_digit_char(v)),
        dec_digit_val(dec_digit_char(v)) == v,
{
}

/// A hexadecimal digit character carries the value it was made from.
pub proof fn lemma_hex_digit_char_val(v: int)
    requires
        0 <= v < 16,
    ensures
        is_hex_digit(hex_digit_char(v)),
        hex_digit_val(hex_digit_char(v)) == v,
{
}

/// Every character of a decimal representation is a digit, and its digit
/// string denotes the number itself.
pub proof fn lemma_dec_rep_val(n: nat)
    ensures
        dec_rep(n).len() > 0,
        forall|i: int| 0 <= i < dec_rep(n).len() ==> is_dec_digit(#[trigger] dec_rep(n)[i]),
        digits_val(dec_rep(n)) == n,
    decreases n,
{
    if n < 10 {
        lemma_dec_digit_char_val(n as int);
        assert(dec_rep(n) =~= seq![dec_digit_char(n as int)]);
        assert(dec_rep(n).drop_last() =~= Seq::<char>::empty());
        assert(digits_val(Seq::<char>::empty()) == 0);
        assert(digits_val(dec_rep(n)) == dec_digit_val(dec_digit_char(n as int)));
    } else {
        lemma_dec_digit_char_val((n % 10) as int);
        lemma_dec_rep_val(n / 10);
        let d = dec_rep(n);
        assert(d =~= dec_rep(n / 10) + seq![dec_digit_char((n % 10) as int)]);
        assert(d.drop_last() =~= dec_rep(n / 10));
        assert(d.last() == dec_digit_char((n % 10) as int));
        assert(digits_val(d) == (n / 10) * 10 + n % 10);
    }
}

/// Appends the decimal representation of `n` to `out`.
pub fn push_dec_u64(out: &mut Vec<char>, n: u64)
    ensures
        final(out)@ == old(out)@ + dec_rep(n as nat),
    decreases n,
{
    if n < 10 {
        let c: char = dec_digit_char_of(n);
        out.push(c);
        assert(out@ =~= old(out)@ + dec_rep(n as nat));
    } else {
        push_dec_u64(out, n / 10);
        let c: char = dec_digit_char_of(n % 10);
        out.push(c);
        assert(out@ =~= old(out)@ + dec_rep(n as nat));
    }
}

/// The decimal digit character of a value below ten, as executable code.
pub fn dec_digit_char_of(v: u64) -> (c: char)
    requires
        v < 10,
    ensures
        c == dec_digit_char(v as int),
{
    if v == 0 { '0' }
    else if v == 1 { '1' }
    else if v == 2 { '2' }
    else if v == 3 { '3' }
    else if v == 4 { '4' }
    else if v == 5 { '5' }
    else if v == 6 { '6' }
    else if v == 7 { '7' }
    else if v == 8 { '8' }
    else { '9' }
}

/// The lower-case hexadecimal digit character of a value below sixteen, as
/// executable code.
pub fn hex_digit_char_of(v: u64) -> (c: char)
    requires
        v < 16,
    ensures
        c == hex_digit_char(v as int),
{
    if v < 10 { dec_digit_char_of(v) }
    else if v == 10 { 'a' }
    else if v == 11 { 'b' }
    else if v == 12 { 'c' }
    else if v == 13 { 'd' }
    else if v == 14 { 'e' }
    else { 'f' }
}

/// Classifies a character as a decimal digit and gives its value.
pub fn dec_digit_of(c: char) -> (r: Option<u8>)
    ensures
        r is Some <==> is_dec_digit(c),
        r matches Some(v) ==> v == dec_digit_val(c),
{
    let u: u32 = c as u32;
    if '0' as u32 <= u && u <= '9' as u32 {
        Some((u - '0' as u32) as u8)
    } else {
        None
    }
}

/// Classifies a character as a hexadecimal digit and gives its value.
pub fn hex_digit_of(c: char) -> (r: Option<u8>)
    ensures
        r is Some <==> is_hex_digit(c),
        r matches Some(v) ==> v == hex_digit_val(c),
{
    let u: u32 = c as u32;
    if '0' as u32 <= u && u <= '9' as u32 {
        Some((u - '0' as u32) as u8)
    } else if 'a' as u32 <= u && u <= 'f' as u32 {
        Some((u - 'a' as u32 + 10) as u8)
    } else if 'A' as u32 <= u && u <= 'F' as u32 {
        Some((u - 'A' as u32 + 10) as u8)
    } else {
        None
    }
}

/// The characters of a string slice, in order.
pub fn str_to_chars(s: &str) -> (r: Vec<char>)
    ensures
        r@ == s@,
{
    let n: usize = s.unicode_len();
    let mut r: Vec<char> = Vec::new();
    let mut i: usize = 0;
    while i < n
        invariant
            i <= n,
            n == s@.len(),
            r@ == s@.subrange(0, i as int),
        decreases n - i,
    {
        let c: char = s.get_char(i);
        r.push(c);
        assert(r@ =~= s@.subrange(0, i + 1 as int));
        i = i + 1;
    }
    assert(r@ =~= s@);
    r
}

/// Relies on `str`'s `PartialEq`: two string slices are equal exactly when
/// their characters are.
#[verifier::external_body]
pub(crate) fn str_eq(a: &str, b: &str) -> (r: bool)
    ensures
        r == (a@ == b@),
{
    a == b
}

/// Relies on `String::from_iter` over a character iterator: the collected
/// string holds exactly the iterated characters in order.
#[verifier::external_body]
pub(crate) fn chars_to_string(v: &Vec<char>) -> (r: String)
    ensures
        r@ == v@,
{
    v.iter().collect()
}

/// The value of a non-empty all-digit string, if it fits in a `u64`.
pub open spec fn spec_digits_to_u64(d: Seq<char>) -> Option<u64> {
    if d.len() > 0 && (forall|i: int| 0 <= i < d.len() ==> is_dec_digit(#[trigger] d[i]))
        && digits_val(d) <= u64::MAX {
        Some(digits_val(d) as u64)
    } else {
        None
    }
}

/// What `u64::from_str` accepts: an optional leading plus sign, then one or
/// more decimal digits denoting a value that fits in a `u64`.
pub open spec fn spec_parse_u64(s: Seq<char>) -> Option<u64> {
    if s.len() > 0 && s[0] == '+' {
        spec_digits_to_u64(s.drop_first())
    } else {
        spec_digits_to_u64(s)
    }
}

/// Parses a whole string as a decimal `u64`, as `u64::from_str` does.
pub fn parse_u64(s: &str) -> (r: Option<u64>)
    ensures
        r == spec_parse_u64(s@),
{
    let chars: Vec<char> = str_to_chars(s);
    let skip_plus: bool = chars.len() > 0 && chars[0] == '+';
    let start: usize = if skip_plus { 1 } else { 0 };
    let ghost d: Seq<char> = if skip_plus { s@.drop_first() } else { s@ };
    assert(d =~= chars@.subrange(start as int, chars@.len() as int));
    if chars.len() == start {
        return None;
    }
    let mut acc: u64 = 0;
    let mut i: usize = start;
    while i < chars.len()
        invariant
            start <= i <= chars.len(),
            chars@ == s@,
            start == (if s@.len() > 0 && s@[0] == '+' { 1int } else { 0int }),
            d == (if s@.len() > 0 && s@[0] == '+' { s@.drop_first() } else { s@ }),
            d == chars@.subrange(start as int, chars@.len() as int),
            forall|k: int| start <= k < i ==> is_dec_digit(#[trigger] chars@[k]),
            acc == digits_val(chars@.subrange(start as int, i as int)),
        decreases chars.len() - i,
    {
        let c: char = chars[i];
        match dec_digit_of(c) {
            None => {
                proof {
                    let k: int = i as int - start as int;
                    assert(d[k] == chars@[i as int]);
                    assert(!is_dec_digit(d[k]));
                    assert(!(forall|j: int| 0 <= j < d.len() ==> is_dec_digit(#[trigger] d[j])));
                    assert(spec_digits_to_u64(d) is None);
                }
                return None;
            },
            Some(v) => {
                let ghost pre = chars@.subrange(start as int, i as int);
                let ghost cur = chars@.subrange(start as int, i + 1 as int);
                proof {
                    assert(cur.drop_last() =~= pre);
                    assert(cur.last() == chars@[i as int]);
                    assert(digits_val(cur) == acc * 10 + dec_digit_val(c));
                }
                match acc.checked_mul(10) {
                    None => {
                        proof {
                            assert(cur =~= d.subrange(0, i as int + 1 - start as int));
                            lemma_digits_val_prefix_le(d, i as int + 1 - start as int);
                            assert(digits_val(d) > u64::MAX);
                        }
                        return None;
                    },
                    Some(m) => {
                        match m.checked_add(v as u64) {
                            None => {
                                proof {
                                    assert(cur =~= d.subrange(0, i as int + 1 - start as int));
                                    lemma_digits_val_prefix_le(d, i as int + 1 - start as int);
                                    assert(digits_val(d) > u64::MAX);
                                }
                                return None;
                            },
                            Some(t) => {
                                acc = t;
                            },
                        }
                    },
                }
                i = i + 1;
            },
        }
    }
    assert(chars@.subrange(start as int, i as int) =~= d);
    Some(acc)
}

/// The value of a digit string is at least the value of any of its prefixes
/// (so once a prefix overflows, the whole string does).
pub proof fn lemma_digits_val_prefix_le(d: Seq<char>, n: int)
    requires
        0 <= n <= d.len(),
    ensures
        digits_val(d.subrange(0, n)) <= digits_val(d),
    decreases d.len() - n,
{
    if n == d.len() {
        assert(d.subrange(0, n) =~= d);
    } else {
        lemma_digits_val_prefix_le(d, n + 1);
        let p = d.subrange(0, n + 1);
        assert(p.drop_last() =~= d.subrange(0, n));
        assert(digits_val(d.subrange(0, n)) <= digits_val(p));
    }
}

} // verus!
