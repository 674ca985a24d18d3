//! String groundwork: lexicographic order on character sequences, string
//! equality through UTF-8 bytes, decimal rendering of integers, and the
//! one trusted decoding step from bytes to text.

use vstd::prelude::*;
use vstd::slice::slice_index_get;
use vstd::string::*;
use vstd::utf8::*;

verus! {

// ---------------------------------------------------------------------------
// Lexicographic order on character sequences
// ---------------------------------------------------------------------------

/// `a` is less than or equal to `b` in lexicographic order by code point.
/// On such strings this agrees with the byte order of their UTF-8 forms.
pub open spec fn lex_le(a: Seq<char>, b: Seq<char>) -> bool
    decreases a.len(),
{
    if a.len() == 0 {
        true
    } else if b.len() == 0 {
        false
    } else if a[0] != b[0] {
        (a[0] as u32) < (b[0] as u32)
    } else {
        lex_le(a.drop_first(), b.drop_first())
    }
}

pub proof fn lemma_lex_le_total(a: Seq<char>, b: Seq<char>)
    ensures
        lex_le(a, b) || lex_le(b, a),
    decreases a.len(),
{
    if a.len() == 0 || b.len() == 0 {
    } else if a[0] != b[0] {
        vstd::utf8::char_u32_cast(a[0], a[0] as u32);
        vstd::utf8::char_u32_cast(b[0], b[0] as u32);
        assert(a[0] as u32 != b[0] as u32);
    } else {
        lemma_lex_le_total(a.drop_first(), b.drop_first());
    }
}

/// Two characters with the same code point are the same character.
pub proof fn lemma_char_eq_by_u32(a: char, b: char)
    requires
        a as u32 == b as u32,
    ensures
        a == b,
{
    vstd::utf8::char_u32_cast(a, a as u32);
    vstd::utf8::char_u32_cast(b, b as u32);
}

/// An ASCII character survives the round trip through a byte.
pub proof fn lemma_char_u8_roundtrip(c: char)
    requires
        (c as u32) < 0x80,
    ensures
        (c as u8) < 0x80,
        ((c as u8) as char) == c,
{
    let d = (c as u8) as char;
    assert(d as u32 == c as u32);
    lemma_char_eq_by_u32(d, c);
}

pub proof fn lemma_lex_le_trans(a: Seq<char>, b: Seq<char>, c: Seq<char>)
    requires
        lex_le(a, b),
        lex_le(b, c),
    ensures
        lex_le(a, c),
    decreases a.len(),
{
    if a.len() == 0 {
    } else if b.len() == 0 {
    } else if c.len() == 0 {
    } else {
        if a[0] == b[0] && b[0] == c[0] {
            lemma_lex_le_trans(a.drop_first(), b.drop_first(), c.drop_first());
        }
    }
}

/// Helper for scanning loops: once a common prefix of length `i` is
/// established, the order is decided by the remainders.
pub proof fn lemma_lex_le_skip(a: Seq<char>, b: Seq<char>, i: int)
    requires
        0 <= i <= a.len(),
        i <= b.len(),
        a.take(i) == b.take(i),
    ensures
        lex_le(a, b) == lex_le(a.skip(i), b.skip(i)),
    decreases i,
{
    if i == 0 {
        assert(a.skip(0) =~= a);
        assert(b.skip(0) =~= b);
    } else {
        assert(a.take(i)[0] == a[0]);
        assert(b.take(i)[0] == b[0]);
        assert(a[0] == b[0]);
        assert(a.drop_first().take(i - 1) =~= a.take(i).drop_first());
        assert(b.drop_first().take(i - 1) =~= b.take(i).drop_first());
        lemma_lex_le_skip(a.drop_first(), b.drop_first(), i - 1);
        assert(a.drop_first().skip(i - 1) =~= a.skip(i));
        assert(b.drop_first().skip(i - 1) =~= b.skip(i));
        assert(lex_le(a, b) == lex_le(a.drop_first(), b.drop_first()));
    }
}

/// Decides `lex_le(a@, b@)`.
pub fn str_le(a: &str, b: &str) -> (r: bool)
    ensures
        r == lex_le(a@, b@),
{
    let alen = a.unicode_len();
    let blen = b.unicode_len();
    let mut i: usize = 0;
    loop
        invariant
            i <= alen,
            i <= blen,
            alen == a@.len(),
            blen == b@.len(),
            a@.take(i as int) == b@.take(i as int),
        decreases alen - i,
    {
        proof {
            lemma_lex_le_skip(a@, b@, i as int);
        }
        if i == alen {
            assert(a@.skip(i as int).len() == 0);
            return true;
        }
        if i == blen {
            assert(b@.skip(i as int).len() == 0);
            assert(a@.skip(i as int).len() > 0);
            return false;
        }
        let ca = a.get_char(i);
        let cb = b.get_char(i);
        let ua = ca as u32;
        let ub = cb as u32;
        assert(a@.skip(i as int)[0] == a@[i as int]);
        assert(b@.skip(i as int)[0] == b@[i as int]);
        if ua < ub {
            return true;
        }
        if ua > ub {
            return false;
        }
        assert(a@.take(i + 1) =~= b@.take(i + 1));
        i = i + 1;
    }
}

// ---------------------------------------------------------------------------
// Equality
// ---------------------------------------------------------------------------

/// Decides equality of two byte slices.
pub fn bytes_eq(a: &[u8], b: &[u8]) -> (r: bool)
    ensures
        r == (a@ == b@),
{
    if a.len() != b.len() {
        return false;
    }
    let n = a.len();
    let mut i: usize = 0;
    while i < n
        invariant
            i <= n,
            n == a@.len(),
            n == b@.len(),
            forall|j: int| 0 <= j < i ==> a@[j] == b@[j],
        decreases n - i,
    {
        if *slice_index_get(a, i) != *slice_index_get(b, i) {
            return false;
        }
        i = i + 1;
    }
    assert(a@ =~= b@);
    true
}

/// Decides equality of two strings, by way of their UTF-8 bytes.
pub fn str_eq(a: &str, b: &str) -> (r: bool)
    ensures
        r == (a@ == b@),
{
    broadcast use vstd::utf8::encode_utf8_decode_utf8;

    let r = bytes_eq(a.as_bytes(), b.as_bytes());
    proof {
        if a.spec_bytes() == b.spec_bytes() {
            assert(decode_utf8(encode_utf8(a@)) == decode_utf8(encode_utf8(b@)));
            assert(a@ == b@);
        }
    }
    r
}

// ---------------------------------------------------------------------------
// ASCII bytes to text
// ---------------------------------------------------------------------------

/// Relies on core::str::from_utf8: yields the text whose UTF-8 encoding is
/// exactly the given bytes, and nothing when they are not valid UTF-8.
#[verifier::external_body]
pub fn try_str_from_utf8(v: &[u8]) -> (r: Option<&str>)
    ensures
        r is Some <==> valid_utf8(v@),
        r matches Some(s) ==> s.spec_bytes() == v@ && s@ == decode_utf8(v@),
{
    core::str::from_utf8(v).ok()
}

/// Builds the string whose characters are the given ASCII bytes, one each.
pub fn string_from_ascii(v: &Vec<u8>) -> (r: String)
    requires
        forall|j: int| 0 <= j < v@.len() ==> v@[j] < 0x80,
    ensures
        r@ == v@.map_values(|b: u8| b as char),
{
    broadcast use vstd::utf8::encode_utf8_decode_utf8;

    let ghost chars = v@.map_values(|b: u8| b as char);
    proof {
        assert(is_ascii_chars(chars)) by {
            assert(forall|j: int| 0 <= j < chars.len() ==> (chars[j] as nat) < 0x80);
        }
        is_ascii_chars_encode_utf8(chars);
        assert(encode_utf8(chars) =~= v@);
        encode_utf8_valid_utf8(chars);
    }
    match try_str_from_utf8(v.as_slice()) {
        Some(s) => s.to_owned(),
        None => {
            proof {
                assert(false);
            }
            String::new()
        },
    }
}

// ---------------------------------------------------------------------------
// Decimal rendering of integers
// ---------------------------------------------------------------------------

/// The decimal digit character for `d` (0 through 9).
pub open spec fn dec_digit(d: int) -> char {
    ((0x30 + d) as u8) as char
}

/// Decimal rendering of a non-negative integer, most significant digit first.
pub open spec fn dec_rep(n: int) -> Seq<char>
    recommends
        n >= 0,
    decreases n,
{
    if n < 10 {
        seq![dec_digit(n)]
    } else {
        dec_rep(n / 10).push(dec_digit(n % 10))
    }
}

/// Decimal rendering of an integer, with a leading minus sign when negative.
pub open spec fn int_rep(n: int) -> Seq<char> {
    if n < 0 {
        seq!['-'] + dec_rep(-n)
    } else {
        dec_rep(n)
    }
}

pub proof fn lemma_dec_digit_code(d: int)
    requires
        0 <= d < 10,
    ensures
        dec_digit(d) as u32 == 0x30 + d,
{
    assert((0x30 + d) as u8 == 0x30 + d);
}

/// The character is a decimal digit.
pub open spec fn is_dec_char(c: char) -> bool {
    0x30 <= (c as u32) && (c as u32) < 0x3a
}

pub proof fn lemma_dec_rep_ascii(n: int)
    requires
        n >= 0,
    ensures
        forall|j: int| 0 <= j < dec_rep(n).len() ==> is_dec_char(#[trigger] dec_rep(n)[j]),
    decreases n,
{
    if n < 10 {
        lemma_dec_digit_code(n);
        assert(dec_rep(n)[0] == dec_digit(n));
    } else {
        lemma_dec_rep_ascii(n / 10);
        lemma_dec_digit_code(n % 10);
        assert forall|j: int|
            0 <= j < dec_rep(n).len() implies is_dec_char(#[trigger] dec_rep(n)[j]) by {
            if j < dec_rep(n / 10).len() {
                assert(dec_rep(n)[j] == dec_rep(n / 10)[j]);
            } else {
                assert(dec_rep(n)[j] == dec_digit(n % 10));
            }
        }
    }
}

fn push_dec_digits(n: u64, out: &mut Vec<u8>)
    ensures
        final(out)@ == old(out)@ + dec_rep(n as int).map_values(|c: char| c as u8),
    decreases n,
{
    if n < 10 {
        out.push(0x30 + (n as u8));
        assert(out@ =~= old(out)@ + dec_rep(n as int).map_values(|c: char| c as u8));
    } else {
        push_dec_digits(n / 10, out);
        out.push(0x30 + ((n % 10) as u8));
        assert(out@ =~= old(out)@ + dec_rep(n as int).map_values(|c: char| c as u8));
    }
}

/// Renders a non-negative machine integer in decimal.
pub fn u64_to_string(n: u64) -> (r: String)
    ensures
        r@ == dec_rep(n as int),
{
    let mut out: Vec<u8> = Vec::new();
    push_dec_digits(n, &mut out);
    proof {
        lemma_dec_rep_ascii(n as int);
        assert(out@ =~= dec_rep(n as int).map_values(|c: char| c as u8));
        assert forall|j: int| 0 <= j < out@.len() implies out@[j] < 0x80 by {
            assert(out@[j] == dec_rep(n as int)[j] as u8);
            lemma_char_u8_roundtrip(dec_rep(n as int)[j]);
        }
    }
    let r = string_from_ascii(&out);
    proof {
        lemma_dec_rep_ascii(n as int);
        assert forall|j: int| 0 <= j < r@.len() implies r@[j] == dec_rep(n as int)[j] by {
            assert(r@[j] == (dec_rep(n as int)[j] as u8) as char);
            lemma_char_u8_roundtrip(dec_rep(n as int)[j]);
        }
        assert(r@ =~= dec_rep(n as int));
    }
    r
}

/// Renders a signed machine integer in decimal.
pub fn i64_to_string(n: i64) -> (r: String)
    ensures
        r@ == int_rep(n as int),
{
    if n >= 0 {
        u64_to_string(n as u64)
    } else {
        let mag: u64 = if n == i64::MIN {
            9223372036854775808u64
        } else {
            (-n) as u64
        };
        let mut out: Vec<u8> = Vec::new();
        out.push(0x2d);
        push_dec_digits(mag, &mut out);
        let ghost rep = seq!['-'] + dec_rep(mag as int);
        proof {
            lemma_dec_rep_ascii(mag as int);
            assert(out@ =~= seq![0x2du8] + dec_rep(mag as int).map_values(|c: char| c as u8));
            assert(('-' as u32) == 0x2d);
            assert forall|j: int| 0 <= j < out@.len() implies out@[j] < 0x80 by {
                if j > 0 {
                    assert(out@[j] == dec_rep(mag as int)[j - 1] as u8);
                    lemma_char_u8_roundtrip(dec_rep(mag as int)[j - 1]);
                }
            }
        }
        let r = string_from_ascii(&out);
        proof {
            lemma_dec_rep_ascii(mag as int);
            assert forall|j: int| 0 <= j < r@.len() implies r@[j] == rep[j] by {
                assert(r@[j] == out@[j] as char);
                if j == 0 {
                    lemma_char_u8_roundtrip('-');
                } else {
                    assert(out@[j] == dec_rep(mag as int)[j - 1] as u8);
                    lemma_char_u8_roundtrip(dec_rep(mag as int)[j - 1]);
                }
            }
            assert(r@ =~= rep);
            assert(int_rep(n as int) == rep);
        }
        r
    }
}

/// Inserting an element anywhere in a sequence adds it to the multiset.
pub proof fn lemma_insert_multiset<A>(s: Seq<A>, p: int, x: A)
    requires
        0 <= p <= s.len(),
    ensures
        s.insert(p, x).to_multiset() =~= s.to_multiset().insert(x),
{
    broadcast use vstd::seq_lib::group_to_multiset_ensures;

    let t = s.insert(p, x);
    assert(t.remove(p) =~= s);
    assert(t[p] == x);
    assert(t.to_multiset().remove(x) =~= s.to_multiset());
    assert(t.contains(x));
    assert(t.to_multiset().count(x) > 0);
}

// ---------------------------------------------------------------------------
// Case-insensitive ASCII comparison
// ---------------------------------------------------------------------------

/// ASCII lower-case fold of one character.
pub open spec fn lower_char(c: char) -> char {
    if 'A' <= c && c <= 'Z' {
        ((c as u8) + 0x20) as char
    } else {
        c
    }
}

/// Equality up to ASCII case.
pub open spec fn ascii_eq_ignore_case(a: Seq<char>, b: Seq<char>) -> bool {
    a.map_values(|c: char| lower_char(c)) == b.map_values(|c: char| lower_char(c))
}

/// Decides `ascii_eq_ignore_case(a@, b@)`.
pub fn str_eq_ignore_ascii_case(a: &str, b: &str) -> (r: bool)
    ensures
        r == ascii_eq_ignore_case(a@, b@),
{
    let alen = a.unicode_len();
    let blen = b.unicode_len();
    if alen != blen {
        assert(a@.map_values(|c: char| lower_char(c)).len() != b@.map_values(
            |c: char| lower_char(c),
        ).len());
        return false;
    }
    let mut i: usize = 0;
    while i < alen
        invariant
            i <= alen,
            alen == a@.len(),
            alen == b@.len(),
            forall|j: int| 0 <= j < i ==> lower_char(a@[j]) == lower_char(b@[j]),
        decreases alen - i,
    {
        let ca = lower_char_exec(a.get_char(i));
        let cb = lower_char_exec(b.get_char(i));
        if ca as u32 != cb as u32 {
            assert(lower_char(a@[i as int]) != lower_char(b@[i as int]));
            assert(a@.map_values(|c: char| lower_char(c))[i as int] != b@.map_values(
                |c: char| lower_char(c),
            )[i as int]);
            return false;
        }
        i = i + 1;
    }
    assert(a@.map_values(|c: char| lower_char(c)) =~= b@.map_values(|c: char| lower_char(c)));
    true
}

/// ASCII lower-case fold of one character, executable form.
pub fn lower_char_exec(c: char) -> (r: char)
    ensures
        r == lower_char(c),
{
    let u = c as u32;
    if 0x41 <= u && u <= 0x5a {
        assert('A' <= c && c <= 'Z');
        ((u + 0x20) as u8) as char
    } else {
        assert(!('A' <= c && c <= 'Z'));
        c
    }
}

} // verus!
