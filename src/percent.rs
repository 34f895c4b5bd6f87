use vstd::prelude::*;

verus! {

pub const PERCENT: u8 = 37;

/// ASCII letters and digits: the bytes that percent-encoding leaves alone.
pub open spec fn is_alnum(c: u8) -> bool {
    (48 <= c && c <= 57) || (65 <= c && c <= 90) || (97 <= c && c <= 122)
}

/// The upper-case hex digit of a value below 16.
pub open spec fn hex_upper(n: u8) -> u8 {
    if n < 10 {
        (48 + n) as u8
    } else {
        (55 + n) as u8
    }
}

/// The value of a hex digit of either case.
pub open spec fn hex_val(c: u8) -> Option<u8> {
    if 48 <= c && c <= 57 {
        Some((c - 48) as u8)
    } else if 97 <= c && c <= 102 {
        Some((c - 87) as u8)
    } else if 65 <= c && c <= 70 {
        Some((c - 55) as u8)
    } else {
        None
    }
}

/// One byte percent-encoded: letters and digits stay, any other byte becomes `%XY`.
pub open spec fn encode_byte(c: u8) -> Seq<u8> {
    if is_alnum(c) {
        seq![c]
    } else {
        seq![PERCENT, hex_upper(c / 16), hex_upper(c % 16)]
    }
}

/// A byte string percent-encoded, byte by byte.
pub open spec fn url_encoded(s: Seq<u8>) -> Seq<u8>
    decreases s.len(),
{
    if s.len() == 0 {
        Seq::empty()
    } else {
        encode_byte(s[0]) + url_encoded(s.drop_first())
    }
}

/// A byte string percent-decoded: `%` and two hex digits become one byte;
/// any other byte, a `%` without two hex digits after it included, stays.
pub open spec fn url_decoded(s: Seq<u8>) -> Seq<u8>
    decreases s.len(),
{
    if s.len() == 0 {
        Seq::empty()
    } else if s[0] == PERCENT && s.len() >= 3 && hex_val(s[1]) is Some && hex_val(s[2]) is Some {
        seq![(hex_val(s[1])->0 * 16 + hex_val(s[2])->0) as u8] + url_decoded(s.skip(3))
    } else {
        seq![s[0]] + url_decoded(s.drop_first())
    }
}

/// Relies on percent_encoding::percent_encode with the NON_ALPHANUMERIC set:
/// each byte outside ASCII letters and digits becomes `%` and two upper-case
/// hex digits, the others are copied.
#[verifier::external_body]
pub(crate) fn url_encode(s: &[u8]) -> (r: Vec<u8>)
    ensures
        r@ == url_encoded(s@),
{
    percent_encoding::percent_encode(s, percent_encoding::NON_ALPHANUMERIC).to_string().into_bytes()
}

/// Relies on percent_encoding::percent_decode: `%` followed by two hex digits
/// becomes the byte they spell, every other byte is copied.
#[verifier::external_body]
pub(crate) fn url_decode(s: &[u8]) -> (r: Vec<u8>)
    ensures
        r@ == url_decoded(s@),
{
    percent_encoding::percent_decode(s).collect()
}

proof fn lemma_decode_encoded_byte(c: u8, t: Seq<u8>)
    ensures
        url_decoded(encode_byte(c) + t) == seq![c] + url_decoded(t),
{
    let s = encode_byte(c) + t;
    if is_alnum(c) {
        assert(s[0] == c);
        assert(s.drop_first() == t);
    } else {
        let h = (c / 16) as u8;
        let l = (c % 16) as u8;
        assert(s[0] == PERCENT);
        assert(s[1] == hex_upper(h));
        assert(s[2] == hex_upper(l));
        assert(hex_val(hex_upper(h)) == Some(h));
        assert(hex_val(hex_upper(l)) == Some(l));
        vstd::arithmetic::div_mod::lemma_fundamental_div_mod(c as int, 16);
        assert(h * 16 + l == c);
        assert(s.skip(3) == t);
    }
}

/// Percent-decoding undoes percent-encoding, for every byte string.
pub proof fn lemma_url_round_trip(q: Seq<u8>)
    ensures
        url_decoded(url_encoded(q)) == q,
    decreases q.len(),
{
    if q.len() > 0 {
        lemma_url_round_trip(q.drop_first());
        lemma_decode_encoded_byte(q[0], url_encoded(q.drop_first()));
        assert(seq![q[0]] + q.drop_first() == q);
    }
}

} // verus!
