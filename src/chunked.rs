use vstd::prelude::*;
use crate::percent::hex_val;

verus! {

pub const CR: u8 = 13;
pub const LF: u8 = 10;

/// The largest chunk size the decoder accepts: what a `usize` holds.
pub const MAX_CHUNK: usize = usize::MAX;

/// The lower-case hex digit of a value below 16.
pub open spec fn hex_lower_digit(n: nat) -> u8 {
    if n < 10 {
        (48 + n) as u8
    } else {
        (87 + n) as u8
    }
}

/// A number in lower-case hex, without leading zeros.
pub open spec fn hex_lower(n: nat) -> Seq<u8>
    decreases n,
{
    if n < 16 {
        seq![hex_lower_digit(n)]
    } else {
        hex_lower(n / 16) + seq![hex_lower_digit(n % 16)]
    }
}

/// The value of a non-empty string of hex digits.
pub open spec fn hex_value(t: Seq<u8>) -> Option<nat>
    decreases t.len(),
{
    if t.len() == 0 {
        None
    } else if hex_val(t.last()) is None {
        None
    } else if t.len() == 1 {
        Some(hex_val(t.last())->0 as nat)
    } else {
        match hex_value(t.drop_last()) {
            Some(v) => Some((v * 16 + hex_val(t.last())->0) as nat),
            None => None,
        }
    }
}

/// One chunk on the wire: its size in hex, CRLF, the bytes, CRLF. An empty
/// chunk is not framed at all, since its frame would end the body.
pub open spec fn chunk_frame(data: Seq<u8>) -> Seq<u8> {
    if data.len() == 0 {
        Seq::empty()
    } else {
        hex_lower(data.len()) + seq![CR, LF] + data + seq![CR, LF]
    }
}

/// The frame that ends a chunked body.
pub open spec fn last_chunk() -> Seq<u8> {
    seq![48u8, CR, LF, CR, LF]
}

/// A body sent as the given pieces, in chunked framing.
pub open spec fn chunked_body(xs: Seq<Seq<u8>>) -> Seq<u8>
    decreases xs.len(),
{
    if xs.len() == 0 {
        last_chunk()
    } else {
        chunk_frame(xs[0]) + chunked_body(xs.drop_first())
    }
}

/// The pieces joined.
pub open spec fn flatten(xs: Seq<Seq<u8>>) -> Seq<u8>
    decreases xs.len(),
{
    if xs.len() == 0 {
        Seq::empty()
    } else {
        xs[0] + flatten(xs.drop_first())
    }
}

/// What decoding a chunked body finds.
pub enum Dechunked {
    /// The whole body, and how many input bytes it took.
    Done(Seq<u8>, nat),
    /// The input ends before the body does.
    Need,
    /// The input is not a chunked body.
    Bad,
}

/// Index of the first LF.
pub open spec fn first_lf(s: Seq<u8>) -> Option<nat>
    decreases s.len(),
{
    if s.len() == 0 {
        None
    } else if s[0] == LF {
        Some(0)
    } else {
        match first_lf(s.drop_first()) {
            Some(i) => Some(i + 1),
            None => None,
        }
    }
}

/// Decodes a chunked body: lines of a hex size ended by CRLF, each followed by
/// that many bytes and CRLF, up to a size of zero and a closing CRLF.
pub open spec fn dechunk(s: Seq<u8>) -> Dechunked
    decreases s.len(),
{
    match first_lf(s) {
        None => Dechunked::Need,
        Some(lf) => {
            let i = lf as int;
            if i >= s.len() {
                Dechunked::Need
            } else if i == 0 || s[i - 1] != CR {
                Dechunked::Bad
            } else {
                match hex_value(s.take(i - 1)) {
                    None => Dechunked::Bad,
                    Some(size) => {
                        let n = size as int;
                        let rest = s.skip(i + 1);
                        if n > MAX_CHUNK {
                            Dechunked::Bad
                        } else if rest.len() < n + 2 {
                            Dechunked::Need
                        } else if rest[n] != CR || rest[n + 1] != LF {
                            Dechunked::Bad
                        } else if n == 0 {
                            Dechunked::Done(Seq::empty(), (i + 3) as nat)
                        } else {
                            match dechunk(rest.skip(n + 2)) {
                                Dechunked::Done(b, u) => Dechunked::Done(rest.take(n) + b, (i + 1 + n + 2 + u) as nat),
                                other => other,
                            }
                        }
                    },
                }
            }
        },
    }
}

fn hex_digit(n: usize) -> (r: u8)
    requires
        n < 16,
    ensures
        r == hex_lower_digit(n as nat),
{
    if n < 10 {
        48 + n as u8
    } else {
        87 + n as u8
    }
}

/// Writes `n` in lower-case hex.
pub fn format_hex(n: usize) -> (r: Vec<u8>)
    ensures
        r@ == hex_lower(n as nat),
    decreases n,
{
    if n < 16 {
        vec![hex_digit(n)]
    } else {
        let mut v = format_hex(n / 16);
        v.push(hex_digit(n % 16));
        v
    }
}

fn append(v: &mut Vec<u8>, s: &[u8])
    ensures
        final(v)@ == old(v)@ + s@,
{
    let mut i: usize = 0;
    let ghost start = v@;
    while i < s.len()
        invariant
            i <= s@.len(),
            v@ == start + s@.subrange(0, i as int),
        decreases s@.len() - i,
    {
        v.push(s[i]);
        i = i + 1;
        assert(v@ == start + s@.subrange(0, i as int));
    }
    assert(s@.subrange(0, s@.len() as int) == s@);
}

/// Frames one piece of a chunked body; an empty piece gives no bytes.
pub fn encode_chunk(data: &[u8]) -> (r: Vec<u8>)
    ensures
        r@ == chunk_frame(data@),
{
    if data.len() == 0 {
        return Vec::new();
    }
    let mut r = format_hex(data.len());
    r.push(CR);
    r.push(LF);
    append(&mut r, data);
    r.push(CR);
    r.push(LF);
    r
}

/// The frame that ends a chunked body.
pub fn encode_last_chunk() -> (r: Vec<u8>)
    ensures
        r@ == last_chunk(),
{
    vec![48u8, CR, LF, CR, LF]
}

/// Outcome of [`decode_chunked`].
pub enum ChunkedParse {
    /// The body, and how many input bytes it took.
    Done(Vec<u8>, usize),
    /// More input is needed.
    Again,
    /// The input is not a chunked body.
    Invalid,
}

/// Prepends decoded bytes to an outcome.
pub open spec fn prepend(acc: Seq<u8>, used: nat, d: Dechunked) -> Dechunked {
    match d {
        Dechunked::Done(b, u) => Dechunked::Done(acc + b, used + u),
        other => other,
    }
}

proof fn lemma_first_lf_from(s: Seq<u8>, i: int)
    requires
        0 <= i <= s.len(),
        forall|k: int| 0 <= k < i ==> s[k] != LF,
    ensures
        i < s.len() && s[i] == LF ==> first_lf(s) == Some(i as nat),
        i == s.len() ==> first_lf(s) is None,
    decreases i,
{
    if i > 0 {
        assert forall|k: int| 0 <= k < i - 1 implies s.drop_first()[k] != LF by {
            assert(s.drop_first()[k] == s[k + 1]);
        }
        lemma_first_lf_from(s.drop_first(), i - 1);
    }
}

proof fn lemma_hex_value_prefix(t: Seq<u8>, k: int)
    requires
        0 < k <= t.len(),
        hex_value(t) is Some,
    ensures
        hex_value(t.take(k)) is Some,
        hex_value(t.take(k))->0 <= hex_value(t)->0,
    decreases t.len(),
{
    if k < t.len() {
        assert(t.drop_last().take(k) == t.take(k));
        lemma_hex_value_prefix(t.drop_last(), k);
    } else {
        assert(t.take(k) == t);
    }
}

proof fn lemma_hex_value_step(t: Seq<u8>, c: u8)
    requires
        hex_val(c) is Some,
    ensures
        t.len() == 0 ==> hex_value(t.push(c)) == Some(hex_val(c)->0 as nat),
        t.len() > 0 ==> hex_value(t.push(c)) == match hex_value(t) {
            Some(v) => Some((v * 16 + hex_val(c)->0) as nat),
            None => None::<nat>,
        },
{
    assert(t.push(c).drop_last() == t);
    assert(t.push(c).last() == c);
}

/// Parses the hex size in `s[from..to]`; `None` when it is not hex digits or
/// exceeds [`MAX_CHUNK`].
fn parse_size(s: &[u8], from: usize, to: usize) -> (r: Option<usize>)
    requires
        from <= to <= s@.len(),
    ensures
        r matches Some(n) ==> hex_value(s@.subrange(from as int, to as int)) == Some(n as nat) && n <= MAX_CHUNK,
        r is None ==> (hex_value(s@.subrange(from as int, to as int)) matches Some(n) ==> n > MAX_CHUNK),
{
    if from == to {
        return None;
    }
    let ghost t = s@.subrange(from as int, to as int);
    let mut v: usize = 0;
    let mut i: usize = from;
    while i < to
        invariant
            from <= i <= to <= s@.len(),
            t == s@.subrange(from as int, to as int),
            v <= MAX_CHUNK,
            i > from ==> hex_value(t.take(i - from)) == Some(v as nat),
            i == from ==> v == 0,
        decreases to - i,
    {
        let c = s[i];
        let ghost k = (i - from) as int;
        proof {
            assert(t[k] == c);
            assert(t.take(k + 1) == t.take(k).push(c));
            assert(t.take(k + 1).last() == c);
        }
        let d: usize = if 48 <= c && c <= 57 {
            (c - 48) as usize
        } else if 97 <= c && c <= 102 {
            (c - 87) as usize
        } else if 65 <= c && c <= 70 {
            (c - 55) as usize
        } else {
            proof {
                if hex_value(t) is Some {
                    lemma_hex_value_prefix(t, k + 1);
                }
            }
            return None;
        };
        proof {
            lemma_hex_value_step(t.take(k), c);
            assert(hex_val(c)->0 == d);
            assert(hex_value(t.take(k + 1)) == Some((v * 16 + d) as nat));
        }
        if v > (MAX_CHUNK - d) / 16 {
            proof {
                let m = MAX_CHUNK - d;
                assert(v * 16 + d > MAX_CHUNK) by (nonlinear_arith)
                    requires
                        v > m / 16,
                        m == MAX_CHUNK - d,
                        0 <= d < 16,
                        m >= 0,
                ;
                if hex_value(t) is Some {
                    lemma_hex_value_prefix(t, k + 1);
                }
            }
            return None;
        }
        v = v * 16 + d;
        i = i + 1;
    }
    assert(t.take(to - from) == t);
    Some(v)
}

/// One step of decoding, from a position of the input.
enum Step {
    /// A chunk of `n` bytes starts at the index; its CRLF follows it.
    Data(usize, usize),
    /// The last chunk ends before the index.
    Last(usize),
    Again,
    Invalid,
}

/// Reads the chunk that starts at `s[pos..]`.
#[verifier::rlimit(40)]
fn next_chunk(s: &[u8], pos: usize) -> (r: Step)
    requires
        pos <= s@.len(),
    ensures
        match r {
            Step::Data(a, n) => {
                &&& pos < a && a + n + 2 <= s@.len()
                &&& dechunk(s@.skip(pos as int)) == prepend(
                    s@.subrange(a as int, a + n),
                    (a + n + 2 - pos) as nat,
                    dechunk(s@.skip(a + n + 2)),
                )
            },
            Step::Last(u) => pos < u <= s@.len() && dechunk(s@.skip(pos as int)) == Dechunked::Done(
                Seq::empty(),
                (u - pos) as nat,
            ),
            _ => true,
        },
        r is Again ==> dechunk(s@.skip(pos as int)) is Need,
        r is Invalid ==> dechunk(s@.skip(pos as int)) is Bad,
{
    let ghost t = s@.skip(pos as int);
    let mut i: usize = pos;
    while i < s.len() && s[i] != LF
        invariant
            pos <= i <= s@.len(),
            forall|k: int| pos <= k < i ==> s@[k] != LF,
        decreases s@.len() - i,
    {
        i = i + 1;
    }
    proof {
        assert forall|k: int| 0 <= k < i - pos implies t[k] != LF by {
            assert(t[k] == s@[pos + k]);
        }
        if i < s.len() {
            assert(t[i - pos] == s@[i as int]);
        }
        lemma_first_lf_from(t, i - pos);
    }
    if i == s.len() {
        return Step::Again;
    }
    if i == pos || s[i - 1] != CR {
        proof {
            if i > pos {
                assert(t[i - pos - 1] == s@[i - 1]);
            }
        }
        return Step::Invalid;
    }
    assert(t[i - pos - 1] == s@[i - 1]);
    assert(t.take(i - pos - 1) == s@.subrange(pos as int, i - 1));
    let n = match parse_size(s, pos, i - 1) {
        None => {
            return Step::Invalid;
        },
        Some(n) => n,
    };
    let ghost rest = t.skip(i - pos + 1);
    assert(rest == s@.skip(i + 1));
    if s.len() - (i + 1) < 2 || s.len() - (i + 1) - 2 < n {
        return Step::Again;
    }
    let d = i + 1 + n;
    assert(rest[n as int] == s@[d as int]);
    assert(rest[n + 1] == s@[d + 1]);
    if s[d] != CR || s[d + 1] != LF {
        return Step::Invalid;
    }
    if n == 0 {
        return Step::Last(d + 2);
    }
    assert(rest.take(n as int) == s@.subrange(i + 1, d as int));
    assert(rest.skip(n + 2) == s@.skip(d + 2));
    Step::Data(i + 1, n)
}

/// Decodes a complete chunked body at the start of `s`: the body and the
/// number of bytes it took, `Again` when `s` ends before the body does, and
/// `Invalid` when `s` is not a chunked body.
pub fn decode_chunked(s: &[u8]) -> (r: ChunkedParse)
    ensures
        r matches ChunkedParse::Done(b, u) ==> dechunk(s@) == Dechunked::Done(b@, u as nat) && u <= s@.len(),
        r is Again ==> dechunk(s@) is Need,
        r is Invalid ==> dechunk(s@) is Bad,
{
    let mut body: Vec<u8> = Vec::new();
    let mut pos: usize = 0;
    let len = s.len();
    proof {
        assert(s@.skip(0) == s@);
        match dechunk(s@) {
            Dechunked::Done(b, u) => {
                assert(Seq::<u8>::empty() + b == b);
            },
            _ => {},
        }
    }
    loop
        invariant
            pos <= s@.len(),
            len == s@.len(),
            dechunk(s@) == prepend(body@, pos as nat, dechunk(s@.skip(pos as int))),
        decreases s@.len() - pos,
    {
        let step = next_chunk(s, pos);
        match step {
            Step::Again => {
                return ChunkedParse::Again;
            },
            Step::Invalid => {
                return ChunkedParse::Invalid;
            },
            Step::Last(u) => {
                assert(body@ + Seq::<u8>::empty() == body@);
                return ChunkedParse::Done(body, u);
            },
            Step::Data(a, n) => {
                assert(a + n + 2 <= s@.len());
                let ghost old_body = body@;
                let ghost piece = s@.subrange(a as int, a + n);
                append(&mut body, vstd::slice::slice_subrange(s, a, a + n));
                proof {
                    match dechunk(s@.skip(a + n + 2)) {
                        Dechunked::Done(b, u) => {
                            assert(old_body + (piece + b) == body@ + b);
                        },
                        _ => {},
                    }
                }
                pos = a + n + 2;
            },
        }
    }
}

proof fn lemma_hex_lower_digits(n: nat)
    ensures
        hex_value(hex_lower(n)) == Some(n),
        hex_lower(n).len() > 0,
        forall|k: int| 0 <= k < hex_lower(n).len() ==> hex_lower(n)[k] != LF && hex_lower(n)[k] != CR,
    decreases n,
{
    if n < 16 {
        assert(hex_lower(n) == seq![hex_lower_digit(n)]);
        assert(hex_lower(n).last() == hex_lower_digit(n));
    } else {
        lemma_hex_lower_digits(n / 16);
        let h = hex_lower(n);
        let p = hex_lower(n / 16);
        assert(h.drop_last() == p);
        assert(h.last() == hex_lower_digit(n % 16));
        vstd::arithmetic::div_mod::lemma_fundamental_div_mod(n as int, 16);
        assert forall|k: int| 0 <= k < h.len() implies h[k] != LF && h[k] != CR by {
            if k < p.len() {
                assert(h[k] == p[k]);
            }
        }
    }
}

proof fn lemma_dechunk_frame(x: Seq<u8>, rest: Seq<u8>)
    requires
        x.len() > 0,
        x.len() <= MAX_CHUNK,
    ensures
        dechunk(chunk_frame(x) + rest) == prepend(x, chunk_frame(x).len(), dechunk(rest)),
{
    let h = hex_lower(x.len());
    lemma_hex_lower_digits(x.len());
    let s = chunk_frame(x) + rest;
    let i = (h.len() + 1) as int;
    let n = x.len() as int;
    assert forall|k: int| 0 <= k < i implies s[k] != LF by {
        if k < h.len() {
            assert(s[k] == h[k]);
        }
    }
    assert(s[i] == LF);
    lemma_first_lf_from(s, i);
    assert(s[i - 1] == CR);
    assert(s.take(i - 1) == h);
    let r = s.skip(i + 1);
    assert(r == x + seq![CR, LF] + rest);
    assert(r[n] == CR);
    assert(r[n + 1] == LF);
    assert(r.take(n) == x);
    assert(r.skip(n + 2) == rest);
}

/// Decoding a chunked body gives back the pieces it was sent as, joined,
/// when each piece fits the decoder's size limit.
pub proof fn lemma_chunked_round_trip(xs: Seq<Seq<u8>>)
    requires
        forall|k: int| 0 <= k < xs.len() ==> #[trigger] xs[k].len() <= MAX_CHUNK,
    ensures
        dechunk(chunked_body(xs)) == Dechunked::Done(flatten(xs), chunked_body(xs).len()),
    decreases xs.len(),
{
    if xs.len() == 0 {
        let s = last_chunk();
        assert(s[0] != LF && s[1] != LF && s[2] == LF);
        lemma_first_lf_from(s, 2);
        assert(s.take(1) == seq![48u8]);
        assert(seq![48u8].last() == 48u8);
        assert(s.skip(3) == seq![CR, LF]);
    } else {
        let rest = xs.drop_first();
        assert forall|k: int| 0 <= k < rest.len() implies #[trigger] rest[k].len() <= MAX_CHUNK by {
            assert(rest[k] == xs[k + 1]);
        }
        lemma_chunked_round_trip(rest);
        assert(xs[0].len() <= MAX_CHUNK);
        if xs[0].len() == 0 {
            assert(chunk_frame(xs[0]) + chunked_body(rest) == chunked_body(rest));
            assert(xs[0] + flatten(rest) == flatten(rest));
        } else {
            lemma_dechunk_frame(xs[0], chunked_body(rest));
        }
    }
}

} // verus!
