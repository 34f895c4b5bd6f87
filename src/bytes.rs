use vstd::prelude::*;

verus! {

/// Compares two byte strings.
pub fn bytes_eq(a: &[u8], b: &[u8]) -> (r: bool)
    ensures
        r == (a@ == b@),
{
    if a.len() != b.len() {
        return false;
    }
    let mut i: usize = 0;
    while i < a.len()
        invariant
            a@.len() == b@.len(),
            i <= a@.len(),
            a@.subrange(0, i as int) == b@.subrange(0, i as int),
        decreases a@.len() - i,
    {
        if a[i] != b[i] {
            assert(a@[i as int] != b@[i as int]);
            return false;
        }
        i = i + 1;
        assert(a@.subrange(0, i as int) == a@.subrange(0, i - 1) + seq![a@[i - 1]]);
        assert(b@.subrange(0, i as int) == b@.subrange(0, i - 1) + seq![b@[i - 1]]);
    }
    assert(a@ == a@.subrange(0, i as int));
    assert(b@ == b@.subrange(0, i as int));
    true
}

pub open spec fn lower_byte(c: u8) -> u8 {
    if 65u8 /* A */ <= c && c <= 90u8 /* Z */ {
        (c + 32) as u8
    } else {
        c
    }
}

/// A byte string with its ASCII capitals made small.
pub open spec fn ascii_lower(s: Seq<u8>) -> Seq<u8> {
    s.map_values(|c: u8| lower_byte(c))
}

/// Equality up to ASCII case.
pub open spec fn eq_ignore_case(a: Seq<u8>, b: Seq<u8>) -> bool {
    ascii_lower(a) == ascii_lower(b)
}

pub fn to_lower(c: u8) -> (r: u8)
    ensures
        r == lower_byte(c),
{
    if 65u8 /* A */ <= c && c <= 90u8 /* Z */ {
        c + 32
    } else {
        c
    }
}

/// Compares two byte strings up to ASCII case.
pub fn bytes_eq_ignore_case(a: &[u8], b: &[u8]) -> (r: bool)
    ensures
        r == eq_ignore_case(a@, b@),
{
    if a.len() != b.len() {
        assert(ascii_lower(a@).len() != ascii_lower(b@).len());
        return false;
    }
    let mut i: usize = 0;
    while i < a.len()
        invariant
            a@.len() == b@.len(),
            i <= a@.len(),
            forall|j: int| 0 <= j < i ==> lower_byte(a@[j]) == lower_byte(b@[j]),
        decreases a@.len() - i,
    {
        if to_lower(a[i]) != to_lower(b[i]) {
            assert(ascii_lower(a@)[i as int] != ascii_lower(b@)[i as int]);
            return false;
        }
        i = i + 1;
    }
    assert(ascii_lower(a@) =~= ascii_lower(b@));
    true
}

/// Drops leading and trailing spaces and tabs.
pub open spec fn is_blank(c: u8) -> bool {
    c == 32u8 || c == 9u8
}

pub open spec fn trim_start_len(s: Seq<u8>) -> nat
    decreases s.len(),
{
    if s.len() > 0 && is_blank(s[0]) {
        1 + trim_start_len(s.drop_first())
    } else {
        0
    }
}

pub open spec fn trim_end_len(s: Seq<u8>) -> nat
    decreases s.len(),
{
    if s.len() > 0 && is_blank(s.last()) {
        1 + trim_end_len(s.drop_last())
    } else {
        0
    }
}

/// `s` without its leading and trailing blanks.
pub open spec fn trimmed(s: Seq<u8>) -> Seq<u8> {
    let t = s.subrange(trim_start_len(s) as int, s.len() as int);
    t.subrange(0, t.len() - trim_end_len(t))
}

proof fn lemma_trim_start_bound(s: Seq<u8>)
    ensures
        trim_start_len(s) <= s.len(),
    decreases s.len(),
{
    if s.len() > 0 && is_blank(s[0]) {
        lemma_trim_start_bound(s.drop_first());
    }
}

proof fn lemma_trim_end_bound(s: Seq<u8>)
    ensures
        trim_end_len(s) <= s.len(),
    decreases s.len(),
{
    if s.len() > 0 && is_blank(s.last()) {
        lemma_trim_end_bound(s.drop_last());
    }
}

proof fn lemma_trim_start_step(s: Seq<u8>, i: int)
    requires
        0 <= i <= s.len(),
        forall|j: int| 0 <= j < i ==> is_blank(s[j]),
    ensures
        i < s.len() && !is_blank(s[i]) ==> trim_start_len(s) == i,
        i == s.len() ==> trim_start_len(s) == s.len(),
    decreases i,
{
    if i > 0 {
        let t = s.drop_first();
        assert forall|j: int| 0 <= j < i - 1 implies is_blank(t[j]) by {
            assert(t[j] == s[j + 1]);
        }
        lemma_trim_start_step(t, i - 1);
    }
}

proof fn lemma_trim_end_step(s: Seq<u8>, i: int)
    requires
        0 <= i <= s.len(),
        forall|j: int| s.len() - i <= j < s.len() ==> is_blank(s[j]),
    ensures
        i < s.len() && !is_blank(s[s.len() - 1 - i]) ==> trim_end_len(s) == i,
        i == s.len() ==> trim_end_len(s) == s.len(),
    decreases i,
{
    if i > 0 {
        let t = s.drop_last();
        assert forall|j: int| t.len() - (i - 1) <= j < t.len() implies is_blank(t[j]) by {
            assert(t[j] == s[j]);
        }
        lemma_trim_end_step(t, i - 1);
    }
}

/// Copies `s` without its leading and trailing blanks.
pub fn trim(s: &[u8]) -> (r: Vec<u8>)
    ensures
        r@ == trimmed(s@),
{
    let mut a: usize = 0;
    while a < s.len() && (s[a] == 32u8 || s[a] == 9u8)
        invariant
            a <= s@.len(),
            forall|j: int| 0 <= j < a ==> is_blank(s@[j]),
        decreases s@.len() - a,
    {
        a = a + 1;
    }
    proof {
        lemma_trim_start_step(s@, a as int);
    }
    let ghost t = s@.subrange(a as int, s@.len() as int);
    let mut b: usize = s.len();
    while b > a && (s[b - 1] == 32u8 || s[b - 1] == 9u8)
        invariant
            a <= b <= s@.len(),
            t == s@.subrange(a as int, s@.len() as int),
            forall|j: int| b - a <= j < t.len() ==> is_blank(t[j]),
        decreases b,
    {
        b = b - 1;
        assert(t[b - a] == s@[b as int]);
    }
    proof {
        let k = (s@.len() - b) as int;
        assert forall|j: int| t.len() - k <= j < t.len() implies is_blank(t[j]) by {}
        if b > a {
            assert(t[t.len() - 1 - k] == s@[b - 1]);
        }
        lemma_trim_end_step(t, k);
    }
    let mut r: Vec<u8> = Vec::new();
    let mut i: usize = a;
    while i < b
        invariant
            a <= i <= b <= s@.len(),
            r@ == s@.subrange(a as int, i as int),
        decreases b - i,
    {
        r.push(s[i]);
        i = i + 1;
        assert(r@ == s@.subrange(a as int, i as int));
    }
    assert(r@ =~= t.subrange(0, t.len() - trim_end_len(t)));
    r
}

/// Index of the first `c` in `s`.
pub open spec fn first_of(s: Seq<u8>, c: u8) -> Option<nat>
    decreases s.len(),
{
    if s.len() == 0 {
        None
    } else if s[0] == c {
        Some(0)
    } else {
        match first_of(s.drop_first(), c) {
            Some(i) => Some(i + 1),
            None => None,
        }
    }
}

/// The pieces of `s` between occurrences of `c`; always at least one.
pub open spec fn split_on(s: Seq<u8>, c: u8) -> Seq<Seq<u8>>
    decreases s.len(),
{
    match first_of(s, c) {
        None => seq![s],
        Some(i) => if i < s.len() {
            seq![s.take(i as int)] + split_on(s.skip(i as int + 1), c)
        } else {
            seq![s]
        },
    }
}

pub proof fn lemma_first_of_from(s: Seq<u8>, c: u8, i: int)
    requires
        0 <= i <= s.len(),
        forall|k: int| 0 <= k < i ==> s[k] != c,
    ensures
        i < s.len() && s[i] == c ==> first_of(s, c) == Some(i as nat),
        i == s.len() ==> first_of(s, c) is None,
    decreases i,
{
    if i > 0 {
        assert forall|k: int| 0 <= k < i - 1 implies s.drop_first()[k] != c by {
            assert(s.drop_first()[k] == s[k + 1]);
        }
        lemma_first_of_from(s.drop_first(), c, i - 1);
    }
}

/// Copies `s[from..to]`.
pub fn copy_slice(s: &[u8], from: usize, to: usize) -> (r: Vec<u8>)
    requires
        from <= to <= s@.len(),
    ensures
        r@ == s@.subrange(from as int, to as int),
{
    let mut r: Vec<u8> = Vec::new();
    let mut i: usize = from;
    while i < to
        invariant
            from <= i <= to <= s@.len(),
            r@ == s@.subrange(from as int, i as int),
        decreases to - i,
    {
        r.push(s[i]);
        i = i + 1;
        assert(r@ == s@.subrange(from as int, i as int));
    }
    r
}

/// Splits `s` at every `c`.
pub fn split(s: &[u8], c: u8) -> (r: Vec<Vec<u8>>)
    ensures
        r@.map_values(|v: Vec<u8>| v@) == split_on(s@, c),
{
    let mut r: Vec<Vec<u8>> = Vec::new();
    let mut start: usize = 0;
    let mut i: usize = 0;
    let len = s.len();
    proof {
        assert(s@.skip(0) == s@);
    }
    while i < len
        invariant
            len == s@.len(),
            start <= i <= len,
            forall|k: int| start <= k < i ==> s@[k] != c,
            split_on(s@, c) == r@.map_values(|v: Vec<u8>| v@) + split_on(s@.skip(start as int), c),
        decreases len - i,
    {
        if s[i] == c {
            let piece = copy_slice(s, start, i);
            proof {
                let t = s@.skip(start as int);
                assert forall|k: int| 0 <= k < i - start implies t[k] != c by {
                    assert(t[k] == s@[start + k]);
                }
                assert(t[i - start] == s@[i as int]);
                lemma_first_of_from(t, c, i - start);
                assert(t.take(i - start) == piece@);
                assert(t.skip(i - start + 1) == s@.skip(i + 1));
                assert(r@.push(piece).map_values(|v: Vec<u8>| v@) == r@.map_values(|v: Vec<u8>| v@).push(piece@));
            }
            r.push(piece);
            start = i + 1;
        }
        i = i + 1;
    }
    let piece = copy_slice(s, start, len);
    proof {
        let t = s@.skip(start as int);
        assert forall|k: int| 0 <= k < len - start implies t[k] != c by {
            assert(t[k] == s@[start + k]);
        }
        lemma_first_of_from(t, c, len - start);
        assert(t == piece@);
        assert(r@.push(piece).map_values(|v: Vec<u8>| v@) == r@.map_values(|v: Vec<u8>| v@).push(piece@));
    }
    r.push(piece);
    r
}

pub proof fn lemma_first_of_bound(s: Seq<u8>, c: u8)
    ensures
        first_of(s, c) matches Some(i) ==> i < s.len() && s[i as int] == c,
    decreases s.len(),
{
    if s.len() > 0 && s[0] != c {
        lemma_first_of_bound(s.drop_first(), c);
    }
}

} // verus!
