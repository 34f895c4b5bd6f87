use vstd::prelude::*;
use crate::bytes::{bytes_eq, trim, trimmed};

verus! {

pub const COMMA: u8 = 44;

/// `s[i..j]` is one of the comma-separated items of `s`.
pub open spec fn is_item(s: Seq<u8>, i: int, j: int) -> bool {
    &&& 0 <= i <= j <= s.len()
    &&& i == 0 || s[i - 1] == COMMA
    &&& j == s.len() || s[j] == COMMA
    &&& forall|k: int| i <= k < j ==> s[k] != COMMA
}

/// Some comma-separated item of `s`, without its surrounding blanks, is `word`.
pub open spec fn lists(s: Seq<u8>, word: Seq<u8>) -> bool {
    exists|i: int, j: int| #[trigger] is_item(s, i, j) && trimmed(s.subrange(i, j)) == word
}

proof fn lemma_item_at(s: Seq<u8>, a: int, p: int)
    requires
        0 <= a <= p <= s.len(),
        a == 0 || s[a - 1] == COMMA,
        p == s.len() || s[p] == COMMA,
        forall|k: int| a <= k < p ==> s[k] != COMMA,
    ensures
        is_item(s, a, p),
        forall|i: int, j: int| #[trigger] is_item(s, i, j) && a <= j <= p ==> i == a && j == p,
{
    assert forall|i: int, j: int| #[trigger] is_item(s, i, j) && a <= j <= p implies i == a && j == p by {
        if j < p {
            assert(s[j] != COMMA);
        }
        if i < a {
            assert(s[a - 1] == COMMA);
        }
        if i > a {
            assert(s[i - 1] == COMMA);
        }
    }
}

/// Tells whether a comma-separated list names `word`.
pub fn list_contains(s: &[u8], word: &[u8]) -> (r: bool)
    ensures
        r == lists(s@, word@),
{
    let mut found = false;
    let mut a: usize = 0;
    let mut p: usize = 0;
    while p < s.len()
        invariant
            a <= p <= s@.len(),
            a == 0 || s@[a - 1] == COMMA,
            forall|k: int| a <= k < p ==> s@[k] != COMMA,
            found <==> exists|i: int, j: int|
                #[trigger] is_item(s@, i, j) && j < a && trimmed(s@.subrange(i, j)) == word@,
        decreases s@.len() - p,
    {
        if s[p] == COMMA {
            let part = trim(vstd::slice::slice_subrange(s, a, p));
            let hit = bytes_eq(part.as_slice(), word);
            proof {
                lemma_item_at(s@, a as int, p as int);
            }
            found = found || hit;
            a = p + 1;
        }
        p = p + 1;
    }
    let part = trim(vstd::slice::slice_subrange(s, a, p));
    let hit = bytes_eq(part.as_slice(), word);
    proof {
        lemma_item_at(s@, a as int, p as int);
    }
    found || hit
}

/// The transfer codings that a message's `Transfer-Encoding` header names.
#[derive(Clone, Copy, Debug, Default)]
pub struct TransferEncoding {
    chunked: bool,
    compress: bool,
    deflate: bool,
    gzip: bool,
    identity: bool,
}

pub open spec fn chunked_word() -> Seq<u8> {
    seq![/* chunked */ 99u8, 104u8, 117u8, 110u8, 107u8, 101u8, 100u8]
}

pub open spec fn compress_word() -> Seq<u8> {
    seq![/* compress */ 99u8, 111u8, 109u8, 112u8, 114u8, 101u8, 115u8, 115u8]
}

pub open spec fn deflate_word() -> Seq<u8> {
    seq![/* deflate */ 100u8, 101u8, 102u8, 108u8, 97u8, 116u8, 101u8]
}

pub open spec fn gzip_word() -> Seq<u8> {
    seq![/* gzip */ 103u8, 122u8, 105u8, 112u8]
}

pub open spec fn identity_word() -> Seq<u8> {
    seq![/* identity */ 105u8, 100u8, 101u8, 110u8, 116u8, 105u8, 116u8, 121u8]
}

fn chunked_bytes() -> (r: Vec<u8>)
    ensures
        r@ == chunked_word(),
{
    vec![/* chunked */ 99u8, 104u8, 117u8, 110u8, 107u8, 101u8, 100u8]
}

fn compress_bytes() -> (r: Vec<u8>)
    ensures
        r@ == compress_word(),
{
    vec![/* compress */ 99u8, 111u8, 109u8, 112u8, 114u8, 101u8, 115u8, 115u8]
}

fn deflate_bytes() -> (r: Vec<u8>)
    ensures
        r@ == deflate_word(),
{
    vec![/* deflate */ 100u8, 101u8, 102u8, 108u8, 97u8, 116u8, 101u8]
}

fn gzip_bytes() -> (r: Vec<u8>)
    ensures
        r@ == gzip_word(),
{
    vec![/* gzip */ 103u8, 122u8, 105u8, 112u8]
}

fn identity_bytes() -> (r: Vec<u8>)
    ensures
        r@ == identity_word(),
{
    vec![/* identity */ 105u8, 100u8, 101u8, 110u8, 116u8, 105u8, 116u8, 121u8]
}

/// Appends `name` to a `, `-separated list.
pub open spec fn add_name(acc: Seq<u8>, on: bool, name: Seq<u8>) -> Seq<u8> {
    if !on {
        acc
    } else if acc.len() == 0 {
        name
    } else {
        acc + seq![COMMA, 32u8] + name
    }
}

fn push_name(acc: &mut Vec<u8>, on: bool, name: Vec<u8>)
    ensures
        final(acc)@ == add_name(old(acc)@, on, name@),
{
    if on {
        if acc.len() > 0 {
            acc.push(COMMA);
            acc.push(32u8);
        }
        let mut i: usize = 0;
        let ghost start = acc@;
        while i < name.len()
            invariant
                i <= name@.len(),
                acc@ == start + name@.subrange(0, i as int),
            decreases name@.len() - i,
        {
            acc.push(name[i]);
            i = i + 1;
            assert(acc@ == start + name@.subrange(0, i as int));
        }
        assert(name@.subrange(0, name@.len() as int) == name@);
        assert(start.len() == 0 ==> start + name@ == name@);
    }
}

impl TransferEncoding {
    pub closed spec fn spec_chunked(&self) -> bool {
        self.chunked
    }

    pub closed spec fn spec_compress(&self) -> bool {
        self.compress
    }

    pub closed spec fn spec_deflate(&self) -> bool {
        self.deflate
    }

    pub closed spec fn spec_gzip(&self) -> bool {
        self.gzip
    }

    pub closed spec fn spec_identity(&self) -> bool {
        self.identity
    }

    pub open spec fn spec_some(&self) -> bool {
        self.spec_chunked() || self.spec_compress() || self.spec_deflate() || self.spec_gzip() || self.spec_identity()
    }

    /// The header value that names these codings, in a fixed order.
    pub open spec fn spec_text(&self) -> Seq<u8> {
        add_name(
            add_name(
                add_name(
                    add_name(add_name(Seq::empty(), self.spec_chunked(), chunked_word()), self.spec_compress(), compress_word()),
                    self.spec_deflate(),
                    deflate_word(),
                ),
                self.spec_gzip(),
                gzip_word(),
            ),
            self.spec_identity(),
            identity_word(),
        )
    }

    /// Reads a `Transfer-Encoding` header value: a comma-separated list of
    /// codings; unknown items are skipped.
    pub fn new(h: Option<&Vec<u8>>) -> (te: TransferEncoding)
        ensures
            h is None ==> !te.spec_some(),
            h matches Some(v) ==> {
                &&& te.spec_chunked() == lists(v@, chunked_word())
                &&& te.spec_compress() == lists(v@, compress_word())
                &&& te.spec_deflate() == lists(v@, deflate_word())
                &&& te.spec_gzip() == lists(v@, gzip_word())
                &&& te.spec_identity() == lists(v@, identity_word())
            },
    {
        match h {
            None => TransferEncoding { chunked: false, compress: false, deflate: false, gzip: false, identity: false },
            Some(v) => {
                let c = chunked_bytes();
                let co = compress_bytes();
                let d = deflate_bytes();
                let g = gzip_bytes();
                let i = identity_bytes();
                TransferEncoding {
                    chunked: list_contains(v.as_slice(), c.as_slice()),
                    compress: list_contains(v.as_slice(), co.as_slice()),
                    deflate: list_contains(v.as_slice(), d.as_slice()),
                    gzip: list_contains(v.as_slice(), g.as_slice()),
                    identity: list_contains(v.as_slice(), i.as_slice()),
                }
            },
        }
    }

    /// Adds the coding that `v` names exactly; any other word is skipped.
    pub fn parse(&mut self, v: &[u8])
        ensures
            final(self).spec_chunked() == (old(self).spec_chunked() || v@ == chunked_word()),
            final(self).spec_compress() == (old(self).spec_compress() || v@ == compress_word()),
            final(self).spec_deflate() == (old(self).spec_deflate() || v@ == deflate_word()),
            final(self).spec_gzip() == (old(self).spec_gzip() || v@ == gzip_word()),
            final(self).spec_identity() == (old(self).spec_identity() || v@ == identity_word()),
    {
        let c = chunked_bytes();
        let co = compress_bytes();
        let d = deflate_bytes();
        let g = gzip_bytes();
        let i = identity_bytes();
        if bytes_eq(v, c.as_slice()) {
            self.chunked = true;
        } else if bytes_eq(v, co.as_slice()) {
            self.compress = true;
        } else if bytes_eq(v, d.as_slice()) {
            self.deflate = true;
        } else if bytes_eq(v, g.as_slice()) {
            self.gzip = true;
        } else if bytes_eq(v, i.as_slice()) {
            self.identity = true;
        }
    }

    /// The header value, or `None` when no coding is set.
    pub fn format(&self) -> (r: Option<Vec<u8>>)
        ensures
            !self.spec_some() ==> r is None,
            self.spec_some() ==> (r matches Some(t) && t@ == self.spec_text()),
    {
        if !self.is_some() {
            return None;
        }
        let mut acc: Vec<u8> = Vec::new();
        push_name(&mut acc, self.chunked, chunked_bytes());
        push_name(&mut acc, self.compress, compress_bytes());
        push_name(&mut acc, self.deflate, deflate_bytes());
        push_name(&mut acc, self.gzip, gzip_bytes());
        push_name(&mut acc, self.identity, identity_bytes());
        Some(acc)
    }

    pub fn set_chunked(&mut self)
        ensures
            final(self).spec_chunked(),
            final(self).spec_compress() == old(self).spec_compress(),
            final(self).spec_deflate() == old(self).spec_deflate(),
            final(self).spec_gzip() == old(self).spec_gzip(),
            final(self).spec_identity() == old(self).spec_identity(),
    {
        self.chunked = true;
    }

    pub fn is_chunked(&self) -> (r: bool)
        ensures
            r == self.spec_chunked(),
    {
        self.chunked
    }

    pub fn is_compress(&self) -> (r: bool)
        ensures
            r == self.spec_compress(),
    {
        self.compress
    }

    pub fn is_deflate(&self) -> (r: bool)
        ensures
            r == self.spec_deflate(),
    {
        self.deflate
    }

    pub fn is_gzip(&self) -> (r: bool)
        ensures
            r == self.spec_gzip(),
    {
        self.gzip
    }

    pub fn is_identity(&self) -> (r: bool)
        ensures
            r == self.spec_identity(),
    {
        self.identity
    }

    /// True when some coding is set.
    pub fn is_some(&self) -> (r: bool)
        ensures
            r == self.spec_some(),
    {
        self.chunked || self.compress || self.deflate || self.gzip || self.identity
    }
}

} // verus!
