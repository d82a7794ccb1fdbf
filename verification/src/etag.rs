use vstd::prelude::*;
use vstd::utf8::encode_utf8;

verus! {

/// The character of a 6-bit value in the standard base64 alphabet.
pub open spec fn base64_char(v: int) -> char {
    if v < 26 {
        (65 + v) as char
    } else if v < 52 {
        (97 + (v - 26)) as char
    } else if v < 62 {
        (48 + (v - 52)) as char
    } else if v == 62 {
        '+'
    } else {
        '/'
    }
}

/// The padded standard base64 text of `b`: each three bytes become four characters of six bits
/// each, and a last group of one or two bytes is padded with `=`.
pub open spec fn base64_encode(b: Seq<u8>) -> Seq<char>
    decreases b.len(),
{
    let x = if b.len() > 0 { b[0] as int } else { 0 };
    let y = if b.len() > 1 { b[1] as int } else { 0 };
    let z = if b.len() > 2 { b[2] as int } else { 0 };
    if b.len() == 0 {
        Seq::empty()
    } else if b.len() == 1 {
        seq![base64_char(x / 4), base64_char((x % 4) * 16), '=', '=']
    } else if b.len() == 2 {
        seq![base64_char(x / 4), base64_char((x % 4) * 16 + y / 16), base64_char((y % 16) * 4), '=']
    } else {
        seq![
            base64_char(x / 4),
            base64_char((x % 4) * 16 + y / 16),
            base64_char((y % 16) * 4 + z / 64),
            base64_char(z % 64),
        ] + base64_encode(b.skip(3))
    }
}

/// What `base64::decode` gives for `text`: the bytes, or `None` when it
/// refuses the text.
pub uninterp spec fn base64_decode(text: Seq<u8>) -> Option<Seq<u8>>;

/// Length of the padded base64 text of `n` bytes.
pub open spec fn base64_len(n: nat) -> nat {
    4 * ((n + 2) / 3)
}

/// The padded text has four characters for each started group of three bytes.
pub proof fn lemma_base64_len(b: Seq<u8>)
    ensures
        base64_encode(b).len() == base64_len(b.len()),
    decreases b.len(),
{
    if b.len() >= 3 {
        lemma_base64_len(b.skip(3));
    }
}

/// Calls `base64::encode`, which writes the standard alphabet with padding:
/// the text is `base64_encode` of the bytes, and decoding it gives the
/// bytes back. The crate panics when the padded length does not fit in a
/// `usize`, which is excluded.
#[verifier::external_body]
fn encode_base64(bytes: &[u8]) -> (s: String)
    requires
        base64_len(bytes@.len()) <= usize::MAX,
    ensures
        s@ == base64_encode(bytes@),
        base64_decode(encode_utf8(s@)) == Some(bytes@),
{
    base64::encode(bytes)
}

/// Calls `base64::decode` (standard alphabet, padded) and keeps the bytes,
/// or `None` on its error. The crate panics when the length plus 3
/// overflows, which is excluded.
#[verifier::external_body]
fn decode_base64(text: &[u8]) -> (r: Option<Vec<u8>>)
    requires
        text@.len() + 3 <= usize::MAX,
    ensures
        match base64_decode(text@) {
            Some(b) => r matches Some(v) && v@ == b,
            None => r is None,
        },
{
    base64::decode(text).ok()
}

/// An opaque entity tag handed out by a remote service.
#[derive(Debug)]
pub struct Etag(pub Vec<u8>);

impl Clone for Etag {
    fn clone(&self) -> (r: Etag)
        ensures
            r@ == self@,
    {
        Etag::new(self.0.as_slice())
    }
}

impl View for Etag {
    type V = Seq<u8>;

    open spec fn view(&self) -> Seq<u8> {
        self.0@
    }
}

impl Etag {
    /// Construct a transparent etag from its bytes.
    pub fn new(bytes: &[u8]) -> (e: Etag)
        ensures
            e@ == bytes@,
    {
        let mut v: Vec<u8> = Vec::new();
        let mut i: usize = 0;
        while i < bytes.len()
            invariant
                i <= bytes@.len(),
                v@ == bytes@.take(i as int),
            decreases bytes@.len() - i,
        {
            v.push(bytes[i]);
            i = i + 1;
            assert(v@ =~= bytes@.take(i as int));
        }
        assert(bytes@.take(i as int) =~= bytes@);
        Etag(v)
    }

    /// The etag in base64, as it is stored: the standard alphabet, padded to
    /// four characters for each started group of three bytes; reading it
    /// back with `from_base64` gives the same etag.
    pub fn as_base64(&self) -> (s: String)
        requires
            base64_len(self@.len()) <= usize::MAX,
        ensures
            s@ == base64_encode(self@),
            s@.len() == base64_len(self@.len()),
            base64_decode(encode_utf8(s@)) == Some(self@),
    {
        proof {
            lemma_base64_len(self@);
        }
        encode_base64(self.0.as_slice())
    }

    /// Read an etag from its stored base64 text; `None` when that is not
    /// valid base64.
    pub fn from_base64(text: &str) -> (r: Option<Etag>)
        requires
            encode_utf8(text@).len() + 3 <= usize::MAX,
        ensures
            match base64_decode(encode_utf8(text@)) {
                Some(b) => r matches Some(e) && e@ == b,
                None => r is None,
            },
    {
        match decode_base64(text.as_bytes()) {
            Some(v) => Some(Etag(v)),
            None => None,
        }
    }

    /// Whether two etags hold the same bytes.
    pub fn same(&self, other: &Etag) -> (r: bool)
        ensures
            r == (self@ == other@),
    {
        if self.0.len() != other.0.len() {
            return false;
        }
        let mut i: usize = 0;
        while i < self.0.len()
            invariant
                i <= self@.len() == other@.len(),
                forall|q: int| 0 <= q < i ==> self@[q] == other@[q],
            decreases self@.len() - i,
        {
            if self.0[i] != other.0[i] {
                return false;
            }
            i = i + 1;
        }
        assert(self@ =~= other@);
        true
    }
}

} // verus!
