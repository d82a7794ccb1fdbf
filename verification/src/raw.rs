use vstd::prelude::*;

use vstd::std_specs::cmp::PartialEqSpecImpl;

use crate::text::{ascii_chars, lemma_byte_char, push_char};

verus! {

/// Whether a byte is a printable ASCII character other than space.
pub open spec fn is_graphic(b: u8) -> bool {
    0x21 <= b <= 0x7e
}

/// The printable characters of `s` in order; every other byte is dropped.
pub open spec fn graphic_text(s: Seq<u8>) -> Seq<char>
    decreases s.len(),
{
    if s.len() == 0 {
        Seq::empty()
    } else if is_graphic(s.last()) {
        graphic_text(s.drop_last()).push(s.last() as char)
    } else {
        graphic_text(s.drop_last())
    }
}

/// `s` followed by zero bytes up to length `n`.
pub open spec fn zero_padded(s: Seq<u8>, n: nat) -> Seq<u8> {
    s + Seq::new((n - s.len()) as nat, |i: int| 0u8)
}

/// A fixed-size identifier stored as its raw bytes, padded with zeros.
#[derive(Clone, Copy, Debug, Hash, PartialOrd, Ord)]
pub struct Raw<const N: usize>(pub [u8; N]);

impl<const N: usize> View for Raw<N> {
    type V = Seq<u8>;

    open spec fn view(&self) -> Seq<u8> {
        self.0@
    }
}

/// Whether two byte arrays hold the same bytes.
pub fn bytes_eq<const N: usize>(a: &[u8; N], b: &[u8; N]) -> (r: bool)
    ensures
        r == (a@ == b@),
{
    let mut i: usize = 0;
    while i < N
        invariant
            i <= N,
            a@.len() == N,
            b@.len() == N,
            forall|q: int| 0 <= q < i ==> a@[q] == b@[q],
        decreases N - i,
    {
        if a[i] != b[i] {
            return false;
        }
        i = i + 1;
    }
    assert(a@ =~= b@);
    true
}

impl<const N: usize> PartialEq for Raw<N> {
    fn eq(&self, other: &Self) -> (r: bool) {
        let r = bytes_eq(&self.0, &other.0);
        proof {
            if r {
                assert(self.0 =~= other.0);
            }
        }
        r
    }
}

impl<const N: usize> Eq for Raw<N> {
}

impl<const N: usize> PartialEqSpecImpl for Raw<N> {
    open spec fn obeys_eq_spec() -> bool {
        true
    }

    open spec fn eq_spec(&self, other: &Self) -> bool {
        *self == *other
    }
}

proof fn lemma_graphic_text_zero_suffix(s: Seq<u8>, k: int)
    requires
        0 <= k <= s.len(),
        forall|i: int| k <= i < s.len() ==> s[i] == 0,
    ensures
        graphic_text(s) == graphic_text(s.take(k)),
    decreases s.len(),
{
    if s.len() > k {
        assert(s.drop_last().take(k) =~= s.take(k));
        lemma_graphic_text_zero_suffix(s.drop_last(), k);
    } else {
        assert(s.take(k) =~= s);
    }
}

/// Collects the printable characters of `bytes[..end]`.
pub(crate) fn push_graphic(out: &mut String, bytes: &[u8], end: usize)
    requires
        end <= bytes@.len(),
    ensures
        final(out)@ == old(out)@ + graphic_text(bytes@.take(end as int)),
{
    let ghost start = out@;
    let mut i: usize = 0;
    while i < end
        invariant
            i <= end <= bytes@.len(),
            out@ == start + graphic_text(bytes@.take(i as int)),
        decreases end - i,
    {
        let b = bytes[i];
        assert(bytes@.take(i + 1).drop_last() =~= bytes@.take(i as int));
        if 0x21 <= b && b <= 0x7e {
            push_char(out, b as char);
            assert(start + graphic_text(bytes@.take(i as int)).push(b as char) =~= (start
                + graphic_text(bytes@.take(i as int))).push(b as char));
        }
        i = i + 1;
    }
}

/// Index just past the last non-zero byte of `bytes`.
pub(crate) fn trimmed_end(bytes: &[u8]) -> (end: usize)
    ensures
        end <= bytes@.len(),
        forall|i: int| end <= i < bytes@.len() ==> bytes@[i] == 0,
        end > 0 ==> bytes@[end - 1] != 0,
{
    let mut end = bytes.len();
    while end > 0 && bytes[end - 1] == 0
        invariant
            end <= bytes@.len(),
            forall|i: int| end <= i < bytes@.len() ==> bytes@[i] == 0,
        decreases end,
    {
        end = end - 1;
    }
    end
}

/// The text of a raw identifier: its printable bytes as characters.
pub(crate) fn raw_to_string(bytes: &[u8]) -> (s: String)
    ensures
        s@ == graphic_text(bytes@),
{
    let end = trimmed_end(bytes);
    let mut s = String::new();
    push_graphic(&mut s, bytes, end);
    proof {
        lemma_graphic_text_zero_suffix(bytes@, end as int);
        assert(Seq::<char>::empty() + graphic_text(bytes@.take(end as int)) =~= graphic_text(
            bytes@.take(end as int),
        ));
    }
    s
}

impl<const N: usize> Raw<N> {
    /// Construct a raw identifier from bytes; `None` when they do not fit.
    pub fn new(bytes: &[u8]) -> (r: Option<Raw<N>>)
        ensures
            r is Some <==> bytes@.len() <= N,
            r matches Some(raw) ==> raw@ == zero_padded(bytes@, N as nat),
    {
        if bytes.len() > N {
            return None;
        }
        let mut out: [u8; N] = vstd::array::array_fill_for_copy_types(0u8);
        let mut i: usize = 0;
        while i < bytes.len()
            invariant
                i <= bytes@.len() <= N,
                out@.len() == N,
                forall|q: int| 0 <= q < i ==> #[trigger] out@[q] == bytes@[q],
                forall|q: int| i <= q < N ==> #[trigger] out@[q] == 0,
            decreases bytes@.len() - i,
        {
            out[i] = bytes[i];
            i = i + 1;
        }
        assert(out@ =~= zero_padded(bytes@, N as nat));
        Some(Raw(out))
    }

    /// The printable characters of the identifier.
    pub fn to_string(&self) -> (s: String)
        ensures
            s@ == graphic_text(self@),
    {
        raw_to_string(self.0.as_slice())
    }
}

proof fn lemma_graphic_text_all(s: Seq<u8>)
    requires
        forall|i: int| 0 <= i < s.len() ==> is_graphic(#[trigger] s[i]),
    ensures
        graphic_text(s) == s.map_values(|b: u8| b as char),
    decreases s.len(),
{
    if s.len() > 0 {
        lemma_graphic_text_all(s.drop_last());
        assert(s.map_values(|b: u8| b as char) =~= s.drop_last().map_values(|b: u8| b as char).push(
            s.last() as char,
        ));
    } else {
        assert(s.map_values(|b: u8| b as char) =~= Seq::<char>::empty());
    }
}

/// Printable text that fits is written back unchanged by a raw identifier.
pub proof fn lemma_raw_text_roundtrip<const N: usize>(s: Seq<u8>)
    requires
        s.len() <= N,
        forall|i: int| 0 <= i < s.len() ==> is_graphic(#[trigger] s[i]),
    ensures
        graphic_text(zero_padded(s, N as nat)) == s.map_values(|b: u8| b as char),
{
    let p = zero_padded(s, N as nat);
    lemma_graphic_text_zero_suffix(p, s.len() as int);
    assert(p.take(s.len() as int) =~= s);
    lemma_graphic_text_all(s);
}

/// A raw identifier is canonical when its printable bytes come first and
/// zeros fill the rest: exactly the identifiers that text can describe.
pub open spec fn canonical_raw(b: Seq<u8>) -> bool {
    exists|k: int| #[trigger] graphic_then_zeros(b, k)
}

/// The first `k` bytes are printable and the rest are zero.
pub open spec fn graphic_then_zeros(b: Seq<u8>, k: int) -> bool {
    &&& 0 <= k <= b.len()
    &&& forall|i: int| 0 <= i < k ==> is_graphic(#[trigger] b[i])
    &&& forall|i: int| k <= i < b.len() ==> #[trigger] b[i] == 0
}

/// The text of a raw identifier is ASCII.
pub proof fn lemma_graphic_text_ascii(s: Seq<u8>)
    ensures
        ascii_chars(graphic_text(s)),
    decreases s.len(),
{
    if s.len() > 0 {
        lemma_graphic_text_ascii(s.drop_last());
        lemma_byte_char(s.last());
    }
}

/// The bytes of the text of a canonical identifier are its printable bytes,
/// and padding them gives the identifier back.
pub proof fn lemma_canonical_text(b: Seq<u8>, n: nat)
    requires
        canonical_raw(b),
        b.len() == n,
    ensures
        graphic_text(b).map_values(|c: char| c as u8).len() <= n,
        zero_padded(graphic_text(b).map_values(|c: char| c as u8), n) == b,
{
    let k = choose|k: int| #[trigger] graphic_then_zeros(b, k);
    lemma_graphic_text_zero_suffix(b, k);
    let p = b.take(k);
    lemma_graphic_text_all(p);
    let t = graphic_text(b).map_values(|c: char| c as u8);
    assert forall|i: int| 0 <= i < k implies #[trigger] t[i] == p[i] by {
        lemma_byte_char(p[i]);
    }
    assert(t =~= p);
    assert(zero_padded(t, n) =~= b);
}

} // verus!

verus! {

/// The first `n` bytes of `s`, or all of them when there are fewer.
pub open spec fn truncated(s: Seq<u8>, n: nat) -> Seq<u8> {
    if s.len() <= n {
        s
    } else {
        s.take(n as int)
    }
}

/// A 16-byte identifier that keeps the first 16 bytes of the text it is
/// made from.
#[derive(Clone, Copy, Debug, Hash, PartialOrd, Ord)]
pub struct Raw16(pub [u8; 16]);

impl View for Raw16 {
    type V = Seq<u8>;

    open spec fn view(&self) -> Seq<u8> {
        self.0@
    }
}

impl PartialEq for Raw16 {
    fn eq(&self, other: &Self) -> (r: bool) {
        let r = bytes_eq(&self.0, &other.0);
        proof {
            if r {
                assert(self.0 =~= other.0);
            }
        }
        r
    }
}

impl Eq for Raw16 {
}

impl PartialEqSpecImpl for Raw16 {
    open spec fn obeys_eq_spec() -> bool {
        true
    }

    open spec fn eq_spec(&self, other: &Self) -> bool {
        *self == *other
    }
}

impl Raw16 {
    /// Construct a raw identifier from the first 16 bytes of `bytes`,
    /// padded with zeros.
    pub fn from_string(bytes: &[u8]) -> (r: Raw16)
        ensures
            r@ == zero_padded(truncated(bytes@, 16), 16),
    {
        let mut out = [0u8; 16];
        let n = if bytes.len() < 16 {
            bytes.len()
        } else {
            16
        };
        let mut i: usize = 0;
        while i < n
            invariant
                i <= n <= 16,
                n <= bytes@.len(),
                n == truncated(bytes@, 16).len(),
                out@.len() == 16,
                forall|q: int| 0 <= q < i ==> #[trigger] out@[q] == bytes@[q],
                forall|q: int| i <= q < 16 ==> #[trigger] out@[q] == 0,
            decreases n - i,
        {
            out[i] = bytes[i];
            i = i + 1;
        }
        assert(out@ =~= zero_padded(truncated(bytes@, 16), 16));
        Raw16(out)
    }

    /// The printable characters of the identifier.
    pub fn to_string(&self) -> (s: String)
        ensures
            s@ == graphic_text(self@),
    {
        raw_to_string(self.0.as_slice())
    }
}

} // verus!
