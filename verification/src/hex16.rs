use vstd::prelude::*;

use vstd::std_specs::cmp::PartialEqSpecImpl;
use vstd::std_specs::convert::FromSpecImpl;

use crate::raw::bytes_eq;
use crate::text::{ascii_chars, lemma_ascii_encode, push_char};
use vstd::utf8::encode_utf8;

verus! {

/// The value of a hexadecimal digit, in either case.
pub open spec fn hex_digit_value(b: u8) -> Option<u8> {
    if 48 <= b <= 57 {
        Some((b - 48) as u8)
    } else if 97 <= b <= 102 {
        Some((b - 87) as u8)
    } else if 65 <= b <= 70 {
        Some((b - 55) as u8)
    } else {
        None
    }
}

/// The lower-case hexadecimal digit of a nibble.
pub open spec fn hex_char(n: u8) -> char {
    if n < 10 {
        (48 + n) as char
    } else {
        (87 + n) as char
    }
}

/// The 32 nibbles of 16 bytes, most significant first.
pub open spec fn nibbles(b: Seq<u8>) -> Seq<u8> {
    Seq::new(2 * b.len(), |i: int| if i % 2 == 0 { b[i / 2] / 16 } else { b[i / 2] % 16 })
}

/// A sequence without its leading zeros.
pub open spec fn strip_zeros(s: Seq<u8>) -> Seq<u8>
    decreases s.len(),
{
    if s.len() > 0 && s[0] == 0 {
        strip_zeros(s.drop_first())
    } else {
        s
    }
}

/// Number of input characters that take part in a parse: the last 32 at most.
pub open spec fn parsed_len(len: nat) -> nat {
    if len < 32 {
        len
    } else {
        32
    }
}

/// Whether every one of the last (at most 32) bytes of `s` is a hex digit.
pub open spec fn hex16_accepts(s: Seq<u8>) -> bool {
    forall|i: int|
        s.len() - parsed_len(s.len()) <= i < s.len() ==> (#[trigger] hex_digit_value(s[i])) is Some
}

/// The nibbles that a parse of `s` produces: the last (at most 32) digits,
/// right-aligned and padded with zeros on the left.
pub open spec fn hex16_parsed_nibbles(s: Seq<u8>) -> Seq<u8> {
    let k = parsed_len(s.len());
    Seq::new(
        32,
        |i: int|
            if i < 32 - k {
                0u8
            } else {
                hex_digit_value(s[s.len() - 32 + i]).unwrap()
            },
    )
}

/// What `Hex16::to_string` gives for the given bytes: the lower-case hex
/// digits of the bytes with leading zero digits removed.
pub open spec fn hex16_display(b: Seq<u8>) -> Seq<char> {
    strip_zeros(nibbles(b)).map_values(|n: u8| hex_char(n))
}

/// The bytes of a `u128` in big-endian order.
pub open spec fn be_bytes(v: u128) -> Seq<u8> {
    Seq::new(16, |i: int| (v >> (8 * (15 - i)) as u128) as u8)
}

/// A 128-bit identifier read from and written as hexadecimal.
#[derive(Clone, Copy, Debug, Hash, PartialOrd, Ord)]
pub struct Hex16(pub [u8; 16]);

impl View for Hex16 {
    type V = Seq<u8>;

    open spec fn view(&self) -> Seq<u8> {
        self.0@
    }
}

impl PartialEq for Hex16 {
    fn eq(&self, other: &Self) -> (r: bool) {
        let r = bytes_eq(&self.0, &other.0);
        proof {
            if r {
                assert(self.0 =~= other.0);
            }
        }
        r
    }
}

impl Eq for Hex16 {
}

impl PartialEqSpecImpl for Hex16 {
    open spec fn obeys_eq_spec() -> bool {
        true
    }

    open spec fn eq_spec(&self, other: &Self) -> bool {
        *self == *other
    }
}

impl From<u128> for Hex16 {
    fn from(value: u128) -> (r: Hex16) {
        let r = Hex16::from_u128(value);
        proof {
            let c = choose|h: Hex16| h@ == be_bytes(value);
            assert(r.0 =~= c.0);
        }
        r
    }
}

impl FromSpecImpl<u128> for Hex16 {
    open spec fn obeys_from_spec() -> bool {
        true
    }

    open spec fn from_spec(v: u128) -> Hex16 {
        choose|h: Hex16| h@ == be_bytes(v)
    }
}

fn digit_value(b: u8) -> (r: Option<u8>)
    ensures
        r == hex_digit_value(b),
{
    if 48 <= b && b <= 57 {
        Some(b - 48)
    } else if 97 <= b && b <= 102 {
        Some(b - 97 + 0xa)
    } else if 65 <= b && b <= 70 {
        Some(b - 65 + 0xa)
    } else {
        None
    }
}

fn nibble_char(n: u8) -> (c: char)
    requires
        n < 16,
    ensures
        c == hex_char(n),
{
    if n < 10 {
        (48 + n) as char
    } else {
        (97 + (n - 0xa)) as char
    }
}

proof fn lemma_strip_push(s: Seq<u8>, a: u8)
    ensures
        strip_zeros(s.push(a)) == if strip_zeros(s).len() == 0 && a == 0 {
            Seq::<u8>::empty()
        } else {
            strip_zeros(s).push(a)
        },
    decreases s.len(),
{
    if s.len() == 0 {
        assert(s.push(a).drop_first() =~= Seq::<u8>::empty());
        assert(strip_zeros(Seq::<u8>::empty()) == Seq::<u8>::empty());
        assert(s.push(a) =~= Seq::<u8>::empty().push(a));
    } else {
        assert(s.push(a)[0] == s[0]);
        if s[0] == 0 {
            assert(s.push(a).drop_first() =~= s.drop_first().push(a));
            lemma_strip_push(s.drop_first(), a);
        }
    }
}

/// A sequence is its leading zeros followed by what `strip_zeros` leaves.
proof fn lemma_strip_split(s: Seq<u8>)
    ensures
        strip_zeros(s).len() <= s.len(),
        strip_zeros(s) =~= s.skip(s.len() - strip_zeros(s).len()),
        forall|i: int| 0 <= i < s.len() - strip_zeros(s).len() ==> s[i] == 0,
        strip_zeros(s).len() > 0 ==> strip_zeros(s)[0] != 0,
    decreases s.len(),
{
    if s.len() > 0 && s[0] == 0 {
        lemma_strip_split(s.drop_first());
        assert forall|i: int| 0 <= i < s.len() - strip_zeros(s).len() implies s[i] == 0 by {
            if i > 0 {
                assert(s[i] == s.drop_first()[i - 1]);
            }
        }
    }
}

impl Hex16 {
    /// Construct an ID from the hexadecimal digits in `bytes`. The last 32
    /// digits at most are read, right-aligned, and any other byte among them
    /// is refused.
    pub fn from_hex(bytes: &[u8]) -> (r: Option<Hex16>)
        ensures
            r is Some <==> hex16_accepts(bytes@),
            r matches Some(h) ==> nibbles(h@) == hex16_parsed_nibbles(bytes@),
    {
        let mut out = [0u8; 16];
        let n = bytes.len();
        let k = if n < 32 {
            n
        } else {
            32
        };
        let ghost s = bytes@;
        let mut j: usize = 0;
        while j < k
            invariant
                s == bytes@,
                n == s.len(),
                k == parsed_len(n as nat),
                j <= k,
                out@.len() == 16,
                forall|i: int| n - j <= i < n ==> (#[trigger] hex_digit_value(s[i])) is Some,
                forall|q: int|
                    0 <= q < 16 ==> #[trigger] out@[q] == 16 * (if 2 * q >= 32 - j {
                        hex_digit_value(s[n - 32 + 2 * q]).unwrap() as int
                    } else {
                        0
                    }) + (if 2 * q + 1 >= 32 - j {
                        hex_digit_value(s[n - 32 + 2 * q + 1]).unwrap() as int
                    } else {
                        0
                    }),
            decreases k - j,
        {
            let b = bytes[n - 1 - j];
            let d = match digit_value(b) {
                Some(d) => d,
                None => {
                    proof {
                        assert(!hex16_accepts(s)) by {
                            let i = n - 1 - j;
                            assert(hex_digit_value(s[i]) is None);
                        }
                    }
                    return None;
                },
            };
            let to: usize = 31 - j;
            let q = to / 2;
            let old_byte = out[q];
            if to % 2 == 0 {
                out[q] = old_byte + d * 16;
            } else {
                out[q] = old_byte + d;
            }
            j = j + 1;
            assert forall|i: int| n - j <= i < n implies (#[trigger] hex_digit_value(s[i])) is Some by {
                if i == n - j {
                    assert(s[i] == b);
                }
            }
        }
        let h = Hex16(out);
        proof {
            assert forall|i: int| 0 <= i < 32 implies #[trigger] nibbles(h@)[i] == hex16_parsed_nibbles(s)[i] by {
                let q = i / 2;
                assert(0 <= q < 16);
                let hi = if 2 * q >= 32 - k {
                    hex_digit_value(s[n - 32 + 2 * q]).unwrap() as int
                } else {
                    0
                };
                let lo = if 2 * q + 1 >= 32 - k {
                    hex_digit_value(s[n - 32 + 2 * q + 1]).unwrap() as int
                } else {
                    0
                };
                assert(out@[q] == 16 * hi + lo);
                if 2 * q >= 32 - k {
                    assert(hex_digit_value(s[n - 32 + 2 * q]) is Some);
                }
                if 2 * q + 1 >= 32 - k {
                    assert(hex_digit_value(s[n - 32 + 2 * q + 1]) is Some);
                }
                assert(0 <= hi < 16 && 0 <= lo < 16);
                assert((16 * hi + lo) / 16 == hi && (16 * hi + lo) % 16 == lo) by (nonlinear_arith)
                    requires
                        0 <= hi < 16,
                        0 <= lo < 16,
                ;
            }
            assert(nibbles(h@) =~= hex16_parsed_nibbles(s));
            assert(hex16_accepts(s));
        }
        Some(h)
    }

    /// Construct an ID from the big-endian bytes of `value`.
    pub fn from_u128(value: u128) -> (r: Hex16)
        ensures
            r@ == be_bytes(value),
    {
        let mut out = [0u8; 16];
        let mut i: usize = 0;
        while i < 16
            invariant
                i <= 16,
                out@.len() == 16,
                forall|q: int| 0 <= q < i ==> #[trigger] out@[q] == be_bytes(value)[q],
            decreases 16 - i,
        {
            let shift: u32 = (8 * (15 - i)) as u32;
            #[verifier::truncate]
            let byte = (value >> shift) as u8;
            out[i] = byte;
            i = i + 1;
        }
        assert(out@ =~= be_bytes(value));
        Hex16(out)
    }

    /// Appends the lower-case hexadecimal digits of the ID, without leading zeros.
    fn push_digits(&self, s: &mut String)
        ensures
            final(s)@ == old(s)@ + hex16_display(self@),
    {
        let ghost start = s@;
        let ghost nib = nibbles(self@);
        let mut p: usize = 0;
        let mut started = false;
        assert(strip_zeros(nib.take(0)) =~= Seq::<u8>::empty());
        assert(s@ =~= start + strip_zeros(nib.take(0)).map_values(|n: u8| hex_char(n)));
        while p < 32
            invariant
                p <= 32,
                started == (strip_zeros(nib.take(p as int)).len() > 0),
                nib == nibbles(self@),
                self@.len() == 16,
                s@ == start + strip_zeros(nib.take(p as int)).map_values(|n: u8| hex_char(n)),
            decreases 32 - p,
        {
            let b = self.0[p / 2];
            let n = if p % 2 == 0 {
                b / 16
            } else {
                b % 16
            };
            assert(n == nib[p as int]);
            proof {
                assert(nib.take(p + 1) =~= nib.take(p as int).push(n));
                lemma_strip_push(nib.take(p as int), n);
            }
            if !started && n == 0 {
            } else {
                let ghost st = strip_zeros(nib.take(p as int));
                started = true;
                push_char(s, nibble_char(n));
                assert(st.push(n).map_values(|n: u8| hex_char(n)) =~= st.map_values(
                    |n: u8| hex_char(n),
                ).push(hex_char(n)));
                assert(s@ =~= start + st.push(n).map_values(|n: u8| hex_char(n)));
            }
            p = p + 1;
        }
        assert(nib.take(32) =~= nib);
    }

    /// The lower-case hexadecimal digits of the ID, without leading zeros.
    pub fn to_string(&self) -> (s: String)
        ensures
            s@ == hex16_display(self@),
    {
        let mut s = String::new();
        self.push_digits(&mut s);
        assert(s@ =~= hex16_display(self@));
        s
    }

    /// The debugging form of the ID: `0x` followed by its digits.
    pub fn debug_text(&self) -> (s: String)
        ensures
            s@ == seq!['0', 'x'] + hex16_display(self@),
    {
        let mut s = String::new();
        push_char(&mut s, '0');
        push_char(&mut s, 'x');
        self.push_digits(&mut s);
        assert(s@ =~= seq!['0', 'x'] + hex16_display(self@));
        s
    }
}

/// Reading back the digits that `to_string` writes gives the same identifier.
pub proof fn lemma_hex16_roundtrip(h: Hex16)
    ensures
        ({
            let text = hex16_display(h@).map_values(|c: char| c as u8);
            hex16_accepts(text) && hex16_parsed_nibbles(text) == nibbles(h@)
        }),
{
    let nib = nibbles(h@);
    let st = strip_zeros(nib);
    lemma_strip_split(nib);
    let text = hex16_display(h@).map_values(|c: char| c as u8);
    assert(nib.len() == 32);
    let k = st.len();
    assert(text.len() == k);
    assert forall|i: int| 0 <= i < k implies #[trigger] hex_digit_value(text[i]) == Some(st[i]) by {
        let n = st[i];
        assert(n == nib[32 - k + i]);
        assert(n < 16);
        assert(text[i] == hex_char(n) as u8);
    }
    assert(parsed_len(k) == k);
    assert(hex16_accepts(text));
    assert(hex16_parsed_nibbles(text) =~= nib);
}

/// Two identifiers with the same nibbles are the same identifier.
proof fn lemma_nibbles_injective(a: Hex16, b: Hex16)
    requires
        nibbles(a@) == nibbles(b@),
    ensures
        a == b,
{
    assert forall|k: int| 0 <= k < 16 implies a.0@[k] == b.0@[k] by {
        let x = a.0@[k];
        let y = b.0@[k];
        assert(nibbles(a@)[2 * k] == nibbles(b@)[2 * k]);
        assert(nibbles(a@)[2 * k + 1] == nibbles(b@)[2 * k + 1]);
        assert((2 * k) / 2 == k && (2 * k) % 2 == 0 && (2 * k + 1) / 2 == k && (2 * k + 1) % 2 == 1);
        assert(a@.len() == 16 && b@.len() == 16);
        assert(nibbles(a@)[2 * k] == x / 16);
        assert(nibbles(b@)[2 * k] == y / 16);
        assert(nibbles(a@)[2 * k + 1] == x % 16);
        assert(nibbles(b@)[2 * k + 1] == y % 16);
        assert(x == (x / 16) * 16 + x % 16);
        assert(y == (y / 16) * 16 + y % 16);
    }
    assert(a.0 =~= b.0);
}

/// The digits that `to_string` writes are ASCII.
proof fn lemma_display_ascii(b: Seq<u8>)
    ensures
        ascii_chars(hex16_display(b)),
{
    let st = strip_zeros(nibbles(b));
    let nib = nibbles(b);
    lemma_strip_split(nib);
    let d = hex16_display(b);
    assert forall|i: int| 0 <= i < d.len() implies (#[trigger] d[i] as u8) < 128 && d[i] == ((
    d[i] as u8) as char) by {
        let n = st[i];
        let j = nib.len() - st.len() + i;
        assert(n == nib[j]);
        assert(n < 16);
        assert(d[i] == hex_char(n));
    }
}

/// Reading back, with `from_hex`, the bytes of the text that `to_string` writes gives the same
/// identifier: the bytes are accepted, and the one identifier whose nibbles they spell is `h`.
pub proof fn lemma_from_hex_reads_display(h: Hex16, back: Hex16)
    ensures
        hex16_accepts(encode_utf8(hex16_display(h@))),
        nibbles(back@) == hex16_parsed_nibbles(encode_utf8(hex16_display(h@))) ==> back == h,
{
    lemma_display_ascii(h@);
    lemma_ascii_encode(hex16_display(h@));
    lemma_hex16_roundtrip(h);
    if nibbles(back@) == hex16_parsed_nibbles(encode_utf8(hex16_display(h@))) {
        lemma_nibbles_injective(back, h);
    }
}

} // verus!
