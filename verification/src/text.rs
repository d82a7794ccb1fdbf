use vstd::prelude::*;
use vstd::utf8::encode_utf8;

verus! {

/// Appends one character to a string (`String::push`).
#[verifier::external_body]
pub(crate) fn push_char(s: &mut String, c: char)
    ensures
        final(s)@ == old(s)@.push(c),
{
    s.push(c)
}

/// The character of a decimal digit.
pub open spec fn digit_char(d: nat) -> char {
    (48 + d) as char
}

/// The decimal digits of `n`, most significant first, without leading zeros.
pub open spec fn decimal_text(n: nat) -> Seq<char>
    decreases n,
{
    if n < 10 {
        seq![digit_char(n)]
    } else {
        decimal_text(n / 10).push(digit_char(n % 10))
    }
}

/// Appends the decimal digits of `n`.
pub fn push_decimal(out: &mut String, n: u64)
    ensures
        final(out)@ == old(out)@ + decimal_text(n as nat),
    decreases n,
{
    if n >= 10 {
        push_decimal(out, n / 10);
    }
    let d = (n % 10) as u8;
    push_char(out, (48 + d) as char);
    proof {
        if n >= 10 {
            assert(decimal_text(n as nat) == decimal_text((n / 10) as nat).push(digit_char((n % 10) as nat)));
        } else {
            assert(decimal_text(n as nat) =~= seq![digit_char(n as nat)]);
        }
    }
    assert(final(out)@ =~= old(out)@ + decimal_text(n as nat));
}

/// A string holding `s`.
pub fn string_of(s: &str) -> (r: String)
    ensures
        r@ == s@,
{
    String::from_str(s)
}

/// Appends a string slice.
pub fn push_str(out: &mut String, s: &str)
    ensures
        final(out)@ == old(out)@ + s@,
{
    out.append(s);
}

/// The value of a byte that is an ASCII decimal digit.
pub open spec fn is_digit(b: u8) -> bool {
    48 <= b <= 57
}

/// The number that a sequence of decimal digits spells.
pub open spec fn digits_value(d: Seq<u8>) -> nat
    decreases d.len(),
{
    if d.len() == 0 {
        0
    } else {
        digits_value(d.drop_last()) * 10 + (d.last() - 48) as nat
    }
}

/// Whether every byte is a decimal digit.
pub open spec fn all_digits(d: Seq<u8>) -> bool {
    forall|i: int| 0 <= i < d.len() ==> is_digit(#[trigger] d[i])
}

/// The bytes after an optional leading `+`.
pub open spec fn unsigned_digits(b: Seq<u8>) -> Seq<u8> {
    if b.len() > 0 && b[0] == 43 {
        b.drop_first()
    } else {
        b
    }
}

/// What `str::parse::<u32>` accepts: an optional `+`, then at least one
/// decimal digit, spelling a number that fits in a `u32`.
pub open spec fn parse_u32_spec(b: Seq<u8>) -> Option<u32> {
    let d = unsigned_digits(b);
    if d.len() > 0 && all_digits(d) && digits_value(d) <= u32::MAX {
        Some(digits_value(d) as u32)
    } else {
        None
    }
}

proof fn lemma_digits_value_grows(d: Seq<u8>, i: int)
    requires
        0 <= i <= d.len(),
        forall|j: int| 0 <= j < d.len() ==> is_digit(#[trigger] d[j]),
    ensures
        digits_value(d.take(i)) <= digits_value(d),
    decreases d.len(),
{
    if i < d.len() {
        assert(d.drop_last().take(i) =~= d.take(i));
        lemma_digits_value_grows(d.drop_last(), i);
    } else {
        assert(d.take(i) =~= d);
    }
}

/// Parses `b[start..]` as a `u32` in the way `str::parse::<u32>` does.
pub fn parse_u32(b: &[u8], start: usize) -> (r: Option<u32>)
    requires
        start <= b@.len(),
    ensures
        r == parse_u32_spec(b@.skip(start as int)),
{
    let ghost s = b@.skip(start as int);
    let mut i = start;
    if i < b.len() && b[i] == 43 {
        i = i + 1;
    }
    let ghost d = b@.skip(i as int);
    assert(d =~= unsigned_digits(s));
    if i == b.len() {
        return None;
    }
    let first = i;
    let mut v: u64 = 0;
    while i < b.len()
        invariant
            first <= i <= b@.len(),
            d == b@.skip(first as int),
            s == b@.skip(start as int),
            d == unsigned_digits(s),
            d.len() > 0,
            v <= u32::MAX,
            v == digits_value(d.take(i - first)),
            forall|j: int| 0 <= j < i - first ==> is_digit(#[trigger] d[j]),
        decreases b@.len() - i,
    {
        let c = b[i];
        if c < 48 || c > 57 {
            assert(d[i - first] == c);
            assert(!is_digit(d[i - first]));
            return None;
        }
        assert(d.take(i - first + 1).drop_last() =~= d.take(i - first));
        v = v * 10 + (c - 48) as u64;
        if v > u32::MAX as u64 {
            proof {
                assert forall|j: int| 0 <= j < i - first + 1 implies is_digit(#[trigger] d[j]) by {
                    if j == i - first {
                        assert(d[j] == c);
                    }
                }
                if all_digits(d) {
                    lemma_digits_value_grows(d, i - first + 1);
                }
            }
            return None;
        }
        i = i + 1;
    }
    assert(d.take(d.len() as int) =~= d);
    Some(v as u32)
}

proof fn lemma_digit_char(d: nat)
    requires
        d < 10,
    ensures
        digit_char(d) as u8 == 48 + d,
{
    assert(((48 + d) as char) as u8 == 48 + d);
}

proof fn lemma_decimal_text_digits(n: nat)
    ensures
        decimal_text(n).len() > 0,
        forall|i: int| 0 <= i < decimal_text(n).len() ==> is_digit(#[trigger] decimal_text(n)[i] as u8),
        digits_value(decimal_text(n).map_values(|c: char| c as u8)) == n,
    decreases n,
{
    let t = decimal_text(n).map_values(|c: char| c as u8);
    lemma_digit_char(n % 10);
    if n < 10 {
        assert(t.drop_last() =~= Seq::<u8>::empty());
        assert(t.last() == digit_char(n) as u8);
        assert(digits_value(t) == digits_value(t.drop_last()) * 10 + (t.last() - 48) as nat);
        assert(digits_value(Seq::<u8>::empty()) == 0);
    } else {
        lemma_decimal_text_digits(n / 10);
        assert(t.last() == digit_char(n % 10) as u8);
        assert(digits_value(t) == digits_value(t.drop_last()) * 10 + (t.last() - 48) as nat);
        assert(t.drop_last() =~= decimal_text(n / 10).map_values(|c: char| c as u8));
        assert forall|i: int| 0 <= i < decimal_text(n).len() implies is_digit(
            #[trigger] decimal_text(n)[i] as u8,
        ) by {
            if i < decimal_text(n).len() - 1 {
                assert(decimal_text(n)[i] == decimal_text(n / 10)[i]);
            }
        }
    }
}

/// Parsing the decimal text of a `u32` gives the number back.
pub proof fn lemma_u32_text_roundtrip(n: u32)
    ensures
        parse_u32_spec(decimal_text(n as nat).map_values(|c: char| c as u8)) == Some(n),
{
    let t = decimal_text(n as nat).map_values(|c: char| c as u8);
    lemma_decimal_text_digits(n as nat);
    assert(t[0] == decimal_text(n as nat)[0] as u8);
    assert forall|i: int| 0 <= i < t.len() implies is_digit(#[trigger] t[i]) by {
        assert(t[i] == decimal_text(n as nat)[i] as u8);
    }
}

/// Whether every character is ASCII.
pub open spec fn ascii_chars(s: Seq<char>) -> bool {
    forall|i: int| 0 <= i < s.len() ==> (#[trigger] s[i] as u8) < 128 && s[i] == ((s[i] as u8) as char)
}

pub proof fn lemma_byte_char(b: u8)
    ensures
        ((b as char) as u32) == b as u32,
        ((b as char) as u8) == b,
{
}

/// The UTF-8 bytes of ASCII text are its characters, one byte each.
pub proof fn lemma_ascii_encode(s: Seq<char>)
    requires
        ascii_chars(s),
    ensures
        encode_utf8(s) == s.map_values(|c: char| c as u8),
    decreases s.len(),
{
    if s.len() > 0 {
        let b = s[0] as u8;
        assert(b < 128);
        lemma_byte_char(b);
        let x = s[0] as u32;
        assert(x == b as u32);
        assert((x & 0x7F) as u8 == b) by (bit_vector)
            requires
                x < 128,
                x == b as u32,
        ;
        assert(ascii_chars(s.drop_first())) by {
            assert forall|i: int| 0 <= i < s.drop_first().len() implies (#[trigger] s.drop_first()[i] as u8) < 128 && s.drop_first()[i] == ((s.drop_first()[i] as u8) as char) by {
                assert(s.drop_first()[i] == s[i + 1]);
            }
        }
        lemma_ascii_encode(s.drop_first());
        assert(s.map_values(|c: char| c as u8) =~= seq![s[0] as u8] + s.drop_first().map_values(
            |c: char| c as u8,
        ));
    } else {
        assert(s.map_values(|c: char| c as u8) =~= Seq::<u8>::empty());
    }
}


} // verus!

verus! {

/// The decimal text of a number is ASCII.
pub proof fn lemma_decimal_ascii(n: nat)
    ensures
        ascii_chars(decimal_text(n)),
    decreases n,
{
    lemma_byte_char((48 + n % 10) as u8);
    if n >= 10 {
        lemma_decimal_ascii(n / 10);
        let t = decimal_text(n);
        assert forall|i: int| 0 <= i < t.len() implies (#[trigger] t[i] as u8) < 128 && t[i] == ((
        t[i] as u8) as char) by {
            if i < t.len() - 1 {
                assert(t[i] == decimal_text(n / 10)[i]);
            }
        }
    }
}

} // verus!
