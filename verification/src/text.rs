//! Character and number formatting helpers shared by the parsers and the XML
//! writer.
use vstd::prelude::*;
use vstd::string::StrSliceExecFns;

verus! {

/// Lowercase digit for a value below 16.
pub open spec fn digit_char(d: nat) -> char {
    if d < 10 {
        (48 + d) as char
    } else {
        (87 + d) as char
    }
}

/// Decimal representation of `n`, without leading zeros.
pub open spec fn dec(n: nat) -> Seq<char>
    decreases n,
{
    if n < 10 {
        seq![digit_char(n)]
    } else {
        dec(n / 10).push(digit_char(n % 10))
    }
}

/// Lowercase hexadecimal representation of `n`, without leading zeros.
pub open spec fn hex(n: nat) -> Seq<char>
    decreases n,
{
    if n < 16 {
        seq![digit_char(n)]
    } else {
        hex(n / 16).push(digit_char(n % 16))
    }
}

/// `hex(n)` left-padded with `'0'` to at least `width` characters.
pub open spec fn hex_pad(n: nat, width: nat) -> Seq<char> {
    let h = hex(n);
    if h.len() < width {
        Seq::new((width - h.len()) as nat, |i: int| '0') + h
    } else {
        h
    }
}

/// The number that a string of decimal digits denotes.
pub open spec fn dec_value(s: Seq<char>) -> nat
    decreases s.len(),
{
    if s.len() == 0 {
        0
    } else {
        dec_value(s.drop_last()) * 10 + (s.last() as nat - 48) as nat
    }
}

/// `dec(n)` is made of decimal digits, has no leading zero unless it is
/// `0` itself, and denotes `n`.
pub proof fn lemma_dec_denotes(n: nat)
    ensures
        forall|i: int| 0 <= i < dec(n).len() ==> '0' <= #[trigger] dec(n)[i] <= '9',
        dec_value(dec(n)) == n,
        dec(n).len() >= 1,
        dec(n)[0] == '0' ==> n == 0,
    decreases n,
{
    let d = n % 10;
    assert(((48 + d) as char) as nat == 48 + d);
    if n < 10 {
        assert(dec(n).drop_last() =~= Seq::<char>::empty());
        assert(dec_value(dec(n)) == dec_value(Seq::<char>::empty()) * 10 + (digit_char(n) as nat
            - 48) as nat);
    } else {
        lemma_dec_denotes(n / 10);
        let h = dec(n);
        assert(h.drop_last() =~= dec(n / 10));
        assert(h.last() == digit_char(n % 10));
        assert(n == (n / 10) * 10 + n % 10);
        assert(h[0] == dec(n / 10)[0]);
    }
}

/// A lowercase hexadecimal digit.
pub open spec fn is_lower_hex_digit(c: char) -> bool {
    ('0' <= c && c <= '9') || ('a' <= c && c <= 'f')
}

/// The value of a hexadecimal digit.
pub open spec fn hex_digit_value(c: char) -> nat {
    if c <= '9' {
        (c as nat - 48) as nat
    } else {
        (c as nat - 87) as nat
    }
}

/// The number that a string of hexadecimal digits denotes.
pub open spec fn hex_value(s: Seq<char>) -> nat
    decreases s.len(),
{
    if s.len() == 0 {
        0
    } else {
        hex_value(s.drop_last()) * 16 + hex_digit_value(s.last())
    }
}

/// `16^k`.
pub open spec fn pow16(k: nat) -> nat
    decreases k,
{
    if k == 0 {
        1
    } else {
        16 * pow16((k - 1) as nat)
    }
}

proof fn lemma_digit_char(d: nat)
    requires
        d < 16,
    ensures
        is_lower_hex_digit(digit_char(d)),
        hex_digit_value(digit_char(d)) == d,
{
    if d < 10 {
        assert(((48 + d) as char) as nat == 48 + d);
    } else {
        assert(((87 + d) as char) as nat == 87 + d);
    }
}

/// `hex(n)` is made of lowercase digits and denotes `n`.
pub proof fn lemma_hex_denotes(n: nat)
    ensures
        forall|i: int| 0 <= i < hex(n).len() ==> is_lower_hex_digit(#[trigger] hex(n)[i]),
        hex_value(hex(n)) == n,
        hex(n).len() >= 1,
    decreases n,
{
    lemma_digit_char(n % 16);
    if n < 16 {
        assert(hex(n).drop_last() =~= Seq::<char>::empty());
        assert(hex_value(hex(n)) == hex_value(Seq::<char>::empty()) * 16 + hex_digit_value(
            digit_char(n),
        ));
    } else {
        lemma_hex_denotes(n / 16);
        let h = hex(n);
        assert(h.drop_last() =~= hex(n / 16));
        assert(h.last() == digit_char(n % 16));
        assert(n == (n / 16) * 16 + n % 16);
        assert(hex_value(h) == hex_value(hex(n / 16)) * 16 + hex_digit_value(digit_char(n % 16)));
    }
}

/// A number below `16^k` has at most `k` hexadecimal digits.
pub proof fn lemma_hex_len(n: nat, k: nat)
    requires
        1 <= k,
        n < pow16(k),
    ensures
        hex(n).len() <= k,
    decreases k,
{
    if n >= 16 {
        if k == 1 {
            assert(pow16(1) == 16) by {
                reveal_with_fuel(pow16, 2);
            }
        } else {
            lemma_hex_len(n / 16, (k - 1) as nat);
        }
    }
}

proof fn lemma_zeros_value(z: Seq<char>, h: Seq<char>)
    requires
        forall|i: int| 0 <= i < z.len() ==> z[i] == '0',
    ensures
        hex_value(z + h) == hex_value(h),
    decreases z.len() + h.len(),
{
    if h.len() == 0 {
        assert(z + h =~= z);
        if z.len() > 0 {
            lemma_zeros_value(z.drop_last(), h);
            assert(z.drop_last() + h =~= z.drop_last());
        }
    } else {
        lemma_zeros_value(z, h.drop_last());
        assert((z + h).drop_last() =~= z + h.drop_last());
    }
}

/// `hex_pad(n, 8)` of a `u32` is exactly eight lowercase hexadecimal digits
/// that denote `n`.
pub proof fn lemma_hex_pad_8(n: u32)
    ensures
        hex_pad(n as nat, 8).len() == 8,
        forall|i: int| 0 <= i < 8 ==> is_lower_hex_digit(#[trigger] hex_pad(n as nat, 8)[i]),
        hex_value(hex_pad(n as nat, 8)) == n,
{
    assert(pow16(8) == 0x1_0000_0000) by {
        reveal_with_fuel(pow16, 9);
    }
    lemma_hex_len(n as nat, 8);
    lemma_hex_denotes(n as nat);
    let h = hex(n as nat);
    if h.len() < 8 {
        let z = Seq::new((8 - h.len()) as nat, |i: int| '0');
        lemma_zeros_value(z, h);
        assert forall|i: int| 0 <= i < 8 implies is_lower_hex_digit(#[trigger] (z + h)[i]) by {
            if i >= z.len() {
                assert((z + h)[i] == h[i - z.len()]);
            }
        }
    }
}

/// The characters that `char::is_whitespace` accepts (Unicode `White_Space`).
pub open spec fn is_space(c: char) -> bool {
    let v = c as u32;
    ||| 9 <= v <= 13
    ||| v == 32
    ||| v == 0x85
    ||| v == 0xA0
    ||| v == 0x1680
    ||| 0x2000 <= v <= 0x200A
    ||| v == 0x2028
    ||| v == 0x2029
    ||| v == 0x202F
    ||| v == 0x205F
    ||| v == 0x3000
}

/// What `char::from_u32` returns: the scalar value, or `None` for surrogates
/// and values past `0x10FFFF`.
pub open spec fn scalar_of(v: u32) -> Option<char> {
    if v < 0xD800 || (0xE000 <= v && v < 0x110000) {
        Some(v as char)
    } else {
        None
    }
}

/// Decodes one UTF-16 code unit the way the string tables do: a surrogate
/// becomes U+FFFD.
pub open spec fn unit_char(cu: u16) -> char {
    match scalar_of(cu as u32) {
        Some(c) => c,
        None => '\u{FFFD}',
    }
}

/// `String::push`: appends one character.
#[verifier::external_body]
pub(crate) fn push_char(s: &mut String, c: char)
    ensures
        final(s)@ == old(s)@.push(c),
{
    s.push(c)
}

/// `String::push_str`: appends a string slice.
#[verifier::external_body]
pub(crate) fn push_str(s: &mut String, t: &str)
    ensures
        final(s)@ == old(s)@ + t@,
{
    s.push_str(t)
}

/// `char::from_u32`: the scalar value `v`, if there is one.
#[verifier::external_body]
pub(crate) fn char_from_u32(v: u32) -> (r: Option<char>)
    ensures
        r == scalar_of(v),
{
    char::from_u32(v)
}

/// `char::is_whitespace`: membership in the Unicode `White_Space` set.
#[verifier::external_body]
pub(crate) fn char_is_whitespace(c: char) -> (r: bool)
    ensures
        r == is_space(c),
{
    c.is_whitespace()
}

/// `str == str`: character-wise equality.
#[verifier::external_body]
pub(crate) fn str_eq(a: &str, b: &str) -> (r: bool)
    ensures
        r == (a@ == b@),
{
    a == b
}

/// `str::ends_with` for a string suffix.
#[verifier::external_body]
pub(crate) fn str_ends_with(s: &str, suffix: &str) -> (r: bool)
    ensures
        r == (suffix@.len() <= s@.len() && s@.subrange(s@.len() - suffix@.len(), s@.len() as int)
            == suffix@),
{
    s.ends_with(suffix)
}

/// Decodes a UTF-16 code unit, mapping surrogates to U+FFFD.
pub fn decode_unit(cu: u16) -> (c: char)
    ensures
        c == unit_char(cu),
{
    match char_from_u32(cu as u32) {
        Some(c) => c,
        None => '\u{FFFD}',
    }
}

/// The digit character for `d < 16`.
pub fn digit(d: u64) -> (c: char)
    requires
        d < 16,
    ensures
        c == digit_char(d as nat),
{
    if d < 10 {
        ((48 + d) as u8) as char
    } else {
        ((87 + d) as u8) as char
    }
}

/// Appends the decimal representation of `n`.
pub fn push_dec(out: &mut String, n: u64)
    ensures
        final(out)@ == old(out)@ + dec(n as nat),
    decreases n,
{
    if n >= 10 {
        push_dec(out, n / 10);
    }
    push_char(out, digit(n % 10));
    proof {
        if n >= 10 {
            assert(dec(n as nat) == dec((n / 10) as nat).push(digit_char((n % 10) as nat)));
        } else {
            assert(dec(n as nat) == seq![digit_char(n as nat)]);
        }
    }
}

/// Appends the lowercase hexadecimal representation of `n`.
pub fn push_hex(out: &mut String, n: u64)
    ensures
        final(out)@ == old(out)@ + hex(n as nat),
    decreases n,
{
    if n >= 16 {
        push_hex(out, n / 16);
    }
    push_char(out, digit(n % 16));
    proof {
        if n >= 16 {
            assert(hex(n as nat) == hex((n / 16) as nat).push(digit_char((n % 16) as nat)));
        } else {
            assert(hex(n as nat) == seq![digit_char(n as nat)]);
        }
    }
}

/// Appends `hex_pad(n, width)`.
pub fn push_hex_pad(out: &mut String, n: u64, width: usize)
    ensures
        final(out)@ == old(out)@ + hex_pad(n as nat, width as nat),
{
    let mut h = String::new();
    push_hex(&mut h, n);
    let ghost hs = hex(n as nat);
    assert(h@ =~= hs);
    let hlen = h.as_str().unicode_len();
    let ghost start = out@;
    if hlen < width {
        let mut k: usize = 0;
        while k < width - hlen
            invariant
                k <= width - hlen,
                hlen < width,
                out@ == start + Seq::new(k as nat, |i: int| '0'),
            decreases width - hlen - k,
        {
            push_char(out, '0');
            k = k + 1;
            assert(out@ =~= start + Seq::new(k as nat, |i: int| '0'));
        }
    }
    push_str(out, h.as_str());
    assert(out@ =~= start + hex_pad(n as nat, width as nat));
}

/// The characters of `s`, in order.
pub fn chars_of(s: &str) -> (r: Vec<char>)
    ensures
        r@ == s@,
{
    let mut v: Vec<char> = Vec::new();
    for c in it: s.chars()
        invariant
            v@ == it.seq().take(it.index()),
    {
        v.push(c);
    }
    v
}

/// The string made of `cs[lo..hi]`.
pub fn string_from_chars(cs: &Vec<char>, lo: usize, hi: usize) -> (r: String)
    requires
        lo <= hi <= cs@.len(),
    ensures
        r@ == cs@.subrange(lo as int, hi as int),
{
    let mut r = String::new();
    let mut i = lo;
    while i < hi
        invariant
            lo <= i <= hi <= cs@.len(),
            r@ == cs@.subrange(lo as int, i as int),
        decreases hi - i,
    {
        push_char(&mut r, cs[i]);
        i = i + 1;
        assert(r@ =~= cs@.subrange(lo as int, i as int));
    }
    r
}

/// Whether `s` is one of the strings of `list`.
pub fn contains_str(list: &Vec<&str>, s: &str) -> (r: bool)
    ensures
        r == exists|i: int| 0 <= i < list@.len() && #[trigger] list@[i]@ == s@,
{
    let mut i: usize = 0;
    while i < list.len()
        invariant
            i <= list@.len(),
            forall|j: int| 0 <= j < i ==> #[trigger] list@[j]@ != s@,
        decreases list@.len() - i,
    {
        if str_eq(list[i], s) {
            return true;
        }
        i = i + 1;
    }
    false
}

} // verus!
