//! Quantities on the wire: an unsigned integer written as `0x` and its
//! hexadecimal digits, most significant first.
//!
//! Writing is canonical: lower-case digits and no leading zero, with `0x0`
//! for zero. Reading is lenient in the two ways that change no value: digits
//! of either case, and leading zeros.

use vstd::prelude::*;
use vstd::string::*;

verus! {

/// The lower-case hexadecimal digit that stands for `d`, for `d < 16`.
pub open spec fn hex_digit(d: nat) -> char
    recommends
        d < 16,
{
    if d < 10 {
        ('0' as nat + d) as char
    } else {
        ('a' as nat + d - 10) as char
    }
}

/// Whether `c` is a hexadecimal digit, of either case.
pub open spec fn is_hex_digit(c: char) -> bool {
    ('0' <= c && c <= '9') || ('a' <= c && c <= 'f') || ('A' <= c && c <= 'F')
}

/// The number that the hexadecimal digit `c` stands for.
pub open spec fn hex_digit_value(c: char) -> nat
    recommends
        is_hex_digit(c),
{
    if '0' <= c && c <= '9' {
        (c as nat - '0' as nat) as nat
    } else if 'a' <= c && c <= 'f' {
        (c as nat - 'a' as nat + 10) as nat
    } else {
        (c as nat - 'A' as nat + 10) as nat
    }
}

/// The number that a run of hexadecimal digits writes.
pub open spec fn hex_value(digits: Seq<char>) -> nat
    decreases digits.len(),
{
    if digits.len() == 0 {
        0
    } else {
        16 * hex_value(digits.drop_last()) + hex_digit_value(digits.last())
    }
}

/// The digits of `n` in canonical form: lower case, no leading zero, and the
/// single digit `0` for zero.
pub open spec fn hex_digits(n: nat) -> Seq<char>
    decreases n,
{
    if n < 16 {
        seq![hex_digit(n)]
    } else {
        hex_digits(n / 16).push(hex_digit(n % 16))
    }
}

/// The canonical text of the quantity `n`.
pub open spec fn quantity_text(n: nat) -> Seq<char> {
    seq!['0', 'x'] + hex_digits(n)
}

/// Whether `text` has the shape of a quantity: `0x`, then at least one
/// hexadecimal digit and nothing else.
pub open spec fn is_quantity_text(text: Seq<char>) -> bool {
    &&& text.len() >= 3
    &&& text[0] == '0'
    &&& text[1] == 'x'
    &&& forall|i: int| 2 <= i < text.len() ==> is_hex_digit(#[trigger] text[i])
}

/// The number that a text of that shape writes.
pub open spec fn quantity_value(text: Seq<char>) -> nat {
    hex_value(text.skip(2))
}

/// What reading `text` gives when no number above `max` is taken: the number
/// it writes, or nothing where it is no quantity or writes too large a one.
pub open spec fn quantity_within(text: Seq<char>, max: nat) -> Option<nat> {
    if is_quantity_text(text) && quantity_value(text) <= max {
        Some(quantity_value(text))
    } else {
        None
    }
}

/// A prefix of a run of digits writes no larger a number than the whole run.
proof fn lemma_hex_value_prefix(digits: Seq<char>, k: int)
    requires
        0 <= k <= digits.len(),
    ensures
        hex_value(digits.take(k)) <= hex_value(digits),
    decreases digits.len() - k,
{
    if k < digits.len() {
        lemma_hex_value_prefix(digits, k + 1);
        assert(digits.take(k + 1).drop_last() =~= digits.take(k));
    } else {
        assert(digits.take(k) =~= digits);
    }
}

/// Writing a number in canonical digits and reading the digits back gives
/// the number again; every digit written is a hexadecimal digit.
pub proof fn lemma_hex_digits_value(n: nat)
    ensures
        hex_digits(n).len() >= 1,
        forall|i: int| 0 <= i < hex_digits(n).len() ==> is_hex_digit(#[trigger] hex_digits(n)[i]),
        hex_value(hex_digits(n)) == n,
    decreases n,
{
    if n < 16 {
        let one = seq![hex_digit(n)];
        assert(one.drop_last() =~= Seq::<char>::empty());
        assert(hex_value(one.drop_last()) == 0);
        assert(hex_digit_value(hex_digit(n)) == n);
    } else {
        lemma_hex_digits_value(n / 16);
        let front = hex_digits(n / 16);
        let all = front.push(hex_digit(n % 16));
        assert(all.drop_last() =~= front);
        assert(hex_digit_value(hex_digit(n % 16)) == n % 16);
        assert(is_hex_digit(hex_digit(n % 16)));
        assert forall|i: int| 0 <= i < all.len() implies is_hex_digit(#[trigger] all[i]) by {
            if i < front.len() {
                assert(all[i] == front[i]);
            }
        }
    }
}

/// The canonical text of a number is a quantity, and it writes that number.
pub proof fn lemma_quantity_round_trip(n: nat)
    ensures
        is_quantity_text(quantity_text(n)),
        quantity_value(quantity_text(n)) == n,
        forall|max: nat| n <= max ==> quantity_within(quantity_text(n), max) == Some(n),
{
    lemma_hex_digits_value(n);
    let text = quantity_text(n);
    assert(text.skip(2) =~= hex_digits(n));
    assert forall|i: int| 2 <= i < text.len() implies is_hex_digit(#[trigger] text[i]) by {
        assert(text[i] == hex_digits(n)[i - 2]);
    }
}

/// Whether `text` is a quantity in canonical form: no upper-case digit, and
/// no leading zero but in `0x0`.
pub open spec fn is_canonical_quantity(text: Seq<char>) -> bool {
    &&& is_quantity_text(text)
    &&& forall|i: int| 2 <= i < text.len() ==> !('A' <= #[trigger] text[i] && text[i] <= 'F')
    &&& (text.len() == 3 || text[2] != '0')
}

/// Whether a run of digits is in canonical form.
spec fn canonical_digits(digits: Seq<char>) -> bool {
    &&& digits.len() >= 1
    &&& forall|i: int|
        0 <= i < digits.len() ==> is_hex_digit(#[trigger] digits[i]) && !('A' <= digits[i]
            && digits[i] <= 'F')
    &&& (digits.len() == 1 || digits[0] != '0')
}

/// The digits written for a number are canonical, and start with a zero
/// only for zero.
proof fn lemma_hex_digits_canonical(n: nat)
    ensures
        canonical_digits(hex_digits(n)),
        n > 0 ==> hex_digits(n)[0] != '0',
    decreases n,
{
    if n >= 16 {
        lemma_hex_digits_canonical(n / 16);
        let front = hex_digits(n / 16);
        let all = front.push(hex_digit(n % 16));
        assert(all[0] == front[0]);
        assert forall|i: int| 0 <= i < all.len() implies is_hex_digit(#[trigger] all[i]) && !('A'
            <= all[i] && all[i] <= 'F') by {
            if i < front.len() {
                assert(all[i] == front[i]);
            }
        }
    }
}

/// Canonical digits are the digits written for the number they write.
proof fn lemma_canonical_digits_written(digits: Seq<char>)
    requires
        canonical_digits(digits),
    ensures
        hex_digits(hex_value(digits)) == digits,
        digits[0] != '0' ==> hex_value(digits) > 0,
    decreases digits.len(),
{
    let front = digits.drop_last();
    let last = digits.last();
    assert(hex_digit(hex_digit_value(last)) == last);
    if digits.len() == 1 {
        assert(front =~= Seq::<char>::empty());
        assert(hex_value(front) == 0);
        assert(hex_digits(hex_value(digits)) =~= digits);
    } else {
        assert(front[0] == digits[0]);
        assert forall|i: int| 0 <= i < front.len() implies is_hex_digit(#[trigger] front[i])
            && !('A' <= front[i] && front[i] <= 'F') by {
            assert(front[i] == digits[i]);
        }
        lemma_canonical_digits_written(front);
        let n = hex_value(digits);
        assert(n == 16 * hex_value(front) + hex_digit_value(last));
        assert(n / 16 == hex_value(front) && n % 16 == hex_digit_value(last));
        assert(hex_digits(n) =~= digits);
    }
}

/// What is written is canonical: the text of a number has lower-case
/// digits and no leading zero, and zero is written `0x0`.
pub proof fn lemma_quantity_text_canonical(n: nat)
    ensures
        is_canonical_quantity(quantity_text(n)),
        quantity_text(0) == seq!['0', 'x', '0'],
{
    lemma_quantity_round_trip(n);
    lemma_hex_digits_canonical(n);
    let text = quantity_text(n);
    assert forall|i: int| 2 <= i < text.len() implies !('A' <= #[trigger] text[i] && text[i]
        <= 'F') by {
        assert(text[i] == hex_digits(n)[i - 2]);
    }
    assert(text[2] == hex_digits(n)[0]);
    assert(quantity_text(0) =~= seq!['0', 'x', '0']);
}

/// A canonical text is the one text written for its number: reading and
/// writing are inverse to each other on canonical texts.
pub proof fn lemma_canonical_text_is_written(text: Seq<char>)
    requires
        is_canonical_quantity(text),
    ensures
        quantity_text(quantity_value(text)) == text,
{
    let digits = text.skip(2);
    assert forall|i: int| 0 <= i < digits.len() implies is_hex_digit(#[trigger] digits[i]) && !(
    'A' <= digits[i] && digits[i] <= 'F') by {
        assert(digits[i] == text[i + 2]);
    }
    assert(digits[0] == text[2]);
    lemma_canonical_digits_written(digits);
    assert(quantity_text(quantity_value(text)) =~= text);
}

/// The one-character string of the digit for `d`.
fn hex_digit_str(d: u8) -> (t: &'static str)
    requires
        d < 16,
    ensures
        t@ == seq![hex_digit(d as nat)],
{
    proof {
        reveal_strlit("0");
        reveal_strlit("1");
        reveal_strlit("2");
        reveal_strlit("3");
        reveal_strlit("4");
        reveal_strlit("5");
        reveal_strlit("6");
        reveal_strlit("7");
        reveal_strlit("8");
        reveal_strlit("9");
        reveal_strlit("a");
        reveal_strlit("b");
        reveal_strlit("c");
        reveal_strlit("d");
        reveal_strlit("e");
        reveal_strlit("f");
    }
    let t = match d {
        0 => "0",
        1 => "1",
        2 => "2",
        3 => "3",
        4 => "4",
        5 => "5",
        6 => "6",
        7 => "7",
        8 => "8",
        9 => "9",
        10 => "a",
        11 => "b",
        12 => "c",
        13 => "d",
        14 => "e",
        _ => "f",
    };
    assert(t@ =~= seq![hex_digit(d as nat)]);
    t
}

/// Appends the canonical digits of `v` to `out`.
fn push_hex_digits(out: &mut String, v: u128)
    ensures
        final(out)@ == old(out)@ + hex_digits(v as nat),
    decreases v,
{
    if v >= 16 {
        push_hex_digits(out, v / 16);
    }
    let ghost front = out@;
    out.append(hex_digit_str((v % 16) as u8));
    proof {
        if v >= 16 {
            assert(out@ =~= old(out)@ + hex_digits((v / 16) as nat).push(
                hex_digit((v % 16) as nat),
            ));
        } else {
            assert(out@ =~= old(out)@ + seq![hex_digit(v as nat)]);
        }
    }
}

/// Writes a 128-bit quantity in canonical form.
pub fn encode_u128(v: u128) -> (text: String)
    ensures
        text@ == quantity_text(v as nat),
{
    let mut text = String::from_str("0x");
    proof {
        reveal_strlit("0x");
        assert("0x"@ =~= seq!['0', 'x']);
    }
    push_hex_digits(&mut text, v);
    text
}

/// Writes a 64-bit quantity in canonical form.
pub fn encode_u64(v: u64) -> (text: String)
    ensures
        text@ == quantity_text(v as nat),
{
    encode_u128(v as u128)
}

/// The value of the hexadecimal digit whose ASCII code is `b`, if it is one.
fn hex_byte_value(b: u8) -> (r: Option<u8>)
    requires
        b < 128,
    ensures
        r is Some <==> is_hex_digit(b as char),
        r matches Some(d) ==> d < 16 && d == hex_digit_value(b as char),
{
    if 0x30 <= b && b <= 0x39 {
        Some(b - 0x30)
    } else if 0x61 <= b && b <= 0x66 {
        Some(b - 0x61 + 10)
    } else if 0x41 <= b && b <= 0x46 {
        Some(b - 0x41 + 10)
    } else {
        None
    }
}

/// Reads a quantity that may not exceed `max`.
fn decode_within(text: &str, max: u128) -> (r: Option<u128>)
    requires
        max >= 15,
    ensures
        r is Some <==> quantity_within(text@, max as nat) is Some,
        r matches Some(v) ==> quantity_within(text@, max as nat) == Some(v as nat),
{
    if !text.is_ascii() {
        proof {
            if is_quantity_text(text@) {
                assert forall|i: int| 0 <= i < text@.len() implies '\0' <= #[trigger] text@[i]
                    <= '\u{7f}' by {
                    if i >= 2 {
                        assert(is_hex_digit(text@[i]));
                    }
                }
            }
        }
        return None;
    }
    let n = text.unicode_len();
    if n < 3 {
        return None;
    }
    if text.get_ascii(0) != 0x30 || text.get_ascii(1) != 0x78 {
        return None;
    }
    let mut acc: u128 = 0;
    let mut i: usize = 2;
    while i < n
        invariant
            2 <= i <= n,
            n == text@.len(),
            text.is_ascii(),
            max >= 15,
            text@[0] == '0',
            text@[1] == 'x',
            forall|j: int| 2 <= j < i ==> is_hex_digit(#[trigger] text@[j]),
            acc == hex_value(text@.subrange(2, i as int)),
            acc <= max,
        decreases n - i,
    {
        let b = text.get_ascii(i);
        assert(text@[i as int] == b as char);
        let d: u128 = match hex_byte_value(b) {
            Some(d) => d as u128,
            None => {
                return None;
            },
        };
        assert(text@.subrange(2, i + 1).drop_last() =~= text@.subrange(2, i as int));
        if acc > (max - d) / 16 {
            proof {
                let digits = text@.skip(2);
                lemma_hex_value_prefix(digits, i - 1);
                assert(digits.take(i - 1) =~= text@.subrange(2, i + 1));
            }
            return None;
        }
        acc = acc * 16 + d;
        i = i + 1;
    }
    assert(text@.subrange(2, i as int) =~= text@.skip(2));
    Some(acc)
}

/// Reads a 128-bit quantity: `Some` exactly for a text of `0x` and
/// hexadecimal digits that writes a number of at most 128 bits.
pub fn decode_u128(text: &str) -> (r: Option<u128>)
    ensures
        r is Some <==> quantity_within(text@, u128::MAX as nat) is Some,
        r matches Some(v) ==> quantity_within(text@, u128::MAX as nat) == Some(v as nat),
{
    decode_within(text, u128::MAX)
}

/// Reads a 64-bit quantity: `Some` exactly for a text of `0x` and
/// hexadecimal digits that writes a number of at most 64 bits.
pub fn decode_u64(text: &str) -> (r: Option<u64>)
    ensures
        r is Some <==> quantity_within(text@, u64::MAX as nat) is Some,
        r matches Some(v) ==> quantity_within(text@, u64::MAX as nat) == Some(v as nat),
{
    match decode_within(text, u64::MAX as u128) {
        Some(v) => Some(v as u64),
        None => None,
    }
}

} // verus!
