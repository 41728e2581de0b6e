//! Rendering of numbers and messages.
use vstd::prelude::*;
use vstd::string::*;

verus! {

/// The character that stands for a decimal digit.
pub open spec fn digit(d: nat) -> char {
    (48 + d) as char
}

/// The decimal numeral of `n`, most significant digit first and without leading zeros.
pub open spec fn decimal(n: nat) -> Seq<char>
    decreases n,
{
    if n < 10 {
        seq![digit(n)]
    } else {
        decimal(n / 10).push(digit(n % 10))
    }
}

/// Different numbers have different numerals.
pub proof fn lemma_decimal_injective(m: nat, n: nat)
    requires
        decimal(m) == decimal(n),
    ensures
        m == n,
    decreases m,
{
    lemma_decimal_not_empty(m / 10);
    lemma_decimal_not_empty(n / 10);
    if m >= 10 && n >= 10 {
        assert(decimal(m).drop_last() =~= decimal(m / 10));
        assert(decimal(n).drop_last() =~= decimal(n / 10));
        lemma_decimal_injective(m / 10, n / 10);
    }
    assert(decimal(m).last() == digit(m % 10));
    assert(decimal(n).last() == digit(n % 10));
}

proof fn lemma_decimal_not_empty(n: nat)
    ensures
        decimal(n).len() > 0,
{
}

fn digit_text(d: u64) -> (text: &'static str)
    requires
        d < 10,
    ensures
        text@ == seq![digit(d as nat)],
{
    proof {
        reveal_strlit("0");
        reveal_strlit("1");
        reveal_strlit("2");
        reveal_strlit("3");
        reveal_strlit("4");
        reveal_strlit("5");
        reveal_strlit("6");
        reveal_strlit("7");
        reveal_strlit("8");
        reveal_strlit("9");
    }
    match d {
        0 => "0",
        1 => "1",
        2 => "2",
        3 => "3",
        4 => "4",
        5 => "5",
        6 => "6",
        7 => "7",
        8 => "8",
        _ => "9",
    }
}

/// Appends the decimal numeral of `n`.
pub fn push_decimal(out: &mut String, n: u64)
    ensures
        final(out)@ == old(out)@ + decimal(n as nat),
    decreases n,
{
    if n < 10 {
        out.append(digit_text(n));
    } else {
        push_decimal(out, n / 10);
        out.append(digit_text(n % 10));
    }
}

/// The character that stands for a hexadecimal digit.
pub open spec fn hex_digit(d: nat) -> char {
    if d < 10 {
        (48 + d) as char
    } else {
        (87 + d) as char
    }
}

/// The last `width` hexadecimal digits of `n`, in lower case.
pub open spec fn hex(n: nat, width: nat) -> Seq<char>
    decreases width,
{
    if width == 0 {
        Seq::empty()
    } else {
        hex(n / 16, (width - 1) as nat).push(hex_digit(n % 16))
    }
}

/// Bytes in hexadecimal digits, two for each.
pub open spec fn hex_bytes(bytes: Seq<u8>) -> Seq<char>
    decreases bytes.len(),
{
    if bytes.len() == 0 {
        Seq::empty()
    } else {
        hex_bytes(bytes.drop_last()) + hex(bytes.last() as nat, 2)
    }
}

/// A UUID in groups of hexadecimal digits, with hyphens between them.
pub open spec fn uuid_text(uuid: u128) -> Seq<char> {
    let n = uuid as nat;
    hex(n / 0x1_0000_0000_0000_0000_0000_0000, 8) + "-"@ + hex(
        n / 0x1_0000_0000_0000_0000_0000,
        4,
    ) + "-"@ + hex(n / 0x1_0000_0000_0000_0000, 4) + "-"@ + hex(n / 0x1_0000_0000_0000, 4) + "-"@
        + hex(n, 12)
}

fn hex_digit_text(d: u128) -> (text: &'static str)
    requires
        d < 16,
    ensures
        text@ == seq![hex_digit(d as nat)],
{
    proof {
        reveal_strlit("a");
        reveal_strlit("b");
        reveal_strlit("c");
        reveal_strlit("d");
        reveal_strlit("e");
        reveal_strlit("f");
    }
    if d < 10 {
        return digit_text(d as u64);
    }
    match d {
        10 => "a",
        11 => "b",
        12 => "c",
        13 => "d",
        14 => "e",
        _ => "f",
    }
}

/// Appends the last `width` hexadecimal digits of `n`.
pub fn push_hex(out: &mut String, n: u128, width: usize)
    ensures
        final(out)@ == old(out)@ + hex(n as nat, width as nat),
    decreases width,
{
    if width > 0 {
        push_hex(out, n / 16, width - 1);
        out.append(hex_digit_text(n % 16));
    }
}

/// Appends bytes in hexadecimal digits.
pub fn push_hex_bytes(out: &mut String, bytes: &[u8])
    ensures
        final(out)@ == old(out)@ + hex_bytes(bytes@),
{
    let mut i: usize = 0;
    while i < bytes.len()
        invariant
            i <= bytes.len(),
            out@ == old(out)@ + hex_bytes(bytes@.take(i as int)),
        decreases bytes.len() - i,
    {
        assert(bytes@.take(i + 1).drop_last() =~= bytes@.take(i as int));
        push_hex(out, bytes[i] as u128, 2);
        i += 1;
    }
    assert(bytes@.take(i as int) =~= bytes@);
}

/// Appends a UUID.
pub fn push_uuid(out: &mut String, uuid: u128)
    ensures
        final(out)@ == old(out)@ + uuid_text(uuid),
{
    push_hex(out, uuid / 0x1_0000_0000_0000_0000_0000_0000, 8);
    out.append("-");
    push_hex(out, uuid / 0x1_0000_0000_0000_0000_0000, 4);
    out.append("-");
    push_hex(out, uuid / 0x1_0000_0000_0000_0000, 4);
    out.append("-");
    push_hex(out, uuid / 0x1_0000_0000_0000, 4);
    out.append("-");
    push_hex(out, uuid, 12);
}

/// A numeral shows the digits of its number: that of ten times a number and a digit is the
/// number's own, followed by the digit.
pub proof fn lemma_decimal_digits(m: nat, d: nat)
    requires
        d < 10,
    ensures
        decimal(d) == seq![('0' as nat + d) as char],
        m > 0 ==> decimal(10 * m + d) == decimal(m).push(('0' as nat + d) as char),
{
    assert((10 * m + d) / 10 == m && (10 * m + d) % 10 == d);
}

/// Hexadecimal digits show a number: those of sixteen times a number and a digit are the
/// number's own, followed by the digit.
pub proof fn lemma_hex_digits(m: nat, d: nat, width: nat)
    requires
        d < 16,
    ensures
        hex(m, 0) == Seq::<char>::empty(),
        hex(16 * m + d, width + 1) == hex(m, width).push(
            if d < 10 {
                ('0' as nat + d) as char
            } else {
                ('a' as nat + d - 10) as char
            },
        ),
{
    assert((16 * m + d) / 16 == m && (16 * m + d) % 16 == d);
}

/// Each byte shows as its two digits, at its own place.
pub proof fn lemma_hex_bytes_digits(bytes: Seq<u8>, i: int)
    requires
        0 <= i < bytes.len(),
    ensures
        hex_bytes(bytes).len() == 2 * bytes.len(),
        hex_bytes(bytes).subrange(2 * i, 2 * i + 2) == hex(bytes[i] as nat, 2),
    decreases bytes.len(),
{
    let init = bytes.drop_last();
    let last = hex(bytes.last() as nat, 2);
    lemma_hex_len(bytes.last() as nat, 2);
    lemma_hex_bytes_len(init);
    if i < init.len() {
        lemma_hex_bytes_digits(init, i);
        assert(hex_bytes(bytes).subrange(2 * i, 2 * i + 2) =~= hex_bytes(init).subrange(
            2 * i,
            2 * i + 2,
        ));
    } else {
        assert(hex_bytes(bytes).subrange(2 * i, 2 * i + 2) =~= last);
    }
}

proof fn lemma_hex_bytes_len(bytes: Seq<u8>)
    ensures
        hex_bytes(bytes).len() == 2 * bytes.len(),
    decreases bytes.len(),
{
    if bytes.len() > 0 {
        lemma_hex_bytes_len(bytes.drop_last());
        lemma_hex_len(bytes.last() as nat, 2);
    }
}

proof fn lemma_hex_len(n: nat, width: nat)
    ensures
        hex(n, width).len() == width,
    decreases width,
{
    if width > 0 {
        lemma_hex_len(n / 16, (width - 1) as nat);
    }
}

/// Four digits at a time: those of a number are those without its last four, and then those.
proof fn lemma_hex_four(n: nat, width: nat)
    ensures
        hex(n, width + 4) == hex(n / 0x1_0000, width) + hex(n, 4),
{
    reveal_with_fuel(hex, 5);
    assert(n / 16 / 16 / 16 / 16 == n / 0x1_0000);
    lemma_hex_len(n / 0x1_0000, width);
    assert(hex(n, width + 4) =~= hex(n / 0x1_0000, width) + hex(n, 4));
}

/// A UUID shows as its 32 hexadecimal digits, in sequence, with hyphens after the first 8, 12,
/// 16 and 20 of them.
pub proof fn lemma_uuid_text_digits(uuid: u128)
    ensures
        ({
            let text = uuid_text(uuid);
            &&& text.len() == 36
            &&& text[8] == '-' && text[13] == '-' && text[18] == '-' && text[23] == '-'
            &&& text.subrange(0, 8) + text.subrange(9, 13) + text.subrange(14, 18) + text.subrange(
                19,
                23,
            ) + text.subrange(24, 36) == hex(uuid as nat, 32)
        }),
{
    let n = uuid as nat;
    let a = n / 0x1_0000_0000_0000_0000_0000_0000;
    let b = n / 0x1_0000_0000_0000_0000_0000;
    let c = n / 0x1_0000_0000_0000_0000;
    let d = n / 0x1_0000_0000_0000;
    let e = n / 0x1_0000_0000;
    let f = n / 0x1_0000;
    reveal_strlit("-");
    assert(f / 0x1_0000 == e && e / 0x1_0000 == d && d / 0x1_0000 == c && c / 0x1_0000 == b && b
        / 0x1_0000 == a);
    lemma_hex_four(b, 8);
    lemma_hex_four(c, 12);
    lemma_hex_four(d, 16);
    lemma_hex_four(e, 20);
    lemma_hex_four(f, 24);
    lemma_hex_four(n, 28);
    lemma_hex_four(f, 4);
    lemma_hex_four(n, 8);
    lemma_hex_len(a, 8);
    lemma_hex_len(b, 4);
    lemma_hex_len(c, 4);
    lemma_hex_len(d, 4);
    lemma_hex_len(n, 12);
    let text = uuid_text(uuid);
    assert(text.subrange(0, 8) =~= hex(a, 8));
    assert(text.subrange(9, 13) =~= hex(b, 4));
    assert(text.subrange(14, 18) =~= hex(c, 4));
    assert(text.subrange(19, 23) =~= hex(d, 4));
    assert(text.subrange(24, 36) =~= hex(n, 12));
    assert(hex(n, 32) =~= hex(a, 8) + hex(b, 4) + hex(c, 4) + hex(d, 4) + hex(n, 12));
}

} // verus!
