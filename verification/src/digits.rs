//! Numbers as text: hexadecimal digits read from monitor output, and the
//! hexadecimal and decimal text of a number.

use vstd::prelude::*;
use vstd::string::*;

verus! {

/// Whether `b` is an ASCII hexadecimal digit, in either case.
pub open spec fn is_hex_digit(b: u8) -> bool {
    (0x30 <= b <= 0x39) || (0x61 <= b <= 0x66) || (0x41 <= b <= 0x46)
}

/// The number that the hexadecimal digit `b` stands for; 0 for any other byte.
pub open spec fn digit_value(b: u8) -> nat {
    if 0x30 <= b <= 0x39 {
        (b - 0x30) as nat
    } else if 0x61 <= b <= 0x66 {
        (b - 0x61 + 10) as nat
    } else if 0x41 <= b <= 0x46 {
        (b - 0x41 + 10) as nat
    } else {
        0
    }
}

/// Whether every byte of `s` is a hexadecimal digit.
pub open spec fn all_hex(s: Seq<u8>) -> bool {
    forall|i: int| 0 <= i < s.len() ==> is_hex_digit(#[trigger] s[i])
}

/// The number that the digits of `s` denote, most significant digit first.
pub open spec fn hex_value(s: Seq<u8>) -> nat
    decreases s.len(),
{
    if s.len() == 0 {
        0
    } else {
        hex_value(s.drop_last()) * 16 + digit_value(s.last())
    }
}

/// What `s` denotes as a 64-bit number: `None` when `s` is empty, holds a byte
/// that is no hexadecimal digit, or denotes a number above `u64::MAX`.
pub open spec fn hex_number(s: Seq<u8>) -> Option<u64> {
    if s.len() > 0 && all_hex(s) && hex_value(s) <= u64::MAX {
        Some(hex_value(s) as u64)
    } else {
        None
    }
}

/// The index at which the run of hexadecimal digits that starts at `from` ends.
pub open spec fn run_end(text: Seq<u8>, from: int) -> int
    decreases text.len() - from,
{
    if 0 <= from < text.len() && is_hex_digit(text[from]) {
        run_end(text, from + 1)
    } else {
        from
    }
}

/// A prefix of a digit string never denotes more than the whole string.
pub proof fn lemma_prefix_value(s: Seq<u8>, k: int)
    requires
        0 <= k <= s.len(),
    ensures
        hex_value(s.subrange(0, k)) <= hex_value(s),
    decreases s.len(),
{
    if k == s.len() {
        assert(s.subrange(0, k) =~= s);
    } else {
        lemma_prefix_value(s.drop_last(), k);
        assert(s.drop_last().subrange(0, k) =~= s.subrange(0, k));
        assert(hex_value(s.drop_last()) <= hex_value(s.drop_last()) * 16) by (nonlinear_arith);
    }
}

/// The run that starts at `from` holds digits only, stops at the text's end or
/// before a byte that is no digit, and is the only such stretch.
pub proof fn lemma_run_end(text: Seq<u8>, from: int)
    requires
        0 <= from <= text.len(),
    ensures
        from <= run_end(text, from) <= text.len(),
        all_hex(text.subrange(from, run_end(text, from))),
        run_end(text, from) < text.len() ==> !is_hex_digit(text[run_end(text, from)]),
    decreases text.len() - from,
{
    if from < text.len() && is_hex_digit(text[from]) {
        lemma_run_end(text, from + 1);
        let e = run_end(text, from);
        assert forall|i: int| 0 <= i < e - from implies is_hex_digit(
            #[trigger] text.subrange(from, e)[i],
        ) by {
            if i > 0 {
                assert(text.subrange(from, e)[i] == text.subrange(from + 1, e)[i - 1]);
            }
        }
    }
}

/// A stretch of digits that ends at the text's end or before a byte that is no
/// digit is the run that starts at `from`.
pub proof fn lemma_run_end_unique(text: Seq<u8>, from: int, end: int)
    requires
        0 <= from <= end <= text.len(),
        all_hex(text.subrange(from, end)),
        end < text.len() ==> !is_hex_digit(text[end]),
    ensures
        run_end(text, from) == end,
    decreases end - from,
{
    if from < end {
        assert(text.subrange(from, end)[0] == text[from]);
        assert forall|i: int| 0 <= i < end - (from + 1) implies is_hex_digit(
            #[trigger] text.subrange(from + 1, end)[i],
        ) by {
            assert(text.subrange(from + 1, end)[i] == text.subrange(from, end)[i + 1]);
        }
        lemma_run_end_unique(text, from + 1, end);
    }
}

/// Sixteen to the power of `n`.
pub open spec fn sixteen_to(n: nat) -> nat
    decreases n,
{
    if n == 0 {
        1
    } else {
        16 * sixteen_to((n - 1) as nat)
    }
}

/// A string of `n` digits denotes a number below sixteen to the power of `n`.
pub proof fn lemma_value_below(s: Seq<u8>)
    requires
        all_hex(s),
    ensures
        hex_value(s) < sixteen_to(s.len()),
    decreases s.len(),
{
    if s.len() > 0 {
        assert forall|i: int| 0 <= i < s.drop_last().len() implies is_hex_digit(
            #[trigger] s.drop_last()[i],
        ) by {
            assert(s.drop_last()[i] == s[i]);
        }
        lemma_value_below(s.drop_last());
        assert(is_hex_digit(s[s.len() - 1]));
    }
}

/// Sixteen digits or fewer always denote a number of 64 bits.
pub proof fn lemma_digits_fit(s: Seq<u8>)
    requires
        all_hex(s),
        s.len() <= 16,
    ensures
        hex_value(s) <= u64::MAX,
{
    lemma_value_below(s);
    lemma_sixteen_to_grows(s.len(), 16);
    assert(sixteen_to(16) == 0x1_0000_0000_0000_0000) by {
        reveal_with_fuel(sixteen_to, 17);
    }
}

/// The powers of sixteen grow with the exponent.
proof fn lemma_sixteen_to_grows(m: nat, n: nat)
    requires
        m <= n,
    ensures
        sixteen_to(m) <= sixteen_to(n),
        sixteen_to(m) >= 1,
    decreases n,
{
    if m < n {
        lemma_sixteen_to_grows(m, (n - 1) as nat);
    } else if m > 0 {
        lemma_sixteen_to_grows((m - 1) as nat, (n - 1) as nat);
    }
}

/// The value of one hexadecimal digit, or `None` for any other byte.
pub fn hex_digit(b: u8) -> (d: Option<u8>)
    ensures
        d == (if is_hex_digit(b) {
            Some(digit_value(b) as u8)
        } else {
            None
        }),
{
    if 0x30 <= b && b <= 0x39 {
        Some(b - 0x30)
    } else if 0x61 <= b && b <= 0x66 {
        Some(b - 0x61 + 10)
    } else if 0x41 <= b && b <= 0x46 {
        Some(b - 0x41 + 10)
    } else {
        None
    }
}

/// Reads the bytes from `start` up to `end` as one hexadecimal number.
pub fn parse_hex(bytes: &[u8], start: usize, end: usize) -> (number: Option<u64>)
    requires
        start <= end <= bytes@.len(),
    ensures
        number == hex_number(bytes@.subrange(start as int, end as int)),
{
    if start == end {
        return None;
    }
    let ghost whole = bytes@.subrange(start as int, end as int);
    let mut acc: u64 = 0;
    let mut i: usize = start;
    while i < end
        invariant
            start <= i <= end <= bytes@.len(),
            whole == bytes@.subrange(start as int, end as int),
            all_hex(bytes@.subrange(start as int, i as int)),
            acc == hex_value(bytes@.subrange(start as int, i as int)),
        decreases end - i,
    {
        let ghost before = bytes@.subrange(start as int, i as int);
        let ghost after = bytes@.subrange(start as int, i + 1);
        proof {
            assert(after.drop_last() =~= before);
            assert(after.last() == bytes@[i as int]);
            assert(whole.subrange(0, i + 1 - start) =~= after);
            assert(whole[i - start] == bytes@[i as int]);
        }
        match hex_digit(bytes[i]) {
            None => {
                return None;
            },
            Some(d) => {
                if acc > (u64::MAX - d as u64) / 16 {
                    proof {
                        lemma_prefix_value(whole, i + 1 - start);
                    }
                    return None;
                }
                acc = acc * 16 + d as u64;
                proof {
                    assert forall|j: int| 0 <= j < after.len() implies is_hex_digit(
                        #[trigger] after[j],
                    ) by {
                        if j < before.len() {
                            assert(after[j] == before[j]);
                        }
                    }
                }
            },
        }
        i += 1;
    }
    Some(acc)
}

/// Finds where the run of hexadecimal digits that starts at `from` ends.
pub fn scan_run(bytes: &[u8], from: usize) -> (end: usize)
    requires
        from <= bytes@.len(),
    ensures
        end == run_end(bytes@, from as int),
        from <= end <= bytes@.len(),
{
    let mut i: usize = from;
    proof {
        lemma_run_end(bytes@, from as int);
    }
    while i < bytes.len() && hex_digit(bytes[i]).is_some()
        invariant
            from <= i <= bytes@.len(),
            run_end(bytes@, from as int) == run_end(bytes@, i as int),
        decreases bytes@.len() - i,
    {
        i += 1;
    }
    i
}

/// The character that writes the digit `d`, lower case above nine.
pub open spec fn digit_char(d: nat) -> char {
    if d == 0 {
        '0'
    } else if d == 1 {
        '1'
    } else if d == 2 {
        '2'
    } else if d == 3 {
        '3'
    } else if d == 4 {
        '4'
    } else if d == 5 {
        '5'
    } else if d == 6 {
        '6'
    } else if d == 7 {
        '7'
    } else if d == 8 {
        '8'
    } else if d == 9 {
        '9'
    } else if d == 10 {
        'a'
    } else if d == 11 {
        'b'
    } else if d == 12 {
        'c'
    } else if d == 13 {
        'd'
    } else if d == 14 {
        'e'
    } else {
        'f'
    }
}

/// The digits of `n` in the given base, most significant first, without
/// leading zeros; the single digit `0` for zero.
pub open spec fn numeral(n: nat, base: nat) -> Seq<char>
    decreases n,
    via numeral_terminates
{
    if base < 2 || n < base {
        seq![digit_char(n)]
    } else {
        numeral(n / base, base).push(digit_char(n % base))
    }
}

#[via_fn]
proof fn numeral_terminates(n: nat, base: nat) {
    if base >= 2 && n >= base {
        vstd::arithmetic::div_mod::lemma_div_decreases(n as int, base as int);
        vstd::arithmetic::div_mod::lemma_div_pos_is_pos(n as int, base as int);
    }
}

/// The one-character text of a digit below sixteen.
fn digit_text(d: u8) -> (text: &'static str)
    requires
        d < 16,
    ensures
        text@ == seq![digit_char(d as nat)],
{
    proof {
        reveal_strlit("0");
        reveal_strlit("1");
        reveal_strlit("2");
        reveal_strlit("3");
        reveal_strlit("4");
        reveal_strlit("5");
        reveal_strlit("6");
        reveal_strlit("7");
        reveal_strlit("8");
        reveal_strlit("9");
        reveal_strlit("a");
        reveal_strlit("b");
        reveal_strlit("c");
        reveal_strlit("d");
        reveal_strlit("e");
        reveal_strlit("f");
    }
    let text = if d == 0 {
        "0"
    } else if d == 1 {
        "1"
    } else if d == 2 {
        "2"
    } else if d == 3 {
        "3"
    } else if d == 4 {
        "4"
    } else if d == 5 {
        "5"
    } else if d == 6 {
        "6"
    } else if d == 7 {
        "7"
    } else if d == 8 {
        "8"
    } else if d == 9 {
        "9"
    } else if d == 10 {
        "a"
    } else if d == 11 {
        "b"
    } else if d == 12 {
        "c"
    } else if d == 13 {
        "d"
    } else if d == 14 {
        "e"
    } else {
        "f"
    };
    assert(text@ =~= seq![digit_char(d as nat)]);
    text
}

/// Appends the digits of `n` in base ten or sixteen to `out`.
fn push_numeral(out: &mut String, n: u64, base: u8)
    requires
        base == 10 || base == 16,
    ensures
        final(out)@ == old(out)@ + numeral(n as nat, base as nat),
    decreases n,
{
    let wide: u64 = base as u64;
    if n >= wide {
        push_numeral(out, n / wide, base);
    }
    let d: u8 = (n % wide) as u8;
    out.append(digit_text(d));
    proof {
        if n >= wide {
            assert(old(out)@ + numeral(n as nat, base as nat) =~= (old(out)@ + numeral(
                (n / wide) as nat,
                base as nat,
            )).push(digit_char((n % wide) as nat)));
        }
    }
}

/// Appends `n` in decimal digits to `out`.
pub fn push_decimal(out: &mut String, n: u64)
    ensures
        final(out)@ == old(out)@ + numeral(n as nat, 10),
{
    push_numeral(out, n, 10);
}

/// Appends `n` in hexadecimal digits, lower case, to `out`.
pub fn push_hex(out: &mut String, n: u64)
    ensures
        final(out)@ == old(out)@ + numeral(n as nat, 16),
{
    push_numeral(out, n, 16);
}

} // verus!
