//! Reading one counter file: a decimal number at the start of a few bytes.

use vstd::arithmetic::div_mod::{lemma_add_mod_noop, lemma_mul_mod_noop_right, lemma_small_mod};
use vstd::prelude::*;

verus! {

/// How many bytes of a counter file are looked at. The largest 64-bit counter
/// has 20 digits, so this leaves room to spare.
pub const READ_BUDGET: usize = 30;

/// Whether `byte` is one of the ASCII digits `'0'` to `'9'`.
pub open spec fn is_digit(byte: u8) -> bool {
    0x30 <= byte <= 0x39
}

/// The number of ASCII digits that `bytes` starts with.
pub open spec fn digit_run_len(bytes: Seq<u8>) -> nat
    decreases bytes.len(),
{
    if bytes.len() > 0 && is_digit(bytes[0]) {
        1 + digit_run_len(bytes.drop_first())
    } else {
        0
    }
}

/// The number that a string of ASCII digits writes in base ten, most
/// significant digit first. The empty string writes zero.
pub open spec fn decimal_value(digits: Seq<u8>) -> nat
    decreases digits.len(),
{
    if digits.len() == 0 {
        0
    } else {
        (10 * decimal_value(digits.drop_last()) + (digits.last() - 0x30)) as nat
    }
}

/// The part of a file's content that is looked at: its first
/// [`READ_BUDGET`] bytes, or all of it when it is shorter.
pub open spec fn within_budget(content: Seq<u8>) -> Seq<u8> {
    if content.len() <= READ_BUDGET {
        content
    } else {
        content.take(READ_BUDGET as int)
    }
}

/// The number written by the leading digits of `content`, within the budget.
/// Content that does not start with a digit gives zero.
pub open spec fn leading_number(content: Seq<u8>) -> nat {
    let seen = within_budget(content);
    decimal_value(seen.take(digit_run_len(seen) as int))
}

/// The counter that a read attempt gives: zero when the file could not be
/// read, else the leading number of what was read, reduced modulo 2^64.
pub open spec fn counter_of(content: Option<Seq<u8>>) -> u64 {
    match content {
        None => 0,
        Some(bytes) => (leading_number(bytes) % 0x1_0000_0000_0000_0000) as u64,
    }
}

/// The bytes that a read attempt gave, if it gave any.
pub open spec fn bytes_read(content: Option<Vec<u8>>) -> Option<Seq<u8>> {
    match content {
        None => None,
        Some(bytes) => Some(bytes@),
    }
}

/// `bytes` starts with exactly `run` digits when its first `run` bytes are
/// digits and the byte after them, if there is one, is not.
pub proof fn lemma_digit_run_len(bytes: Seq<u8>, run: int)
    requires
        0 <= run <= bytes.len(),
        forall|j: int| 0 <= j < run ==> is_digit(#[trigger] bytes[j]),
        run < bytes.len() ==> !is_digit(bytes[run]),
    ensures
        digit_run_len(bytes) == run,
    decreases bytes.len(),
{
    if run > 0 {
        let rest = bytes.drop_first();
        assert forall|j: int| 0 <= j < run - 1 implies is_digit(#[trigger] rest[j]) by {
            assert(rest[j] == bytes[j + 1]);
        }
        lemma_digit_run_len(rest, run - 1);
    }
}

/// The decimal digits of `value` in ASCII, most significant first and
/// without leading zeros: the way the kernel writes a counter.
pub open spec fn decimal_digits(value: nat) -> Seq<u8>
    decreases value,
{
    if value < 10 {
        seq![(0x30 + value) as u8]
    } else {
        decimal_digits(value / 10).push((0x30 + value % 10) as u8)
    }
}

/// Ten to the power `exponent`.
pub open spec fn power_of_ten(exponent: nat) -> nat
    decreases exponent,
{
    if exponent == 0 {
        1
    } else {
        10 * power_of_ten((exponent - 1) as nat)
    }
}

/// The digits of a number are digits, and they write that number.
pub proof fn lemma_decimal_digits(value: nat)
    ensures
        decimal_digits(value).len() >= 1,
        forall|i: int|
            0 <= i < decimal_digits(value).len() ==> is_digit(#[trigger] decimal_digits(value)[i]),
        decimal_value(decimal_digits(value)) == value,
    decreases value,
{
    if value < 10 {
        let digits = seq![(0x30 + value) as u8];
        assert(digits.drop_last() =~= Seq::<u8>::empty());
        assert(decimal_value(digits.drop_last()) == 0);
    } else {
        lemma_decimal_digits(value / 10);
        let front = decimal_digits(value / 10);
        let digits = front.push((0x30 + value % 10) as u8);
        assert(digits.drop_last() =~= front);
    }
}

/// A number below ten to the power `exponent` has at most `exponent` digits.
pub proof fn lemma_decimal_digits_len(value: nat, exponent: nat)
    requires
        exponent >= 1,
        value < power_of_ten(exponent),
    ensures
        decimal_digits(value).len() <= exponent,
    decreases exponent,
{
    if value >= 10 {
        assert(power_of_ten(1) == 10) by {
            reveal_with_fuel(power_of_ten, 2);
        }
        lemma_decimal_digits_len(value / 10, (exponent - 1) as nat);
    }
}

/// A counter is read back as it was written: its decimal digits, followed by
/// nothing or by bytes that start with something other than a digit (the
/// kernel writes a newline), give the counter again.
pub proof fn lemma_read_back(value: u64, rest: Seq<u8>)
    requires
        rest.len() > 0 ==> !is_digit(rest[0]),
    ensures
        counter_of(Some(decimal_digits(value as nat) + rest)) == value,
{
    let digits = decimal_digits(value as nat);
    let content = digits + rest;
    let seen = within_budget(content);
    lemma_decimal_digits(value as nat);
    assert(digits.len() <= 20) by {
        reveal_with_fuel(power_of_ten, 21);
        assert(power_of_ten(20) == 100_000_000_000_000_000_000);
        lemma_decimal_digits_len(value as nat, 20);
    }
    assert forall|j: int| 0 <= j < digits.len() implies is_digit(#[trigger] seen[j]) by {
        assert(seen[j] == digits[j]);
    }
    if digits.len() < seen.len() {
        assert(seen[digits.len() as int] == rest[0]);
    }
    lemma_digit_run_len(seen, digits.len() as int);
    assert(seen.take(digits.len() as int) =~= digits);
}

/// Content that does not start with a digit, an empty file among it, reads
/// as zero.
pub proof fn lemma_read_without_digits(content: Seq<u8>)
    requires
        content.len() > 0 ==> !is_digit(content[0]),
    ensures
        counter_of(Some(content)) == 0,
{
    let seen = within_budget(content);
    lemma_digit_run_len(seen, 0);
    assert(seen.take(0) =~= Seq::<u8>::empty());
}

/// Appending one digit multiplies the value by ten and adds the digit; the
/// same holds of the values reduced modulo 2^64.
proof fn lemma_decimal_step(digits: Seq<u8>, acc: u64, byte: u8)
    requires
        acc == decimal_value(digits) % 0x1_0000_0000_0000_0000,
        is_digit(byte),
    ensures
        acc.wrapping_mul(10).wrapping_add((byte - 0x30) as u64) == decimal_value(digits.push(byte))
            % 0x1_0000_0000_0000_0000,
{
    let m = 0x1_0000_0000_0000_0000int;
    let v = decimal_value(digits) as int;
    let d = (byte - 0x30) as int;
    assert(digits.push(byte).drop_last() =~= digits);
    assert(decimal_value(digits.push(byte)) == 10 * v + d);
    let shifted = acc.wrapping_mul(10);
    assert(shifted == (acc * 10) % m);
    lemma_mul_mod_noop_right(10, v, m);
    assert(shifted == (10 * v) % m) by {
        assert(acc * 10 == 10 * (v % m));
    }
    lemma_small_mod(d as nat, m as nat);
    lemma_add_mod_noop(10 * v, d, m);
    assert((shifted + d) % m == (10 * v + d) % m);
    let sum = shifted.wrapping_add(d as u64);
    if shifted + d > u64::MAX {
        assert(sum == shifted + d - m);
        assert((shifted + d) % m == shifted + d - m) by {
            lemma_small_mod((shifted + d - m) as nat, m as nat);
            vstd::arithmetic::div_mod::lemma_mod_sub_multiples_vanish(shifted + d, m);
        }
    } else {
        lemma_small_mod((shifted + d) as nat, m as nat);
    }
}

/// Turns the outcome of reading a counter file into the counter.
///
/// `content` is `None` when the file could not be opened or read, else the
/// bytes that the read gave. The leading ASCII digits, as far as they lie
/// within the first [`READ_BUDGET`] bytes, are taken as a decimal number; the
/// scan stops at the first other byte. A failed read, an empty file and a
/// file that starts with another byte all give zero. A digit run too long for
/// 64 bits wraps around.
pub fn read(content: &Option<Vec<u8>>) -> (value: u64)
    ensures
        value == counter_of(bytes_read(*content)),
{
    match content {
        None => 0,
        Some(data) => {
            let size: usize = if data.len() <= READ_BUDGET {
                data.len()
            } else {
                READ_BUDGET
            };
            let ghost seen = within_budget(data@);
            let mut i: usize = 0;
            let mut ret: u64 = 0;
            while i < size && data[i] >= 0x30 && data[i] <= 0x39
                invariant
                    seen == within_budget(data@),
                    size == seen.len(),
                    size <= data.len(),
                    i <= size,
                    forall|j: int| 0 <= j < i ==> is_digit(#[trigger] seen[j]),
                    ret == decimal_value(seen.take(i as int)) % 0x1_0000_0000_0000_0000,
                decreases size - i,
            {
                proof {
                    assert(seen[i as int] == data[i as int]);
                    assert(seen.take(i + 1) =~= seen.take(i as int).push(data[i as int]));
                    lemma_decimal_step(seen.take(i as int), ret, data[i as int]);
                }
                ret = ret.wrapping_mul(10).wrapping_add((data[i] - 0x30) as u64);
                i += 1;
            }
            proof {
                if i < size {
                    assert(seen[i as int] == data[i as int]);
                }
                lemma_digit_run_len(seen, i as int);
            }
            ret
        },
    }
}

} // verus!
