use vstd::prelude::*;
use crate::otp::{all_digits, decimal_value, is_digit};
use crate::registry::five_digit_code;

verus! {

/// The greeting for `name`.
pub open spec fn greeting(name: Seq<char>) -> Seq<char> {
    "Hello, "@ + name + "!"@
}

/// Greets `name`.
pub fn greet(name: &str) -> (res: String)
    ensures
        res@ == greeting(name@),
{
    let mut res = String::from_str("Hello, ");
    res.append(name);
    res.append("!");
    res
}

/// The number that the first ten decimal digits of `n` write: the last digit of `n` is
/// dropped until ten digits remain.
pub open spec fn leading_ten_digits(n: nat) -> nat
    decreases n,
{
    if n < 10_000_000_000 {
        n
    } else {
        leading_ten_digits(n / 10)
    }
}

/// The Unix time in seconds read off a time in nanoseconds (of at least ten digits) as the
/// number that the first ten characters of its decimal text write.
pub fn timestamp_seconds(nanos: u64) -> (secs: u64)
    requires
        nanos >= 1_000_000_000,
    ensures
        secs == leading_ten_digits(nanos as nat),
        secs == decimal_value(decimal_text(nanos as nat).take(10)),
        1_000_000_000 <= secs < 10_000_000_000,
{
    proof {
        law_timestamp_is_first_ten_characters(nanos as nat);
    }
    let mut n = nanos;
    while n >= 10_000_000_000
        invariant
            n >= 1_000_000_000,
            leading_ten_digits(n as nat) == leading_ten_digits(nanos as nat),
        decreases n,
    {
        n = n / 10;
    }
    n
}

/// The decimal digit character of `d`, for `d < 10`.
pub open spec fn digit_char(d: nat) -> char {
    (('0' as nat) + d) as char
}

/// The decimal text of `n`, without leading zeros (`u64::to_string`).
pub open spec fn decimal_text(n: nat) -> Seq<char>
    decreases n,
{
    if n < 10 {
        seq![digit_char(n)]
    } else {
        decimal_text(n / 10).push(digit_char(n % 10))
    }
}

pub(crate) proof fn lemma_decimal_text(n: nat)
    ensures
        decimal_value(decimal_text(n)) == n,
        decimal_text(n).len() >= 1,
        all_digits(decimal_text(n)),
    decreases n,
{
    if n < 10 {
        let t = decimal_text(n);
        assert(is_digit(t[0]));
        assert(t.drop_last() =~= Seq::<char>::empty());
        assert(decimal_value(t.drop_last()) == 0);
        assert((digit_char(n) as nat) == ('0' as nat) + n);
    } else {
        lemma_decimal_text(n / 10);
        let t = decimal_text(n);
        assert(t.drop_last() =~= decimal_text(n / 10));
        assert((digit_char(n % 10) as nat) == ('0' as nat) + n % 10);
        assert(n == (n / 10) * 10 + n % 10);
        assert forall|i: int| 0 <= i < t.len() implies is_digit(#[trigger] t[i]) by {
            if i < t.len() - 1 {
                assert(t[i] == decimal_text(n / 10)[i]);
            }
        }
    }
}

spec fn pow10(k: nat) -> nat
    decreases k,
{
    if k == 0 {
        1
    } else {
        10 * pow10((k - 1) as nat)
    }
}

proof fn lemma_decimal_text_len(n: nat, k: nat)
    ensures
        n >= pow10(k) ==> decimal_text(n).len() >= k + 1,
        n < pow10(k) && k >= 1 ==> decimal_text(n).len() <= k,
    decreases n,
{
    if n >= 10 {
        if k >= 1 {
            lemma_decimal_text_len(n / 10, (k - 1) as nat);
        }
        assert(decimal_text(n).len() == decimal_text(n / 10).len() + 1);
    } else {
        if k >= 1 {
            assert(pow10(k) >= 10) by {
                lemma_pow10_at_least_ten(k);
            }
        }
    }
}

proof fn lemma_pow10_at_least_ten(k: nat)
    requires
        k >= 1,
    ensures
        pow10(k) >= 10,
    decreases k,
{
    if k > 1 {
        lemma_pow10_at_least_ten((k - 1) as nat);
    } else {
        assert(pow10(0) == 1);
    }
}

/// The seconds read off a time are the number that the first ten characters of its decimal
/// text write.
pub proof fn law_timestamp_is_first_ten_characters(n: nat)
    requires
        n >= 1_000_000_000,
    ensures
        leading_ten_digits(n) == decimal_value(decimal_text(n).take(10)),
    decreases n,
{
    lemma_decimal_text(n);
    assert(pow10(9) == 1_000_000_000 && pow10(10) == 10_000_000_000) by {
        reveal_with_fuel(pow10, 11);
    }
    lemma_decimal_text_len(n, 9);
    lemma_decimal_text_len(n, 10);
    lemma_decimal_text_len(n / 10, 9);
    if n < 10_000_000_000 {
        assert(decimal_text(n).take(10) =~= decimal_text(n));
    } else {
        law_timestamp_is_first_ten_characters(n / 10);
        lemma_decimal_text(n / 10);
        assert(decimal_text(n) == decimal_text(n / 10).push(digit_char(n % 10)));
        assert(decimal_text(n).take(10) =~= decimal_text(n / 10).take(10));
    }
}

/// A code is five digits long exactly when its decimal text has five characters.
pub proof fn law_five_digit_codes(code: u16)
    ensures
        five_digit_code(code) <==> decimal_text(code as nat).len() == 5,
{
    assert(pow10(4) == 10_000 && pow10(5) == 100_000) by {
        reveal_with_fuel(pow10, 6);
    }
    lemma_decimal_text_len(code as nat, 4);
    lemma_decimal_text_len(code as nat, 5);
}

} // verus!
