//! Decimal rendering of the integers that appear in snapshot tags and in the
//! persisted files, with its exact character-level specification.

use vstd::prelude::*;

verus! {

/// The character for one decimal digit.
pub open spec fn spec_digit(d: nat) -> char {
    if d == 0 {
        '0'
    } else if d == 1 {
        '1'
    } else if d == 2 {
        '2'
    } else if d == 3 {
        '3'
    } else if d == 4 {
        '4'
    } else if d == 5 {
        '5'
    } else if d == 6 {
        '6'
    } else if d == 7 {
        '7'
    } else if d == 8 {
        '8'
    } else {
        '9'
    }
}

/// The usual decimal rendering of a natural number, no leading zeroes
/// (a single `'0'` for zero).
pub open spec fn spec_dec_nat(n: nat) -> Seq<char>
    decreases n,
{
    if n < 10 {
        seq![spec_digit(n)]
    } else {
        spec_dec_nat(n / 10).push(spec_digit(n % 10))
    }
}

/// The decimal rendering of a signed number: a leading `'-'` for negatives.
pub open spec fn spec_dec_int(n: int) -> Seq<char> {
    if n < 0 {
        seq!['-'] + spec_dec_nat((-n) as nat)
    } else {
        spec_dec_nat(n as nat)
    }
}

/// The one-character string for a digit value.
fn digit_str(d: u64) -> (s: &'static str)
    requires
        d < 10,
    ensures
        s@ =~= seq![spec_digit(d as nat)],
{
    proof {
        reveal_strlit("0");
        reveal_strlit("1");
        reveal_strlit("2");
        reveal_strlit("3");
        reveal_strlit("4");
        reveal_strlit("5");
        reveal_strlit("6");
        reveal_strlit("7");
        reveal_strlit("8");
        reveal_strlit("9");
    }
    if d == 0 {
        "0"
    } else if d == 1 {
        "1"
    } else if d == 2 {
        "2"
    } else if d == 3 {
        "3"
    } else if d == 4 {
        "4"
    } else if d == 5 {
        "5"
    } else if d == 6 {
        "6"
    } else if d == 7 {
        "7"
    } else if d == 8 {
        "8"
    } else {
        "9"
    }
}

/// Renders `n` in decimal.
pub fn u64_to_dec(n: u64) -> (s: String)
    ensures
        s@ =~= spec_dec_nat(n as nat),
    decreases n,
{
    if n < 10 {
        digit_str(n).to_owned()
    } else {
        let mut s = u64_to_dec(n / 10);
        s.append(digit_str(n % 10));
        s
    }
}

/// Renders `n` in decimal, with a sign for negatives.
pub fn i64_to_dec(n: i64) -> (s: String)
    ensures
        s@ =~= spec_dec_int(n as int),
{
    proof {
        reveal_strlit("-");
    }
    if n >= 0 {
        u64_to_dec(n as u64)
    } else {
        let magnitude: u64 = if n == i64::MIN {
            9223372036854775808u64
        } else {
            (-n) as u64
        };
        let mut s = "-".to_owned();
        s.append(u64_to_dec(magnitude).as_str());
        s
    }
}

/// The numeric value of one decimal digit character, `-1` for any other.
pub open spec fn spec_digit_val(c: char) -> int {
    if c == '0' {
        0
    } else if c == '1' {
        1
    } else if c == '2' {
        2
    } else if c == '3' {
        3
    } else if c == '4' {
        4
    } else if c == '5' {
        5
    } else if c == '6' {
        6
    } else if c == '7' {
        7
    } else if c == '8' {
        8
    } else if c == '9' {
        9
    } else {
        -1
    }
}

/// Every character is a decimal digit.
pub open spec fn all_digits(s: Seq<char>) -> bool {
    forall|j: int| 0 <= j < s.len() ==> 0 <= #[trigger] spec_digit_val(s[j]) <= 9
}

/// The number a digit run denotes, most significant first.
pub open spec fn spec_digits_val(s: Seq<char>) -> int
    decreases s.len(),
{
    if s.len() == 0 {
        0
    } else {
        spec_digits_val(s.drop_last()) * 10 + spec_digit_val(s.last())
    }
}

/// A decimal rendering is nonempty and consists of digits.
pub proof fn lemma_dec_nat_digits(n: nat)
    ensures
        spec_dec_nat(n).len() >= 1,
        all_digits(spec_dec_nat(n)),
    decreases n,
{
    if n < 10 {
    } else {
        lemma_dec_nat_digits(n / 10);
        let head = spec_dec_nat(n / 10);
        assert forall|j: int| 0 <= j < spec_dec_nat(n).len() implies 0 <= #[trigger] spec_digit_val(
            spec_dec_nat(n)[j],
        ) <= 9 by {
            if j < head.len() {
                assert(spec_dec_nat(n)[j] == head[j]);
            }
        }
    }
}

/// Rendering a digit and reading it back is the identity.
proof fn lemma_digit_val_of_digit(d: nat)
    requires
        d < 10,
    ensures
        spec_digit_val(spec_digit(d)) == d,
{
}

/// Reading a decimal rendering back gives the number itself.
pub proof fn lemma_dec_nat_value(n: nat)
    ensures
        spec_digits_val(spec_dec_nat(n)) == n,
    decreases n,
{
    if n < 10 {
        lemma_digit_val_of_digit(n);
        assert(spec_dec_nat(n) == seq![spec_digit(n)]);
        assert(spec_dec_nat(n).drop_last() =~= Seq::<char>::empty());
        assert(spec_dec_nat(n).last() == spec_digit(n));
        assert(spec_digits_val(Seq::<char>::empty()) == 0);
        assert(spec_digits_val(spec_dec_nat(n)) == n);
    } else {
        lemma_dec_nat_value(n / 10);
        lemma_digit_val_of_digit((n % 10) as nat);
        assert(spec_dec_nat(n).drop_last() =~= spec_dec_nat(n / 10));
        assert(spec_dec_nat(n).last() == spec_digit((n % 10) as nat));
        assert(spec_digits_val(spec_dec_nat(n)) == spec_digits_val(spec_dec_nat(n / 10)) * 10
            + spec_digit_val(spec_digit((n % 10) as nat)));
        assert(spec_digits_val(spec_dec_nat(n)) == (n / 10) * 10 + n % 10);
        assert((n / 10) * 10 + n % 10 == n);
    }
}

/// A digit run denotes a number, never a negative.
pub proof fn lemma_digits_val_nonneg(s: Seq<char>)
    requires
        all_digits(s),
    ensures
        spec_digits_val(s) >= 0,
    decreases s.len(),
{
    if s.len() > 0 {
        assert(s.drop_last() =~= s.take(s.len() - 1));
        lemma_digits_val_nonneg(s.drop_last());
    }
}

/// A prefix of a digit run never denotes more than the whole run.
pub proof fn lemma_digits_val_take_le(s: Seq<char>, j: int)
    requires
        all_digits(s),
        0 <= j <= s.len(),
    ensures
        spec_digits_val(s.take(j)) <= spec_digits_val(s),
    decreases s.len() - j,
{
    if j == s.len() {
        assert(s.take(j) =~= s);
    } else {
        lemma_digits_val_take_le(s, j + 1);
        assert(s.take(j + 1).drop_last() =~= s.take(j));
        assert(s.take(j + 1).last() == s[j]);
        assert(all_digits(s.take(j)));
        lemma_digits_val_nonneg(s.take(j));
    }
}

/// Reading a digit character and rendering it back is the identity.
proof fn lemma_digit_of_val(c: char)
    requires
        0 <= spec_digit_val(c) <= 9,
    ensures
        spec_digit(spec_digit_val(c) as nat) == c,
{
}

/// A nonempty digit run without a leading zero is the decimal rendering of
/// the number it denotes.
pub proof fn lemma_dec_of_digits(s: Seq<char>)
    requires
        all_digits(s),
        s.len() >= 1,
        s.len() == 1 || spec_digit_val(s[0]) >= 1,
    ensures
        spec_dec_nat(spec_digits_val(s) as nat) =~= s,
    decreases s.len(),
{
    lemma_digits_val_nonneg(s);
    if s.len() == 1 {
        lemma_digit_of_val(s[0]);
        assert(s.drop_last() =~= Seq::<char>::empty());
        assert(spec_digits_val(Seq::<char>::empty()) == 0);
        assert(spec_digits_val(s) == spec_digit_val(s[0]));
        assert(spec_dec_nat(spec_digits_val(s) as nat) == seq![spec_digit(
            spec_digits_val(s) as nat,
        )]);
        assert(spec_dec_nat(spec_digits_val(s) as nat) =~= s);
    } else {
        let head = s.drop_last();
        let d = spec_digit_val(s.last());
        assert(all_digits(head)) by {
            assert(forall|j: int| 0 <= j < head.len() ==> head[j] == s[j]);
        }
        assert(head[0] == s[0]);
        lemma_dec_of_digits(head);
        let hv = spec_digits_val(head);
        lemma_digits_val_nonneg(head);
        assert(head.take(1) =~= s.take(1));
        lemma_digits_val_take_le(head, 1);
        assert(spec_digits_val(head.take(1)) == spec_digit_val(s[0])) by {
            assert(head.take(1).drop_last() =~= Seq::<char>::empty());
            assert(spec_digits_val(Seq::<char>::empty()) == 0);
            assert(head.take(1).last() == s[0]);
        }
        assert(hv >= 1);
        let val = spec_digits_val(s);
        assert(val == hv * 10 + d);
        assert(val >= 10);
        assert(val / 10 == hv && val % 10 == d) by {
            assert(val == 10 * hv + d);
            assert(0 <= d < 10);
        }
        lemma_digit_of_val(s.last());
        assert(spec_dec_nat(val as nat) == spec_dec_nat((val / 10) as nat).push(spec_digit(
            (val % 10) as nat,
        )));
        assert(spec_dec_nat(val as nat) =~= s);
    }
}

/// A rendering longer than one digit never starts with a zero.
pub proof fn lemma_dec_first_digit(n: nat)
    requires
        n >= 1,
    ensures
        spec_digit_val(spec_dec_nat(n)[0]) >= 1,
    decreases n,
{
    if n < 10 {
    } else {
        lemma_dec_first_digit(n / 10);
        lemma_dec_nat_digits(n / 10);
        assert(spec_dec_nat(n)[0] == spec_dec_nat(n / 10)[0]);
    }
}

} // verus!
