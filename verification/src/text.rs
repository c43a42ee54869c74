//! Text: comparison, decimal numbers written and read.

use vstd::prelude::*;

verus! {

/// The decimal digit `d`.
pub open spec fn digit(d: nat) -> char {
    (48 + d) as char
}

/// The decimal notation of `n`, without leading zeros.
pub open spec fn decimal(n: nat) -> Seq<char>
    decreases n,
{
    if n < 10 {
        seq![digit(n)]
    } else {
        decimal(n / 10).push(digit(n % 10))
    }
}

/// The decimal notation of `i`, with a minus sign where it is negative.
pub open spec fn signed_decimal(i: int) -> Seq<char> {
    if i < 0 {
        seq!['-'] + decimal((-i) as nat)
    } else {
        decimal(i as nat)
    }
}

/// Whether `s` consists of decimal digits.
pub open spec fn all_digits(s: Seq<char>) -> bool {
    forall|i: int| 0 <= i < s.len() ==> '0' <= #[trigger] s[i] <= '9'
}

/// The number whose decimal digits are `s`.
pub open spec fn digits_value(s: Seq<char>) -> nat
    decreases s.len(),
{
    if s.len() == 0 {
        0
    } else {
        (10 * digits_value(s.drop_last()) + (s.last() as int - 48)) as nat
    }
}

/// What is left of `s` behind an optional sign.
pub open spec fn unsigned_part(s: Seq<char>) -> Seq<char> {
    if s.len() > 0 && (s[0] == '+' || s[0] == '-') {
        s.skip(1)
    } else {
        s
    }
}

/// The number that `s` writes down: an optional sign, then at least one digit and nothing else.
pub open spec fn integer_text(s: Seq<char>) -> Option<int> {
    let digits = unsigned_part(s);
    if digits.len() == 0 || !all_digits(digits) {
        None
    } else if s[0] == '-' {
        Some(-(digits_value(digits) as int))
    } else {
        Some(digits_value(digits) as int)
    }
}

/// The 32-bit number that `s` writes down, if it is one.
pub open spec fn i32_text(s: Seq<char>) -> Option<i32> {
    match integer_text(s) {
        Some(v) => if i32::MIN <= v <= i32::MAX {
            Some(v as i32)
        } else {
            None
        },
        None => None,
    }
}

/// The characters of `s`.
pub fn chars_of(s: &str) -> (r: Vec<char>)
    ensures
        r@ == s@,
{
    let mut chars: Vec<char> = Vec::new();
    for c in it: s.chars()
        invariant
            it.seq() == s@,
            chars@ == it.seq().take(it.index()),
    {
        chars.push(c);
    }
    chars
}

/// Whether two texts are the same.
pub fn same_text(a: &str, b: &str) -> (r: bool)
    ensures
        r == (a@ == b@),
{
    let x = chars_of(a);
    let y = chars_of(b);
    if x.len() != y.len() {
        return false;
    }
    let mut i: usize = 0;
    while i < x.len()
        invariant
            i <= x.len(),
            x.len() == y.len(),
            x@ == a@,
            y@ == b@,
            forall|j: int| 0 <= j < i ==> x@[j] == y@[j],
        decreases x.len() - i,
    {
        if x[i] != y[i] {
            return false;
        }
        i += 1;
    }
    proof {
        assert(x@ =~= y@);
    }
    true
}

/// Appends the digit `d`.
fn push_digit(out: &mut String, d: u64)
    requires
        d < 10,
    ensures
        final(out)@ == old(out)@.push(digit(d as nat)),
{
    proof {
        reveal_strlit("0");
        reveal_strlit("1");
        reveal_strlit("2");
        reveal_strlit("3");
        reveal_strlit("4");
        reveal_strlit("5");
        reveal_strlit("6");
        reveal_strlit("7");
        reveal_strlit("8");
        reveal_strlit("9");
    }
    let text = match d {
        0 => "0",
        1 => "1",
        2 => "2",
        3 => "3",
        4 => "4",
        5 => "5",
        6 => "6",
        7 => "7",
        8 => "8",
        _ => "9",
    };
    out.append(text);
    assert(text@ =~= seq![digit(d as nat)]);
    assert(out@ =~= old(out)@.push(digit(d as nat)));
}

/// Appends the decimal notation of `n`.
pub fn push_decimal(out: &mut String, n: u64)
    ensures
        final(out)@ == old(out)@ + decimal(n as nat),
    decreases n,
{
    if n >= 10 {
        push_decimal(out, n / 10);
    }
    push_digit(out, n % 10);
    assert(out@ =~= old(out)@ + decimal(n as nat));
}

/// Reads a 32-bit number in decimal notation.
pub fn parse_i32(s: &[char]) -> (r: Option<i32>)
    ensures
        r == i32_text(s@),
{
    if s.len() == 0 {
        return None;
    }
    let negative = s[0] == '-';
    let start: usize = if s[0] == '-' || s[0] == '+' {
        1
    } else {
        0
    };
    let ghost digits = unsigned_part(s@);
    if s.len() == start {
        return None;
    }
    let mut value: i64 = 0;
    let mut i: usize = start;
    while i < s.len()
        invariant
            start <= i <= s.len(),
            digits == s@.skip(start as int),
            digits == unsigned_part(s@),
            digits.len() > 0,
            s@.len() > 0,
            0 <= value <= 0x8000_0000,
            all_digits(digits.take(i - start)),
            value == digits_value(digits.take(i - start)),
        decreases s.len() - i,
    {
        let c = s[i];
        if c < '0' || c > '9' {
            proof {
                assert(digits[i - start] == c);
            }
            return None;
        }
        let d = c as u32 - 48;
        proof {
            let before = digits.take(i - start);
            let after = digits.take(i - start + 1);
            assert(after.drop_last() =~= before);
            assert(after.last() == c);
            assert(all_digits(after)) by {
                assert forall|j: int| 0 <= j < after.len() implies '0' <= #[trigger] after[j]
                    <= '9' by {
                    if j < before.len() {
                        assert(before[j] == after[j]);
                    }
                }
            }
        }
        value = 10 * value + d as i64;
        i += 1;
        if value > 0x8000_0000 {
            proof {
                if all_digits(digits) {
                    lemma_digits_value_grows(digits, i - start);
                }
            }
            return None;
        }
    }
    proof {
        assert(digits.take(digits.len() as int) =~= digits);
    }
    let signed: i64 = if negative {
        -value
    } else {
        value
    };
    if signed >= -0x8000_0000 && signed <= 0x7fff_ffff {
        Some(signed as i32)
    } else {
        None
    }
}

/// A prefix of the digits is worth no more than all of them.
proof fn lemma_digits_value_grows(s: Seq<char>, n: int)
    requires
        all_digits(s),
        0 <= n <= s.len(),
    ensures
        digits_value(s.take(n)) <= digits_value(s),
    decreases s.len(),
{
    if n == s.len() {
        assert(s.take(n) =~= s);
    } else {
        let shorter = s.drop_last();
        assert(all_digits(shorter)) by {
            assert forall|i: int| 0 <= i < shorter.len() implies '0' <= #[trigger] shorter[i]
                <= '9' by {
                assert(shorter[i] == s[i]);
            }
        }
        assert(shorter.take(n) =~= s.take(n));
        lemma_digits_value_grows(shorter, n);
        assert('0' <= s[s.len() - 1]);
    }
}

/// The decimal notation of a number consists of digits that are worth the number.
pub proof fn lemma_decimal_reads_back(n: nat)
    ensures
        all_digits(decimal(n)),
        decimal(n).len() > 0,
        digits_value(decimal(n)) == n,
    decreases n,
{
    if n < 10 {
        let s = seq![digit(n)];
        assert(s.drop_last() =~= Seq::empty());
        assert(digits_value(s.drop_last()) == 0);
    } else {
        lemma_decimal_reads_back(n / 10);
        let front = decimal(n / 10);
        let s = front.push(digit(n % 10));
        assert(s.drop_last() =~= front);
        assert forall|i: int| 0 <= i < s.len() implies '0' <= #[trigger] s[i] <= '9' by {
            if i < front.len() {
                assert(s[i] == front[i]);
            }
        }
    }
}

/// Reading the decimal notation of a 32-bit number gives the number.
pub proof fn law_i32_round_trip(i: i32)
    ensures
        i32_text(signed_decimal(i as int)) == Some(i),
{
    let s = signed_decimal(i as int);
    if i < 0 {
        lemma_decimal_reads_back((-i) as nat);
        assert(s.skip(1) =~= decimal((-i) as nat));
    } else {
        lemma_decimal_reads_back(i as nat);
        assert('0' <= s[0]);
    }
}

/// A number below ten is written with its digit, and a digit behind a number adds it to ten times
/// the number.
pub proof fn law_decimal_notation(n: nat, d: nat)
    requires
        d < 10,
    ensures
        decimal(d) == seq![(48 + d) as char],
        n > 0 ==> decimal(10 * n + d) == decimal(n).push((48 + d) as char),
        signed_decimal(n as int) == decimal(n),
        n > 0 ==> signed_decimal(-(n as int)) == seq!['-'] + decimal(n),
{
}

/// A plus sign and zeros in front change nothing about a number.
pub proof fn law_padding_plays_no_part(s: Seq<char>)
    requires
        s.len() > 0,
        forall|i: int| 0 <= i < s.len() ==> '0' <= #[trigger] s[i] <= '9',
    ensures
        i32_text(seq!['+'] + s) == i32_text(s),
        i32_text(seq!['0'] + s) == i32_text(s),
        i32_text(seq!['-', '0'] + s) == i32_text(seq!['-'] + s),
{
    let zero = seq!['0'] + s;
    lemma_leading_zero(s);
    assert(s[0] != '+' && s[0] != '-');
    assert((seq!['+'] + s).skip(1) =~= s);
    assert((seq!['-'] + s).skip(1) =~= s);
    assert((seq!['-', '0'] + s).skip(1) =~= zero);
    assert(all_digits(zero)) by {
        assert forall|i: int| 0 <= i < zero.len() implies '0' <= #[trigger] zero[i] <= '9' by {
            if i > 0 {
                assert(zero[i] == s[i - 1]);
            }
        }
    }
}

proof fn lemma_leading_zero(s: Seq<char>)
    ensures
        digits_value(seq!['0'] + s) == digits_value(s),
    decreases s.len(),
{
    let zero = seq!['0'] + s;
    if s.len() == 0 {
        assert(zero.drop_last() =~= Seq::empty());
        assert(digits_value(zero.drop_last()) == 0);
    } else {
        assert(zero.drop_last() =~= seq!['0'] + s.drop_last());
        lemma_leading_zero(s.drop_last());
    }
}

/// A number that does not fit in 32 bits is not read.
pub proof fn law_large_numbers_are_refused(n: nat)
    ensures
        n > 0x7fff_ffff ==> i32_text(decimal(n)) is None,
        n > 0x8000_0000 ==> i32_text(seq!['-'] + decimal(n)) is None,
{
    lemma_decimal_reads_back(n);
    let d = decimal(n);
    assert('0' <= d[0]);
    assert((seq!['-'] + d).skip(1) =~= d);
}

/// A text without a digit, or with anything but digits behind an optional sign, is no number.
pub proof fn law_other_texts_are_refused(s: Seq<char>)
    requires
        s.len() == 0 || s == seq!['+'] || s == seq!['-'] || exists|i: int|
            0 <= i < s.len() && !('0' <= #[trigger] s[i] <= '9') && !(i == 0 && (s[i] == '+' || s[i]
                == '-')),
    ensures
        i32_text(s) is None,
{
    let digits = unsigned_part(s);
    if s.len() > 1 || s.len() == 1 && s[0] != '+' && s[0] != '-' {
        let i = choose|i: int|
            0 <= i < s.len() && !('0' <= #[trigger] s[i] <= '9') && !(i == 0 && (s[i] == '+' || s[i]
                == '-'));
        if digits == s {
            assert(!('0' <= digits[i] <= '9'));
        } else {
            assert(!('0' <= digits[i - 1] <= '9'));
        }
    }
}

} // verus!
