//! Decimal numerals, as they stand in piece URLs, range headers and messages.

use vstd::prelude::*;
use vstd::string::*;

verus! {

/// The character of a decimal digit.
pub open spec fn digit_char(d: nat) -> char
    recommends
        d < 10,
{
    ('0' as nat + d) as char
}

/// The decimal numeral of `n`, without leading zeros.
pub open spec fn decimal(n: nat) -> Seq<char>
    decreases n,
{
    if n < 10 {
        seq![digit_char(n)]
    } else {
        decimal(n / 10).push(digit_char(n % 10))
    }
}

/// The decimal numeral of `i`, with a leading `-` where `i` is negative.
pub open spec fn signed_decimal(i: int) -> Seq<char> {
    if i < 0 {
        seq!['-'] + decimal((-i) as nat)
    } else {
        decimal(i as nat)
    }
}

/// Whether `c` is one of the ten decimal digits.
pub open spec fn is_digit(c: char) -> bool {
    '0' <= c <= '9'
}

/// Whether `s` consists of decimal digits alone.
pub open spec fn all_digits(s: Seq<char>) -> bool {
    forall|i: int| 0 <= i < s.len() ==> is_digit(#[trigger] s[i])
}

/// A numeral has at least one character, and each is a digit.
pub proof fn lemma_decimal_digits(n: nat)
    ensures
        decimal(n).len() >= 1,
        all_digits(decimal(n)),
    decreases n,
{
    if n >= 10 {
        lemma_decimal_digits(n / 10);
    }
}

/// Two numbers with the same numeral are equal.
pub proof fn lemma_decimal_injective(a: nat, b: nat)
    requires
        decimal(a) == decimal(b),
    ensures
        a == b,
    decreases a,
{
    lemma_decimal_digits(a / 10);
    lemma_decimal_digits(b / 10);
    assert(decimal(a).last() == digit_char(a % 10));
    assert(decimal(b).last() == digit_char(b % 10));
    if a >= 10 && b >= 10 {
        assert(decimal(a).drop_last() =~= decimal(a / 10));
        assert(decimal(b).drop_last() =~= decimal(b / 10));
        lemma_decimal_injective(a / 10, b / 10);
    }
}

/// Two integers with the same signed numeral are equal.
pub proof fn lemma_signed_decimal_injective(a: int, b: int)
    requires
        signed_decimal(a) == signed_decimal(b),
    ensures
        a == b,
{
    lemma_decimal_digits(if a < 0 { (-a) as nat } else { a as nat });
    lemma_decimal_digits(if b < 0 { (-b) as nat } else { b as nat });
    let sa = signed_decimal(a);
    let sb = signed_decimal(b);
    if a < 0 && b < 0 {
        assert(sa.skip(1) =~= decimal((-a) as nat));
        assert(sb.skip(1) =~= decimal((-b) as nat));
        lemma_decimal_injective((-a) as nat, (-b) as nat);
    } else if a >= 0 && b >= 0 {
        lemma_decimal_injective(a as nat, b as nat);
    } else if a < 0 {
        assert(sa[0] == '-' && is_digit(sb[0]));
    } else {
        assert(sb[0] == '-' && is_digit(sa[0]));
    }
}

/// Where two texts of digits are each followed by a character that is no digit, equality of
/// the wholes gives equality of the texts and of what follows.
pub proof fn lemma_digits_then_other(d1: Seq<char>, r1: Seq<char>, d2: Seq<char>, r2: Seq<char>)
    requires
        all_digits(d1),
        all_digits(d2),
        r1.len() > 0,
        r2.len() > 0,
        !is_digit(r1[0]),
        !is_digit(r2[0]),
        d1 + r1 == d2 + r2,
    ensures
        d1 == d2,
        r1 == r2,
{
    let whole = d1 + r1;
    assert(whole[d1.len() as int] == r1[0]);
    assert((d2 + r2)[d2.len() as int] == r2[0]);
    if d1.len() < d2.len() {
        assert((d2 + r2)[d1.len() as int] == d2[d1.len() as int]);
    } else if d2.len() < d1.len() {
        assert(whole[d2.len() as int] == d1[d2.len() as int]);
    }
    assert(whole.take(d1.len() as int) =~= d1);
    assert((d2 + r2).take(d2.len() as int) =~= d2);
    assert(whole.skip(d1.len() as int) =~= r1);
    assert((d2 + r2).skip(d2.len() as int) =~= r2);
}

/// The number that a text of decimal digits writes, its first digit being the most significant.
pub open spec fn numeral_value(s: Seq<char>) -> nat
    decreases s.len(),
{
    if s.len() == 0 {
        0
    } else {
        numeral_value(s.drop_last()) * 10 + (s.last() as nat - '0' as nat) as nat
    }
}

/// How many digits a text begins with.
pub open spec fn digit_run(s: Seq<char>) -> nat
    decreases s.len(),
{
    if s.len() == 0 || !is_digit(s[0]) {
        0
    } else {
        1 + digit_run(s.drop_first())
    }
}

/// Whether a text writes `n` in decimal: digits alone, no needless zero in front, and the
/// value `n`.
pub open spec fn writes(s: Seq<char>, n: nat) -> bool {
    &&& s.len() >= 1
    &&& forall|i: int| 0 <= i < s.len() ==> '0' <= #[trigger] s[i] <= '9'
    &&& s.len() >= 2 ==> s[0] != '0'
    &&& numeral_value(s) == n
}

/// A numeral reads back as the number that it was made from.
pub proof fn law_decimal_reads_back(n: nat)
    ensures
        writes(decimal(n), n),
    decreases n,
{
    lemma_decimal_digits(n);
    assert forall|i: int| 0 <= i < decimal(n).len() implies '0' <= #[trigger] decimal(n)[i]
        <= '9' by {
        assert(is_digit(decimal(n)[i]));
    }
    if n >= 10 {
        law_decimal_reads_back(n / 10);
        assert(decimal(n).drop_last() =~= decimal(n / 10));
        lemma_first_digit(n / 10);
    } else {
        assert(decimal(n).drop_last() =~= Seq::<char>::empty());
        assert(numeral_value(Seq::<char>::empty()) == 0);
    }
}

proof fn lemma_first_digit(n: nat)
    requires
        n > 0,
    ensures
        decimal(n).len() >= 1,
        decimal(n)[0] != '0',
    decreases n,
{
    if n >= 10 {
        lemma_first_digit(n / 10);
    }
}

/// A signed numeral reads back as the number that it was made from: a `-` in front of a
/// negative number, and else nothing, and then the magnitude.
pub proof fn law_signed_decimal_reads_back(i: int)
    ensures
        i >= 0 ==> writes(signed_decimal(i), i as nat),
        i < 0 ==> signed_decimal(i).len() > 0 && signed_decimal(i)[0] == '-' && writes(
            signed_decimal(i).skip(1),
            (-i) as nat,
        ),
{
    if i >= 0 {
        law_decimal_reads_back(i as nat);
    } else {
        law_decimal_reads_back((-i) as nat);
        assert(signed_decimal(i).skip(1) =~= decimal((-i) as nat));
    }
}

/// Where digits are followed by nothing or by something that is no digit, they are the run of
/// digits that the text begins with.
pub proof fn lemma_digit_run(digits: Seq<char>, rest: Seq<char>)
    requires
        all_digits(digits),
        rest.len() > 0 ==> !is_digit(rest[0]),
    ensures
        digit_run(digits + rest) == digits.len(),
    decreases digits.len(),
{
    if digits.len() == 0 {
        assert(digits + rest =~= rest);
    } else {
        assert((digits + rest)[0] == digits[0] && is_digit(digits[0]));
        assert((digits + rest).drop_first() =~= digits.drop_first() + rest);
        lemma_digit_run(digits.drop_first(), rest);
    }
}

/// The text of one digit.
fn digit_text(d: u64) -> (r: &'static str)
    requires
        d < 10,
    ensures
        r@ == seq![digit_char(d as nat)],
{
    proof {
        reveal_strlit("0");
        reveal_strlit("1");
        reveal_strlit("2");
        reveal_strlit("3");
        reveal_strlit("4");
        reveal_strlit("5");
        reveal_strlit("6");
        reveal_strlit("7");
        reveal_strlit("8");
        reveal_strlit("9");
    }
    match d {
        0 => "0",
        1 => "1",
        2 => "2",
        3 => "3",
        4 => "4",
        5 => "5",
        6 => "6",
        7 => "7",
        8 => "8",
        _ => "9",
    }
}

/// Appends the decimal numeral of `n`.
pub fn push_decimal(text: &mut String, n: u64)
    ensures
        final(text)@ == old(text)@ + decimal(n as nat),
    decreases n,
{
    if n >= 10 {
        push_decimal(text, n / 10);
    }
    text.append(digit_text(n % 10));
    assert(text@ =~= old(text)@ + decimal(n as nat));
}

/// Appends the signed decimal numeral of `i`.
pub fn push_signed_decimal(text: &mut String, i: i32)
    ensures
        final(text)@ == old(text)@ + signed_decimal(i as int),
{
    if i < 0 {
        proof {
            reveal_strlit("-");
        }
        text.append("-");
        let magnitude: i64 = -(i as i64);
        push_decimal(text, magnitude as u64);
    } else {
        push_decimal(text, i as u64);
    }
    assert(text@ =~= old(text)@ + signed_decimal(i as int));
}

} // verus!
