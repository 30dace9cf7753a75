//! What the library knows of HTTP: status codes and byte ranges.

use vstd::prelude::*;
use vstd::string::*;

use crate::text::{push_decimal, push_signed_decimal};
use crate::text::{decimal, digit_run, is_digit, numeral_value, signed_decimal, writes};
use crate::text::{law_decimal_reads_back, law_signed_decimal_reads_back, lemma_digit_run};
use crate::text::{lemma_decimal_digits, lemma_digits_then_other, lemma_signed_decimal_injective};

verus! {

/// The status code of a response that carries the whole resource.
pub const OK: u16 = 200;

/// The status code of a response that carries the requested part of the resource.
pub const PARTIAL_CONTENT: u16 = 206;

/// The reason phrase that `reqwest::StatusCode` writes behind the code.
pub uninterp spec fn status_reason(code: u16) -> Seq<char>;

/// The text of a status: the code, a space, the reason phrase.
pub open spec fn status_text(code: u16) -> Seq<char> {
    decimal(code as nat) + seq![' '] + status_reason(code)
}

/// Whether a status code lies in the success class.
pub open spec fn in_success_class(code: u16) -> bool {
    200 <= code <= 299
}

/// `reqwest::StatusCode::is_success`: the code lies between 200 and 299.
#[verifier::external_body]
fn status_is_success(code: u16) -> (success: bool)
    requires
        100 <= code <= 999,
    ensures
        success == in_success_class(code),
{
    reqwest::StatusCode::from_u16(code).unwrap().is_success()
}

/// The `Display` text of a `reqwest::StatusCode`: the code in decimal, a space, and a phrase
/// that depends on the code alone (the phrases themselves are not stated).
#[verifier::external_body]
fn status_to_string(code: u16) -> (text: String)
    requires
        100 <= code <= 999,
    ensures
        text@ == decimal(code as nat) + seq![' '] + status_reason(code),
{
    reqwest::StatusCode::from_u16(code).unwrap().to_string()
}

/// The status of a response: a three-digit code.
#[derive(Clone, Copy, Debug)]
pub struct HttpStatus {
    code: u16,
}

impl View for HttpStatus {
    type V = u16;

    closed spec fn view(&self) -> u16 {
        self.code
    }
}

impl HttpStatus {
    #[verifier::type_invariant]
    spec fn three_digits(self) -> bool {
        100 <= self.code <= 999
    }

    /// The status with the given code, where there is one.
    pub fn from_u16(code: u16) -> (status: Option<HttpStatus>)
        ensures
            status is Some <==> 100 <= code <= 999,
            status matches Some(s) ==> s@ == code,
    {
        if 100 <= code && code <= 999 {
            Some(HttpStatus { code })
        } else {
            None
        }
    }

    /// Whether the status lies in the success class.
    pub fn is_success(&self) -> (success: bool)
        ensures
            success == in_success_class(self@),
    {
        proof {
            use_type_invariant(self);
        }
        status_is_success(self.code)
    }

    /// Whether the status has the given code.
    pub fn has_code(&self, code: u16) -> (same: bool)
        ensures
            same == (self@ == code),
    {
        self.code == code
    }

    /// The text of the status.
    pub fn text(&self) -> (text: String)
        ensures
            text@ == status_text(self@),
    {
        proof {
            use_type_invariant(self);
        }
        status_to_string(self.code)
    }
}

/// The value of the `Range` header that asks for the bytes from `first` to `last`, both
/// included.
pub open spec fn range_header(first: int, last: int) -> Seq<char> {
    "bytes="@ + signed_decimal(first) + seq!['-'] + signed_decimal(last)
}

/// The range header for `len` bytes from `offset` on.
pub fn byte_range(offset: usize, len: usize) -> (range: String)
    requires
        1 <= offset + len <= usize::MAX,
    ensures
        range@ == range_header(offset as int, offset + len - 1),
{
    let mut range = String::from_str("bytes=");
    push_decimal(&mut range, offset as u64);
    proof {
        reveal_strlit("-");
    }
    range.append("-");
    push_decimal(&mut range, (offset + len - 1) as u64);
    assert(range@ =~= range_header(offset as int, offset + len - 1));
    range
}

/// The range header for `len` bytes from `offset` on, over signed numbers.
pub fn signed_byte_range(offset: i32, len: i32) -> (range: String)
    requires
        i32::MIN < offset + len <= i32::MAX,
    ensures
        range@ == range_header(offset as int, offset + len - 1),
{
    let mut range = String::from_str("bytes=");
    push_signed_decimal(&mut range, offset);
    proof {
        reveal_strlit("-");
    }
    range.append("-");
    push_signed_decimal(&mut range, offset + len - 1);
    assert(range@ =~= range_header(offset as int, offset + len - 1));
    range
}

/// A range header determines the first and the last byte that it asks for.
pub proof fn law_range_header_is_unambiguous(first1: int, last1: int, first2: int, last2: int)
    requires
        range_header(first1, last1) == range_header(first2, last2),
    ensures
        first1 == first2,
        last1 == last2,
{
    reveal_strlit("bytes=");
    let prefix = "bytes="@;
    let r1 = seq!['-'] + signed_decimal(last1);
    let r2 = seq!['-'] + signed_decimal(last2);
    let d1 = decimal(if first1 < 0 { (-first1) as nat } else { first1 as nat });
    let d2 = decimal(if first2 < 0 { (-first2) as nat } else { first2 as nat });
    lemma_decimal_digits(if first1 < 0 { (-first1) as nat } else { first1 as nat });
    lemma_decimal_digits(if first2 < 0 { (-first2) as nat } else { first2 as nat });
    let h1 = range_header(first1, last1).skip(6);
    let h2 = range_header(first2, last2).skip(6);
    assert(h1 =~= signed_decimal(first1) + r1);
    assert(h2 =~= signed_decimal(first2) + r2);
    if first1 < 0 && first2 < 0 {
        assert(h1.skip(1) =~= d1 + r1);
        assert(h2.skip(1) =~= d2 + r2);
        lemma_digits_then_other(d1, r1, d2, r2);
    } else if first1 >= 0 && first2 >= 0 {
        lemma_digits_then_other(d1, r1, d2, r2);
    } else if first1 < 0 {
        assert(h1[0] == '-' && h2[0] == d2[0] && is_digit(d2[0]));
    } else {
        assert(h2[0] == '-' && h1[0] == d1[0] && is_digit(d1[0]));
    }
    assert(signed_decimal(first1) == signed_decimal(first2));
    lemma_signed_decimal_injective(first1, first2);
    assert(r1.skip(1) =~= signed_decimal(last1));
    assert(r2.skip(1) =~= signed_decimal(last2));
    lemma_signed_decimal_injective(last1, last2);
}

/// The text of a status begins with the three digits of its code; a space follows, and then
/// the reason phrase.
pub proof fn law_status_text_begins_with_the_code(code: u16)
    requires
        100 <= code <= 999,
    ensures
        status_text(code).len() >= 4,
        status_text(code)[0] as int == '0' as int + code / 100,
        status_text(code)[1] as int == '0' as int + code / 10 % 10,
        status_text(code)[2] as int == '0' as int + code % 10,
        status_text(code)[3] == ' ',
        status_text(code).skip(4) == status_reason(code),
{
    reveal_with_fuel(decimal, 3);
    let digits = decimal(code as nat);
    assert(digits.len() == 3);
    assert(status_text(code).take(3) =~= digits);
    assert(forall|i: int| 0 <= i < 3 ==> status_text(code)[i] == digits[i]);
    assert(status_text(code).skip(4) =~= status_reason(code));
}

/// The success class has exactly the codes whose first digit is a two.
pub proof fn law_success_class_is_the_two_hundreds(code: u16)
    requires
        100 <= code <= 999,
    ensures
        in_success_class(code) <==> code / 100 == 2,
{
}

/// A range header reads back as the two numbers that it was made from: behind `bytes=` stand
/// the number of the first byte, a `-`, and the number of the last byte, in this order. A
/// number below zero has a sign of its own.
pub proof fn law_range_header_reads_back(first: int, last: int)
    ensures
        ({
            let header = range_header(first, last);
            let sign: int = if first < 0 {
                1
            } else {
                0
            };
            let numbers = header.skip(6 + sign);
            let dash = digit_run(numbers) as int;
            let behind = numbers.skip(dash + 1);
            &&& header.len() > 6 + sign
            &&& header.take(6) == "bytes="@
            &&& first < 0 ==> header[6] == '-'
            &&& writes(numbers.take(dash), if first < 0 { (-first) as nat } else { first as nat })
            &&& dash < numbers.len() && numbers[dash] == '-'
            &&& last >= 0 ==> writes(behind, last as nat)
            &&& last < 0 ==> behind.len() > 0 && behind[0] == '-' && writes(
                behind.skip(1),
                (-last) as nat,
            )
        }),
{
    reveal_strlit("bytes=");
    let header = range_header(first, last);
    let size = if first < 0 {
        (-first) as nat
    } else {
        first as nat
    };
    let sign: int = if first < 0 {
        1
    } else {
        0
    };
    let digits = decimal(size);
    let rest = seq!['-'] + signed_decimal(last);
    law_decimal_reads_back(size);
    lemma_decimal_digits(size);
    law_signed_decimal_reads_back(last);
    let numbers = header.skip(6 + sign);
    assert(numbers =~= digits + rest);
    lemma_digit_run(digits, rest);
    assert(header.take(6) =~= "bytes="@);
    assert(numbers.take(digits.len() as int) =~= digits);
    assert(numbers.skip(digits.len() as int + 1) =~= signed_decimal(last));
}

/// The range header for `len` bytes from `offset` on names `offset` as the first byte, and so
/// late a last byte that `len` bytes are asked for.
pub proof fn law_range_header_counts_its_bytes(offset: nat, len: nat)
    requires
        len > 0,
    ensures
        ({
            let numbers = range_header(offset as int, offset + len - 1).skip(6);
            let dash = digit_run(numbers) as int;
            &&& numeral_value(numbers.take(dash)) == offset
            &&& numeral_value(numbers.skip(dash + 1)) - numeral_value(numbers.take(dash)) + 1
                == len
        }),
{
    law_range_header_reads_back(offset as int, offset + len - 1);
}

} // verus!
