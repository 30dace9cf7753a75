//! How deep a bencoded file is nested.

use vstd::prelude::*;

verus! {

/// The deepest nesting of lists and dictionaries that a torrent file is read with. The parser
/// recurses once for each level, and a file nested much deeper would exhaust the stack of a
/// thread of the default size.
pub const MAX_NESTING: usize = 768;

/// `l`: a list begins.
pub const LIST: u8 = 0x6c;

/// `d`: a dictionary begins.
pub const DICTIONARY: u8 = 0x64;

/// `e`: a list, a dictionary or an integer ends.
pub const END: u8 = 0x65;

/// `i`: an integer begins.
pub const INTEGER: u8 = 0x69;

/// `:`: the length of a byte string ends.
pub const COLON: u8 = 0x3a;

/// `0`: the first decimal digit.
pub const ZERO: u8 = 0x30;

/// `9`: the last decimal digit.
pub const NINE: u8 = 0x39;

/// `+`: a sign.
pub const PLUS: u8 = 0x2b;

/// `-`: a sign.
pub const MINUS: u8 = 0x2d;

/// Whether a byte is a decimal digit.
pub open spec fn is_digit_byte(b: u8) -> bool {
    ZERO <= b <= NINE
}

/// Whether a byte can stand in an integer.
pub open spec fn is_integer_byte(b: u8) -> bool {
    is_digit_byte(b) || b == PLUS || b == MINUS
}

/// Where the run of digits from `pos` on ends.
pub open spec fn digits_end(bytes: Seq<u8>, pos: int) -> int
    decreases bytes.len() - pos,
{
    if 0 <= pos < bytes.len() && is_digit_byte(bytes[pos]) {
        digits_end(bytes, pos + 1)
    } else {
        pos
    }
}

/// Where the run of digits and signs from `pos` on ends.
pub open spec fn integer_bytes_end(bytes: Seq<u8>, pos: int) -> int
    decreases bytes.len() - pos,
{
    if 0 <= pos < bytes.len() && is_integer_byte(bytes[pos]) {
        integer_bytes_end(bytes, pos + 1)
    } else {
        pos
    }
}

/// The number that the digits between two positions write.
pub open spec fn number(bytes: Seq<u8>, from: int, to: int) -> nat
    decreases to - from,
{
    if to <= from {
        0
    } else {
        number(bytes, from, to - 1) * 10 + (bytes[to - 1] - ZERO) as nat
    }
}

/// Where the byte string at `pos` ends: a length in decimal, a colon, and as many bytes. There
/// is no end where the string is malformed or cut off.
pub open spec fn string_end(bytes: Seq<u8>, pos: int) -> Option<int> {
    let colon = digits_end(bytes, pos);
    let end = colon + 1 + number(bytes, pos, colon);
    if colon < bytes.len() && bytes[colon] == COLON && end <= bytes.len() {
        Some(end)
    } else {
        None
    }
}

/// Where the integer at `pos` ends: an `i`, digits and signs, and an `e`. There is no end where
/// it is malformed or cut off.
pub open spec fn integer_end(bytes: Seq<u8>, pos: int) -> Option<int> {
    let last = integer_bytes_end(bytes, pos + 1);
    if last < bytes.len() && bytes[last] == END {
        Some(last + 1)
    } else {
        None
    }
}

/// A run of digits, or of digits and signs, ends where it begins or behind that, and within the
/// bytes.
pub proof fn lemma_run_ends(bytes: Seq<u8>, pos: int)
    requires
        0 <= pos <= bytes.len(),
    ensures
        pos <= digits_end(bytes, pos) <= bytes.len(),
        pos <= integer_bytes_end(bytes, pos) <= bytes.len(),
    decreases bytes.len() - pos,
{
    if pos < bytes.len() {
        lemma_run_ends(bytes, pos + 1);
    }
}

/// Whether the value that goes on at `pos`, `depth` levels down, stays within `limit` levels.
/// A list or a dictionary goes one level down, and its end one level up. The scan ends with
/// the value, at the end of the bytes, or at the first malformed token.
pub open spec fn nesting_from(bytes: Seq<u8>, pos: int, depth: nat, limit: nat) -> bool
    decreases bytes.len() - pos,
{
    proof {
        if 0 <= pos < bytes.len() {
            lemma_run_ends(bytes, pos);
            lemma_run_ends(bytes, pos + 1);
        }
    }
    if !(0 <= pos < bytes.len()) {
        true
    } else if bytes[pos] == LIST || bytes[pos] == DICTIONARY {
        depth < limit && nesting_from(bytes, pos + 1, depth + 1, limit)
    } else if bytes[pos] == END {
        depth <= 1 || nesting_from(bytes, pos + 1, (depth - 1) as nat, limit)
    } else {
        let end = if bytes[pos] == INTEGER {
            integer_end(bytes, pos)
        } else if is_digit_byte(bytes[pos]) {
            string_end(bytes, pos)
        } else {
            None
        };
        match end {
            Some(next) => depth == 0 || nesting_from(bytes, next, depth, limit),
            None => true,
        }
    }
}

/// Whether the bencoded value at the start of `bytes` is nested at most `limit` levels deep.
pub open spec fn nesting_within(bytes: Seq<u8>, limit: nat) -> bool {
    nesting_from(bytes, 0, 0, limit)
}

proof fn lemma_wider_limit(bytes: Seq<u8>, pos: int, depth: nat, limit: nat, wider: nat)
    requires
        limit <= wider,
        nesting_from(bytes, pos, depth, limit),
    ensures
        nesting_from(bytes, pos, depth, wider),
    decreases bytes.len() - pos,
{
    if 0 <= pos < bytes.len() {
        lemma_run_ends(bytes, pos);
        lemma_run_ends(bytes, pos + 1);
        if bytes[pos] == LIST || bytes[pos] == DICTIONARY {
            lemma_wider_limit(bytes, pos + 1, depth + 1, limit, wider);
        } else if bytes[pos] == END {
            if depth > 1 {
                lemma_wider_limit(bytes, pos + 1, (depth - 1) as nat, limit, wider);
            }
        } else if depth > 0 {
            let end = if bytes[pos] == INTEGER {
                integer_end(bytes, pos)
            } else if is_digit_byte(bytes[pos]) {
                string_end(bytes, pos)
            } else {
                None
            };
            if let Some(next) = end {
                lemma_wider_limit(bytes, next, depth, limit, wider);
            }
        }
    }
}

/// What is nested within a limit is nested within every wider one.
pub proof fn law_nesting_within_a_wider_limit(bytes: Seq<u8>, limit: nat, wider: nat)
    requires
        limit <= wider,
        nesting_within(bytes, limit),
    ensures
        nesting_within(bytes, wider),
{
    lemma_wider_limit(bytes, 0, 0, limit, wider);
}

/// Where the byte string at `pos` ends.
fn find_string_end(bytes: &[u8], pos: usize) -> (end: Option<usize>)
    requires
        pos < bytes@.len(),
    ensures
        match end {
            Some(next) => string_end(bytes@, pos as int) == Some(next as int),
            None => string_end(bytes@, pos as int) is None,
        },
{
    let mut at: usize = pos;
    let mut length: usize = 0;
    let mut too_long: bool = false;
    while at < bytes.len() && ZERO <= bytes[at] && bytes[at] <= NINE
        invariant
            pos <= at <= bytes@.len(),
            digits_end(bytes@, at as int) == digits_end(bytes@, pos as int),
            too_long ==> number(bytes@, pos as int, at as int) > bytes@.len(),
            !too_long ==> length == number(bytes@, pos as int, at as int) && length
                <= bytes@.len(),
        decreases bytes@.len() - at,
    {
        if !too_long {
            let longer: u128 = length as u128 * 10 + (bytes[at] - ZERO) as u128;
            if longer <= bytes.len() as u128 {
                length = longer as usize;
            } else {
                too_long = true;
            }
        }
        at += 1;
    }
    if at < bytes.len() && bytes[at] == COLON && !too_long && length <= bytes.len() - at - 1 {
        Some(at + 1 + length)
    } else {
        None
    }
}

/// Where the integer at `pos` ends.
fn find_integer_end(bytes: &[u8], pos: usize) -> (end: Option<usize>)
    requires
        pos < bytes@.len(),
    ensures
        match end {
            Some(next) => integer_end(bytes@, pos as int) == Some(next as int),
            None => integer_end(bytes@, pos as int) is None,
        },
{
    let len: usize = bytes.len();
    let mut at: usize = pos + 1;
    while at < len && (ZERO <= bytes[at] && bytes[at] <= NINE || bytes[at] == PLUS
        || bytes[at] == MINUS)
        invariant
            len == bytes@.len(),
            pos < at <= len,
            integer_bytes_end(bytes@, at as int) == integer_bytes_end(bytes@, pos + 1),
        decreases len - at,
    {
        at += 1;
    }
    if at < len && bytes[at] == END {
        Some(at + 1)
    } else {
        None
    }
}

/// Whether the bencoded value at the start of `bytes` is nested at most `limit` levels deep.
pub fn is_nesting_within(bytes: &[u8], limit: usize) -> (within: bool)
    ensures
        within == nesting_within(bytes@, limit as nat),
{
    let mut pos: usize = 0;
    let mut depth: usize = 0;
    while pos < bytes.len()
        invariant
            pos <= bytes@.len(),
            depth <= limit,
            nesting_from(bytes@, pos as int, depth as nat, limit as nat) == nesting_within(
                bytes@,
                limit as nat,
            ),
        decreases bytes@.len() - pos,
    {
        proof {
            lemma_run_ends(bytes@, pos as int);
            lemma_run_ends(bytes@, pos + 1);
        }
        let b: u8 = bytes[pos];
        if b == LIST || b == DICTIONARY {
            if depth >= limit {
                return false;
            }
            depth += 1;
            pos += 1;
        } else if b == END {
            if depth <= 1 {
                return true;
            }
            depth -= 1;
            pos += 1;
        } else {
            let end = if b == INTEGER {
                find_integer_end(bytes, pos)
            } else if ZERO <= b && b <= NINE {
                find_string_end(bytes, pos)
            } else {
                None
            };
            match end {
                Some(next) => {
                    if depth == 0 {
                        return true;
                    }
                    pos = next;
                },
                None => {
                    return true;
                },
            }
        }
    }
    true
}

/// A bencoded value.
pub enum Bencode {
    /// An integer.
    Integer(int),
    /// A byte string.
    Bytes(Seq<u8>),
    /// A list of values.
    List(Seq<Bencode>),
    /// A dictionary: keys, each with its value.
    Dictionary(Seq<(Seq<u8>, Bencode)>),
}

/// The decimal digits of `n`, as ASCII.
pub open spec fn ascii_digits(n: nat) -> Seq<u8>
    decreases n,
{
    if n < 10 {
        seq![(0x30 + n) as u8]
    } else {
        ascii_digits(n / 10).push((0x30 + n % 10) as u8)
    }
}

/// The bytes of a bencoded byte string.
pub open spec fn encoded_bytes(text: Seq<u8>) -> Seq<u8> {
    ascii_digits(text.len()) + seq![0x3au8] + text
}

/// The bytes of a bencoded integer.
pub open spec fn encoded_integer(i: int) -> Seq<u8> {
    seq![0x69u8] + (if i < 0 {
        seq![0x2du8] + ascii_digits((-i) as nat)
    } else {
        ascii_digits(i as nat)
    }) + seq![0x65u8]
}

/// The bytes of a bencoded value.
pub open spec fn encoded(value: Bencode) -> Seq<u8>
    decreases value,
{
    match value {
        Bencode::Integer(i) => encoded_integer(i),
        Bencode::Bytes(text) => encoded_bytes(text),
        Bencode::List(items) => seq![0x6cu8] + encoded_items(items) + seq![0x65u8],
        Bencode::Dictionary(entries) => seq![0x64u8] + encoded_entries(entries) + seq![0x65u8],
    }
}

/// The bytes of the items of a list.
pub open spec fn encoded_items(items: Seq<Bencode>) -> Seq<u8>
    decreases items,
{
    if items.len() == 0 {
        Seq::empty()
    } else {
        encoded(items[0]) + encoded_items(items.subrange(1, items.len() as int))
    }
}

/// The bytes of the entries of a dictionary.
pub open spec fn encoded_entries(entries: Seq<(Seq<u8>, Bencode)>) -> Seq<u8>
    decreases entries,
{
    if entries.len() == 0 {
        Seq::empty()
    } else {
        encoded_bytes(entries[0].0) + encoded(entries[0].1) + encoded_entries(
            entries.subrange(1, entries.len() as int),
        )
    }
}

/// How many lists and dictionaries lie one within the other in a value.
pub open spec fn levels(value: Bencode) -> nat
    decreases value,
{
    match value {
        Bencode::Integer(_) => 0,
        Bencode::Bytes(_) => 0,
        Bencode::List(items) => 1 + item_levels(items),
        Bencode::Dictionary(entries) => 1 + entry_levels(entries),
    }
}

/// The most levels that an item of a list has.
pub open spec fn item_levels(items: Seq<Bencode>) -> nat
    decreases items,
{
    if items.len() == 0 {
        0
    } else {
        larger(levels(items[0]), item_levels(items.subrange(1, items.len() as int)))
    }
}

/// The most levels that a value of a dictionary has.
pub open spec fn entry_levels(entries: Seq<(Seq<u8>, Bencode)>) -> nat
    decreases entries,
{
    if entries.len() == 0 {
        0
    } else {
        larger(levels(entries[0].1), entry_levels(entries.subrange(1, entries.len() as int)))
    }
}

/// The larger of two numbers.
pub open spec fn larger(a: nat, b: nat) -> nat {
    if a < b {
        b
    } else {
        a
    }
}

/// Whether `part` stands in `bytes` from `pos` on.
spec fn stands_at(bytes: Seq<u8>, pos: int, part: Seq<u8>) -> bool {
    &&& 0 <= pos
    &&& pos + part.len() <= bytes.len()
    &&& forall|i: int| 0 <= i < part.len() ==> #[trigger] part[i] == bytes[pos + i]
}

proof fn lemma_parts_stand(bytes: Seq<u8>, pos: int, first: Seq<u8>, second: Seq<u8>)
    requires
        stands_at(bytes, pos, first + second),
    ensures
        stands_at(bytes, pos, first),
        stands_at(bytes, pos + first.len(), second),
{
    let whole = first + second;
    assert forall|i: int| 0 <= i < first.len() implies #[trigger] first[i] == bytes[pos + i] by {
        assert(whole[i] == first[i]);
    }
    assert forall|i: int| 0 <= i < second.len() implies #[trigger] second[i] == bytes[pos
        + first.len() + i] by {
        assert(whole[first.len() + i] == second[i]);
    }
}

proof fn lemma_runs_end(bytes: Seq<u8>, pos: int, end: int)
    requires
        0 <= pos <= end < bytes.len(),
    ensures
        (forall|i: int| pos <= i < end ==> is_digit_byte(#[trigger] bytes[i]))
            && !is_digit_byte(bytes[end]) ==> digits_end(bytes, pos) == end,
        (forall|i: int| pos <= i < end ==> is_integer_byte(#[trigger] bytes[i]))
            && !is_integer_byte(bytes[end]) ==> integer_bytes_end(bytes, pos) == end,
    decreases end - pos,
{
    if pos < end {
        lemma_runs_end(bytes, pos + 1, end);
    }
}

proof fn lemma_ascii_digits(n: nat)
    ensures
        ascii_digits(n).len() >= 1,
        forall|i: int| 0 <= i < ascii_digits(n).len() ==> is_digit_byte(#[trigger] ascii_digits(n)[i]),
    decreases n,
{
    if n >= 10 {
        lemma_ascii_digits(n / 10);
    }
}

proof fn lemma_number_reads_back(bytes: Seq<u8>, pos: int, n: nat)
    requires
        stands_at(bytes, pos, ascii_digits(n)),
    ensures
        number(bytes, pos, pos + ascii_digits(n).len()) == n,
    decreases n,
{
    lemma_ascii_digits(n);
    let digits = ascii_digits(n);
    let last = pos + digits.len() - 1;
    assert(digits[digits.len() - 1] == bytes[last]);
    if n >= 10 {
        let front = ascii_digits(n / 10);
        assert(digits =~= front + seq![(0x30 + n % 10) as u8]);
        lemma_parts_stand(bytes, pos, front, seq![(0x30 + n % 10) as u8]);
        lemma_number_reads_back(bytes, pos, n / 10);
    } else {
        assert(number(bytes, pos, pos) == 0);
    }
}

proof fn lemma_bytes_token(bytes: Seq<u8>, pos: int, text: Seq<u8>)
    requires
        stands_at(bytes, pos, encoded_bytes(text)),
    ensures
        pos < bytes.len(),
        is_digit_byte(bytes[pos]),
        string_end(bytes, pos) == Some(pos + encoded_bytes(text).len()),
{
    let digits = ascii_digits(text.len());
    lemma_ascii_digits(text.len());
    let colon = pos + digits.len();
    assert(encoded_bytes(text) =~= digits + (seq![0x3au8] + text));
    lemma_parts_stand(bytes, pos, digits, seq![0x3au8] + text);
    assert((seq![0x3au8] + text)[0] == bytes[colon + 0]);
    assert(digits[0] == bytes[pos + 0]);
    assert forall|i: int| pos <= i < colon implies is_digit_byte(#[trigger] bytes[i]) by {
        assert(digits[i - pos] == bytes[pos + (i - pos)]);
    }
    lemma_runs_end(bytes, pos, colon);
    lemma_number_reads_back(bytes, pos, text.len());
}

proof fn lemma_integer_token(bytes: Seq<u8>, pos: int, i: int)
    requires
        stands_at(bytes, pos, encoded_integer(i)),
    ensures
        pos < bytes.len(),
        bytes[pos] == 0x69,
        integer_end(bytes, pos) == Some(pos + encoded_integer(i).len()),
{
    let size = if i < 0 {
        (-i) as nat
    } else {
        i as nat
    };
    lemma_ascii_digits(size);
    let inner = if i < 0 {
        seq![0x2du8] + ascii_digits(size)
    } else {
        ascii_digits(size)
    };
    let end = pos + 1 + inner.len();
    assert(encoded_integer(i) =~= seq![0x69u8] + (inner + seq![0x65u8]));
    lemma_parts_stand(bytes, pos, seq![0x69u8], inner + seq![0x65u8]);
    lemma_parts_stand(bytes, pos + 1, inner, seq![0x65u8]);
    assert(seq![0x69u8][0] == bytes[pos + 0]);
    assert(seq![0x65u8][0] == bytes[end + 0]);
    assert forall|k: int| pos + 1 <= k < end implies is_integer_byte(#[trigger] bytes[k]) by {
        assert(inner[k - pos - 1] == bytes[pos + 1 + (k - pos - 1)]);
        if i < 0 && k > pos + 1 {
            assert(inner[k - pos - 1] == ascii_digits(size)[k - pos - 2]);
        }
    }
    lemma_runs_end(bytes, pos + 1, end);
}

proof fn lemma_scan_value(bytes: Seq<u8>, pos: int, value: Bencode, depth: nat, limit: nat)
    requires
        stands_at(bytes, pos, encoded(value)),
        depth <= limit,
    ensures
        nesting_from(bytes, pos, depth, limit) <==> depth + levels(value) <= limit && (depth == 0
            || nesting_from(bytes, pos + encoded(value).len(), depth, limit)),
    decreases value,
{
    match value {
        Bencode::Integer(i) => {
            lemma_integer_token(bytes, pos, i);
        },
        Bencode::Bytes(text) => {
            lemma_bytes_token(bytes, pos, text);
        },
        Bencode::List(items) => {
            let inner = encoded_items(items);
            let end = pos + 1 + inner.len();
            assert(encoded(value) =~= seq![0x6cu8] + (inner + seq![0x65u8]));
            lemma_parts_stand(bytes, pos, seq![0x6cu8], inner + seq![0x65u8]);
            lemma_parts_stand(bytes, pos + 1, inner, seq![0x65u8]);
            assert(seq![0x6cu8][0] == bytes[pos + 0]);
            assert(seq![0x65u8][0] == bytes[end + 0]);
            if depth < limit {
                lemma_scan_items(bytes, pos + 1, items, depth + 1, limit);
            }
        },
        Bencode::Dictionary(entries) => {
            let inner = encoded_entries(entries);
            let end = pos + 1 + inner.len();
            assert(encoded(value) =~= seq![0x64u8] + (inner + seq![0x65u8]));
            lemma_parts_stand(bytes, pos, seq![0x64u8], inner + seq![0x65u8]);
            lemma_parts_stand(bytes, pos + 1, inner, seq![0x65u8]);
            assert(seq![0x64u8][0] == bytes[pos + 0]);
            assert(seq![0x65u8][0] == bytes[end + 0]);
            if depth < limit {
                lemma_scan_entries(bytes, pos + 1, entries, depth + 1, limit);
            }
        },
    }
}

proof fn lemma_scan_items(bytes: Seq<u8>, pos: int, items: Seq<Bencode>, depth: nat, limit: nat)
    requires
        stands_at(bytes, pos, encoded_items(items)),
        1 <= depth <= limit,
    ensures
        nesting_from(bytes, pos, depth, limit) <==> depth + item_levels(items) <= limit
            && nesting_from(bytes, pos + encoded_items(items).len(), depth, limit),
    decreases items,
{
    if items.len() > 0 {
        let rest = items.subrange(1, items.len() as int);
        let first = encoded(items[0]);
        lemma_parts_stand(bytes, pos, first, encoded_items(rest));
        lemma_scan_value(bytes, pos, items[0], depth, limit);
        lemma_scan_items(bytes, pos + first.len(), rest, depth, limit);
    }
}

proof fn lemma_scan_entries(
    bytes: Seq<u8>,
    pos: int,
    entries: Seq<(Seq<u8>, Bencode)>,
    depth: nat,
    limit: nat,
)
    requires
        stands_at(bytes, pos, encoded_entries(entries)),
        1 <= depth <= limit,
    ensures
        nesting_from(bytes, pos, depth, limit) <==> depth + entry_levels(entries) <= limit
            && nesting_from(bytes, pos + encoded_entries(entries).len(), depth, limit),
    decreases entries,
{
    if entries.len() > 0 {
        let rest = entries.subrange(1, entries.len() as int);
        let key = encoded_bytes(entries[0].0);
        let first = encoded(entries[0].1);
        assert(encoded_entries(entries) =~= key + (first + encoded_entries(rest)));
        lemma_parts_stand(bytes, pos, key, first + encoded_entries(rest));
        lemma_parts_stand(bytes, pos + key.len(), first, encoded_entries(rest));
        lemma_bytes_token(bytes, pos, entries[0].0);
        lemma_scan_value(bytes, pos + key.len(), entries[0].1, depth, limit);
        lemma_scan_entries(bytes, pos + key.len() + first.len(), rest, depth, limit);
    }
}

/// A bencoded value is found to be nested within a limit exactly where no more lists and
/// dictionaries than that lie one within the other in it, whatever its strings hold, and
/// whatever stands behind it.
pub proof fn law_nesting_counts_lists_and_dictionaries(
    value: Bencode,
    behind: Seq<u8>,
    limit: nat,
)
    ensures
        nesting_within(encoded(value) + behind, limit) <==> levels(value) <= limit,
{
    let bytes = encoded(value) + behind;
    assert(stands_at(bytes, 0, encoded(value)));
    lemma_scan_value(bytes, 0, value, 0, limit);
}

/// A torrent file is let through exactly where its values are nested at most 768 levels deep.
pub proof fn law_torrents_may_be_deep(value: Bencode, behind: Seq<u8>)
    ensures
        nesting_within(encoded(value) + behind, MAX_NESTING as nat) <==> levels(value) <= 768,
{
    law_nesting_counts_lists_and_dictionaries(value, behind, MAX_NESTING as nat);
}

/// How many of the bytes from `pos` on could begin a list or a dictionary.
pub open spec fn openers_from(bytes: Seq<u8>, pos: int) -> nat
    decreases bytes.len() - pos,
{
    if 0 <= pos < bytes.len() {
        openers_from(bytes, pos + 1) + (if bytes[pos] == 0x6c || bytes[pos] == 0x64 {
            1nat
        } else {
            0nat
        })
    } else {
        0
    }
}

proof fn lemma_fewer_openers(bytes: Seq<u8>, pos: int, next: int)
    requires
        0 <= pos <= next,
    ensures
        openers_from(bytes, next) <= openers_from(bytes, pos),
    decreases next - pos,
{
    if pos < next {
        lemma_fewer_openers(bytes, pos + 1, next);
    }
}

proof fn lemma_few_openers(bytes: Seq<u8>, pos: int, depth: nat, limit: nat)
    requires
        0 <= pos,
        depth + openers_from(bytes, pos) <= limit,
    ensures
        nesting_from(bytes, pos, depth, limit),
    decreases bytes.len() - pos,
{
    if pos < bytes.len() {
        lemma_run_ends(bytes, pos);
        lemma_run_ends(bytes, pos + 1);
        if bytes[pos] == LIST || bytes[pos] == DICTIONARY {
            lemma_few_openers(bytes, pos + 1, depth + 1, limit);
        } else if bytes[pos] == END {
            if depth > 1 {
                lemma_few_openers(bytes, pos + 1, (depth - 1) as nat, limit);
            }
        } else {
            let end = if bytes[pos] == INTEGER {
                integer_end(bytes, pos)
            } else if is_digit_byte(bytes[pos]) {
                string_end(bytes, pos)
            } else {
                None
            };
            if let Some(next) = end {
                lemma_fewer_openers(bytes, pos, next);
                lemma_few_openers(bytes, next, depth, limit);
            }
        }
    }
}

proof fn lemma_many_openers(bytes: Seq<u8>, pos: int, depth: nat, limit: nat)
    requires
        0 <= pos,
        depth <= limit,
        pos + (limit - depth) < bytes.len(),
        forall|i: int|
            pos <= i <= pos + (limit - depth) ==> #[trigger] bytes[i] == 0x6c || bytes[i] == 0x64,
    ensures
        !nesting_from(bytes, pos, depth, limit),
    decreases limit - depth,
{
    assert(bytes[pos] == 0x6c || bytes[pos] == 0x64);
    if depth < limit {
        lemma_many_openers(bytes, pos + 1, depth + 1, limit);
    }
}

/// Of any bytes, malformed or cut off: where no more than `limit` of them could begin a list or a
/// dictionary, they are nested within the limit; where more than `limit` of these stand at their
/// front, they are not.
pub proof fn law_nesting_of_any_bytes(bytes: Seq<u8>, limit: nat)
    ensures
        openers_from(bytes, 0) <= limit ==> nesting_within(bytes, limit),
        limit < bytes.len() && (forall|i: int|
            0 <= i <= limit ==> #[trigger] bytes[i] == 0x6c || bytes[i] == 0x64)
            ==> !nesting_within(bytes, limit),
{
    if openers_from(bytes, 0) <= limit {
        lemma_few_openers(bytes, 0, 0, limit);
    }
    if limit < bytes.len() && (forall|i: int|
        0 <= i <= limit ==> #[trigger] bytes[i] == 0x6c || bytes[i] == 0x64) {
        lemma_many_openers(bytes, 0, 0, limit);
    }
}

} // verus!
