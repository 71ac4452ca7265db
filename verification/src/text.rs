//! Plain ASCII text as bytes: decimal numbers, lines, fields and blanks.

use vstd::prelude::*;

verus! {

/// `b` is one of the digits `0` to `9`.
pub open spec fn is_digit(b: u8) -> bool {
    48 <= b <= 57
}

/// Every byte of `text` is a digit.
pub open spec fn all_digits(text: Seq<u8>) -> bool {
    forall|k: int| 0 <= k < text.len() ==> is_digit(#[trigger] text[k])
}

/// The number that the digits `text` write in base ten.
pub open spec fn digits_value(text: Seq<u8>) -> int
    decreases text.len(),
{
    if text.len() == 0 {
        0
    } else {
        digits_value(text.drop_last()) * 10 + (text.last() - 48)
    }
}

/// The digits of a number that may begin with a sign: `text` without that
/// sign.
pub open spec fn unsigned_part(text: Seq<u8>, minus: bool) -> Seq<u8> {
    if text.len() > 0 && (text[0] == 43 || (minus && text[0] == 45)) {
        text.skip(1)
    } else {
        text
    }
}

/// The number that `text` writes: an optional plus sign and at least one
/// digit, with a value of at most `max`.
pub open spec fn unsigned_number(text: Seq<u8>, max: int) -> Option<int> {
    let digits = unsigned_part(text, false);
    if digits.len() > 0 && all_digits(digits) && digits_value(digits) <= max {
        Some(digits_value(digits))
    } else {
        None
    }
}

/// The number that `text` writes: an optional plus or minus sign and at
/// least one digit, with a value from `min` to `max`.
pub open spec fn signed_number(text: Seq<u8>, min: int, max: int) -> Option<int> {
    let digits = unsigned_part(text, true);
    let value = if text.len() > 0 && text[0] == 45 {
        -digits_value(digits)
    } else {
        digits_value(digits)
    };
    if digits.len() > 0 && all_digits(digits) && min <= value <= max {
        Some(value)
    } else {
        None
    }
}

/// Appending a digit multiplies the value by ten and adds the digit.
proof fn lemma_digits_push(text: Seq<u8>, k: int)
    requires
        0 <= k < text.len(),
    ensures
        digits_value(text.take(k + 1)) == digits_value(text.take(k)) * 10 + (text[k] - 48),
        all_digits(text.take(k)) && is_digit(text[k]) ==> all_digits(text.take(k + 1)),
{
    assert(text.take(k + 1).drop_last() =~= text.take(k));
}

/// The value of a run of digits is not negative.
proof fn lemma_digits_positive(text: Seq<u8>)
    requires
        all_digits(text),
    ensures
        digits_value(text) >= 0,
    decreases text.len(),
{
    if text.len() > 0 {
        assert(is_digit(text[text.len() - 1]));
        lemma_digits_positive(text.drop_last());
    }
}

/// The value of a run of digits is at least that of any of its beginnings.
proof fn lemma_digits_grow(text: Seq<u8>, k: int)
    requires
        0 <= k <= text.len(),
        all_digits(text),
    ensures
        digits_value(text.take(k)) <= digits_value(text),
    decreases text.len() - k,
{
    if k < text.len() {
        lemma_digits_push(text, k);
        assert(is_digit(text[k]));
        lemma_digits_positive(text.take(k));
        lemma_digits_grow(text, k + 1);
    } else {
        assert(text.take(k) =~= text);
    }
}

/// A run of at most two digits writes a number below a hundred.
pub proof fn lemma_two_digits(text: Seq<u8>)
    requires
        text.len() <= 2,
        all_digits(text),
    ensures
        0 <= digits_value(text) <= 99,
        text.len() <= 1 ==> digits_value(text) <= 9,
{
    reveal_with_fuel(digits_value, 3);
    if text.len() >= 1 {
        assert(is_digit(text[text.len() - 1]));
    }
    if text.len() == 2 {
        assert(is_digit(text.drop_last()[0]));
    }
}

/// Reads the digits of `text` from index `from` on. Returns their value
/// where there is at least one byte, every byte is a digit and the value
/// does not exceed `max`.
fn read_digits(text: &[u8], from: usize, max: u128) -> (r: Option<u128>)
    requires
        from <= text@.len(),
        max <= u64::MAX,
    ensures
        r is Some == (text@.len() > from && all_digits(text@.skip(from as int)) && digits_value(
            text@.skip(from as int),
        ) <= max),
        r matches Some(value) ==> value == digits_value(text@.skip(from as int)),
{
    let ghost digits = text@.skip(from as int);
    if from >= text.len() {
        return None;
    }
    let mut value: u128 = 0;
    let mut at: usize = from;
    while at < text.len()
        invariant
            from <= at <= text@.len(),
            digits == text@.skip(from as int),
            max <= u64::MAX,
            value <= max,
            all_digits(digits.take(at - from)),
            value == digits_value(digits.take(at - from)),
        decreases text.len() - at,
    {
        let b = text[at];
        assert(digits[at - from] == b);
        if b < 48 || b > 57 {
            return None;
        }
        proof {
            lemma_digits_push(digits, at - from);
        }
        value = value * 10 + (b - 48) as u128;
        if value > max {
            proof {
                if all_digits(digits) {
                    lemma_digits_grow(digits, at - from + 1);
                }
            }
            return None;
        }
        at += 1;
    }
    assert(digits.take(at - from) =~= digits);
    Some(value)
}

/// Reads a count: an optional plus sign and digits, as the standard
/// library reads a `usize`.
pub fn parse_usize(text: &[u8]) -> (r: Option<usize>)
    ensures
        r is Some == unsigned_number(text@, usize::MAX as int) is Some,
        r matches Some(n) ==> unsigned_number(text@, usize::MAX as int) == Some(n as int),
{
    let from: usize = if text.len() > 0 && text[0] == 43 {
        1
    } else {
        0
    };
    assert(text@.skip(from as int) =~= unsigned_part(text@, false));
    match read_digits(text, from, usize::MAX as u128) {
        Some(value) => Some(value as usize),
        None => None,
    }
}

/// Reads a whole number: an optional sign and digits, as the standard
/// library reads an `i64`.
pub fn parse_i64(text: &[u8]) -> (r: Option<i64>)
    ensures
        r is Some == signed_number(text@, i64::MIN as int, i64::MAX as int) is Some,
        r matches Some(n) ==> signed_number(text@, i64::MIN as int, i64::MAX as int) == Some(
            n as int,
        ),
{
    let negative = text.len() > 0 && text[0] == 45;
    let from: usize = if text.len() > 0 && (text[0] == 43 || text[0] == 45) {
        1
    } else {
        0
    };
    assert(text@.skip(from as int) =~= unsigned_part(text@, true));
    if negative {
        match read_digits(text, from, 0x8000_0000_0000_0000) {
            Some(value) => {
                let magnitude: i128 = value as i128;
                let number: i128 = -magnitude;
                Some(number as i64)
            },
            None => None,
        }
    } else {
        match read_digits(text, from, 0x7fff_ffff_ffff_ffff) {
            Some(value) => Some(value as i64),
            None => None,
        }
    }
}

/// The line feed that ends a line.
pub const LINE_FEED: u8 = 10;

/// The carriage return that may stand before a line feed.
pub const CARRIAGE_RETURN: u8 = 13;

/// The index of the first byte `mark` in `text`, or the length of `text`
/// where there is none.
pub open spec fn first_index_of(text: Seq<u8>, mark: u8) -> int
    decreases text.len(),
{
    if text.len() == 0 || text[0] == mark {
        0
    } else {
        1 + first_index_of(text.skip(1), mark)
    }
}

/// The fields of `text` that the byte `mark` separates. There is one field
/// more than there are marks; a field may be empty.
pub open spec fn fields_of(text: Seq<u8>, mark: u8) -> Seq<Seq<u8>>
    decreases text.len(),
{
    let cut = first_index_of(text, mark);
    if 0 <= cut < text.len() {
        seq![text.take(cut)] + fields_of(text.skip(cut + 1), mark)
    } else {
        seq![text]
    }
}

/// `line` without the carriage return at its end, if it has one.
pub open spec fn without_return(line: Seq<u8>) -> Seq<u8> {
    if line.len() > 0 && line.last() == CARRIAGE_RETURN {
        line.drop_last()
    } else {
        line
    }
}

/// The lines of `text`. A line ends with a line feed, or with a carriage
/// return and a line feed; neither belongs to the line. The last line needs
/// no line feed, and an empty remainder is no line.
pub open spec fn lines_of(text: Seq<u8>) -> Seq<Seq<u8>>
    decreases text.len(),
{
    let cut = first_index_of(text, LINE_FEED);
    if text.len() == 0 {
        Seq::empty()
    } else if 0 <= cut < text.len() {
        seq![without_return(text.take(cut))] + lines_of(text.skip(cut + 1))
    } else {
        seq![text]
    }
}

/// The texts that the slices of `parts` hold.
pub open spec fn texts(parts: Seq<&[u8]>) -> Seq<Seq<u8>> {
    Seq::new(parts.len(), |k: int| parts[k]@)
}

/// Where no byte before index `cut` is the mark, and the text ends at `cut`
/// or has the mark there, `cut` is the first index of the mark.
proof fn lemma_first_index(text: Seq<u8>, mark: u8, cut: int)
    requires
        0 <= cut <= text.len(),
        forall|k: int| 0 <= k < cut ==> text[k] != mark,
        cut < text.len() ==> text[cut] == mark,
    ensures
        first_index_of(text, mark) == cut,
    decreases cut,
{
    if cut > 0 {
        let rest = text.skip(1);
        assert forall|k: int| 0 <= k < cut - 1 implies rest[k] != mark by {
            assert(rest[k] == text[k + 1]);
        }
        lemma_first_index(rest, mark, cut - 1);
    }
}

/// The index of the first byte `mark` in `text` from `from` on, or the
/// length of `text`.
fn find(text: &[u8], from: usize, mark: u8) -> (cut: usize)
    requires
        from <= text@.len(),
    ensures
        from <= cut <= text@.len(),
        cut - from == first_index_of(text@.skip(from as int), mark),
{
    let mut cut: usize = from;
    while cut < text.len() && text[cut] != mark
        invariant
            from <= cut <= text@.len(),
            forall|k: int| from <= k < cut ==> text@[k] != mark,
        decreases text.len() - cut,
    {
        cut += 1;
    }
    proof {
        lemma_first_index(text@.skip(from as int), mark, cut - from);
    }
    cut
}

/// Splits `text` at every byte `mark`.
pub fn split(text: &[u8], mark: u8) -> (fields: Vec<&[u8]>)
    ensures
        texts(fields@) == fields_of(text@, mark),
{
    let mut fields: Vec<&[u8]> = Vec::new();
    let mut from: usize = 0;
    assert(text@.skip(0) =~= text@);
    assert(texts(fields@) + fields_of(text@, mark) =~= fields_of(text@, mark));
    loop
        invariant_except_break
            from <= text@.len(),
            fields_of(text@, mark) == texts(fields@) + fields_of(text@.skip(from as int), mark),
        ensures
            texts(fields@) == fields_of(text@, mark),
        decreases text@.len() - from,
    {
        let cut = find(text, from, mark);
        let ghost rest = text@.skip(from as int);
        let ghost before = texts(fields@);
        fields.push(&text[from..cut]);
        assert(text@.subrange(from as int, cut as int) =~= rest.take(cut - from));
        assert(texts(fields@) =~= before + seq![rest.take(cut - from)]);
        if cut >= text.len() {
            assert(rest.take(cut - from) =~= rest);
            break ;
        }
        assert(rest.skip(cut - from + 1) =~= text@.skip(cut + 1));
        assert(before + (seq![rest.take(cut - from)] + fields_of(text@.skip(cut + 1), mark))
            =~= texts(fields@) + fields_of(text@.skip(cut + 1), mark));
        from = cut + 1;
    }
    fields
}

/// Splits `text` into its lines.
pub fn lines(text: &[u8]) -> (found: Vec<&[u8]>)
    ensures
        texts(found@) == lines_of(text@),
{
    let mut found: Vec<&[u8]> = Vec::new();
    let mut from: usize = 0;
    assert(text@.skip(0) =~= text@);
    assert(texts(found@) + lines_of(text@) =~= lines_of(text@));
    while from < text.len()
        invariant
            from <= text@.len(),
            lines_of(text@) == texts(found@) + lines_of(text@.skip(from as int)),
        decreases text@.len() - from,
    {
        let cut = find(text, from, LINE_FEED);
        let ghost rest = text@.skip(from as int);
        let ghost before = texts(found@);
        assert(text@.subrange(from as int, cut as int) =~= rest.take(cut - from));
        if cut >= text.len() {
            found.push(&text[from..cut]);
            assert(rest.take(cut - from) =~= rest);
            assert(texts(found@) =~= before + seq![rest]);
            assert(lines_of(text@.skip(cut as int)) =~= Seq::<Seq<u8>>::empty());
            assert(texts(found@) + lines_of(text@.skip(cut as int)) =~= texts(found@));
            from = cut;
        } else {
            let end = if cut > from && text[cut - 1] == CARRIAGE_RETURN {
                cut - 1
            } else {
                cut
            };
            found.push(&text[from..end]);
            assert(text@.subrange(from as int, end as int) =~= without_return(
                rest.take(cut - from),
            ));
            assert(texts(found@) =~= before + seq![without_return(rest.take(cut - from))]);
            assert(rest.skip(cut - from + 1) =~= text@.skip(cut + 1));
            assert(before + (seq![without_return(rest.take(cut - from))] + lines_of(
                text@.skip(cut + 1),
            )) =~= texts(found@) + lines_of(text@.skip(cut + 1)));
            from = cut + 1;
        }
    }
    assert(lines_of(text@.skip(from as int)) =~= Seq::<Seq<u8>>::empty());
    assert(texts(found@) + Seq::<Seq<u8>>::empty() =~= texts(found@));
    found
}

/// `b` is a blank: a space, a tab, a line feed, a vertical tab, a form feed
/// or a carriage return.
pub open spec fn is_space(b: u8) -> bool {
    b == 32 || 9 <= b <= 13
}

/// The number of blanks that `text` begins with.
pub open spec fn leading_spaces(text: Seq<u8>) -> int
    decreases text.len(),
{
    if text.len() > 0 && is_space(text[0]) {
        1 + leading_spaces(text.skip(1))
    } else {
        0
    }
}

/// The number of blanks that `text` ends with.
pub open spec fn trailing_spaces(text: Seq<u8>) -> int
    decreases text.len(),
{
    if text.len() > 0 && is_space(text.last()) {
        1 + trailing_spaces(text.drop_last())
    } else {
        0
    }
}

/// `text` without the blanks at its beginning and at its end.
pub open spec fn trimmed(text: Seq<u8>) -> Seq<u8> {
    let inner = text.skip(leading_spaces(text));
    inner.take(inner.len() - trailing_spaces(inner))
}

/// Where the first `n` bytes are blanks and the next is none, `text` begins
/// with `n` blanks.
proof fn lemma_leading_spaces(text: Seq<u8>, n: int)
    requires
        0 <= n <= text.len(),
        forall|k: int| 0 <= k < n ==> is_space(text[k]),
        n < text.len() ==> !is_space(text[n]),
    ensures
        leading_spaces(text) == n,
    decreases n,
{
    if n > 0 {
        let rest = text.skip(1);
        assert forall|k: int| 0 <= k < n - 1 implies is_space(rest[k]) by {
            assert(rest[k] == text[k + 1]);
        }
        lemma_leading_spaces(rest, n - 1);
    }
}

/// Where the last `n` bytes are blanks and the one before them is none,
/// `text` ends with `n` blanks.
proof fn lemma_trailing_spaces(text: Seq<u8>, n: int)
    requires
        0 <= n <= text.len(),
        forall|k: int| text.len() - n <= k < text.len() ==> is_space(text[k]),
        n < text.len() ==> !is_space(text[text.len() - n - 1]),
    ensures
        trailing_spaces(text) == n,
    decreases n,
{
    if n > 0 {
        let rest = text.drop_last();
        assert forall|k: int| rest.len() - (n - 1) <= k < rest.len() implies is_space(
            rest[k],
        ) by {
            assert(rest[k] == text[k]);
        }
        lemma_trailing_spaces(rest, n - 1);
    }
}

fn is_blank_byte(b: u8) -> (r: bool)
    ensures
        r == is_space(b),
{
    b == 32 || (9 <= b && b <= 13)
}

/// Removes the blanks at both ends of `text`.
pub fn trim(text: &[u8]) -> (inner: &[u8])
    ensures
        inner@ == trimmed(text@),
{
    let mut from: usize = 0;
    while from < text.len() && is_blank_byte(text[from])
        invariant
            from <= text@.len(),
            forall|k: int| 0 <= k < from ==> is_space(text@[k]),
        decreases text.len() - from,
    {
        from += 1;
    }
    let mut to: usize = text.len();
    while to > from && is_blank_byte(text[to - 1])
        invariant
            from <= to <= text@.len(),
            forall|k: int| to <= k < text@.len() ==> is_space(text@[k]),
        decreases to,
    {
        to -= 1;
    }
    proof {
        lemma_leading_spaces(text@, from as int);
        let rest = text@.skip(from as int);
        assert forall|k: int| rest.len() - (text@.len() - to) <= k < rest.len() implies is_space(
            rest[k],
        ) by {
            assert(rest[k] == text@[k + from]);
        }
        lemma_trailing_spaces(rest, text@.len() - to);
        assert(text@.subrange(from as int, to as int) =~= trimmed(text@));
    }
    &text[from..to]
}

/// Whether `text` holds nothing but blanks.
pub fn is_blank(text: &[u8]) -> (blank: bool)
    ensures
        blank == (trimmed(text@).len() == 0),
{
    trim(text).len() == 0
}

} // verus!
