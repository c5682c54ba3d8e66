//! Text operations over the characters of a string.

use vstd::prelude::*;

verus! {

/// `String::push` appends one character at the end of the string.
pub assume_specification[ String::push ](s: &mut String, c: char)
    ensures
        final(s)@ == old(s)@.push(c),
;

/// Whether two strings hold the same characters.
pub fn same(a: &str, b: &str) -> (equal: bool)
    ensures
        equal == (a@ == b@),
{
    let x: &[u8] = a.as_bytes();
    let y: &[u8] = b.as_bytes();
    proof {
        vstd::utf8::encode_utf8_decode_utf8(a@);
        vstd::utf8::encode_utf8_decode_utf8(b@);
    }
    if x.len() != y.len() {
        return false;
    }
    let mut i: usize = 0;
    while i < x.len()
        invariant
            i <= x.len() == y.len(),
            x@ == vstd::utf8::encode_utf8(a@),
            y@ == vstd::utf8::encode_utf8(b@),
            forall|j: int| 0 <= j < i ==> x@[j] == y@[j],
        decreases x.len() - i,
    {
        if x[i] != y[i] {
            return false;
        }
        i += 1;
    }
    assert(x@ =~= y@);
    true
}

/// The characters of `s`, in order.
pub fn chars_of(s: &str) -> (chars: Vec<char>)
    ensures
        chars@ == s@,
{
    let mut chars: Vec<char> = Vec::new();
    for c in it: s.chars()
        invariant
            it.seq() == s@,
            chars@ == s@.take(it.index()),
    {
        chars.push(c);
    }
    assert(s@.take(s@.len() as int) =~= s@);
    chars
}

/// The text made of `chars`, in order.
pub fn text_of(chars: &[char]) -> (s: String)
    ensures
        s@ == chars@,
{
    let mut s = String::new();
    let mut i: usize = 0;
    while i < chars.len()
        invariant
            i <= chars.len(),
            s@ =~= chars@.take(i as int),
        decreases chars.len() - i,
    {
        s.push(chars[i]);
        i += 1;
    }
    assert(chars@.take(chars@.len() as int) =~= chars@);
    s
}

/// The texts of a list of strings.
pub open spec fn texts(strings: Seq<String>) -> Seq<Seq<char>> {
    Seq::new(strings.len(), |i: int| strings[i]@)
}

/// The text of a string that may be missing.
pub open spec fn text_given(given: Option<String>) -> Option<Seq<char>> {
    match given {
        Some(string) => Some(string@),
        None => None,
    }
}

/// `a` followed by `b`.
pub fn joined(a: &str, b: &str) -> (s: String)
    ensures
        s@ == a@ + b@,
{
    let mut s = a.to_owned();
    s.append(b);
    s
}

/// The character of a decimal digit.
pub open spec fn digit(d: nat) -> char {
    (48 + d) as char
}

/// The decimal numeral of `n`, without leading zeros.
pub open spec fn numeral(n: nat) -> Seq<char>
    decreases n,
{
    if n < 10 {
        seq![digit(n)]
    } else {
        numeral(n / 10).push(digit(n % 10))
    }
}

/// Writes `n` in decimal.
pub fn decimal(n: u64) -> (s: String)
    ensures
        s@ == numeral(n as nat),
    decreases n,
{
    let last = (48u8 + (n % 10) as u8) as char;
    if n < 10 {
        let mut s = String::new();
        s.push(last);
        assert(s@ =~= seq![digit(n as nat)]);
        s
    } else {
        let mut s = decimal(n / 10);
        s.push(last);
        s
    }
}

/// A numeral has at least one character, and all of them are digits.
pub proof fn lemma_numeral_digits(n: nat)
    ensures
        numeral(n).len() > 0,
        forall|i: int| 0 <= i < numeral(n).len() ==> '0' <= #[trigger] numeral(n)[i] <= '9',
    decreases n,
{
    if n >= 10 {
        lemma_numeral_digits(n / 10);
    }
}

/// Whether `part` stands somewhere in `whole`.
pub open spec fn has_part(whole: Seq<char>, part: Seq<char>) -> bool {
    exists|at: int|
        0 <= at <= whole.len() - part.len() && #[trigger] whole.subrange(at, at + part.len())
            == part
}

fn part_at(whole: &Vec<char>, part: &Vec<char>, at: usize) -> (yes: bool)
    requires
        at + part.len() <= whole.len(),
    ensures
        yes == (whole@.subrange(at as int, at + part.len()) == part@),
{
    let mut i: usize = 0;
    while i < part.len()
        invariant
            i <= part.len(),
            at + part.len() <= whole.len(),
            forall|j: int| 0 <= j < i ==> whole@[at + j] == #[trigger] part@[j],
        decreases part.len() - i,
    {
        if whole[at + i] != part[i] {
            assert(whole@.subrange(at as int, at + part.len())[i as int] != part@[i as int]);
            return false;
        }
        i += 1;
    }
    assert(whole@.subrange(at as int, at + part.len()) =~= part@);
    true
}

/// Whether `part` stands somewhere in `whole`.
pub fn contains(whole: &str, part: &str) -> (yes: bool)
    ensures
        yes == has_part(whole@, part@),
{
    let chars: Vec<char> = chars_of(whole);
    let sought: Vec<char> = chars_of(part);
    if sought.len() > chars.len() {
        return false;
    }
    let last: usize = chars.len() - sought.len();
    let mut at: usize = 0;
    while at < last
        invariant
            at <= last == chars.len() - sought.len(),
            chars@ == whole@,
            sought@ == part@,
            forall|k: int|
                0 <= k < at ==> #[trigger] whole@.subrange(k, k + part@.len()) != part@,
        decreases last - at,
    {
        if part_at(&chars, &sought, at) {
            return true;
        }
        at += 1;
    }
    part_at(&chars, &sought, last)
}

/// The Unicode characters with the property `White_Space`.
pub open spec fn white_space(c: char) -> bool {
    let code = c as u32;
    ||| 0x09 <= code <= 0x0d
    ||| code == 0x20
    ||| code == 0x85
    ||| code == 0xa0
    ||| code == 0x1680
    ||| 0x2000 <= code <= 0x200a
    ||| code == 0x2028
    ||| code == 0x2029
    ||| code == 0x202f
    ||| code == 0x205f
    ||| code == 0x3000
}

/// Whether `c` is white space.
pub fn is_white_space(c: char) -> (yes: bool)
    ensures
        yes == white_space(c),
{
    let code: u32 = c as u32;
    (0x09 <= code && code <= 0x0d) || code == 0x20 || code == 0x85 || code == 0xa0 || code == 0x1680
        || (0x2000 <= code && code <= 0x200a) || code == 0x2028 || code == 0x2029 || code == 0x202f
        || code == 0x205f || code == 0x3000
}

/// `s` without the white space at its ends.
pub open spec fn trimmed(s: Seq<char>) -> Seq<char>
    decreases s.len(),
{
    if s.len() == 0 {
        s
    } else if white_space(s.first()) {
        trimmed(s.drop_first())
    } else if white_space(s.last()) {
        trimmed(s.drop_last())
    } else {
        s
    }
}

/// Where the text between `from` and `to` starts and ends without the white space at its ends.
pub fn trim_bounds(chars: &Vec<char>, from: usize, to: usize) -> (bounds: (usize, usize))
    requires
        from <= to <= chars.len(),
    ensures
        from <= bounds.0 <= bounds.1 <= to,
        chars@.subrange(bounds.0 as int, bounds.1 as int) == trimmed(
            chars@.subrange(from as int, to as int),
        ),
{
    let ghost whole = chars@.subrange(from as int, to as int);
    let mut start: usize = from;
    while start < to && is_white_space(chars[start])
        invariant
            from <= start <= to <= chars.len(),
            trimmed(whole) == trimmed(chars@.subrange(start as int, to as int)),
        decreases to - start,
    {
        assert(chars@.subrange(start as int, to as int).drop_first() =~= chars@.subrange(
            start + 1,
            to as int,
        ));
        start += 1;
    }
    let mut end: usize = to;
    while end > start && is_white_space(chars[end - 1])
        invariant
            from <= start <= end <= to <= chars.len(),
            start < end ==> !white_space(chars@[start as int]),
            trimmed(whole) == trimmed(chars@.subrange(start as int, end as int)),
        decreases end,
    {
        assert(chars@.subrange(start as int, end as int).drop_last() =~= chars@.subrange(
            start as int,
            end - 1,
        ));
        end -= 1;
    }
    (start, end)
}

/// The pieces of `s` between the separators `sep`, empty ones included.
pub open spec fn split(s: Seq<char>, sep: char) -> Seq<Seq<char>>
    decreases s.len(),
{
    if s.len() == 0 {
        seq![Seq::empty()]
    } else {
        let front = split(s.drop_last(), sep);
        if s.last() == sep {
            front.push(Seq::empty())
        } else {
            front.drop_last().push(front.last().push(s.last()))
        }
    }
}

/// `s` without the characters `c` at its end.
pub open spec fn without_trailing(s: Seq<char>, c: char) -> Seq<char>
    decreases s.len(),
{
    if s.len() > 0 && s.last() == c {
        without_trailing(s.drop_last(), c)
    } else {
        s
    }
}

/// Takes the characters `c` off the end of `s`.
pub fn trim_end_matches(s: &str, c: char) -> (rest: String)
    ensures
        rest@ == without_trailing(s@, c),
{
    let chars: Vec<char> = chars_of(s);
    let mut end: usize = chars.len();
    assert(s@.take(end as int) =~= s@);
    while end > 0 && chars[end - 1] == c
        invariant
            end <= chars.len(),
            chars@ == s@,
            without_trailing(s@, c) == without_trailing(s@.take(end as int), c),
        decreases end,
    {
        assert(s@.take(end as int).drop_last() =~= s@.take(end - 1));
        end -= 1;
    }
    text_of(vstd::slice::slice_subrange(chars.as_slice(), 0, end))
}

/// How many of the pieces are not empty.
pub open spec fn count_filled(pieces: Seq<Seq<char>>) -> nat
    decreases pieces.len(),
{
    if pieces.len() == 0 {
        0
    } else {
        count_filled(pieces.drop_last()) + if pieces.last().len() > 0 {
            1nat
        } else {
            0nat
        }
    }
}

proof fn lemma_count_filled_split(s: Seq<char>, sep: char)
    ensures
        split(s, sep).len() > 0,
        count_filled(split(s, sep)) <= s.len(),
    decreases s.len(),
{
    if s.len() == 0 {
        assert(split(s, sep).drop_last() =~= Seq::empty());
        assert(count_filled(split(s, sep).drop_last()) == 0);
    } else {
        let front = split(s.drop_last(), sep);
        lemma_count_filled_split(s.drop_last(), sep);
        if s.last() == sep {
            assert(split(s, sep).drop_last() =~= front);
        } else {
            assert(split(s, sep).drop_last() =~= front.drop_last());
        }
    }
}

/// Counts the pieces of `s` between the separators `sep` that are not empty.
pub fn count_pieces(s: &str, sep: char) -> (count: usize)
    ensures
        count == count_filled(split(s@, sep)),
{
    let chars: Vec<char> = chars_of(s);
    let mut count: usize = 0;
    let mut filled = false;
    let mut i: usize = 0;
    proof {
        let none = split(s@.take(0), sep);
        assert(none.drop_last() =~= Seq::empty());
        assert(count_filled(none.drop_last()) == 0);
        assert(none.last() =~= Seq::empty());
    }
    while i < chars.len()
        invariant
            i <= chars.len(),
            chars@ == s@,
            split(s@.take(i as int), sep).len() > 0,
            filled == (split(s@.take(i as int), sep).last().len() > 0),
            count == count_filled(split(s@.take(i as int), sep)),
        decreases chars.len() - i,
    {
        let ghost before = split(s@.take(i as int), sep);
        let ghost after = split(s@.take(i + 1), sep);
        proof {
            assert(s@.take(i + 1).drop_last() =~= s@.take(i as int));
            lemma_count_filled_split(s@.take(i as int), sep);
        }
        if chars[i] == sep {
            filled = false;
            assert(after.drop_last() =~= before);
        } else {
            assert(after.drop_last() =~= before.drop_last());
            if !filled {
                count += 1;
            }
            filled = true;
        }
        i += 1;
    }
    assert(s@.take(i as int) =~= s@);
    count
}

/// `c` in lower case, if it is an ASCII letter.
pub open spec fn ascii_lower(c: char) -> char {
    if 'A' <= c <= 'Z' {
        ((c as u32) + 32) as char
    } else {
        c
    }
}

/// `s` with its ASCII letters in lower case.
pub open spec fn lower(s: Seq<char>) -> Seq<char> {
    s.map_values(|c: char| ascii_lower(c))
}

fn to_ascii_lower(c: char) -> (l: char)
    ensures
        l == ascii_lower(c),
{
    if 'A' <= c && c <= 'Z' {
        ((c as u8) + 32u8) as char
    } else {
        c
    }
}

/// Whether two texts are the same but for the case of ASCII letters.
pub fn eq_ignore_ascii_case(a: &str, b: &str) -> (equal: bool)
    ensures
        equal == (lower(a@) == lower(b@)),
{
    let x: Vec<char> = chars_of(a);
    let y: Vec<char> = chars_of(b);
    if x.len() != y.len() {
        assert(lower(a@).len() != lower(b@).len());
        return false;
    }
    let mut i: usize = 0;
    while i < x.len()
        invariant
            i <= x.len() == y.len(),
            x@ == a@,
            y@ == b@,
            forall|j: int| 0 <= j < i ==> ascii_lower(#[trigger] x@[j]) == ascii_lower(y@[j]),
        decreases x.len() - i,
    {
        if to_ascii_lower(x[i]) != to_ascii_lower(y[i]) {
            assert(lower(a@)[i as int] != lower(b@)[i as int]);
            return false;
        }
        i += 1;
    }
    assert(lower(a@) =~= lower(b@));
    true
}

/// Why a text is not a number.
#[derive(Clone, Copy, Debug, PartialEq, Eq, Structural)]
pub enum NumberFault {
    Empty,
    InvalidDigit,
    TooLarge,
}

/// Whether `c` is a decimal digit.
pub open spec fn is_digit(c: char) -> bool {
    '0' <= c <= '9'
}

/// The number that starts with `value` and goes on with `digits`, or the first fault on the way.
pub open spec fn continued(value: nat, digits: Seq<char>, max: nat) -> Result<nat, NumberFault>
    decreases digits.len(),
{
    if digits.len() == 0 {
        Ok(value)
    } else if !is_digit(digits[0]) {
        Err(NumberFault::InvalidDigit)
    } else {
        let next = value * 10 + (digits[0] as nat - 48) as nat;
        if next > max {
            Err(NumberFault::TooLarge)
        } else {
            continued(next, digits.drop_first(), max)
        }
    }
}

/// The digits of a number without its plus sign.
pub open spec fn unsigned_part(s: Seq<char>) -> Seq<char> {
    if s.len() > 0 && s[0] == '+' {
        s.drop_first()
    } else {
        s
    }
}

/// The number, at most `max`, that `s` denotes in decimal, perhaps with a plus sign.
pub open spec fn number(s: Seq<char>, max: nat) -> Result<nat, NumberFault> {
    if s.len() == 0 {
        Err(NumberFault::Empty)
    } else if unsigned_part(s).len() == 0 {
        Err(NumberFault::InvalidDigit)
    } else {
        continued(0, unsigned_part(s), max)
    }
}

/// The value of a row of digits.
pub open spec fn value_of(digits: Seq<char>) -> nat
    decreases digits.len(),
{
    if digits.len() == 0 {
        0
    } else {
        value_of(digits.drop_last()) * 10 + (digits.last() as nat - 48) as nat
    }
}

/// Reads a decimal number that is at most `max`.
pub fn parse_number(s: &str, max: u64) -> (parsed: Result<u64, NumberFault>)
    ensures
        match parsed {
            Ok(n) => number(s@, max as nat) == Ok::<nat, NumberFault>(n as nat) && n <= max,
            Err(fault) => number(s@, max as nat) == Err::<nat, NumberFault>(fault),
        },
{
    let chars: Vec<char> = chars_of(s);
    if chars.len() == 0 {
        return Err(NumberFault::Empty);
    }
    let from: usize = if chars[0] == '+' {
        1
    } else {
        0
    };
    assert(unsigned_part(s@) =~= s@.skip(from as int));
    if from == chars.len() {
        return Err(NumberFault::InvalidDigit);
    }
    let mut value: u64 = 0;
    let mut i: usize = from;
    while i < chars.len()
        invariant
            i <= chars.len(),
            chars@ == s@,
            value <= max,
            number(s@, max as nat) == continued(value as nat, s@.skip(i as int), max as nat),
        decreases chars.len() - i,
    {
        let c: char = chars[i];
        assert(s@.skip(i as int).drop_first() =~= s@.skip(i + 1));
        if !('0' <= c && c <= '9') {
            return Err(NumberFault::InvalidDigit);
        }
        let wide: u128 = value as u128 * 10 + (c as u8 - 48u8) as u128;
        if wide > max as u128 {
            return Err(NumberFault::TooLarge);
        }
        value = wide as u64;
        i += 1;
    }
    Ok(value)
}

/// Whether all characters of `s` are digits.
pub open spec fn all_digits(s: Seq<char>) -> bool {
    forall|i: int| 0 <= i < s.len() ==> is_digit(#[trigger] s[i])
}

proof fn lemma_value_grows(read: Seq<char>, rest: Seq<char>)
    ensures
        value_of(read) <= value_of(read + rest),
    decreases rest.len(),
{
    if rest.len() == 0 {
        assert(read + rest =~= read);
    } else {
        lemma_value_grows(read, rest.drop_last());
        assert((read + rest).drop_last() =~= read + rest.drop_last());
    }
}

proof fn lemma_continued(read: Seq<char>, rest: Seq<char>, max: nat)
    requires
        value_of(read) <= max,
    ensures
        all_digits(rest) && value_of(read + rest) <= max ==> continued(value_of(read), rest, max)
            == Ok::<nat, NumberFault>(value_of(read + rest)),
        continued(value_of(read), rest, max) is Ok ==> all_digits(rest) && value_of(read + rest)
            <= max,
    decreases rest.len(),
{
    if rest.len() == 0 {
        assert(read + rest =~= read);
    } else {
        let more = read.push(rest[0]);
        let tail = rest.drop_first();
        assert(more.drop_last() =~= read);
        assert(more + tail =~= read + rest);
        lemma_value_grows(more, tail);
        assert(forall|i: int| 0 <= i < tail.len() ==> #[trigger] tail[i] == rest[i + 1]);
        if value_of(more) <= max {
            lemma_continued(more, tail, max);
        }
        if all_digits(rest) {
            assert(is_digit(rest[0]));
        }
        if is_digit(rest[0]) && all_digits(tail) {
            assert forall|i: int| 0 <= i < rest.len() implies is_digit(#[trigger] rest[i]) by {
                if i > 0 {
                    assert(is_digit(tail[i - 1]));
                }
            }
        }
    }
}

/// A text denotes a number exactly if, but for a plus sign, it is a row of digits whose value
/// is not too large; and it denotes that value.
pub proof fn law_number_is_its_value(s: Seq<char>, max: nat)
    ensures
        number(s, max) is Ok <==> {
            &&& unsigned_part(s).len() > 0
            &&& all_digits(unsigned_part(s))
            &&& value_of(unsigned_part(s)) <= max
        },
        number(s, max) matches Ok(n) ==> n == value_of(unsigned_part(s)),
{
    let digits = unsigned_part(s);
    lemma_continued(Seq::empty(), digits, max);
    assert(Seq::<char>::empty() + digits =~= digits);
}

proof fn lemma_numeral_value(n: nat)
    ensures
        value_of(numeral(n)) == n,
    decreases n,
{
    if n >= 10 {
        lemma_numeral_value(n / 10);
        assert(numeral(n).drop_last() =~= numeral(n / 10));
    } else {
        assert(numeral(n).drop_last() =~= Seq::empty());
        assert(value_of(numeral(n).drop_last()) == 0);
    }
}

/// The numeral of a number denotes that number.
pub proof fn law_numeral_reads_back(n: nat, max: nat)
    requires
        n <= max,
    ensures
        number(numeral(n), max) == Ok::<nat, NumberFault>(n),
{
    lemma_numeral_digits(n);
    lemma_numeral_value(n);
    assert(numeral(n)[0] != '+');
    law_number_is_its_value(numeral(n), max);
}

/// The texts of a list of strings are those of its strings, one for one, and the text of a given
/// string is that of the string.
pub proof fn law_texts_are_those_of_the_strings(strings: Seq<String>, given: Option<String>)
    ensures
        texts(strings).len() == strings.len(),
        forall|i: int| 0 <= i < strings.len() ==> #[trigger] texts(strings)[i] == strings[i]@,
        given is None <==> text_given(given) is None,
        given matches Some(string) ==> text_given(given) == Some(string@),
{
}

proof fn lemma_value_is_fold(digits: Seq<char>, reading: spec_fn(int, char) -> int)
    requires
        forall|value: int, c: char| #[trigger]
            reading(value, c) == value * 10 + (c as int - 48),
        forall|i: int| 0 <= i < digits.len() ==> '0' <= #[trigger] digits[i] <= '9',
    ensures
        digits.fold_left(0, reading) == value_of(digits),
    decreases digits.len(),
{
    if digits.len() > 0 {
        let front = digits.drop_last();
        assert(forall|i: int| 0 <= i < front.len() ==> #[trigger] front[i] == digits[i]);
        lemma_value_is_fold(front, reading);
        assert('0' <= digits[digits.len() - 1] <= '9');
    }
}

/// A numeral is a row of decimal digits, without a leading zero but for zero itself, that is read
/// as the number from left to right.
pub proof fn law_numeral_is_read_in_decimal(n: nat, reading: spec_fn(int, char) -> int)
    requires
        forall|value: int, c: char| #[trigger]
            reading(value, c) == value * 10 + (c as int - 48),
    ensures
        numeral(n).len() > 0,
        forall|i: int| 0 <= i < numeral(n).len() ==> '0' <= #[trigger] numeral(n)[i] <= '9',
        numeral(n).len() > 1 ==> numeral(n)[0] != '0',
        numeral(n).fold_left(0, reading) == n,
{
    lemma_numeral_digits(n);
    lemma_numeral_value(n);
    lemma_value_is_fold(numeral(n), reading);
    lemma_numeral_start(n);
}

proof fn lemma_numeral_start(n: nat)
    ensures
        n > 0 ==> numeral(n)[0] != '0',
        n < 10 ==> numeral(n).len() == 1,
    decreases n,
{
    if n >= 10 {
        lemma_numeral_start(n / 10);
        lemma_numeral_digits(n / 10);
    }
}

proof fn lemma_continued_too_large(read: Seq<char>, rest: Seq<char>, max: nat)
    requires
        value_of(read) <= max,
    ensures
        continued(value_of(read), rest, max) != Err::<nat, NumberFault>(NumberFault::Empty),
        continued(value_of(read), rest, max) == Err::<nat, NumberFault>(NumberFault::TooLarge)
            <==> exists|k: int|
            0 < k <= rest.len() && all_digits(#[trigger] rest.take(k)) && value_of(
                read + rest.take(k),
            ) > max,
    decreases rest.len(),
{
    if rest.len() > 0 {
        let more = read.push(rest[0]);
        let tail = rest.drop_first();
        assert(more.drop_last() =~= read);
        assert(read + rest.take(1) =~= more);
        if is_digit(rest[0]) {
            assert(all_digits(rest.take(1)));
            if value_of(more) <= max {
                lemma_continued_too_large(more, tail, max);
                assert forall|k: int| 0 < k <= rest.len() && all_digits(#[trigger] rest.take(k))
                    && value_of(read + rest.take(k)) > max implies continued(
                    value_of(more),
                    tail,
                    max,
                ) == Err::<nat, NumberFault>(NumberFault::TooLarge) by {
                    assert(k > 1);
                    let shorter = tail.take(k - 1);
                    assert(more + shorter =~= read + rest.take(k));
                    assert forall|i: int| 0 <= i < shorter.len() implies is_digit(
                        #[trigger] shorter[i],
                    ) by {
                        assert(is_digit(rest.take(k)[i + 1]));
                    }
                }
                if continued(value_of(more), tail, max) == Err::<nat, NumberFault>(
                    NumberFault::TooLarge,
                ) {
                    let j = choose|j: int|
                        0 < j <= tail.len() && all_digits(#[trigger] tail.take(j)) && value_of(
                            more + tail.take(j),
                        ) > max;
                    let longer = rest.take(j + 1);
                    assert(more + tail.take(j) =~= read + longer);
                    assert forall|i: int| 0 <= i < longer.len() implies is_digit(
                        #[trigger] longer[i],
                    ) by {
                        if i > 0 {
                            assert(is_digit(tail.take(j)[i - 1]));
                        }
                    }
                    assert(all_digits(rest.take(j + 1)));
                }
            } else {
                assert(value_of(read + rest.take(1)) > max);
            }
        } else {
            assert forall|k: int| 0 < k <= rest.len() implies !all_digits(
                #[trigger] rest.take(k),
            ) by {
                assert(!is_digit(rest.take(k)[0]));
            }
        }
    }
}

/// A text is read as a number from left to right, in decimal, perhaps after a plus sign. It is
/// empty, or too large as soon as digits from its start come to more than `max`, or has something
/// else than digits.
pub proof fn law_number_is_read_in_decimal(
    s: Seq<char>,
    digits: Seq<char>,
    max: nat,
    reading: spec_fn(int, char) -> int,
)
    requires
        s == seq!['+'] + digits || (s == digits && (digits.len() == 0 || digits[0] != '+')),
        forall|value: int, c: char| #[trigger]
            reading(value, c) == value * 10 + (c as int - 48),
    ensures
        number(s, max) is Ok <==> {
            &&& digits.len() > 0
            &&& forall|i: int| 0 <= i < digits.len() ==> '0' <= #[trigger] digits[i] <= '9'
            &&& digits.fold_left(0, reading) <= max
        },
        number(s, max) matches Ok(n) ==> n == digits.fold_left(0, reading),
        number(s, max) == Err::<nat, NumberFault>(NumberFault::Empty) <==> s.len() == 0,
        number(s, max) == Err::<nat, NumberFault>(NumberFault::TooLarge) <==> exists|k: int|
            0 < k <= digits.len() && (#[trigger] digits.take(k)).fold_left(0, reading) > max && (
            forall|i: int| 0 <= i < k ==> '0' <= #[trigger] digits[i] <= '9'),
{
    assert(unsigned_part(s) =~= digits);
    law_number_is_its_value(s, max);
    if all_digits(digits) {
        assert(forall|i: int| 0 <= i < digits.len() ==> is_digit(#[trigger] digits[i]));
        lemma_value_is_fold(digits, reading);
    }
    if forall|i: int| 0 <= i < digits.len() ==> '0' <= #[trigger] digits[i] <= '9' {
        assert(all_digits(digits));
    }
    lemma_continued_too_large(Seq::empty(), digits, max);
    assert forall|k: int| 0 < k <= digits.len() implies (all_digits(#[trigger] digits.take(k)) <==> (
    forall|i: int| 0 <= i < k ==> '0' <= #[trigger] digits[i] <= '9')) && Seq::<char>::empty()
        + digits.take(k) == digits.take(k) && (all_digits(digits.take(k)) ==> digits.take(
        k,
    ).fold_left(0, reading) == value_of(digits.take(k))) by {
        let part = digits.take(k);
        assert(Seq::<char>::empty() + part =~= part);
        assert(forall|i: int| 0 <= i < k ==> #[trigger] part[i] == digits[i]);
        if all_digits(part) {
            assert forall|i: int| 0 <= i < k implies '0' <= #[trigger] digits[i] <= '9' by {
                assert(is_digit(part[i]));
            }
            lemma_value_is_fold(part, reading);
        }
    }
}

/// A text has a part exactly if it is that part with something, or nothing, before and after it.
pub proof fn law_part_stands_between(whole: Seq<char>, part: Seq<char>)
    ensures
        has_part(whole, part) <==> exists|before: Seq<char>, after: Seq<char>|
            whole == #[trigger] (before + part + after),
{
    if has_part(whole, part) {
        let at = choose|at: int|
            0 <= at <= whole.len() - part.len() && #[trigger] whole.subrange(at, at + part.len())
                == part;
        let before = whole.take(at);
        let after = whole.skip(at + part.len());
        assert(whole =~= before + whole.subrange(at, at + part.len()) + after);
        assert(whole == before + part + after);
    }
    if exists|before: Seq<char>, after: Seq<char>| whole == #[trigger] (before + part + after) {
        let (before, after) = choose|before: Seq<char>, after: Seq<char>|
            whole == #[trigger] (before + part + after);
        let at = before.len() as int;
        assert(whole.subrange(at, at + part.len()) =~= part);
    }
}

/// A trimmed text is the stretch of the text that neither starts nor ends with white space, with
/// nothing but white space before and after it.
pub proof fn law_trimming_takes_white_space(s: Seq<char>) -> (bounds: (int, int))
    ensures
        0 <= bounds.0 <= bounds.1 <= s.len(),
        trimmed(s) == s.subrange(bounds.0, bounds.1),
        forall|i: int| 0 <= i < bounds.0 ==> white_space(#[trigger] s[i]),
        forall|i: int| bounds.1 <= i < s.len() ==> white_space(#[trigger] s[i]),
        trimmed(s).len() > 0 ==> !white_space(trimmed(s).first()) && !white_space(
            trimmed(s).last(),
        ),
    decreases s.len(),
{
    if s.len() == 0 {
        assert(s.subrange(0, 0) =~= s);
        (0, 0)
    } else if white_space(s.first()) {
        let rest = s.drop_first();
        let (from, to) = law_trimming_takes_white_space(rest);
        assert(s.subrange(from + 1, to + 1) =~= rest.subrange(from, to));
        assert forall|i: int| 0 <= i < from + 1 implies white_space(#[trigger] s[i]) by {
            if i > 0 {
                assert(white_space(rest[i - 1]));
            }
        }
        assert forall|i: int| to + 1 <= i < s.len() implies white_space(#[trigger] s[i]) by {
            assert(white_space(rest[i - 1]));
        }
        (from + 1, to + 1)
    } else if white_space(s.last()) {
        let rest = s.drop_last();
        let (from, to) = law_trimming_takes_white_space(rest);
        assert(s.subrange(from, to) =~= rest.subrange(from, to));
        assert forall|i: int| 0 <= i < from implies white_space(#[trigger] s[i]) by {
            assert(white_space(rest[i]));
        }
        assert forall|i: int| to <= i < s.len() implies white_space(#[trigger] s[i]) by {
            if i < rest.len() {
                assert(white_space(rest[i]));
            }
        }
        (from, to)
    } else {
        assert(s.subrange(0, s.len() as int) =~= s);
        (0, s.len() as int)
    }
}

/// A separator between two texts divides their pieces.
pub proof fn law_split_at_separator(a: Seq<char>, b: Seq<char>, sep: char)
    ensures
        split(a.push(sep) + b, sep) == split(a, sep) + split(b, sep),
    decreases b.len(),
{
    let whole = a.push(sep) + b;
    lemma_count_filled_split(b, sep);
    if b.len() == 0 {
        assert(whole =~= a.push(sep));
        assert(whole.drop_last() =~= a);
        assert(split(whole, sep) =~= split(a, sep) + split(b, sep));
    } else {
        let rest = b.drop_last();
        law_split_at_separator(a, rest, sep);
        lemma_count_filled_split(rest, sep);
        assert(whole.drop_last() =~= a.push(sep) + rest);
        assert(split(whole, sep) =~= split(a, sep) + split(b, sep));
    }
}

/// A text without the separator is its only piece.
pub proof fn law_split_without_separator(s: Seq<char>, sep: char)
    requires
        !s.contains(sep),
    ensures
        split(s, sep) == seq![s],
    decreases s.len(),
{
    if s.len() == 0 {
        assert(s =~= Seq::empty());
        assert(split(s, sep) =~= seq![s]);
    } else {
        let rest = s.drop_last();
        assert(s.contains(s[s.len() - 1]));
        if rest.contains(sep) {
            let i = choose|i: int| 0 <= i < rest.len() && rest[i] == sep;
            assert(s[i] == sep);
        }
        law_split_without_separator(rest, sep);
        assert(rest.push(s.last()) =~= s);
        assert(split(s, sep) =~= seq![s]);
    }
}

/// What is taken off the end of a text is nothing but the given character, and all of it there.
pub proof fn law_only_trailing_is_taken(s: Seq<char>, c: char)
    ensures
        ({
            let rest = without_trailing(s, c);
            &&& rest.len() <= s.len()
            &&& rest == s.take(rest.len() as int)
            &&& rest.len() > 0 ==> rest.last() != c
            &&& forall|i: int| rest.len() <= i < s.len() ==> #[trigger] s[i] == c
        }),
    decreases s.len(),
{
    if s.len() > 0 && s.last() == c {
        law_only_trailing_is_taken(s.drop_last(), c);
        let rest = without_trailing(s, c);
        assert(rest =~= s.take(rest.len() as int));
        assert forall|i: int| rest.len() <= i < s.len() implies #[trigger] s[i] == c by {
            if i < s.len() - 1 {
                assert(s.drop_last()[i] == c);
            }
        }
    } else {
        assert(s =~= s.take(s.len() as int));
    }
}

/// The filled pieces are counted one by one.
pub proof fn law_filled_pieces_are_counted(
    pieces: Seq<Seq<char>>,
    filled: spec_fn(Seq<char>) -> bool,
)
    requires
        forall|piece: Seq<char>| #[trigger] filled(piece) == (piece.len() > 0),
    ensures
        count_filled(pieces) == pieces.filter(filled).len(),
    decreases pieces.len(),
{
    reveal(Seq::filter);
    if pieces.len() > 0 {
        law_filled_pieces_are_counted(pieces.drop_last(), filled);
    }
}

/// Lower case moves the letters from `A` to `Z` by the distance to those from `a` to `z`, and
/// changes nothing else.
pub proof fn law_lower_case_changes_letters(s: Seq<char>)
    ensures
        lower(s).len() == s.len(),
        forall|i: int|
            0 <= i < s.len() ==> #[trigger] lower(s)[i] as int == if 'A' <= s[i] <= 'Z' {
                s[i] as int - 'A' as int + 'a' as int
            } else {
                s[i] as int
            },
{
}

} // verus!
