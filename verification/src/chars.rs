//! Character-level text operations: trimming, splitting lists, and
//! comparing without regard to ASCII case.

use vstd::prelude::*;
use vstd::string::*;

verus! {

/// What an optional text says.
pub open spec fn said(text: Option<String>) -> Option<Seq<char>> {
    match text {
        Some(text) => Some(text@),
        None => None,
    }
}

/// Whether a character is white space: one of the characters with the
/// Unicode property `White_Space`.
pub open spec fn is_white_space(c: char) -> bool {
    let code = c as u32;
    ||| 0x09 <= code <= 0x0d
    ||| code == 0x20
    ||| code == 0x85
    ||| code == 0xa0
    ||| code == 0x1680
    ||| 0x2000 <= code <= 0x200a
    ||| code == 0x2028
    ||| code == 0x2029
    ||| code == 0x202f
    ||| code == 0x205f
    ||| code == 0x3000
}

/// Whether a character is white space.
pub fn is_whitespace(c: char) -> (r: bool)
    ensures
        r == is_white_space(c),
{
    let code: u32 = c as u32;
    (0x09 <= code && code <= 0x0d) || code == 0x20 || code == 0x85 || code == 0xa0 || code == 0x1680
        || (0x2000 <= code && code <= 0x200a) || code == 0x2028 || code == 0x2029 || code == 0x202f
        || code == 0x205f || code == 0x3000
}

/// The characters of a text.
pub fn to_chars(text: &str) -> (r: Vec<char>)
    ensures
        r@ == text@,
{
    let mut out: Vec<char> = Vec::new();
    for c in it: text.chars()
        invariant
            out@ == it.seq().take(it.index() as int),
            it.seq() == text@,
    {
        out.push(c);
        assert(out@ =~= it.seq().take(it.index() + 1));
    }
    assert(out@ =~= text@);
    out
}

/// `String::push` of std: the text with one more character at its end.
#[verifier::external_body]
fn push_char(text: &mut String, c: char)
    ensures
        final(text)@ == old(text)@.push(c),
{
    text.push(c)
}

/// The characters from `start` to `end` as a text.
pub fn text_of(chars: &Vec<char>, start: usize, end: usize) -> (r: String)
    requires
        start <= end <= chars@.len(),
    ensures
        r@ == chars@.subrange(start as int, end as int),
{
    let mut out = String::new();
    let mut at: usize = start;
    assert(out@ =~= chars@.subrange(start as int, start as int));
    while at < end
        invariant
            start <= at <= end <= chars@.len(),
            out@ == chars@.subrange(start as int, at as int),
        decreases end - at,
    {
        push_char(&mut out, chars[at]);
        assert(out@ =~= chars@.subrange(start as int, at + 1));
        at += 1;
    }
    out
}

/// The number of white-space characters at the start of the text.
pub open spec fn leading_space(text: Seq<char>) -> int
    decreases text.len(),
{
    if text.len() > 0 && is_white_space(text[0]) {
        1 + leading_space(text.drop_first())
    } else {
        0
    }
}

/// The number of white-space characters at the end of the text.
pub open spec fn trailing_space(text: Seq<char>) -> int
    decreases text.len(),
{
    if text.len() > 0 && is_white_space(text.last()) {
        1 + trailing_space(text.drop_last())
    } else {
        0
    }
}

/// The text without the white space at its start and at its end.
pub open spec fn trimmed(text: Seq<char>) -> Seq<char> {
    if leading_space(text) >= text.len() {
        Seq::empty()
    } else {
        text.subrange(leading_space(text), text.len() - trailing_space(text))
    }
}

/// Whether a text is empty but for white space.
pub open spec fn is_blank(text: Seq<char>) -> bool {
    trimmed(text).len() == 0
}

/// What `leading_space` counts: white space, up to a character that is
/// none or to the end.
pub proof fn lemma_leading_space(text: Seq<char>)
    ensures
        0 <= leading_space(text) <= text.len(),
        forall|i: int| 0 <= i < leading_space(text) ==> is_white_space(#[trigger] text[i]),
        leading_space(text) < text.len() ==> !is_white_space(text[leading_space(text)]),
    decreases text.len(),
{
    if text.len() > 0 && is_white_space(text[0]) {
        let rest = text.drop_first();
        lemma_leading_space(rest);
        assert forall|i: int| 0 <= i < leading_space(text) implies is_white_space(
            #[trigger] text[i],
        ) by {
            if i > 0 {
                assert(text[i] == rest[i - 1]);
            }
        }
        if leading_space(text) < text.len() {
            assert(text[leading_space(text)] == rest[leading_space(rest)]);
        }
    }
}

/// What `trailing_space` counts: white space, back to a character that is
/// none or to the start.
pub proof fn lemma_trailing_space(text: Seq<char>)
    ensures
        0 <= trailing_space(text) <= text.len(),
        forall|i: int|
            text.len() - trailing_space(text) <= i < text.len() ==> is_white_space(
                #[trigger] text[i],
            ),
        trailing_space(text) < text.len() ==> !is_white_space(
            text[text.len() - trailing_space(text) - 1],
        ),
    decreases text.len(),
{
    if text.len() > 0 && is_white_space(text.last()) {
        let rest = text.drop_last();
        lemma_trailing_space(rest);
        assert forall|i: int|
            text.len() - trailing_space(text) <= i < text.len() implies is_white_space(
            #[trigger] text[i],
        ) by {
            if i < text.len() - 1 {
                assert(text[i] == rest[i]);
            }
        }
        if trailing_space(text) < text.len() {
            assert(text[text.len() - trailing_space(text) - 1] == rest[rest.len() - trailing_space(
                rest,
            ) - 1]);
        }
    }
}

/// The leading white space of a text is what comes before its first
/// character that is none.
pub proof fn lemma_leading_space_is(text: Seq<char>, count: int)
    requires
        0 <= count <= text.len(),
        forall|i: int| 0 <= i < count ==> is_white_space(#[trigger] text[i]),
        count < text.len() ==> !is_white_space(text[count]),
    ensures
        leading_space(text) == count,
{
    lemma_leading_space(text);
    let found = leading_space(text);
    if found < count {
        assert(is_white_space(text[found]));
    } else if found > count {
        assert(is_white_space(text[count]));
    }
}

/// The trailing white space of a text is what comes after its last
/// character that is none.
pub proof fn lemma_trailing_space_is(text: Seq<char>, count: int)
    requires
        0 <= count <= text.len(),
        forall|i: int| text.len() - count <= i < text.len() ==> is_white_space(#[trigger] text[i]),
        count < text.len() ==> !is_white_space(text[text.len() - count - 1]),
    ensures
        trailing_space(text) == count,
{
    lemma_trailing_space(text);
    let found = trailing_space(text);
    if found < count {
        assert(is_white_space(text[text.len() - found - 1]));
    } else if found > count {
        assert(is_white_space(text[text.len() - count - 1]));
    }
}

/// Where the trimmed part of the characters from `from` to `to` starts
/// and ends.
pub fn trim_range(chars: &Vec<char>, from: usize, to: usize) -> (r: (usize, usize))
    requires
        from <= to <= chars@.len(),
    ensures
        from <= r.0 <= r.1 <= to,
        chars@.subrange(r.0 as int, r.1 as int) == trimmed(chars@.subrange(from as int, to as int)),
{
    let ghost part = chars@.subrange(from as int, to as int);
    let mut start: usize = from;
    while start < to && is_whitespace(chars[start])
        invariant
            from <= start <= to <= chars@.len(),
            forall|i: int| from <= i < start ==> is_white_space(#[trigger] chars@[i]),
        decreases to - start,
    {
        start += 1;
    }
    proof {
        assert forall|i: int| 0 <= i < start - from implies is_white_space(#[trigger] part[i]) by {
            assert(part[i] == chars@[from + i]);
        }
        lemma_leading_space_is(part, start - from);
    }
    if start == to {
        assert(chars@.subrange(start as int, start as int) =~= Seq::<char>::empty());
        return (start, start);
    }
    let mut end: usize = to;
    while end > start && is_whitespace(chars[end - 1])
        invariant
            from <= start < to <= chars@.len(),
            start <= end <= to,
            !is_white_space(chars@[start as int]),
            forall|i: int| end <= i < to ==> is_white_space(#[trigger] chars@[i]),
        decreases end,
    {
        end -= 1;
    }
    proof {
        assert(end > start);
        assert forall|i: int| part.len() - (to - end) <= i < part.len() implies is_white_space(
            #[trigger] part[i],
        ) by {
            assert(part[i] == chars@[from + i]);
        }
        assert(part[part.len() - (to - end) - 1] == chars@[end - 1]);
        lemma_trailing_space_is(part, to - end);
        assert(chars@.subrange(start as int, end as int) =~= part.subrange(
            start - from,
            part.len() - (to - end),
        ));
    }
    (start, end)
}

/// The text without the white space at its start and at its end.
pub fn trim(text: &str) -> (r: String)
    ensures
        r@ == trimmed(text@),
{
    let chars = to_chars(text);
    let (start, end) = trim_range(&chars, 0, chars.len());
    assert(chars@.subrange(0, chars@.len() as int) =~= chars@);
    text_of(&chars, start, end)
}

/// Whether a text is empty but for white space.
pub fn blank(text: &str) -> (r: bool)
    ensures
        r == is_blank(text@),
{
    let chars = to_chars(text);
    let (start, end) = trim_range(&chars, 0, chars.len());
    assert(chars@.subrange(0, chars@.len() as int) =~= chars@);
    start == end
}

/// The place of the first `mark` in the text from `from` on, or the
/// length of the text where there is none.
pub open spec fn next_mark(text: Seq<char>, mark: char, from: int) -> int
    decreases text.len() - from,
{
    if from < 0 || from >= text.len() {
        text.len() as int
    } else if text[from] == mark {
        from
    } else {
        next_mark(text, mark, from + 1)
    }
}

/// The trimmed parts, but for the empty ones, of the text from `from`
/// on, cut at each `mark`.
pub open spec fn list_items(text: Seq<char>, mark: char, from: int) -> Seq<Seq<char>>
    decreases text.len() - from,
{
    if from < 0 || from > text.len() {
        Seq::empty()
    } else {
        let stop = next_mark(text, mark, from);
        let item = trimmed(text.subrange(from, stop));
        let rest = if stop < from || stop >= text.len() {
            Seq::empty()
        } else {
            list_items(text, mark, stop + 1)
        };
        if item.len() == 0 {
            rest
        } else {
            seq![item] + rest
        }
    }
}

/// The items of a list whose items stand between commas: each trimmed,
/// the empty ones left out.
pub open spec fn comma_items(text: Seq<char>) -> Seq<Seq<char>> {
    list_items(text, ',', 0)
}

/// What the texts say.
pub open spec fn text_views(list: Seq<String>) -> Seq<Seq<char>> {
    list.map_values(|text: String| text@)
}

/// The items of a list whose items stand between commas.
pub fn split_list(text: &str) -> (r: Vec<String>)
    ensures
        text_views(r@) == comma_items(text@),
{
    let chars = to_chars(text);
    let length: usize = chars.len();
    let mut items: Vec<String> = Vec::new();
    let mut from: usize = 0;
    assert(text_views(items@) =~= Seq::<Seq<char>>::empty());
    loop
        invariant
            chars@ == text@,
            length == chars@.len(),
            0 <= from <= length,
            text_views(items@) + list_items(chars@, ',', from as int) == comma_items(text@),
        decreases length - from,
    {
        let mut stop: usize = from;
        while stop < length && chars[stop] != ','
            invariant
                from <= stop <= length,
                length == chars@.len(),
                next_mark(chars@, ',', from as int) == next_mark(chars@, ',', stop as int),
            decreases length - stop,
        {
            stop += 1;
        }
        let (start, end) = trim_range(&chars, from, stop);
        let ghost before = text_views(items@);
        let ghost rest = if stop >= length {
            Seq::<Seq<char>>::empty()
        } else {
            list_items(chars@, ',', stop + 1)
        };
        if start < end {
            let item = text_of(&chars, start, end);
            proof {
                assert(text_views(items@.push(item)) =~= before.push(item@));
                assert(before.push(item@) + rest =~= before + (seq![item@] + rest));
            }
            items.push(item);
        }
        if stop >= length {
            assert(text_views(items@) + Seq::<Seq<char>>::empty() =~= text_views(items@));
            return items;
        }
        from = stop + 1;
    }
}

/// The place of the last `mark` in the text, or -1 where there is none.
pub open spec fn last_mark(text: Seq<char>, mark: char) -> int
    decreases text.len(),
{
    if text.len() == 0 {
        -1
    } else if text.last() == mark {
        text.len() - 1
    } else {
        last_mark(text.drop_last(), mark)
    }
}

/// The last part of a path: what follows its last `/`.
pub open spec fn file_name(path: Seq<char>) -> Seq<char> {
    path.skip(last_mark(path, '/') + 1)
}

/// The extension of a path: what follows the last dot of its file name,
/// unless the name has no dot, starts with its only dot, or is `..`.
pub open spec fn path_extension(path: Seq<char>) -> Option<Seq<char>> {
    let name = file_name(path);
    let dot = last_mark(name, '.');
    if dot <= 0 || name == seq!['.', '.'] {
        None
    } else {
        Some(name.skip(dot + 1))
    }
}

/// The last mark of a text lies in it, and no mark comes after it.
pub proof fn lemma_last_mark(text: Seq<char>, mark: char)
    ensures
        -1 <= last_mark(text, mark) < text.len(),
        last_mark(text, mark) >= 0 ==> text[last_mark(text, mark)] == mark,
        forall|i: int| last_mark(text, mark) < i < text.len() ==> text[i] != mark,
    decreases text.len(),
{
    if text.len() > 0 && text.last() != mark {
        let rest = text.drop_last();
        lemma_last_mark(rest, mark);
        assert forall|i: int| last_mark(text, mark) < i < text.len() implies text[i] != mark by {
            if i < rest.len() {
                assert(text[i] == rest[i]);
            }
        }
    }
}

/// The last mark of a text is the one after which no mark comes.
pub proof fn lemma_last_mark_is(text: Seq<char>, mark: char, at: int)
    requires
        -1 <= at < text.len(),
        at >= 0 ==> text[at] == mark,
        forall|i: int| at < i < text.len() ==> text[i] != mark,
    ensures
        last_mark(text, mark) == at,
{
    lemma_last_mark(text, mark);
}

/// The place after the last `mark` among the characters from `from` on:
/// `from` where there is none.
fn after_last(chars: &Vec<char>, from: usize, mark: char) -> (r: usize)
    requires
        from <= chars@.len(),
    ensures
        r == from + last_mark(chars@.skip(from as int), mark) + 1,
        from <= r <= chars@.len(),
{
    let ghost part = chars@.skip(from as int);
    let mut at: usize = chars.len();
    while at > from && chars[at - 1] != mark
        invariant
            from <= at <= chars@.len(),
            forall|i: int| at <= i < chars@.len() ==> chars@[i] != mark,
        decreases at,
    {
        at -= 1;
    }
    proof {
        assert forall|i: int| at - from - 1 < i < part.len() implies part[i] != mark by {
            assert(part[i] == chars@[from + i]);
        }
        if at > from {
            assert(part[at - from - 1] == chars@[at - 1]);
        }
        lemma_last_mark_is(part, mark, at - from - 1);
    }
    at
}

/// The extension of a path.
pub fn extension_of(path: &str) -> (r: Option<String>)
    ensures
        said(r) == path_extension(path@),
{
    let chars = to_chars(path);
    let length: usize = chars.len();
    let start: usize = after_last(&chars, 0, '/');
    assert(chars@.skip(0) =~= chars@);
    let ghost name = chars@.skip(start as int);
    let after_dot: usize = after_last(&chars, start, '.');
    if after_dot - start <= 1 {
        return None;
    }
    if length - start == 2 && chars[start] == '.' && chars[start + 1] == '.' {
        assert(name =~= seq!['.', '.']);
        return None;
    }
    proof {
        if name == seq!['.', '.'] {
            assert(name.len() == 2);
            assert(name[0] == '.' && name[1] == '.');
            assert(chars@[start as int] == name[0]);
            assert(chars@[start + 1] == name[1]);
        }
        assert(chars@.subrange(after_dot as int, length as int) =~= name.skip(
            after_dot - start,
        ));
    }
    Some(text_of(&chars, after_dot, length))
}

/// Whether a character is an ASCII digit.
pub open spec fn is_digit(c: char) -> bool {
    '0' <= c <= '9'
}

/// The number that digits stand for.
pub open spec fn digits_value(digits: Seq<char>) -> int
    decreases digits.len(),
{
    if digits.len() == 0 {
        0
    } else {
        digits_value(digits.drop_last()) * 10 + (digits.last() as int - '0' as int)
    }
}

/// Whether every character is an ASCII digit.
pub open spec fn all_digits(digits: Seq<char>) -> bool {
    forall|i: int| 0 <= i < digits.len() ==> is_digit(#[trigger] digits[i])
}

/// Whether a text is a decimal number: digits, at least one, after a
/// sign or none.
pub open spec fn is_number(text: Seq<char>) -> bool {
    let digits = number_digits(text);
    digits.len() > 0 && all_digits(digits)
}

/// The digits of a number: what follows its sign, if it has one.
pub open spec fn number_digits(text: Seq<char>) -> Seq<char> {
    if text.len() > 0 && (text[0] == '+' || text[0] == '-') {
        text.drop_first()
    } else {
        text
    }
}

/// The number that a text stands for.
pub open spec fn number_value(text: Seq<char>) -> int {
    if text.len() > 0 && text[0] == '-' {
        -digits_value(number_digits(text))
    } else {
        digits_value(number_digits(text))
    }
}

/// The 64-bit number that a text stands for, if it is a number and fits.
pub open spec fn parsed_i64(text: Seq<char>) -> Option<i64> {
    if is_number(text) && i64::MIN <= number_value(text) <= i64::MAX {
        Some(number_value(text) as i64)
    } else {
        None
    }
}

/// The value of digits does not shrink as digits are added.
pub proof fn lemma_digits_grow(digits: Seq<char>, upto: int)
    requires
        0 <= upto <= digits.len(),
        all_digits(digits),
    ensures
        0 <= digits_value(digits.take(upto)) <= digits_value(digits),
    decreases digits.len() - upto,
{
    lemma_digits_nonnegative(digits.take(upto));
    if upto < digits.len() {
        lemma_digits_grow(digits, upto + 1);
        assert(digits.take(upto + 1).drop_last() =~= digits.take(upto));
    } else {
        assert(digits.take(upto) =~= digits);
    }
}

/// The value of digits is not negative.
pub proof fn lemma_digits_nonnegative(digits: Seq<char>)
    requires
        forall|i: int| 0 <= i < digits.len() ==> is_digit(#[trigger] digits[i]),
    ensures
        0 <= digits_value(digits),
    decreases digits.len(),
{
    if digits.len() > 0 {
        lemma_digits_nonnegative(digits.drop_last());
    }
}

/// The number that the digits from `start` to `to` stand for, negated;
/// nothing where a character is no digit, or the number is past what a
/// negative 64-bit number reaches.
fn gather_digits(chars: &Vec<char>, start: usize, to: usize) -> (r: Option<i64>)
    requires
        start <= to <= chars@.len(),
    ensures
        match r {
            Some(value) => all_digits(chars@.subrange(start as int, to as int)) && value
                == -digits_value(chars@.subrange(start as int, to as int)),
            None => !all_digits(chars@.subrange(start as int, to as int)) || digits_value(
                chars@.subrange(start as int, to as int),
            ) > -(i64::MIN as int),
        },
{
    let ghost digits = chars@.subrange(start as int, to as int);
    let mut value: i64 = 0;
    let mut at: usize = start;
    assert(digits.take(0) =~= Seq::<char>::empty());
    while at < to
        invariant
            start <= at <= to <= chars@.len(),
            digits == chars@.subrange(start as int, to as int),
            forall|i: int| 0 <= i < at - start ==> is_digit(#[trigger] digits[i]),
            value == -digits_value(digits.take(at - start)),
            value <= 0,
        decreases to - at,
    {
        let c: char = chars[at];
        assert(digits[at - start] == c);
        if !('0' <= c && c <= '9') {
            return None;
        }
        let digit: i64 = (c as u32 - '0' as u32) as i64;
        proof {
            assert(digits.take(at - start + 1).drop_last() =~= digits.take(at - start));
            assert(digits.take(at - start + 1).last() == c);
        }
        let ghost grown = digits_value(digits.take(at - start + 1));
        if value < -922337203685477580i64 || value * 10 < i64::MIN + digit {
            proof {
                assert(grown > -(i64::MIN as int));
                if all_digits(digits) {
                    lemma_digits_grow(digits, at - start + 1);
                }
            }
            return None;
        }
        value = value * 10 - digit;
        at += 1;
    }
    assert(digits.take(digits.len() as int) =~= digits);
    Some(value)
}

/// The 64-bit number that the characters from `from` to `to` stand for.
pub fn parse_i64(chars: &Vec<char>, from: usize, to: usize) -> (r: Option<i64>)
    requires
        from <= to <= chars@.len(),
    ensures
        r == parsed_i64(chars@.subrange(from as int, to as int)),
{
    let ghost text = chars@.subrange(from as int, to as int);
    if from == to {
        return None;
    }
    let negative: bool = chars[from] == '-';
    let start: usize = if chars[from] == '+' || chars[from] == '-' {
        from + 1
    } else {
        from
    };
    let ghost digits = number_digits(text);
    assert(text[0] == chars@[from as int]);
    assert(digits =~= chars@.subrange(start as int, to as int));
    if start == to {
        return None;
    }
    match gather_digits(chars, start, to) {
        None => {
            proof {
                if all_digits(digits) {
                    lemma_digits_nonnegative(digits);
                }
            }
            None
        },
        Some(value) => {
            if negative {
                Some(value)
            } else if value == i64::MIN {
                None
            } else {
                Some(-value)
            }
        },
    }
}

/// The digit for a number below ten.
pub open spec fn digit_for(number: int) -> char {
    ('0' as int + number) as char
}

/// The decimal digits of a number, without leading zeros; `0` for zero.
pub open spec fn decimal(number: nat) -> Seq<char>
    decreases number,
{
    if number < 10 {
        seq![digit_for(number as int)]
    } else {
        decimal(number / 10).push(digit_for((number % 10) as int))
    }
}

/// A number in decimal digits.
pub fn number_text(number: u64) -> (r: String)
    ensures
        r@ == decimal(number as nat),
{
    let mut digits: Vec<char> = Vec::new();
    let mut rest: u64 = number;
    // The digits are gathered from the last to the first.
    assert(decimal(rest as nat) + digits@.reverse() =~= decimal(number as nat));
    loop
        invariant_except_break
            decimal(rest as nat) + digits@.reverse() == decimal(number as nat),
        ensures
            digits@.reverse() == decimal(number as nat),
        decreases rest,
    {
        let digit: u8 = (rest % 10) as u8;
        let c: char = (48u8 + digit) as char;
        assert(c == digit_for((rest % 10) as int));
        let ghost before = digits@;
        digits.push(c);
        proof {
            assert(digits@.reverse() =~= seq![c] + before.reverse());
            if rest >= 10 {
                assert(decimal(rest as nat) == decimal((rest / 10) as nat).push(c));
                assert(decimal((rest / 10) as nat) + digits@.reverse() =~= decimal(rest as nat)
                    + before.reverse());
            } else {
                assert(decimal(rest as nat) == seq![c]);
                assert(digits@.reverse() =~= decimal(rest as nat) + before.reverse());
            }
        }
        if rest < 10 {
            break ;
        }
        rest = rest / 10;
    }
    assert(digits@.reverse() == decimal(number as nat));
    let mut out = String::new();
    let mut at: usize = digits.len();
    let ghost all = digits@.reverse();
    assert(out@ =~= all.take(0));
    while at > 0
        invariant
            0 <= at <= digits@.len(),
            all == digits@.reverse(),
            all == decimal(number as nat),
            out@ == all.take(digits@.len() - at),
        decreases at,
    {
        at -= 1;
        push_char(&mut out, digits[at]);
        assert(all[digits@.len() - at - 1] == digits@[at as int]);
        assert(out@ =~= all.take(digits@.len() - at));
    }
    assert(all.take(all.len() as int) =~= all);
    out
}

/// Whether a character parts the numbers of a list: white space or a
/// comma.
pub open spec fn parts_numbers(c: char) -> bool {
    is_white_space(c) || c == ','
}

/// The end of the word that starts at `from`: the place of the first
/// character from there on that parts numbers, or the end of the text.
pub open spec fn word_end(text: Seq<char>, from: int) -> int
    decreases text.len() - from,
{
    if from < 0 || from >= text.len() || parts_numbers(text[from]) {
        from
    } else {
        word_end(text, from + 1)
    }
}

/// The words of a text from `from` on: what stands between the
/// characters that part numbers, the empty words left out.
pub open spec fn words_from(text: Seq<char>, from: int) -> Seq<Seq<char>>
    decreases text.len() - from,
{
    if from < 0 || from >= text.len() {
        Seq::empty()
    } else if parts_numbers(text[from]) {
        words_from(text, from + 1)
    } else {
        let end = word_end(text, from);
        if end <= from || end > text.len() {
            Seq::empty()
        } else {
            seq![text.subrange(from, end)] + words_from(text, end)
        }
    }
}

/// The end of a word lies at or after its start, within the text.
pub proof fn lemma_word_end(text: Seq<char>, from: int)
    requires
        0 <= from <= text.len(),
    ensures
        from <= word_end(text, from) <= text.len(),
        from < text.len() && !parts_numbers(text[from]) ==> word_end(text, from) > from,
    decreases text.len() - from,
{
    if from < text.len() && !parts_numbers(text[from]) {
        lemma_word_end(text, from + 1);
    }
}

/// The numbers among the words: each word that is a 64-bit number, in
/// the order of the words.
pub open spec fn numbers_among(words: Seq<Seq<char>>) -> Seq<i64> {
    words.filter(|word: Seq<char>| parsed_i64(word) is Some).map_values(
        |word: Seq<char>| parsed_i64(word)->0,
    )
}

/// The words that are no 64-bit number.
pub open spec fn others_among(words: Seq<Seq<char>>) -> Seq<Seq<char>> {
    words.filter(|word: Seq<char>| parsed_i64(word) is None)
}

/// The numbers of a list in which white space and commas part the
/// numbers, and the words of the list that are no numbers.
pub fn split_numbers(text: &str) -> (r: (Vec<i64>, Vec<String>))
    ensures
        r.0@ == numbers_among(words_from(text@, 0)),
        text_views(r.1@) == others_among(words_from(text@, 0)),
{
    let chars = to_chars(text);
    let length: usize = chars.len();
    let ghost is_one = |word: Seq<char>| parsed_i64(word) is Some;
    let ghost is_none = |word: Seq<char>| parsed_i64(word) is None;
    let ghost value_of = |word: Seq<char>| parsed_i64(word)->0;
    let ghost words: Seq<Seq<char>> = Seq::empty();
    let mut numbers: Vec<i64> = Vec::new();
    let mut others: Vec<String> = Vec::new();
    let mut at: usize = 0;
    proof {
        reveal(Seq::filter);
        assert(numbers@ =~= words.filter(is_one).map_values(value_of));
        assert(text_views(others@) =~= words.filter(is_none));
        assert(words + words_from(chars@, 0) =~= words_from(chars@, 0));
    }
    while at < length
        invariant
            chars@ == text@,
            length == chars@.len(),
            0 <= at <= length,
            is_one == |word: Seq<char>| parsed_i64(word) is Some,
            is_none == |word: Seq<char>| parsed_i64(word) is None,
            value_of == |word: Seq<char>| parsed_i64(word)->0,
            words + words_from(chars@, at as int) == words_from(chars@, 0),
            numbers@ == words.filter(is_one).map_values(value_of),
            text_views(others@) == words.filter(is_none),
        decreases length - at,
    {
        if is_whitespace(chars[at]) || chars[at] == ',' {
            at += 1;
        } else {
            let mut end: usize = at;
            while end < length && !(is_whitespace(chars[end]) || chars[end] == ',')
                invariant
                    at <= end <= length,
                    length == chars@.len(),
                    word_end(chars@, at as int) == word_end(chars@, end as int),
                decreases length - end,
            {
                end += 1;
            }
            proof {
                lemma_word_end(chars@, at as int);
            }
            let ghost word = chars@.subrange(at as int, end as int);
            let ghost before = words;
            proof {
                words = words.push(word);
                assert(words + words_from(chars@, end as int) =~= before + (seq![word]
                    + words_from(chars@, end as int)));
                before.lemma_filter_push(word, is_one);
                before.lemma_filter_push(word, is_none);
            }
            match parse_i64(&chars, at, end) {
                Some(number) => {
                    assert(before.filter(is_one).push(word).map_values(value_of)
                        =~= before.filter(is_one).map_values(value_of).push(number));
                    numbers.push(number);
                },
                None => {
                    let other = text_of(&chars, at, end);
                    assert(text_views(others@.push(other)) =~= text_views(others@).push(word));
                    others.push(other);
                },
            }
            at = end;
        }
    }
    assert(words + words_from(chars@, length as int) =~= words);
    (numbers, others)
}

/// A byte, with an upper-case ASCII letter made lower case.
pub open spec fn ascii_lower(byte: u8) -> u8 {
    if 65 <= byte <= 90 {
        (byte + 32) as u8
    } else {
        byte
    }
}

/// Whether two texts are the same but for the case of ASCII letters.
pub open spec fn same_but_case(a: Seq<u8>, b: Seq<u8>) -> bool {
    &&& a.len() == b.len()
    &&& forall|i: int| 0 <= i < a.len() ==> ascii_lower(#[trigger] a[i]) == ascii_lower(b[i])
}

/// Whether two texts are the same but for the case of ASCII letters.
pub fn eq_ignore_ascii_case(a: &str, b: &str) -> (r: bool)
    ensures
        r == same_but_case(crate::text::bytes_of(a@), crate::text::bytes_of(b@)),
{
    let x = a.as_bytes();
    let y = b.as_bytes();
    if x.len() != y.len() {
        return false;
    }
    let mut i: usize = 0;
    while i < x.len()
        invariant
            x@ == crate::text::bytes_of(a@),
            y@ == crate::text::bytes_of(b@),
            x@.len() == y@.len(),
            0 <= i <= x@.len(),
            forall|k: int| 0 <= k < i ==> ascii_lower(#[trigger] x@[k]) == ascii_lower(y@[k]),
        decreases x@.len() - i,
    {
        let p: u8 = if 65 <= x[i] && x[i] <= 90 {
            x[i] + 32
        } else {
            x[i]
        };
        let q: u8 = if 65 <= y[i] && y[i] <= 90 {
            y[i] + 32
        } else {
            y[i]
        };
        if p != q {
            assert(ascii_lower(x@[i as int]) != ascii_lower(y@[i as int]));
            return false;
        }
        i += 1;
    }
    true
}

} // verus!
