//! Byte-level text operations. Source positions are byte offsets, so texts
//! are specified by their UTF-8 bytes.

use vstd::prelude::*;
use vstd::slice::*;
use vstd::string::*;
use vstd::utf8::*;

verus! {

/// The UTF-8 bytes of a text.
pub open spec fn bytes_of(chars: Seq<char>) -> Seq<u8> {
    encode_utf8(chars)
}

/// Encoding distributes over concatenation.
pub proof fn lemma_bytes_of_concat(a: Seq<char>, b: Seq<char>)
    ensures
        bytes_of(a + b) == bytes_of(a) + bytes_of(b),
    decreases a.len(),
{
    if a.len() == 0 {
        assert(a + b =~= b);
        assert(bytes_of(a) + bytes_of(b) =~= bytes_of(b));
    } else {
        assert((a + b).drop_first() =~= a.drop_first() + b);
        assert((a + b)[0] == a[0]);
        lemma_bytes_of_concat(a.drop_first(), b);
        assert(bytes_of(a + b) =~= bytes_of(a) + bytes_of(b));
    }
}

/// Two texts with the same bytes are the same text.
pub proof fn lemma_bytes_of_injective(a: Seq<char>, b: Seq<char>)
    requires
        bytes_of(a) == bytes_of(b),
    ensures
        a == b,
{
    encode_utf8_decode_utf8(a);
    encode_utf8_decode_utf8(b);
}

/// Whether two byte slices hold the same bytes.
pub fn bytes_eq(a: &[u8], b: &[u8]) -> (r: bool)
    ensures
        r == (a@ == b@),
{
    if a.len() != b.len() {
        return false;
    }
    let mut i: usize = 0;
    while i < a.len()
        invariant
            a@.len() == b@.len(),
            0 <= i <= a@.len(),
            forall|j: int| 0 <= j < i ==> a@[j] == b@[j],
        decreases a@.len() - i,
    {
        if a[i] != b[i] {
            return false;
        }
        i += 1;
    }
    assert(a@ =~= b@);
    true
}

/// Whether two texts are equal.
pub fn str_eq(a: &str, b: &str) -> (r: bool)
    ensures
        r == (a@ == b@),
{
    let r = bytes_eq(a.as_bytes(), b.as_bytes());
    proof {
        if r {
            lemma_bytes_of_injective(a@, b@);
        }
    }
    r
}

/// Whether `text` is one of `options`.
pub open spec fn listed(options: Seq<&str>, text: Seq<char>) -> bool {
    exists|i: int| 0 <= i < options.len() && (#[trigger] options[i])@ == text
}

/// Whether `text` is one of `options`.
pub fn is_listed(options: &[&str], text: &str) -> (r: bool)
    ensures
        r == listed(options@, text@),
{
    let mut i: usize = 0;
    while i < options.len()
        invariant
            0 <= i <= options@.len(),
            forall|j: int| 0 <= j < i ==> (#[trigger] options@[j])@ != text@,
        decreases options@.len() - i,
    {
        if str_eq(options[i], text) {
            return true;
        }
        i += 1;
    }
    false
}

/// Whether `needle` stands in `hay` at position `at`.
pub open spec fn occurs_at(hay: Seq<u8>, needle: Seq<u8>, at: int) -> bool {
    0 <= at && at + needle.len() <= hay.len() && hay.subrange(at, at + needle.len()) == needle
}

/// Whether `needle` stands somewhere in `hay`.
pub open spec fn contains_bytes(hay: Seq<u8>, needle: Seq<u8>) -> bool {
    exists|at: int| occurs_at(hay, needle, at)
}

/// Whether `needle` stands in `hay` at position `at`.
pub fn matches_at(hay: &[u8], needle: &[u8], at: usize) -> (r: bool)
    ensures
        r == occurs_at(hay@, needle@, at as int),
{
    if needle.len() > hay.len() || at > hay.len() - needle.len() {
        return false;
    }
    let mut i: usize = 0;
    while i < needle.len()
        invariant
            at + needle@.len() <= hay@.len() <= usize::MAX,
            0 <= i <= needle@.len(),
            forall|j: int| 0 <= j < i ==> hay@[at + j] == needle@[j],
        decreases needle@.len() - i,
    {
        if hay[at + i] != needle[i] {
            assert(hay@.subrange(at as int, at + needle@.len())[i as int] == hay@[at + i]);
            return false;
        }
        i += 1;
    }
    assert(hay@.subrange(at as int, at + needle@.len()) =~= needle@);
    true
}

/// Whether `needle` stands somewhere in `hay`.
pub fn has_bytes(hay: &[u8], needle: &[u8]) -> (r: bool)
    ensures
        r == contains_bytes(hay@, needle@),
{
    if needle.len() > hay.len() {
        return false;
    }
    let last: usize = hay.len() - needle.len();
    let mut at: usize = 0;
    loop
        invariant
            last == hay@.len() - needle@.len(),
            0 <= at <= last,
            forall|k: int| 0 <= k < at ==> !occurs_at(hay@, needle@, k),
        decreases last - at,
    {
        if matches_at(hay, needle, at) {
            return true;
        }
        if at == last {
            return false;
        }
        at += 1;
    }
}

/// Whether the text `needle` stands somewhere in the text `hay`.
pub fn str_contains(hay: &str, needle: &str) -> (r: bool)
    ensures
        r == contains_bytes(bytes_of(hay@), bytes_of(needle@)),
{
    has_bytes(hay.as_bytes(), needle.as_bytes())
}

/// Whether `[start, end)` is a span of whole characters of the text with
/// these bytes.
pub open spec fn char_span(bytes: Seq<u8>, start: int, end: int) -> bool {
    &&& 0 <= start <= end <= bytes.len()
    &&& is_char_boundary(bytes, start)
    &&& is_char_boundary(bytes, end)
}

/// A character boundary of a text is one of each prefix that reaches it.
pub proof fn lemma_boundary_in_prefix(bytes: Seq<u8>, start: int, end: int)
    requires
        valid_utf8(bytes),
        char_span(bytes, start, end),
    ensures
        valid_utf8(bytes.subrange(0, end)),
        is_char_boundary(bytes.subrange(0, end), start),
{
    let head = bytes.subrange(0, end);
    valid_utf8_split(bytes, end);
    if start == end {
        is_char_boundary_start_end_of_seq(head);
    } else {
        is_char_boundary_iff_not_is_continuation_byte(head, start);
        is_char_boundary_iff_not_is_continuation_byte(bytes, start);
    }
}

/// The part of `source` between two character boundaries.
pub fn slice_text<'a>(source: &'a str, start: usize, end: usize) -> (r: &'a str)
    requires
        char_span(bytes_of(source@), start as int, end as int),
    ensures
        bytes_of(r@) == bytes_of(source@).subrange(start as int, end as int),
{
    proof {
        encode_utf8_valid_utf8(source@);
        lemma_boundary_in_prefix(bytes_of(source@), start as int, end as int);
    }
    let (head, _) = source.split_at(end);
    let (_, r) = head.split_at(start);
    assert(bytes_of(head@).subrange(start as int, bytes_of(head@).len() as int) =~= bytes_of(
        source@,
    ).subrange(start as int, end as int));
    r
}

/// The three texts one after the other.
pub fn concat3(a: &str, b: &str, c: &str) -> (r: String)
    ensures
        r@ == a@ + b@ + c@,
        bytes_of(r@) == bytes_of(a@) + bytes_of(b@) + bytes_of(c@),
{
    let mut r = String::from_str(a);
    r.append(b);
    r.append(c);
    proof {
        lemma_bytes_of_concat(a@, b@);
        lemma_bytes_of_concat(a@ + b@, c@);
    }
    r
}

/// `String::from_utf8` of std: the text that the bytes encode, where they
/// are valid UTF-8, and nothing where they are not.
#[verifier::external_body]
pub(crate) fn string_from_utf8(bytes: Vec<u8>) -> (r: Option<String>)
    ensures
        r is Some <==> valid_utf8(bytes@),
        r is Some ==> bytes_of(r->0@) == bytes@,
{
    String::from_utf8(bytes).ok()
}

/// The number of line feeds among the bytes.
pub open spec fn line_feeds(bytes: Seq<u8>) -> nat
    decreases bytes.len(),
{
    if bytes.len() == 0 {
        0
    } else {
        line_feeds(bytes.drop_last()) + if bytes.last() == 10u8 {
            1nat
        } else {
            0nat
        }
    }
}

/// The number of line feeds before `byte_offset`; an offset past the end
/// counts them all.
pub open spec fn line_feeds_before(bytes: Seq<u8>, byte_offset: int) -> nat {
    if byte_offset <= 0 {
        0
    } else if byte_offset >= bytes.len() {
        line_feeds(bytes)
    } else {
        line_feeds(bytes.take(byte_offset))
    }
}

/// The number of line feeds among the first `limit` bytes.
pub fn count_line_feeds(bytes: &[u8], limit: usize) -> (r: usize)
    ensures
        r == line_feeds_before(bytes@, limit as int),
        r <= bytes@.len(),
{
    let stop: usize = if limit < bytes.len() {
        limit
    } else {
        bytes.len()
    };
    let mut count: usize = 0;
    let mut i: usize = 0;
    assert(bytes@.take(0) =~= Seq::<u8>::empty());
    while i < stop
        invariant
            0 <= i <= stop <= bytes@.len(),
            count <= i,
            count == line_feeds(bytes@.take(i as int)),
        decreases stop - i,
    {
        assert(bytes@.take(i + 1).drop_last() =~= bytes@.take(i as int));
        if bytes[i] == 10u8 {
            count += 1;
        }
        i += 1;
    }
    assert(bytes@.take(bytes@.len() as int) =~= bytes@);
    count
}

/// What stands between every two characters of `hay`, and after its
/// last, once `to` is put there: the first `upto` bytes of `hay`, with
/// `to` after each that ends a character.
pub open spec fn spread(hay: Seq<u8>, to: Seq<u8>, upto: int) -> Seq<u8>
    decreases upto,
{
    if upto <= 0 || upto > hay.len() {
        Seq::empty()
    } else {
        let rest = spread(hay, to, upto - 1).push(hay[upto - 1]);
        if upto == hay.len() || !is_continuation_byte(hay[upto]) {
            rest + to
        } else {
            rest
        }
    }
}

/// `hay` with each occurrence of `from` replaced by `to`, the
/// occurrences taken from the left and not overlapping. An empty `from`
/// occurs before every character and at the end.
pub open spec fn replace_all(hay: Seq<u8>, from: Seq<u8>, to: Seq<u8>) -> Seq<u8>
    decreases hay.len(),
{
    if from.len() == 0 {
        to + spread(hay, to, hay.len() as int)
    } else if hay.len() < from.len() {
        hay
    } else if hay.subrange(0, from.len() as int) == from {
        to + replace_all(hay.subrange(from.len() as int, hay.len() as int), from, to)
    } else {
        seq![hay[0]] + replace_all(hay.drop_first(), from, to)
    }
}

/// Adds the bytes `more` at the end of `out`.
pub fn append_bytes(out: &mut Vec<u8>, more: &[u8])
    ensures
        final(out)@ == old(out)@ + more@,
{
    let mut i: usize = 0;
    assert(out@ =~= old(out)@ + more@.take(0));
    while i < more.len()
        invariant
            0 <= i <= more@.len(),
            out@ == old(out)@ + more@.take(i as int),
        decreases more@.len() - i,
    {
        out.push(more[i]);
        assert(out@ =~= old(out)@ + more@.take(i + 1));
        i += 1;
    }
    assert(more@.take(more@.len() as int) =~= more@);
}

/// `hay` with each occurrence of `from` replaced by `to`.
pub fn replace_bytes(hay: &[u8], from: &[u8], to: &[u8]) -> (r: Vec<u8>)
    ensures
        r@ == replace_all(hay@, from@, to@),
{
    let mut out: Vec<u8> = Vec::new();
    let length: usize = hay.len();
    if from.len() == 0 {
        append_bytes(&mut out, to);
        let mut at: usize = 0;
        assert(out@ =~= to@ + spread(hay@, to@, 0));
        while at < length
            invariant
                length == hay@.len(),
                0 <= at <= length,
                out@ == to@ + spread(hay@, to@, at as int),
            decreases length - at,
        {
            out.push(hay[at]);
            if at + 1 == length || (hay[at + 1] & 0xc0) != 0x80 {
                append_bytes(&mut out, to);
            }
            proof {
                if at + 1 < length {
                    let next = hay@[at + 1];
                    assert(((next & 0xc0) != 0x80) == !is_continuation_byte(next)) by (bit_vector)
                        requires
                            is_continuation_byte(next) == (0x80 <= next <= 0xbf),
                    ;
                }
                assert(out@ =~= to@ + spread(hay@, to@, at + 1));
            }
            at += 1;
        }
        return out;
    }
    let mut at: usize = 0;
    assert(hay@.subrange(0, length as int) =~= hay@);
    while at < length
        invariant
            length == hay@.len(),
            from@.len() > 0,
            0 <= at <= length,
            out@ + replace_all(hay@.subrange(at as int, length as int), from@, to@) == replace_all(
                hay@,
                from@,
                to@,
            ),
        decreases length - at,
    {
        let ghost rest = hay@.subrange(at as int, length as int);
        if matches_at(hay, from, at) {
            proof {
                assert(rest.subrange(0, from@.len() as int) =~= hay@.subrange(
                    at as int,
                    at + from@.len(),
                ));
                assert(rest.subrange(from@.len() as int, rest.len() as int) =~= hay@.subrange(
                    at + from@.len(),
                    length as int,
                ));
                assert(out@ + to@ + replace_all(
                    hay@.subrange(at + from@.len(), length as int),
                    from@,
                    to@,
                ) =~= out@ + replace_all(rest, from@, to@));
            }
            append_bytes(&mut out, to);
            at += from.len();
        } else {
            proof {
                if rest.len() >= from@.len() {
                    assert(rest.subrange(0, from@.len() as int) =~= hay@.subrange(
                        at as int,
                        at + from@.len(),
                    ));
                    assert(rest.drop_first() =~= hay@.subrange(at + 1, length as int));
                    assert(out@.push(hay@[at as int]) + replace_all(
                        hay@.subrange(at + 1, length as int),
                        from@,
                        to@,
                    ) =~= out@ + replace_all(rest, from@, to@));
                }
            }
            out.push(hay[at]);
            at += 1;
        }
    }
    out
}

} // verus!
