//! Text as sequences of characters: comparison, searching, splitting and slicing.

use vstd::prelude::*;
use vstd::string::*;
use vstd::utf8::*;

verus! {

/// `String::push`: the character is appended and the rest is kept.
pub assume_specification[ String::push ](s: &mut String, c: char)
    ensures
        final(s)@ == old(s)@.push(c),
;

/// The characters of `s`, in order.
pub(crate) fn chars_of(s: &str) -> (r: Vec<char>)
    ensures
        r@ == s@,
{
    let mut r: Vec<char> = Vec::new();
    for c in it: s.chars()
        invariant
            r@ == it.seq().take(it.index()),
            it.seq() == s@,
    {
        r.push(c);
    }
    r
}

/// The string made of `chars[from..to]`.
pub(crate) fn string_of(chars: &Vec<char>, from: usize, to: usize) -> (r: String)
    requires
        from <= to <= chars@.len(),
    ensures
        r@ == chars@.subrange(from as int, to as int),
{
    let mut r = String::new();
    let mut i: usize = from;
    while i < to
        invariant
            from <= i <= to <= chars@.len(),
            r@ == chars@.subrange(from as int, i as int),
        decreases to - i,
    {
        r.push(chars[i]);
        i += 1;
        assert(chars@.subrange(from as int, i as int) == chars@.subrange(from as int, i - 1).push(chars@[i - 1]));
    }
    r
}

/// Whether two texts are equal.
pub(crate) fn text_is(a: &str, b: &str) -> (r: bool)
    ensures
        r == (a@ == b@),
{
    a.to_string() == b.to_string()
}

/// `needle` occurs in `hay` at position `i`.
pub open spec fn occurs_at(hay: Seq<char>, needle: Seq<char>, i: int) -> bool {
    &&& 0 <= i <= hay.len() - needle.len()
    &&& hay.subrange(i, i + needle.len()) == needle
}

/// `needle` occurs somewhere in `hay`.
pub open spec fn contains_text(hay: Seq<char>, needle: Seq<char>) -> bool {
    exists|i: int| occurs_at(hay, needle, i)
}

/// Whether `needle` occurs in `hay` at position `at`.
fn found_at(hay: &Vec<char>, needle: &Vec<char>, at: usize) -> (r: bool)
    requires
        at + needle@.len() <= hay@.len(),
    ensures
        r == occurs_at(hay@, needle@, at as int),
{
    let mut k: usize = 0;
    while k < needle.len()
        invariant
            k <= needle@.len(),
            at + needle@.len() <= hay.len(),
            forall|j: int| 0 <= j < k ==> hay@[at + j] == needle@[j],
        decreases needle@.len() - k,
    {
        if hay[at + k] != needle[k] {
            assert(hay@.subrange(at as int, at + needle@.len())[k as int] != needle@[k as int]);
            return false;
        }
        k += 1;
    }
    assert(hay@.subrange(at as int, at + needle@.len()) =~= needle@);
    true
}

/// Whether `needle` occurs in `hay`.
pub fn text_contains(hay: &str, needle: &str) -> (r: bool)
    ensures
        r == contains_text(hay@, needle@),
{
    let h = chars_of(hay);
    let n = chars_of(needle);
    if n.len() > h.len() {
        return false;
    }
    let last: usize = h.len() - n.len();
    let mut i: usize = 0;
    loop
        invariant
            h@ == hay@,
            n@ == needle@,
            n@.len() <= h@.len(),
            last == h@.len() - n@.len(),
            i <= last,
            forall|j: int| 0 <= j < i ==> !occurs_at(h@, n@, j),
        decreases last - i,
    {
        if found_at(&h, &n, i) {
            return true;
        }
        if i == last {
            return false;
        }
        i += 1;
    }
}

/// `s` begins with `prefix`.
pub open spec fn begins_with(s: Seq<char>, prefix: Seq<char>) -> bool {
    prefix.len() <= s.len() && s.take(prefix.len() as int) == prefix
}

/// `s` ends with `suffix`.
pub open spec fn ends_with(s: Seq<char>, suffix: Seq<char>) -> bool {
    suffix.len() <= s.len() && s.skip(s.len() - suffix.len()) == suffix
}

/// Whether `s` begins with `prefix`.
pub(crate) fn text_begins_with(s: &str, prefix: &str) -> (r: bool)
    ensures
        r == begins_with(s@, prefix@),
{
    let h = chars_of(s);
    let n = chars_of(prefix);
    if n.len() > h.len() {
        return false;
    }
    assert(h@.take(n@.len() as int) == h@.subrange(0, n@.len() as int));
    found_at(&h, &n, 0)
}

/// Whether `s` ends with `suffix`.
pub(crate) fn text_ends_with(s: &str, suffix: &str) -> (r: bool)
    ensures
        r == ends_with(s@, suffix@),
{
    let h = chars_of(s);
    let n = chars_of(suffix);
    if n.len() > h.len() {
        return false;
    }
    let at: usize = h.len() - n.len();
    assert(h@.skip(at as int) == h@.subrange(at as int, at + n@.len()));
    found_at(&h, &n, at)
}

/// `s` with every `from` replaced by `to`.
pub open spec fn replaced(s: Seq<char>, from: char, to: char) -> Seq<char> {
    s.map_values(
        |c: char|
            if c == from {
                to
            } else {
                c
            },
    )
}

/// `s` with every `from` replaced by `to`.
pub(crate) fn replace_char(s: &str, from: char, to: char) -> (r: String)
    ensures
        r@ == replaced(s@, from, to),
{
    let chars = chars_of(s);
    let mut r = String::new();
    let mut i: usize = 0;
    while i < chars.len()
        invariant
            i <= chars@.len(),
            r@ == replaced(chars@.take(i as int), from, to),
        decreases chars@.len() - i,
    {
        let c = chars[i];
        if c == from {
            r.push(to);
        } else {
            r.push(c);
        }
        i += 1;
        assert(chars@.take(i as int) == chars@.take(i - 1).push(c));
        assert(r@ =~= replaced(chars@.take(i as int), from, to));
    }
    assert(chars@.take(i as int) == chars@);
    r
}

/// The pieces of `s` between separators; a text without a separator is one piece.
pub open spec fn pieces(s: Seq<char>, separator: char) -> Seq<Seq<char>>
    decreases s.len(),
{
    if s.len() == 0 {
        seq![Seq::empty()]
    } else {
        let before = pieces(s.drop_last(), separator);
        if s.last() == separator {
            before.push(Seq::empty())
        } else {
            before.drop_last().push(before.last().push(s.last()))
        }
    }
}

/// The views of a sequence of strings.
pub open spec fn texts(s: Seq<String>) -> Seq<Seq<char>> {
    s.map_values(|t: String| t@)
}

/// Splits `s` at every separator.
pub fn split_text(s: &str, separator: char) -> (r: Vec<String>)
    ensures
        texts(r@) == pieces(s@, separator),
        r@.len() >= 1,
{
    let chars = chars_of(s);
    let mut r: Vec<String> = Vec::new();
    let mut current = String::new();
    let mut i: usize = 0;
    while i < chars.len()
        invariant
            i <= chars@.len(),
            texts(r@).push(current@) == pieces(chars@.take(i as int), separator),
        decreases chars@.len() - i,
    {
        let c = chars[i];
        let ghost old_r = r@;
        let ghost old_current = current@;
        i += 1;
        assert(chars@.take(i as int).drop_last() == chars@.take(i - 1));
        if c == separator {
            r.push(current);
            current = String::new();
            assert(texts(r@) =~= texts(old_r).push(old_current));
        } else {
            current.push(c);
            assert(texts(old_r).push(old_current).drop_last() =~= texts(old_r));
        }
    }
    assert(chars@.take(i as int) == chars@);
    let ghost old_r = r@;
    r.push(current);
    assert(texts(r@) =~= texts(old_r).push(current@));
    r
}

/// The characters with the Unicode property `White_Space`.
pub open spec fn is_white(c: char) -> bool {
    let u = c as u32;
    ||| 0x09 <= u <= 0x0d
    ||| u == 0x20
    ||| u == 0x85
    ||| u == 0xa0
    ||| u == 0x1680
    ||| 0x2000 <= u <= 0x200a
    ||| u == 0x2028
    ||| u == 0x2029
    ||| u == 0x202f
    ||| u == 0x205f
    ||| u == 0x3000
}

/// `s` without its leading white space.
pub open spec fn trimmed_start(s: Seq<char>) -> Seq<char>
    decreases s.len(),
{
    if s.len() > 0 && is_white(s.first()) {
        trimmed_start(s.drop_first())
    } else {
        s
    }
}

/// `s` without its trailing white space.
pub open spec fn trimmed_end(s: Seq<char>) -> Seq<char>
    decreases s.len(),
{
    if s.len() > 0 && is_white(s.last()) {
        trimmed_end(s.drop_last())
    } else {
        s
    }
}

/// `s` without leading and trailing white space.
pub open spec fn trimmed(s: Seq<char>) -> Seq<char> {
    trimmed_end(trimmed_start(s))
}

/// Whether `c` is white space.
fn white(c: char) -> (r: bool)
    ensures
        r == is_white(c),
{
    let u: u32 = c as u32;
    (0x09 <= u && u <= 0x0d) || u == 0x20 || u == 0x85 || u == 0xa0 || u == 0x1680
        || (0x2000 <= u && u <= 0x200a) || u == 0x2028 || u == 0x2029 || u == 0x202f
        || u == 0x205f || u == 0x3000
}

/// `s` without leading and trailing white space.
pub fn trim_text(s: &str) -> (r: String)
    ensures
        r@ == trimmed(s@),
{
    let chars = chars_of(s);
    let mut from: usize = 0;
    assert(chars@.skip(0) == chars@);
    while from < chars.len() && white(chars[from])
        invariant
            from <= chars@.len(),
            trimmed_start(chars@) == trimmed_start(chars@.skip(from as int)),
        decreases chars@.len() - from,
    {
        assert(chars@.skip(from as int).drop_first() == chars@.skip(from + 1));
        from += 1;
    }
    let mut to: usize = chars.len();
    assert(chars@.subrange(from as int, to as int) == chars@.skip(from as int));
    assert(trimmed_start(chars@) == chars@.skip(from as int));
    while from < to && white(chars[to - 1])
        invariant
            from <= to <= chars@.len(),
            trimmed(chars@) == trimmed_end(chars@.subrange(from as int, to as int)),
        decreases to - from,
    {
        assert(chars@.subrange(from as int, to as int).drop_last() == chars@.subrange(from as int, to - 1));
        to -= 1;
    }
    string_of(&chars, from, to)
}

/// `a` comes strictly before `b` in the order of code points.
pub open spec fn text_before(a: Seq<char>, b: Seq<char>) -> bool
    decreases a.len(),
{
    if b.len() == 0 {
        false
    } else if a.len() == 0 {
        true
    } else if a.first() == b.first() {
        text_before(a.drop_first(), b.drop_first())
    } else {
        (a.first() as int) < (b.first() as int)
    }
}

/// The order of texts is irreflexive.
pub proof fn lemma_text_before_irreflexive(a: Seq<char>)
    ensures
        !text_before(a, a),
    decreases a.len(),
{
    if a.len() > 0 {
        lemma_text_before_irreflexive(a.drop_first());
    }
}

/// The order of texts is transitive.
pub proof fn lemma_text_before_transitive(a: Seq<char>, b: Seq<char>, c: Seq<char>)
    requires
        text_before(a, b),
        text_before(b, c),
    ensures
        text_before(a, c),
    decreases a.len(),
{
    if a.len() > 0 && b.len() > 0 && c.len() > 0 {
        if a.first() == b.first() && b.first() == c.first() {
            lemma_text_before_transitive(a.drop_first(), b.drop_first(), c.drop_first());
        }
    }
}

/// Two texts of which neither comes before the other are equal.
pub proof fn lemma_text_before_total(a: Seq<char>, b: Seq<char>)
    requires
        !text_before(a, b),
        !text_before(b, a),
    ensures
        a == b,
    decreases a.len(),
{
    if a.len() > 0 && b.len() > 0 {
        lemma_text_before_total(a.drop_first(), b.drop_first());
        assert(a =~= seq![a.first()] + a.drop_first());
        assert(b =~= seq![b.first()] + b.drop_first());
    } else {
        assert(a =~= b);
    }
}

/// The code point of `c`.
fn code_point(c: char) -> (r: u32)
    ensures
        r as int == c as int,
{
    c as u32
}

/// Whether `a` comes strictly before `b`.
pub(crate) fn text_less(a: &str, b: &str) -> (r: bool)
    ensures
        r == text_before(a@, b@),
{
    let x = chars_of(a);
    let y = chars_of(b);
    let mut i: usize = 0;
    assert(x@.skip(0) == x@);
    assert(y@.skip(0) == y@);
    while i < x.len() && i < y.len() && x[i] == y[i]
        invariant
            i <= x@.len(),
            i <= y@.len(),
            text_before(x@, y@) == text_before(x@.skip(i as int), y@.skip(i as int)),
        decreases x@.len() - i,
    {
        assert(x@.skip(i as int).drop_first() == x@.skip(i + 1));
        assert(y@.skip(i as int).drop_first() == y@.skip(i + 1));
        i += 1;
    }
    if i == y.len() {
        false
    } else if i == x.len() {
        true
    } else {
        code_point(x[i]) < code_point(y[i])
    }
}

/// The number of bytes of `s` in UTF-8.
pub open spec fn byte_len(s: Seq<char>) -> nat {
    encode_utf8(s).len()
}

/// The byte offset `i` lies between two characters of `s`, or at an end of it.
pub open spec fn cuts_at(s: Seq<char>, i: int) -> bool {
    is_char_boundary(encode_utf8(s), i)
}

/// The characters of `s` between the byte offsets `from` and `to`.
pub open spec fn byte_slice(s: Seq<char>, from: int, to: int) -> Seq<char> {
    decode_utf8(encode_utf8(s).subrange(from, to))
}

/// The text of `s` between two byte offsets.
pub(crate) fn slice_bytes(s: &str, from: usize, to: usize) -> (r: String)
    requires
        from <= to <= byte_len(s@),
        cuts_at(s@, from as int),
        cuts_at(s@, to as int),
    ensures
        r@ == byte_slice(s@, from as int, to as int),
{
    let ghost bytes = encode_utf8(s@);
    let (head, rest) = s.split_at(to);
    proof {
        encode_utf8_valid_utf8(s@);
        encode_utf8_valid_utf8(head@);
        if from == to {
            is_char_boundary_start_end_of_seq(encode_utf8(head@));
        } else {
            is_char_boundary_iff_not_is_continuation_byte(bytes, from as int);
            is_char_boundary_iff_not_is_continuation_byte(encode_utf8(head@), from as int);
            assert(encode_utf8(head@)[from as int] == bytes[from as int]);
        }
    }
    let (start, middle) = head.split_at(from);
    proof {
        assert(middle.spec_bytes() =~= bytes.subrange(from as int, to as int));
        encode_utf8_decode_utf8(middle@);
    }
    middle.to_string()
}

/// An offset between characters lies within the text.
pub proof fn lemma_cut_in_range(s: Seq<char>, i: int)
    requires
        cuts_at(s, i),
    ensures
        0 <= i <= byte_len(s),
        cuts_at(s, 0),
{
    encode_utf8_valid_utf8(s);
    is_char_boundary_start_end_of_seq(encode_utf8(s));
    reveal_with_fuel(is_char_boundary, 1);
}

proof fn lemma_encoded_parts(a: Seq<char>, b: Seq<char>)
    ensures
        encode_utf8(a + b) == encode_utf8(a) + encode_utf8(b),
    decreases a.len(),
{
    if a.len() == 0 {
        assert(a + b =~= b);
        assert(encode_utf8(a) + encode_utf8(b) =~= encode_utf8(b));
    } else {
        lemma_encoded_parts(a.drop_first(), b);
        assert((a + b).drop_first() =~= a.drop_first() + b);
        assert(encode_utf8(a + b) =~= encode_utf8(a) + encode_utf8(b));
    }
}

/// What a text begins with, its first bytes begin with too, if there are enough of them.
pub proof fn lemma_slice_begins_with(s: Seq<char>, prefix: Seq<char>, to: int)
    requires
        begins_with(s, prefix),
        cuts_at(s, to),
        byte_len(prefix) <= to,
    ensures
        begins_with(byte_slice(s, 0, to), prefix),
{
    let rest = s.skip(prefix.len() as int);
    let bytes = encode_utf8(s);
    let head = encode_utf8(prefix);
    let tail = encode_utf8(rest);
    let m = head.len() as int;
    lemma_cut_in_range(s, to);
    assert(s =~= prefix + rest);
    lemma_encoded_parts(prefix, rest);
    encode_utf8_valid_utf8(s);
    encode_utf8_valid_utf8(rest);
    valid_utf8_split(bytes, to);
    let start = bytes.subrange(0, to);
    if m == to {
        is_char_boundary_start_end_of_seq(start);
    } else {
        is_char_boundary_start_end_of_seq(tail);
        is_char_boundary_iff_not_is_continuation_byte(tail, 0);
        assert(start[m] == tail[0]);
        is_char_boundary_iff_not_is_continuation_byte(start, m);
    }
    decode_utf8_split(start, m);
    assert(start.subrange(0, m) =~= head);
    encode_utf8_decode_utf8(prefix);
    let sliced = byte_slice(s, 0, to);
    assert(sliced.take(prefix.len() as int) =~= prefix);
}

/// In ASCII text, byte offsets and character positions agree.
pub proof fn lemma_ascii_byte_slice(s: Seq<char>, from: int, to: int)
    requires
        is_ascii_chars(s),
        0 <= from <= to <= s.len(),
    ensures
        byte_len(s) == s.len(),
        cuts_at(s, from),
        cuts_at(s, to),
        byte_slice(s, from, to) == s.subrange(from, to),
{
    let t = s.subrange(from, to);
    assert(is_ascii_chars(t));
    is_ascii_chars_encode_utf8(s);
    is_ascii_chars_encode_utf8(t);
    encode_utf8_valid_utf8(s);
    assert forall|i: int| 0 <= i <= s.len() implies cuts_at(s, i) by {
        if i == s.len() {
            is_char_boundary_start_end_of_seq(encode_utf8(s));
        } else {
            assert('\0' <= s[i] <= '\u{7f}');
            assert(encode_utf8(s)[i] == s[i] as u8);
            is_char_boundary_iff_not_is_continuation_byte(encode_utf8(s), i);
        }
    }
    assert(encode_utf8(s).subrange(from, to) =~= encode_utf8(t)) by {
        assert forall|i: int| 0 <= i < to - from implies encode_utf8(s).subrange(from, to)[i]
            == encode_utf8(t)[i] by {
            assert(t[i] == s[from + i]);
            assert(encode_utf8(s)[from + i] == s[from + i] as u8);
        }
    }
    encode_utf8_decode_utf8(t);
}

/// The lower-case form of a text under the Unicode case mapping.
pub uninterp spec fn lowercase(s: Seq<char>) -> Seq<char>;

/// The lower-case form of an ASCII letter; any other character is kept.
pub open spec fn ascii_lower(c: char) -> char {
    if 'A' <= c <= 'Z' {
        ((c as u8) + 32) as char
    } else {
        c
    }
}

/// `str::to_lowercase`: the result depends on the text alone, and on ASCII text the
/// letters `A` to `Z` become `a` to `z` and everything else is kept.
#[verifier::external_body]
pub(crate) fn to_lower(s: &str) -> (r: String)
    ensures
        r@ == lowercase(s@),
        is_ascii_chars(s@) ==> r@ == s@.map_values(|c: char| ascii_lower(c)),
{
    s.to_lowercase()
}

} // verus!
