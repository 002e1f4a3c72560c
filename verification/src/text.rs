//! UTF-8 text primitives shared by the editor, the `.strings` parser and the
//! account state: byte lengths, character boundaries and extended grapheme
//! cluster starts, plus the few std/segmentation calls that produce them.
use unicode_segmentation::UnicodeSegmentation;
use vstd::prelude::*;
use vstd::string::*;
use vstd::utf8::*;

verus! {

broadcast use vstd::utf8::encode_utf8_valid_utf8, vstd::utf8::encode_utf8_decode_utf8;

/// UTF-8 byte length of a character sequence.
pub open spec fn byte_len(text: Seq<char>) -> int {
    encode_utf8(text).len() as int
}

/// `i` is a character boundary of the UTF-8 encoding of `text`.
pub open spec fn char_boundary_of(text: Seq<char>, i: int) -> bool {
    is_char_boundary(encode_utf8(text), i)
}

/// Byte offsets at which the extended grapheme clusters of a text start, in
/// the order that `grapheme_indices(true)` reports them.
pub uninterp spec fn grapheme_starts(text: Seq<char>) -> Seq<usize>;

/// The shape of a segmentation: clusters are non-empty, consecutive and cover
/// the text, so their starts begin at 0, strictly increase, lie inside the
/// text and fall on character boundaries.
pub open spec fn segmentation_shape(text: Seq<char>, s: Seq<usize>) -> bool {
    &&& (s.len() == 0 <==> text.len() == 0)
    &&& s.len() > 0 ==> s[0] == 0
    &&& forall|i: int, j: int| 0 <= i < j < s.len() ==> s[i] < s[j]
    &&& forall|i: int| 0 <= i < s.len() ==> #[trigger] s[i] < byte_len(text)
    &&& forall|i: int| 0 <= i < s.len() ==> char_boundary_of(text, #[trigger] s[i] as int)
}

pub open spec fn well_segmented(text: Seq<char>) -> bool {
    segmentation_shape(text, grapheme_starts(text))
}

/// `i` is a grapheme cluster boundary: a cluster start or the end of the text.
pub open spec fn is_grapheme_boundary(text: Seq<char>, i: int) -> bool {
    ||| i == byte_len(text)
    ||| exists|k: int| 0 <= k < grapheme_starts(text).len() && grapheme_starts(text)[k] == i
}

/// `k` is the first index of `s` whose element exceeds `i`, or `s.len()`.
pub open spec fn is_first_above(s: Seq<usize>, i: int, k: int) -> bool {
    &&& 0 <= k <= s.len()
    &&& forall|j: int| 0 <= j < k ==> #[trigger] s[j] <= i
    &&& k < s.len() ==> s[k] > i
}

pub open spec fn first_above(s: Seq<usize>, i: int) -> int {
    choose|k: int| is_first_above(s, i, k)
}

/// `k` is the first index of `s` whose element is at least `i`, or `s.len()`.
pub open spec fn is_first_at_least(s: Seq<usize>, i: int, k: int) -> bool {
    &&& 0 <= k <= s.len()
    &&& forall|j: int| 0 <= j < k ==> #[trigger] s[j] < i
    &&& k < s.len() ==> s[k] >= i
}

pub open spec fn first_at_least(s: Seq<usize>, i: int) -> int {
    choose|k: int| is_first_at_least(s, i, k)
}

/// `k` is the last index of `s` whose element is below `i`, or -1.
pub open spec fn is_last_below(s: Seq<usize>, i: int, k: int) -> bool {
    &&& -1 <= k < s.len()
    &&& forall|j: int| k < j < s.len() ==> #[trigger] s[j] >= i
    &&& k >= 0 ==> s[k] < i
}

pub open spec fn last_below(s: Seq<usize>, i: int) -> int {
    choose|k: int| is_last_below(s, i, k)
}

pub proof fn lemma_first_above(s: Seq<usize>, i: int, k: int)
    requires
        is_first_above(s, i, k),
    ensures
        first_above(s, i) == k,
{
    let c = first_above(s, i);
    assert(is_first_above(s, i, c));
    if c < k {
        assert(s[c] <= i);
    } else if k < c {
        assert(s[k] <= i);
    }
}

pub proof fn lemma_first_at_least(s: Seq<usize>, i: int, k: int)
    requires
        is_first_at_least(s, i, k),
    ensures
        first_at_least(s, i) == k,
{
    let c = first_at_least(s, i);
    assert(is_first_at_least(s, i, c));
    if c < k {
        assert(s[c] < i);
    } else if k < c {
        assert(s[k] < i);
    }
}

pub proof fn lemma_last_below(s: Seq<usize>, i: int, k: int)
    requires
        is_last_below(s, i, k),
    ensures
        last_below(s, i) == k,
{
    let c = last_below(s, i);
    assert(is_last_below(s, i, c));
    if c < k {
        assert(s[k] >= i);
    } else if k < c {
        assert(s[c] >= i);
    }
}

/// Greatest grapheme boundary at or before `index`; the end of the text for an
/// index at or past it.
pub open spec fn boundary_before(text: Seq<char>, index: int) -> int {
    let s = grapheme_starts(text);
    if index >= byte_len(text) {
        byte_len(text)
    } else {
        let k = first_above(s, index);
        if k == 0 {
            0
        } else {
            s[k - 1] as int
        }
    }
}

/// Least grapheme boundary at or after `index`; the end of the text if none.
pub open spec fn boundary_after(text: Seq<char>, index: int) -> int {
    let s = grapheme_starts(text);
    let k = first_at_least(s, index);
    if k < s.len() {
        s[k] as int
    } else {
        byte_len(text)
    }
}

/// The next cluster start strictly after `index`, or the end of the text.
pub open spec fn next_boundary(text: Seq<char>, index: int) -> int {
    let s = grapheme_starts(text);
    let k = first_above(s, index);
    if k < s.len() {
        s[k] as int
    } else {
        byte_len(text)
    }
}

/// The last cluster start strictly before `index`, or 0.
pub open spec fn previous_boundary(text: Seq<char>, index: int) -> int {
    let s = grapheme_starts(text);
    let k = last_below(s, index);
    if k >= 0 {
        s[k] as int
    } else {
        0
    }
}

/// Greatest character boundary at or before `index` (clamped to the length).
pub open spec fn is_char_floor(text: Seq<char>, index: int, r: int) -> bool {
    let top = if index < byte_len(text) {
        index
    } else {
        byte_len(text)
    };
    &&& 0 <= r <= top
    &&& char_boundary_of(text, r)
    &&& forall|j: int| r < j <= top ==> !char_boundary_of(text, j)
}

pub open spec fn char_floor(text: Seq<char>, index: int) -> int {
    choose|r: int| is_char_floor(text, index, r)
}

pub proof fn lemma_char_floor(text: Seq<char>, index: int, r: int)
    requires
        is_char_floor(text, index, r),
    ensures
        char_floor(text, index) == r,
{
    let c = char_floor(text, index);
    assert(is_char_floor(text, index, c));
}

/// Unicode general category Cc.
pub open spec fn is_control(c: char) -> bool {
    c <= '\u{1f}' || ('\u{7f}' <= c && c <= '\u{9f}')
}

/// A text with its control characters removed, in order.
pub open spec fn without_controls(text: Seq<char>) -> Seq<char>
    decreases text.len(),
{
    if text.len() == 0 {
        seq![]
    } else {
        without_controls(text.drop_last()) + if is_control(text.last()) {
            seq![]
        } else {
            seq![text.last()]
        }
    }
}

/// Byte-level replacement of `[start, end)` by `text`.
pub open spec fn splice_bytes(value: Seq<char>, start: int, end: int, text: Seq<char>) -> Seq<u8> {
    encode_utf8(value).subrange(0, start) + encode_utf8(text) + encode_utf8(value).subrange(
        end,
        byte_len(value),
    )
}

/// The character sequence whose encoding is `splice_bytes(..)`.
pub open spec fn splice(value: Seq<char>, start: int, end: int, text: Seq<char>) -> Seq<char> {
    decode_utf8(splice_bytes(value, start, end, text))
}

pub proof fn lemma_encode_concat(a: Seq<char>, b: Seq<char>)
    ensures
        encode_utf8(a + b) == encode_utf8(a) + encode_utf8(b),
    decreases a.len(),
{
    if a.len() == 0 {
        assert(a + b =~= b);
    } else {
        assert((a + b).drop_first() =~= a.drop_first() + b);
        lemma_encode_concat(a.drop_first(), b);
        assert((a + b)[0] == a[0]);
    }
}

pub proof fn lemma_encode_push(a: Seq<char>, c: char)
    ensures
        encode_utf8(a.push(c)) == encode_utf8(a) + encode_utf8(seq![c]),
{
    assert(a.push(c) =~= a + seq![c]);
    lemma_encode_concat(a, seq![c]);
}

pub proof fn lemma_without_controls_shorter(text: Seq<char>)
    ensures
        byte_len(without_controls(text)) <= byte_len(text),
    decreases text.len(),
{
    if text.len() > 0 {
        let init = text.drop_last();
        lemma_without_controls_shorter(init);
        assert(text =~= init.push(text.last()));
        lemma_encode_push(init, text.last());
        let tail = if is_control(text.last()) {
            seq![]
        } else {
            seq![text.last()]
        };
        lemma_encode_concat(without_controls(init), tail);
    }
}

/// Whatever was spliced in at a boundary, the splice is the encoding's
/// inverse: decoding the spliced bytes and encoding again gives them back.
pub proof fn lemma_splice_bytes(value: Seq<char>, start: int, end: int, text: Seq<char>)
    requires
        0 <= start <= end <= byte_len(value),
        char_boundary_of(value, start),
        char_boundary_of(value, end),
    ensures
        valid_utf8(splice_bytes(value, start, end, text)),
        encode_utf8(splice(value, start, end, text)) == splice_bytes(value, start, end, text),
        byte_len(splice(value, start, end, text)) == byte_len(value) - (end - start)
            + byte_len(text),
{
    let b = encode_utf8(value);
    let pre = b.subrange(0, start);
    let post = b.subrange(end, b.len() as int);
    vstd::utf8::valid_utf8_split(b, start);
    vstd::utf8::valid_utf8_split(b, end);
    vstd::utf8::valid_utf8_concat(pre, encode_utf8(text));
    vstd::utf8::valid_utf8_concat(pre + encode_utf8(text), post);
    vstd::utf8::decode_utf8_encode_utf8(splice_bytes(value, start, end, text));
}


/// Every character takes at least one byte, an ASCII one exactly one.
pub proof fn lemma_byte_len_at_least_len(s: Seq<char>)
    ensures
        byte_len(s) >= s.len(),
        (forall|i: int| 0 <= i < s.len() ==> (#[trigger] s[i] as u32) <= 0x7f) ==> byte_len(s)
            == s.len(),
    decreases s.len(),
{
    if s.len() > 0 {
        lemma_byte_len_at_least_len(s.drop_first());
        assert(forall|i: int| 0 <= i < s.len() - 1 ==> s.drop_first()[i] == s[i + 1]);
    }
}

/// A prefix never encodes to more bytes than the whole text.
pub proof fn lemma_take_shorter(text: Seq<char>, i: int)
    requires
        0 <= i <= text.len(),
    ensures
        byte_len(text.take(i)) <= byte_len(text),
{
    crate::text::lemma_encode_concat(text.take(i), text.skip(i));
    assert(text.take(i) + text.skip(i) =~= text);
}

/// Two texts hold the same characters.
pub fn same_text(a: &str, b: &str) -> (same: bool)
    ensures
        same == (a@ == b@),
{
    let x = chars_of(a);
    let y = chars_of(b);
    if x.len() != y.len() {
        return false;
    }
    let mut i: usize = 0;
    while i < x.len()
        invariant
            x@ == a@,
            y@ == b@,
            x@.len() == y@.len(),
            0 <= i <= x@.len(),
            forall|j: int| 0 <= j < i ==> x@[j] == y@[j],
        decreases x@.len() - i,
    {
        if x[i] != y[i] {
            assert(a@[i as int] != b@[i as int]);
            return false;
        }
        i = i + 1;
    }
    assert(x@ =~= y@);
    true
}

/// Unicode White_Space, as `char::is_whitespace` reports it.
pub open spec fn is_white_space(c: char) -> bool {
    ||| ('\u{9}' <= c && c <= '\u{d}')
    ||| c == ' '
    ||| c == '\u{85}'
    ||| c == '\u{a0}'
    ||| c == '\u{1680}'
    ||| ('\u{2000}' <= c && c <= '\u{200a}')
    ||| c == '\u{2028}'
    ||| c == '\u{2029}'
    ||| c == '\u{202f}'
    ||| c == '\u{205f}'
    ||| c == '\u{3000}'
}

pub fn is_white_space_char(c: char) -> (b: bool)
    ensures
        b == is_white_space(c),
{
    ('\u{9}' <= c && c <= '\u{d}') || c == ' ' || c == '\u{85}' || c == '\u{a0}' || c
        == '\u{1680}' || ('\u{2000}' <= c && c <= '\u{200a}') || c == '\u{2028}' || c
        == '\u{2029}' || c == '\u{202f}' || c == '\u{205f}' || c == '\u{3000}'
}

/// The text is empty once surrounding white space is trimmed.
pub open spec fn blank(text: Seq<char>) -> bool {
    forall|i: int| 0 <= i < text.len() ==> is_white_space(#[trigger] text[i])
}

pub fn is_blank(text: &str) -> (b: bool)
    ensures
        b == blank(text@),
{
    let chars = chars_of(text);
    let mut i: usize = 0;
    while i < chars.len()
        invariant
            chars@ == text@,
            0 <= i <= chars@.len(),
            forall|j: int| 0 <= j < i ==> is_white_space(#[trigger] chars@[j]),
        decreases chars@.len() - i,
    {
        if !is_white_space_char(chars[i]) {
            return false;
        }
        i = i + 1;
    }
    true
}

// ---------------------------------------------------------------------------
// Trusted boundary with std and unicode-segmentation.
/// `UnicodeSegmentation::grapheme_indices(text, true)`, keeping the offsets.
/// Claims that the offsets are the named `grapheme_starts` of the text, and
/// the shape that the crate's iterator gives them: each cluster is the slice
/// between two successive cursor boundaries, so the starts begin at 0, strictly
/// increase, stay inside the text and are character boundaries.
#[verifier::external_body]
pub(crate) fn grapheme_offsets(text: &str) -> (offsets: Vec<usize>)
    ensures
        offsets@ == grapheme_starts(text@),
        segmentation_shape(text@, offsets@),
{
    text.grapheme_indices(true).map(|(offset, _)| offset).collect()
}

/// `str::len`: the UTF-8 byte length. Claims the value equals the length of
/// the encoding and, as for every Rust object, is at most `isize::MAX`.
#[verifier::external_body]
pub(crate) fn str_byte_len(text: &str) -> (n: usize)
    ensures
        n as int == byte_len(text@),
        n <= isize::MAX,
{
    text.len()
}

/// The characters of a text, in order.
pub fn chars_of(text: &str) -> (chars: Vec<char>)
    ensures
        chars@ == text@,
{
    broadcast use vstd::string::axiom_spec_iter;

    let mut chars: Vec<char> = Vec::new();
    for c in it: text.chars()
        invariant
            it.seq() == text@,
            chars@ == it.seq().take(it.index() as int),
    {
        chars.push(c);
        assert(chars@ =~= it.seq().take(it.index() + 1));
    }
    assert(chars@ =~= text@);
    chars
}

/// `FromIterator<char>` for `String`: a string holding exactly these characters.
/// The caller states that its UTF-8 encoding fits in an allocation.
#[verifier::external_body]
pub(crate) fn string_from_chars(chars: &[char]) -> (text: String)
    requires
        byte_len(chars@) <= isize::MAX,
    ensures
        text@ == chars@,
{
    chars.iter().collect()
}

/// `String::replace_range(start..end, text)`. Requires both ends on character
/// boundaries (it panics otherwise) and a result that fits in an allocation;
/// claims the new bytes are the old prefix, the inserted bytes and the old suffix.
#[verifier::external_body]
pub(crate) fn replace_byte_range(value: &mut String, start: usize, end: usize, text: &str)
    requires
        start <= end <= byte_len(old(value)@),
        char_boundary_of(old(value)@, start as int),
        char_boundary_of(old(value)@, end as int),
        byte_len(old(value)@) - (end - start) + byte_len(text@) <= isize::MAX,
    ensures
        encode_utf8(final(value)@) == splice_bytes(old(value)@, start as int, end as int, text@),
{
    value.replace_range(start..end, text);
}

/// Bytes of `n` bullets: three each.
proof fn lemma_bullet_bytes(n: nat)
    ensures
        byte_len(Seq::new(n, |i: int| '•')) == 3 * n,
    decreases n,
{
    if n > 0 {
        let m = (n - 1) as nat;
        lemma_bullet_bytes(m);
        assert(Seq::new(n, |i: int| '•') =~= Seq::new(m, |i: int| '•').push('•'));
        lemma_encode_push(Seq::new(m, |i: int| '•'), '•');
        reveal_with_fuel(vstd::utf8::encode_utf8, 2);
        assert(seq!['•'].drop_first() =~= Seq::<char>::empty());
        assert(('•' as u32) == 0x2022);
    }
}

/// `count` bullets, the mask drawn for secure text.
pub(crate) fn bullets(count: usize) -> (text: String)
    requires
        count * 3 <= isize::MAX,
    ensures
        text@ == Seq::new(count as nat, |i: int| '•'),
{
    let mut chars: Vec<char> = Vec::new();
    let mut k: usize = 0;
    while k < count
        invariant
            0 <= k <= count,
            chars@ == Seq::new(k as nat, |i: int| '•'),
        decreases count - k,
    {
        chars.push('•');
        k = k + 1;
        assert(chars@ =~= Seq::new(k as nat, |i: int| '•'));
    }
    proof {
        lemma_bullet_bytes(count as nat);
    }
    string_from_chars(&chars)
}

/// Appends characters to a buffer.
pub(crate) fn push_chars(out: &mut Vec<char>, chars: &[char])
    ensures
        final(out)@ == old(out)@ + chars@,
{
    let mut i: usize = 0;
    while i < chars.len()
        invariant
            0 <= i <= chars@.len(),
            out@ == old(out)@ + chars@.take(i as int),
        decreases chars@.len() - i,
    {
        out.push(chars[i]);
        i = i + 1;
        assert(out@ =~= old(out)@ + chars@.take(i as int));
    }
    assert(chars@.take(i as int) =~= chars@);
}

} // verus!
