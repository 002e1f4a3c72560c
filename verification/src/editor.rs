//! Single-line desktop editor. Committed cursor/selection positions always
//! follow grapheme boundaries, including after pointer placement and insertion.
//! IME marked-text positions remain UTF-8 character offsets owned by the IME.
use crate::text::{
    boundary_after, boundary_before, byte_len, bullets, char_boundary_of, char_floor, chars_of,
    grapheme_offsets, grapheme_starts, is_char_floor, is_control, is_first_above,
    is_grapheme_boundary,
    lemma_char_floor, lemma_first_above, lemma_first_at_least, lemma_last_below,
    lemma_splice_bytes, lemma_without_controls_shorter, next_boundary, previous_boundary,
    replace_byte_range, splice, str_byte_len, string_from_chars, well_segmented,
    without_controls,
};
use vstd::prelude::*;
use vstd::utf8::*;

verus! {

broadcast use vstd::utf8::encode_utf8_valid_utf8, vstd::utf8::encode_utf8_decode_utf8,
    vstd::utf8::is_char_boundary_start_end_of_seq;

/// The first grapheme start of a non-empty, well-segmented text is a boundary.
proof fn lemma_zero_is_boundary(text: Seq<char>)
    requires
        well_segmented(text),
    ensures
        is_grapheme_boundary(text, 0),
        char_boundary_of(text, 0),
{
    if text.len() > 0 {
        assert(grapheme_starts(text)[0] == 0);
    } else {
        assert(encode_utf8(text) =~= Seq::<u8>::empty());
    }
}

/// Every cluster start is a boundary, on a character boundary, inside the text.
proof fn lemma_start_is_boundary(text: Seq<char>, k: int)
    requires
        well_segmented(text),
        0 <= k < grapheme_starts(text).len(),
    ensures
        is_grapheme_boundary(text, grapheme_starts(text)[k] as int),
        char_boundary_of(text, grapheme_starts(text)[k] as int),
        grapheme_starts(text)[k] < byte_len(text),
{
}

pub fn grapheme_boundary_before(text: &str, index: usize) -> (r: usize)
    ensures
        r == boundary_before(text@, index as int),
        is_grapheme_boundary(text@, r as int),
        char_boundary_of(text@, r as int),
        r <= byte_len(text@),
        r <= index || r == byte_len(text@),
{
    let len = str_byte_len(text);
    if index >= len {
        return len;
    }
    let starts = grapheme_offsets(text);
    let mut k: usize = 0;
    while k < starts.len() && starts[k] <= index
        invariant
            0 <= k <= starts@.len(),
            forall|j: int| 0 <= j < k ==> #[trigger] starts@[j] <= index,
        decreases starts@.len() - k,
    {
        k = k + 1;
    }
    proof {
        lemma_first_above(starts@, index as int, k as int);
        lemma_zero_is_boundary(text@);
    }
    if k == 0 {
        0
    } else {
        proof {
            lemma_start_is_boundary(text@, k - 1);
        }
        starts[k - 1]
    }
}

pub fn grapheme_boundary_after(text: &str, index: usize) -> (r: usize)
    ensures
        r == boundary_after(text@, index as int),
        is_grapheme_boundary(text@, r as int),
        char_boundary_of(text@, r as int),
        r <= byte_len(text@),
        well_segmented(text@),
{
    let starts = grapheme_offsets(text);
    let mut k: usize = 0;
    while k < starts.len() && starts[k] < index
        invariant
            0 <= k <= starts@.len(),
            forall|j: int| 0 <= j < k ==> #[trigger] starts@[j] < index,
        decreases starts@.len() - k,
    {
        k = k + 1;
    }
    proof {
        lemma_first_at_least(starts@, index as int, k as int);
    }
    if k < starts.len() {
        proof {
            lemma_start_is_boundary(text@, k as int);
        }
        starts[k]
    } else {
        str_byte_len(text)
    }
}

pub fn char_boundary(text: &str, index: usize) -> (r: usize)
    ensures
        is_char_floor(text@, index as int, r as int),
        r == char_floor(text@, index as int),
{
    let len = str_byte_len(text);
    let mut index = if index < len {
        index
    } else {
        len
    };
    let ghost top = index;
    assert(char_boundary_of(text@, 0));
    while !text.is_char_boundary(index)
        invariant
            char_boundary_of(text@, 0),
            0 <= index <= top <= byte_len(text@),
            forall|j: int| index < j <= top ==> !char_boundary_of(text@, j),
        decreases index,
    {
        assert(index != 0);
        index = index - 1;
    }
    proof {
        lemma_char_floor(text@, index as int, index as int);
    }
    index
}

/// The next cluster start strictly after `index`, or the end of the text.
fn grapheme_start_after(text: &str, index: usize) -> (r: usize)
    requires
        text@.len() > 0 ==> well_segmented(text@),
    ensures
        r == next_boundary(text@, index as int),
        is_grapheme_boundary(text@, r as int),
        char_boundary_of(text@, r as int),
        r <= byte_len(text@),
{
    let starts = grapheme_offsets(text);
    let mut k: usize = 0;
    while k < starts.len() && starts[k] <= index
        invariant
            0 <= k <= starts@.len(),
            forall|j: int| 0 <= j < k ==> #[trigger] starts@[j] <= index,
        decreases starts@.len() - k,
    {
        k = k + 1;
    }
    proof {
        lemma_first_above(starts@, index as int, k as int);
    }
    if k < starts.len() {
        proof {
            lemma_start_is_boundary(text@, k as int);
        }
        starts[k]
    } else {
        str_byte_len(text)
    }
}

/// The last cluster start strictly before `index`, or 0.
fn grapheme_start_before(text: &str, index: usize) -> (r: usize)
    ensures
        r == previous_boundary(text@, index as int),
        is_grapheme_boundary(text@, r as int),
        char_boundary_of(text@, r as int),
        r <= byte_len(text@),
{
    let starts = grapheme_offsets(text);
    let mut k: usize = starts.len();
    while k > 0 && starts[k - 1] >= index
        invariant
            0 <= k <= starts@.len(),
            forall|j: int| k <= j < starts@.len() ==> #[trigger] starts@[j] >= index,
        decreases k,
    {
        k = k - 1;
    }
    proof {
        lemma_last_below(starts@, index as int, k - 1);
        lemma_zero_is_boundary(text@);
    }
    if k > 0 {
        proof {
            lemma_start_is_boundary(text@, k - 1);
        }
        starts[k - 1]
    } else {
        0
    }
}

/// Unicode general category Cc, as `char::is_control` reports it.
pub fn is_control_char(c: char) -> (b: bool)
    ensures
        b == is_control(c),
{
    c <= '\u{1f}' || ('\u{7f}' <= c && c <= '\u{9f}')
}

/// Abstract state of an editor: committed text, caret and selection anchor as
/// byte offsets, and the IME marked text with its own cursor.
pub struct EditorModel {
    pub value: Seq<char>,
    pub cursor: int,
    pub anchor: int,
    pub preedit: Seq<char>,
    pub preedit_cursor: Option<(usize, usize)>,
}

/// Number of grapheme clusters in the prefix of `text` up to the character
/// boundary at or before `end`.
pub open spec fn graphemes_before(text: Seq<char>, end: int) -> int {
    grapheme_starts(decode_utf8(encode_utf8(text).subrange(0, char_floor(text, end)))).len() as int
}

impl EditorModel {
    pub open spec fn start(self) -> int {
        if self.anchor <= self.cursor {
            self.anchor
        } else {
            self.cursor
        }
    }

    pub open spec fn end(self) -> int {
        if self.anchor <= self.cursor {
            self.cursor
        } else {
            self.anchor
        }
    }

    /// Committed positions are grapheme boundaries on character boundaries;
    /// IME positions are character boundaries of the marked text.
    #[verifier::opaque]
    pub open spec fn wf(self) -> bool {
        &&& byte_len(self.value) <= isize::MAX
        &&& byte_len(self.preedit) <= isize::MAX
        &&& byte_len(self.value) + byte_len(self.preedit) <= isize::MAX
        &&& self.value.len() > 0 ==> well_segmented(self.value)
        &&& 0 <= self.cursor <= byte_len(self.value)
        &&& 0 <= self.anchor <= byte_len(self.value)
        &&& is_grapheme_boundary(self.value, self.cursor)
        &&& is_grapheme_boundary(self.value, self.anchor)
        &&& char_boundary_of(self.value, self.cursor)
        &&& char_boundary_of(self.value, self.anchor)
        &&& match self.preedit_cursor {
            Some((a, b)) => {
                &&& a <= byte_len(self.preedit)
                &&& b <= byte_len(self.preedit)
                &&& char_boundary_of(self.preedit, a as int)
                &&& char_boundary_of(self.preedit, b as int)
            },
            None => true,
        }
    }

    pub open spec fn clear_preedit(self) -> EditorModel {
        EditorModel { preedit: Seq::empty(), preedit_cursor: None, ..self }
    }

    /// Replace the selection by `text` without its control characters; the
    /// caret lands at the first boundary at or after the inserted text.
    pub open spec fn replace(self, text: Seq<char>) -> EditorModel {
        let inserted = without_controls(text);
        let value = splice(self.value, self.start(), self.end(), inserted);
        let cursor = boundary_after(value, self.start() + byte_len(inserted));
        EditorModel {
            value,
            cursor,
            anchor: cursor,
            preedit: Seq::empty(),
            preedit_cursor: None,
        }
    }

    pub open spec fn set_preedit(self, text: Seq<char>, cursor: Option<(usize, usize)>) -> EditorModel {
        EditorModel {
            preedit: text,
            preedit_cursor: match cursor {
                Some((a, b)) => Some((char_floor(text, a as int) as usize, char_floor(text, b as int) as usize)),
                None => None,
            },
            ..self
        }
    }

    pub open spec fn move_to(self, position: int, extend: bool) -> EditorModel {
        let cursor = boundary_before(self.value, position);
        EditorModel {
            cursor,
            anchor: if extend {
                self.anchor
            } else {
                cursor
            },
            ..self
        }.clear_preedit()
    }

    pub open spec fn horizontal_target(self, right: bool, extend: bool) -> int {
        if !extend && self.start() < self.end() {
            if right {
                self.end()
            } else {
                self.start()
            }
        } else if right {
            next_boundary(self.value, self.cursor)
        } else {
            previous_boundary(self.value, self.cursor)
        }
    }

    pub open spec fn move_horizontal(self, right: bool, extend: bool) -> EditorModel {
        self.move_to(self.horizontal_target(right, extend), extend)
    }

    pub open spec fn erase(self, forward: bool) -> EditorModel {
        let moved = if self.start() == self.end() {
            self.move_horizontal(forward, true)
        } else {
            self
        };
        moved.replace(Seq::empty())
    }

    pub open spec fn select_all(self) -> EditorModel {
        EditorModel { anchor: 0, cursor: byte_len(self.value), ..self }.clear_preedit()
    }

    /// Text, caret and marked range that drawing receives before masking.
    pub open spec fn composed(self) -> (Seq<char>, int, int, int) {
        if self.preedit.len() == 0 {
            (self.value, self.cursor, self.start(), self.end())
        } else {
            (
                splice(self.value, self.start(), self.end(), self.preedit),
                self.start() + match self.preedit_cursor {
                    Some((_, b)) => b as int,
                    None => byte_len(self.preedit),
                },
                self.start(),
                self.start() + byte_len(self.preedit),
            )
        }
    }

    /// What drawing receives: the composed text, or for secure entry one
    /// three-byte bullet per grapheme with positions counted in bullets.
    pub open spec fn display(self, secure: bool) -> (Seq<char>, int, int, int) {
        let (value, cursor, marked_start, marked_end) = self.composed();
        if secure {
            (
                Seq::new(grapheme_starts(value).len(), |i: int| '•'),
                graphemes_before(value, cursor) * 3,
                graphemes_before(value, marked_start) * 3,
                graphemes_before(value, marked_end) * 3,
            )
        } else {
            (value, cursor, marked_start, marked_end)
        }
    }
}

pub struct Editor {
    pub value: String,
    pub cursor: usize,
    pub anchor: usize,
    pub preedit: String,
    pub preedit_cursor: Option<(usize, usize)>,
}

impl View for Editor {
    type V = EditorModel;

    open spec fn view(&self) -> EditorModel {
        EditorModel {
            value: self.value@,
            cursor: self.cursor as int,
            anchor: self.anchor as int,
            preedit: self.preedit@,
            preedit_cursor: self.preedit_cursor,
        }
    }
}

/// What a well-formed editor guarantees to its users.
pub proof fn lemma_wf_facts(m: EditorModel)
    requires
        m.wf(),
    ensures
        byte_len(m.value) <= isize::MAX,
        byte_len(m.preedit) <= isize::MAX,
        byte_len(m.value) + byte_len(m.preedit) <= isize::MAX,
        0 <= m.start() <= m.end() <= byte_len(m.value),
        char_boundary_of(m.value, m.start()),
        char_boundary_of(m.value, m.end()),
        is_grapheme_boundary(m.value, m.cursor),
        is_grapheme_boundary(m.value, m.anchor),
{
    reveal(EditorModel::wf);
}

/// Secure entry never draws plaintext: whatever the text and the IME state,
/// every drawn character is a bullet.
pub proof fn law_secure_display_is_only_bullets(m: EditorModel)
    ensures
        forall|i: int| 0 <= i < m.display(true).0.len() ==> #[trigger] m.display(true).0[i] == '•',
{
}

/// Caret motion and selection never change the committed text, and they end
/// any IME composition.
pub proof fn law_caret_motion_keeps_text(m: EditorModel, position: int, extend: bool, right: bool)
    ensures
        m.move_to(position, extend).value == m.value,
        m.move_horizontal(right, extend).value == m.value,
        m.select_all().value == m.value,
        m.move_to(position, extend).preedit.len() == 0,
        m.move_horizontal(right, extend).preedit.len() == 0,
        m.select_all().preedit.len() == 0,
{
}

/// A grapheme boundary is its own greatest boundary at or before it.
proof fn lemma_boundary_before_fixed(m: EditorModel, p: int)
    requires
        m.wf(),
        0 <= p <= byte_len(m.value),
        is_grapheme_boundary(m.value, p),
    ensures
        boundary_before(m.value, p) == p,
{
    reveal(EditorModel::wf);
    if p < byte_len(m.value) {
        let s = grapheme_starts(m.value);
        assert(m.value.len() > 0) by {
            if m.value.len() == 0 {
                assert(encode_utf8(m.value) =~= Seq::<u8>::empty());
            }
        }
        let k = choose|k: int| 0 <= k < s.len() && s[k] == p;
        assert(s[k] == p);
        assert(is_first_above(s, p, k + 1));
        lemma_first_above(s, p, k + 1);
    }
}

/// An arrow key without Shift over a selection collapses it: Right leaves
/// caret and anchor at the later of the two ends, Left at the earlier one.
pub proof fn law_arrow_collapses_selection_to_its_side(m: EditorModel)
    requires
        m.wf(),
        m.anchor != m.cursor,
    ensures
        m.move_horizontal(true, false).cursor == (if m.anchor < m.cursor {
            m.cursor
        } else {
            m.anchor
        }),
        m.move_horizontal(true, false).anchor == m.move_horizontal(true, false).cursor,
        m.move_horizontal(false, false).cursor == (if m.anchor < m.cursor {
            m.anchor
        } else {
            m.cursor
        }),
        m.move_horizontal(false, false).anchor == m.move_horizontal(false, false).cursor,
{
    reveal(EditorModel::wf);
    lemma_boundary_before_fixed(m, m.cursor);
    lemma_boundary_before_fixed(m, m.anchor);
}

/// Moving to a position with Shift keeps the anchor and moves only the
/// caret; without Shift both land on the caret. The text end and start are
/// reached exactly.
pub proof fn law_move_to_keeps_the_anchor_when_extending(m: EditorModel, position: int)
    requires
        m.wf(),
    ensures
        m.move_to(position, true).anchor == m.anchor,
        m.move_to(position, false).anchor == m.move_to(position, false).cursor,
        m.move_to(byte_len(m.value), true).cursor == byte_len(m.value),
        m.move_to(0, true).cursor == 0,
{
    reveal(EditorModel::wf);
    if m.value.len() > 0 {
        lemma_zero_is_boundary(m.value);
    } else {
        assert(encode_utf8(m.value) =~= Seq::<u8>::empty());
    }
    lemma_boundary_before_fixed(m, 0);
}

pub open spec fn empty_editor() -> EditorModel {
    EditorModel {
        value: Seq::empty(),
        cursor: 0,
        anchor: 0,
        preedit: Seq::empty(),
        preedit_cursor: None,
    }
}

impl Default for Editor {
    fn default() -> (editor: Editor)
        ensures
            editor@ == empty_editor(),
            editor@.wf(),
    {
        proof {
            reveal(EditorModel::wf);
        }
        let editor = Editor {
            value: String::new(),
            cursor: 0,
            anchor: 0,
            preedit: String::new(),
            preedit_cursor: None,
        };
        assert(encode_utf8(Seq::<char>::empty()) =~= Seq::<u8>::empty());
        editor
    }
}

impl Editor {
    pub fn text(&self) -> (text: &str)
        ensures
            text@ == self.value@,
    {
        self.value.as_str()
    }

    pub fn selection(&self) -> (range: std::ops::Range<usize>)
        ensures
            range.start == self@.start(),
            range.end == self@.end(),
    {
        if self.anchor <= self.cursor {
            self.anchor..self.cursor
        } else {
            self.cursor..self.anchor
        }
    }

    pub fn cursor(&self) -> (cursor: usize)
        ensures
            cursor == self@.cursor,
    {
        self.cursor
    }

    pub fn clear_preedit(&mut self)
        requires
            old(self)@.wf(),
        ensures
            final(self)@ == old(self)@.clear_preedit(),
            final(self)@.wf(),
    {
        proof {
            reveal(EditorModel::wf);
        }
        self.preedit = String::new();
        self.preedit_cursor = None;
        assert(encode_utf8(Seq::<char>::empty()) =~= Seq::<u8>::empty());
    }

    pub fn replace(&mut self, text: &str)
        requires
            old(self)@.wf(),
            byte_len(old(self)@.value) + byte_len(text@) <= isize::MAX,
        ensures
            final(self)@ == old(self)@.replace(text@),
            final(self)@.wf(),
    {
        proof {
            reveal(EditorModel::wf);
        }
        let chars = chars_of(text);
        let mut kept: Vec<char> = Vec::new();
        let mut i: usize = 0;
        while i < chars.len()
            invariant
                0 <= i <= chars@.len(),
                kept@ == without_controls(chars@.take(i as int)),
            decreases chars@.len() - i,
        {
            let c = chars[i];
            proof {
                assert(chars@.take(i + 1).drop_last() =~= chars@.take(i as int));
                assert(chars@.take(i + 1).last() == c);
            }
            if !is_control_char(c) {
                kept.push(c);
            }
            i = i + 1;
            proof {
                assert(kept@ =~= without_controls(chars@.take(i as int)));
            }
        }
        proof {
            assert(chars@.take(chars@.len() as int) =~= chars@);
            lemma_without_controls_shorter(text@);
        }
        let inserted = string_from_chars(&kept);
        let selected = self.selection();
        let ghost before = self@;
        replace_byte_range(&mut self.value, selected.start, selected.end, &inserted);
        proof {
            lemma_splice_bytes(before.value, before.start(), before.end(), inserted@);
            assert(self.value@ == decode_utf8(encode_utf8(self.value@)));
        }
        let inserted_len = str_byte_len(&inserted);
        self.cursor = grapheme_boundary_after(&self.value, selected.start + inserted_len);
        self.anchor = self.cursor;
        self.preedit = String::new();
        self.preedit_cursor = None;
        assert(encode_utf8(Seq::<char>::empty()) =~= Seq::<u8>::empty());
    }

    pub fn set_preedit(&mut self, text: &str, cursor: Option<(usize, usize)>)
        requires
            old(self)@.wf(),
            byte_len(old(self)@.value) + byte_len(text@) <= isize::MAX,
        ensures
            final(self)@ == old(self)@.set_preedit(text@, cursor),
            final(self)@.wf(),
    {
        proof {
            reveal(EditorModel::wf);
        }
        let _ = str_byte_len(text);
        self.preedit = text.to_owned();
        self.preedit_cursor = match cursor {
            Some((start, end)) => Some((char_boundary(text, start), char_boundary(text, end))),
            None => None,
        };
    }

    pub fn move_to(&mut self, position: usize, extend: bool)
        requires
            old(self)@.wf(),
        ensures
            final(self)@ == old(self)@.move_to(position as int, extend),
            final(self)@.wf(),
    {
        proof {
            reveal(EditorModel::wf);
        }
        self.cursor = grapheme_boundary_before(&self.value, position);
        if !extend {
            self.anchor = self.cursor;
        }
        self.clear_preedit();
    }

    pub fn move_horizontal(&mut self, right: bool, extend: bool)
        requires
            old(self)@.wf(),
        ensures
            final(self)@ == old(self)@.move_horizontal(right, extend),
            final(self)@.wf(),
    {
        proof {
            reveal(EditorModel::wf);
        }
        let selected = self.selection();
        let target = if !extend && selected.start < selected.end {
            if right {
                selected.end
            } else {
                selected.start
            }
        } else if right {
            grapheme_start_after(&self.value, self.cursor)
        } else {
            grapheme_start_before(&self.value, self.cursor)
        };
        self.move_to(target, extend);
    }

    pub fn erase(&mut self, forward: bool)
        requires
            old(self)@.wf(),
        ensures
            final(self)@ == old(self)@.erase(forward),
            final(self)@.wf(),
    {
        proof {
            reveal(EditorModel::wf);
        }
        let selected = self.selection();
        if selected.start == selected.end {
            self.move_horizontal(forward, true);
        }
        let empty = "";
        proof {
            reveal_strlit("");
            assert(encode_utf8(empty@) =~= Seq::<u8>::empty());
        }
        self.replace(empty);
    }

    pub fn select_all(&mut self)
        requires
            old(self)@.wf(),
        ensures
            final(self)@ == old(self)@.select_all(),
            final(self)@.wf(),
    {
        proof {
            reveal(EditorModel::wf);
        }
        proof {
            if self.value@.len() > 0 {
                lemma_zero_is_boundary(self.value@);
            } else {
                assert(encode_utf8(self.value@) =~= Seq::<u8>::empty());
            }
        }
        self.anchor = 0;
        self.cursor = str_byte_len(self.value.as_str());
        self.clear_preedit();
    }

    /// Drawing receives only bullets for secure entry, including IME marked
    /// text. The actual password never enters any label/GPU resource cache.
    pub fn display(&self, secure: bool) -> (shown: (String, usize, std::ops::Range<usize>))
        requires
            self@.wf(),
            secure ==> 3 * (byte_len(self@.value) + byte_len(self@.preedit)) <= isize::MAX,
        ensures
            (shown.0@, shown.1 as int, shown.2.start as int, shown.2.end as int) == self@.display(
                secure,
            ),
            !secure ==> byte_len(shown.0@) <= isize::MAX,
    {
        proof {
            reveal(EditorModel::wf);
        }
        let selected = self.selection();
        let mut value = self.value.clone();
        let mut cursor = self.cursor;
        let mut marked = selected.start..selected.end;
        let ghost model = self@;
        if !self.preedit.as_str().is_empty() {
            replace_byte_range(&mut value, selected.start, selected.end, self.preedit.as_str());
            proof {
                lemma_splice_bytes(model.value, model.start(), model.end(), model.preedit);
                assert(value@ == decode_utf8(encode_utf8(value@)));
            }
            let preedit_len = str_byte_len(self.preedit.as_str());
            marked = selected.start..selected.start + preedit_len;
            cursor = selected.start + match self.preedit_cursor {
                Some(position) => position.1,
                None => preedit_len,
            };
        }
        assert((value@, cursor as int, marked.start as int, marked.end as int) == model.composed());
        if secure {
            let starts = grapheme_offsets(value.as_str());
            let total = str_byte_len(value.as_str());
            proof {
                lemma_count_at_most_len(starts@, total as int);
            }
            let secured = bullets(starts.len());
            let at_cursor = graphemes_in_prefix(value.as_str(), cursor);
            let at_start = graphemes_in_prefix(value.as_str(), marked.start);
            let at_end = graphemes_in_prefix(value.as_str(), marked.end);
            (secured, at_cursor * 3, at_start * 3..at_end * 3)
        } else {
            (value, cursor, marked)
        }
    }
}

/// A strictly increasing sequence of offsets below `limit` has at most `limit` entries.
proof fn lemma_count_at_most_len(s: Seq<usize>, limit: int)
    requires
        0 <= limit,
        forall|i: int, j: int| 0 <= i < j < s.len() ==> s[i] < s[j],
        forall|i: int| 0 <= i < s.len() ==> #[trigger] s[i] < limit,
    ensures
        s.len() <= limit,
    decreases s.len(),
{
    if s.len() > 0 {
        let init = s.drop_last();
        assert forall|i: int| 0 <= i < init.len() implies #[trigger] init[i] < s.last() by {
            assert(init[i] == s[i]);
        }
        assert forall|i: int, j: int| 0 <= i < j < init.len() implies init[i] < init[j] by {
            assert(init[i] == s[i] && init[j] == s[j]);
        }
        assert(s[s.len() - 1] < limit);
        lemma_count_at_most_len(init, s.last() as int);
    }
}

/// Number of grapheme clusters in the prefix up to the character boundary at
/// or before `end`.
fn graphemes_in_prefix(text: &str, end: usize) -> (count: usize)
    ensures
        count == graphemes_before(text@, end as int),
        count <= byte_len(text@),
{
    let boundary = char_boundary(text, end);
    let (prefix, _) = text.split_at(boundary);
    proof {
        assert(prefix@ == decode_utf8(encode_utf8(prefix@)));
    }
    let starts = grapheme_offsets(prefix);
    let prefix_len = str_byte_len(prefix);
    proof {
        lemma_count_at_most_len(starts@, prefix_len as int);
    }
    starts.len()
}

} // verus!
