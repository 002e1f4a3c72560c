//! Host-side bookkeeping around the game loop: the deferred close request,
//! display-link timing, the native touch vector and the platform actions
//! that turn script requests into URLs and documents.
//!
//! Durations and instants are whole nanoseconds.
use crate::account::{Key, NamedKey};
use crate::text::{byte_len, chars_of, lemma_encode_concat, string_from_chars};
use vstd::prelude::*;

verus! {

// ---------------------------------------------------------------------------
// Close request

/// Desktop delivery of the game's "is safe to quit" gate: a platform close
/// request made while the game is not safe to quit stays pending until a
/// later frame says it is. An exit the game asks for does not wait.
#[derive(Clone, Copy, Debug, Default, PartialEq, Eq, Structural)]
pub struct CloseRequest {
    pub pending: bool,
}

/// Whether the application exits after a frame, given the pending request.
pub open spec fn exits(pending: bool, safe_to_quit: bool, forced: bool) -> bool {
    forced || (pending && safe_to_quit)
}

impl CloseRequest {
    /// Records a platform close request; the window may close now exactly
    /// when the game is safe to quit.
    pub fn request(&mut self, safe_to_quit: bool) -> (close_now: bool)
        ensures
            final(self).pending,
            close_now == safe_to_quit,
    {
        self.pending = true;
        safe_to_quit
    }

    /// Whether the application exits after a frame.
    pub fn should_exit(self, safe_to_quit: bool, forced: bool) -> (exit: bool)
        ensures
            exit == exits(self.pending, safe_to_quit, forced),
    {
        forced || (self.pending && safe_to_quit)
    }
}

/// An unsafe platform close is deferred, not lost: once requested, the first
/// frame that is safe to quit exits; a script-requested exit always does.
pub proof fn law_close_waits_for_a_safe_frame(pending: bool, safe_to_quit: bool)
    ensures
        exits(true, true, false),
        !exits(pending, false, false),
        exits(pending, safe_to_quit, true),
        !exits(false, safe_to_quit, false),
{
}

// ---------------------------------------------------------------------------
// Display link

/// The frame delta handed to the game is clamped to a tenth of a second.
pub const MAX_FRAME_DELTA: u64 = 100_000_000;

/// One display-link tick at 60 Hz.
pub const DISPLAY_LINK_STEP: u64 = 16_666_667;

/// The retained debt after a wakeup of `elapsed`: saturating, then clamped.
pub open spec fn display_link_debt(accumulator: u64, elapsed: u64) -> u64 {
    let sum = accumulator + elapsed;
    if sum > MAX_FRAME_DELTA {
        MAX_FRAME_DELTA
    } else {
        sum as u64
    }
}

/// Coalesces host wakeups into one display-link callback: the elapsed time
/// joins the retained debt (clamped to `MAX_FRAME_DELTA`); once it reaches a
/// tick, the whole debt is handed out at once and nothing is retained.
pub fn take_display_link_delta(accumulator: &mut u64, elapsed: u64) -> (delta: Option<u64>)
    ensures
        display_link_debt(*old(accumulator), elapsed) < DISPLAY_LINK_STEP ==> delta.is_none()
            && *final(accumulator) == display_link_debt(*old(accumulator), elapsed),
        display_link_debt(*old(accumulator), elapsed) >= DISPLAY_LINK_STEP ==> delta == Some(
            display_link_debt(*old(accumulator), elapsed),
        ) && *final(accumulator) == 0,
{
    let sum = accumulator.saturating_add(elapsed);
    *accumulator = if sum > MAX_FRAME_DELTA {
        MAX_FRAME_DELTA
    } else {
        sum
    };
    if *accumulator < DISPLAY_LINK_STEP {
        return None;
    }
    let delta = *accumulator;
    *accumulator = 0;
    Some(delta)
}

/// The instant of the next display-link tick: one step after the last
/// accounted tick, less the retained debt; the last tick itself if that
/// instant is not representable.
pub open spec fn display_link_deadline(last_tick: u64, accumulator: u64) -> u64 {
    let wait: int = if accumulator >= DISPLAY_LINK_STEP {
        0
    } else {
        DISPLAY_LINK_STEP - accumulator
    };
    if last_tick + wait > u64::MAX {
        last_tick
    } else {
        (last_tick + wait) as u64
    }
}

pub fn next_display_link_deadline(last_tick: u64, accumulator: u64) -> (deadline: u64)
    ensures
        deadline == display_link_deadline(last_tick, accumulator),
{
    let wait = DISPLAY_LINK_STEP.saturating_sub(accumulator);
    match last_tick.checked_add(wait) {
        Some(deadline) => deadline,
        None => last_tick,
    }
}

/// No wakeup sequence leaves more than a frame's clamp of debt behind, and a
/// handed-out delta is always at least one tick and at most the clamp.
pub proof fn law_display_link_debt_is_bounded(accumulator: u64, elapsed: u64)
    ensures
        display_link_debt(accumulator, elapsed) <= MAX_FRAME_DELTA,
        display_link_debt(accumulator, elapsed) >= DISPLAY_LINK_STEP ==> DISPLAY_LINK_STEP
            <= display_link_debt(accumulator, elapsed) <= MAX_FRAME_DELTA,
{
}

// ---------------------------------------------------------------------------
// Touches

/// Phase of a touch event.
#[derive(Clone, Copy, Debug, PartialEq, Eq, Structural)]
pub enum TouchPhase {
    Started,
    Moved,
    Ended,
    Cancelled,
}

/// Index of the first touch with this id at or after `k`, if any.
pub open spec fn first_touch_from(touches: Seq<(u64, i32, i32)>, id: u64, k: int) -> Option<int>
    decreases touches.len() - k,
{
    if k < 0 || k >= touches.len() {
        None
    } else if touches[k].0 == id {
        Some(k)
    } else {
        first_touch_from(touches, id, k + 1)
    }
}

/// Index of the first touch with this id, if any.
pub open spec fn first_touch(touches: Seq<(u64, i32, i32)>, id: u64) -> Option<int> {
    first_touch_from(touches, id, 0)
}

/// The touches without any of this id, in their order.
pub open spec fn without_touch(touches: Seq<(u64, i32, i32)>, id: u64) -> Seq<(u64, i32, i32)>
    decreases touches.len(),
{
    if touches.len() == 0 {
        touches
    } else {
        let rest = without_touch(touches.drop_last(), id);
        if touches.last().0 != id {
            rest.push(touches.last())
        } else {
            rest
        }
    }
}

/// The native touch vector after one event: a start appends the whole
/// event, a move replaces only the first touch with the same id, and an end
/// or cancel removes every touch with that id.
pub open spec fn touch_vector_after(
    touches: Seq<(u64, i32, i32)>,
    phase: TouchPhase,
    point: (u64, i32, i32),
) -> Seq<(u64, i32, i32)> {
    match phase {
        TouchPhase::Started => touches.push(point),
        TouchPhase::Moved => match first_touch(touches, point.0) {
            Some(k) => touches.update(k, point),
            None => touches,
        },
        _ => without_touch(touches, point.0),
    }
}

proof fn lemma_first_touch(touches: Seq<(u64, i32, i32)>, id: u64, from: int, k: int)
    requires
        0 <= from <= k < touches.len(),
        touches[k].0 == id,
        forall|j: int| from <= j < k ==> touches[j].0 != id,
    ensures
        first_touch_from(touches, id, from) == Some(k),
    decreases k - from,
{
    if from < k {
        lemma_first_touch(touches, id, from + 1, k);
    }
}

proof fn lemma_no_touch(touches: Seq<(u64, i32, i32)>, id: u64, from: int)
    requires
        0 <= from <= touches.len(),
        forall|j: int| from <= j < touches.len() ==> touches[j].0 != id,
    ensures
        first_touch_from(touches, id, from).is_none(),
    decreases touches.len() - from,
{
    if from < touches.len() {
        lemma_no_touch(touches, id, from + 1);
    }
}

proof fn lemma_first_touch_found(touches: Seq<(u64, i32, i32)>, id: u64, from: int)
    requires
        0 <= from,
    ensures
        first_touch_from(touches, id, from) matches Some(k) ==> 0 <= k < touches.len()
            && touches[k].0 == id,
    decreases touches.len() - from,
{
    if from < touches.len() && touches[from].0 != id {
        lemma_first_touch_found(touches, id, from + 1);
    }
}

pub fn update_native_touch_vector(
    touches: &mut Vec<(u64, i32, i32)>,
    phase: TouchPhase,
    point: (u64, i32, i32),
)
    ensures
        final(touches)@ == touch_vector_after(old(touches)@, phase, point),
{
    match phase {
        TouchPhase::Started => touches.push(point),
        TouchPhase::Moved => {
            let mut k: usize = 0;
            let mut found = false;
            while k < touches.len() && !found
                invariant
                    touches@ == old(touches)@,
                    0 <= k <= touches@.len(),
                    found ==> k < touches@.len() && touches@[k as int].0 == point.0,
                    forall|j: int| 0 <= j < k ==> touches@[j].0 != point.0,
                decreases touches@.len() - k, if found { 0int } else { 1int },
            {
                if touches[k].0 == point.0 {
                    found = true;
                } else {
                    k = k + 1;
                }
            }
            if found {
                proof {
                    lemma_first_touch(touches@, point.0, 0, k as int);
                }
                touches.set(k, point);
            } else {
                proof {
                    lemma_no_touch(touches@, point.0, 0);
                }
            }
        },
        TouchPhase::Ended | TouchPhase::Cancelled => {
            let ghost before = touches@;
            let mut kept: Vec<(u64, i32, i32)> = Vec::new();
            let mut k: usize = 0;
            while k < touches.len()
                invariant
                    touches@ == before,
                    0 <= k <= before.len(),
                    kept@ == without_touch(before.take(k as int), point.0),
                decreases before.len() - k,
            {
                let t = touches[k];
                proof {
                    assert(before.take(k + 1) =~= before.take(k as int).push(t));
                    assert(before.take(k + 1).drop_last() =~= before.take(k as int));
                    assert(before.take(k + 1).last() == t);
                    assert(without_touch(before.take(k + 1), point.0) == if t.0 != point.0 {
                        without_touch(before.take(k as int), point.0).push(t)
                    } else {
                        without_touch(before.take(k as int), point.0)
                    });
                }
                if t.0 != point.0 {
                    kept.push(t);
                }
                k = k + 1;
            }
            assert(before.take(k as int) =~= before);
            *touches = kept;
        },
    }
}

proof fn lemma_without_touch(touches: Seq<(u64, i32, i32)>, id: u64)
    ensures
        forall|i: int|
            0 <= i < without_touch(touches, id).len() ==> (#[trigger] without_touch(touches, id)[i]).0
                != id,
        forall|k: int|
            0 <= k < touches.len() && touches[k].0 != id ==> without_touch(touches, id).contains(
                #[trigger] touches[k],
            ),
    decreases touches.len(),
{
    if touches.len() > 0 {
        let init = touches.drop_last();
        lemma_without_touch(init, id);
        let rest = without_touch(init, id);
        assert forall|k: int| 0 <= k < touches.len() && touches[k].0 != id implies without_touch(
            touches,
            id,
        ).contains(#[trigger] touches[k]) by {
            if k < touches.len() - 1 {
                assert(init[k] == touches[k]);
                assert(rest.contains(init[k]));
                let j = choose|j: int| 0 <= j < rest.len() && rest[j] == init[k];
                if touches.last().0 != id {
                    assert(without_touch(touches, id)[j] == rest[j]);
                }
            } else {
                assert(without_touch(touches, id) == rest.push(touches.last()));
                assert(without_touch(touches, id)[rest.len() as int] == touches.last());
            }
        }
    }
}

/// An end or cancel removes every touch with that id (malformed duplicate
/// starts included) and keeps every other touch; a move changes at most one
/// touch and never the set of ids.
pub proof fn law_touch_vector_ids(touches: Seq<(u64, i32, i32)>, point: (u64, i32, i32))
    ensures
        forall|i: int|
            0 <= i < touch_vector_after(touches, TouchPhase::Ended, point).len() ==> (
            #[trigger] touch_vector_after(touches, TouchPhase::Ended, point)[i]).0 != point.0,
        forall|k: int|
            0 <= k < touches.len() && touches[k].0 != point.0 ==> touch_vector_after(
                touches,
                TouchPhase::Cancelled,
                point,
            ).contains(#[trigger] touches[k]),
        touch_vector_after(touches, TouchPhase::Moved, point).len() == touches.len(),
        forall|i: int|
            0 <= i < touches.len() ==> (#[trigger] touch_vector_after(
                touches,
                TouchPhase::Moved,
                point,
            )[i]).0 == touches[i].0,
{
    lemma_without_touch(touches, point.0);
    lemma_first_touch_found(touches, point.0, 0);
}

/// The primary (cursor-driving) touch after an event, and whether the event
/// moves the cursor: `Some(down)` when it does, with the button state it
/// publishes.
pub open spec fn primary_touch_after(primary: Option<u64>, id: u64, phase: TouchPhase) -> (
    Option<u64>,
    Option<bool>,
) {
    match phase {
        TouchPhase::Started => if primary.is_none() {
            (Some(id), Some(true))
        } else {
            (primary, None)
        },
        TouchPhase::Moved => if primary == Some(id) {
            (primary, Some(true))
        } else {
            (primary, None)
        },
        _ => if primary == Some(id) {
            (None, Some(false))
        } else {
            (primary, None)
        },
    }
}

/// The first touch to start drives the cursor until it ends; other touches
/// only update the touch vector.
pub fn primary_touch_update(primary: Option<u64>, id: u64, phase: TouchPhase) -> (r: (
    Option<u64>,
    Option<bool>,
))
    ensures
        r == primary_touch_after(primary, id, phase),
{
    let owns = match primary {
        Some(p) => p == id,
        None => false,
    };
    match phase {
        TouchPhase::Started => if primary.is_none() {
            (Some(id), Some(true))
        } else {
            (primary, None)
        },
        TouchPhase::Moved => if owns {
            (primary, Some(true))
        } else {
            (primary, None)
        },
        _ => if owns {
            (None, Some(false))
        } else {
            (primary, None)
        },
    }
}

// ---------------------------------------------------------------------------
// Platform actions

pub const APP_STORE_PRODUCT_PREFIX: &'static str = "https://apps.apple.com/app/id";

/// Appends the characters of a text.
fn push_text(out: &mut Vec<char>, text: &str)
    ensures
        final(out)@ == old(out)@ + text@,
{
    let chars = chars_of(text);
    let mut i: usize = 0;
    while i < chars.len()
        invariant
            chars@ == text@,
            0 <= i <= chars@.len(),
            out@ == old(out)@ + chars@.take(i as int),
        decreases chars@.len() - i,
    {
        out.push(chars[i]);
        i = i + 1;
        assert(out@ =~= old(out)@ + chars@.take(i as int));
    }
    assert(chars@.take(i as int) =~= chars@);
}

/// The App Store page of a product: the identifier as the script gave it,
/// behind the store's product prefix. The product type does not change it.
pub fn app_store_product_url(product_id: &str, product_type: u32) -> (url: String)
    requires
        byte_len(APP_STORE_PRODUCT_PREFIX@ + product_id@) <= isize::MAX,
    ensures
        url@ == APP_STORE_PRODUCT_PREFIX@ + product_id@,
{
    let mut chars: Vec<char> = Vec::new();
    push_text(&mut chars, APP_STORE_PRODUCT_PREFIX);
    push_text(&mut chars, product_id);
    assert(chars@ =~= APP_STORE_PRODUCT_PREFIX@ + product_id@);
    string_from_chars(&chars)
}

/// The HTML text of one character.
pub open spec fn html_escaped_char(c: char) -> Seq<char> {
    if c == '&' {
        seq!['&', 'a', 'm', 'p', ';']
    } else if c == '<' {
        seq!['&', 'l', 't', ';']
    } else if c == '>' {
        seq!['&', 'g', 't', ';']
    } else if c == '"' {
        seq!['&', 'q', 'u', 'o', 't', ';']
    } else if c == '\'' {
        seq!['&', '#', '3', '9', ';']
    } else {
        seq![c]
    }
}

/// A text with `&`, `<`, `>`, `"` and `'` written as HTML entities.
pub open spec fn html_escaped(text: Seq<char>) -> Seq<char>
    decreases text.len(),
{
    if text.len() == 0 {
        seq![]
    } else {
        html_escaped(text.drop_last()) + html_escaped_char(text.last())
    }
}

/// Appends the HTML text of a value.
fn push_escaped(out: &mut Vec<char>, value: &str)
    ensures
        final(out)@ == old(out)@ + html_escaped(value@),
{
    let chars = chars_of(value);
    let mut i: usize = 0;
    while i < chars.len()
        invariant
            chars@ == value@,
            0 <= i <= chars@.len(),
            out@ == old(out)@ + html_escaped(chars@.take(i as int)),
        decreases chars@.len() - i,
    {
        let c = chars[i];
        let ghost before = out@;
        if c == '&' {
            out.push('&');
            out.push('a');
            out.push('m');
            out.push('p');
            out.push(';');
        } else if c == '<' {
            out.push('&');
            out.push('l');
            out.push('t');
            out.push(';');
        } else if c == '>' {
            out.push('&');
            out.push('g');
            out.push('t');
            out.push(';');
        } else if c == '"' {
            out.push('&');
            out.push('q');
            out.push('u');
            out.push('o');
            out.push('t');
            out.push(';');
        } else if c == '\'' {
            out.push('&');
            out.push('#');
            out.push('3');
            out.push('9');
            out.push(';');
        } else {
            out.push(c);
        }
        assert(out@ =~= before + html_escaped_char(c));
        proof {
            assert(chars@.take(i + 1).drop_last() =~= chars@.take(i as int));
        }
        i = i + 1;
        assert(out@ =~= old(out)@ + html_escaped(chars@.take(i as int)));
    }
    assert(chars@.take(i as int) =~= chars@);
}

/// Escapes a provider text for the local gamer-services page.
pub fn escape_html(value: &str) -> (escaped: String)
    requires
        byte_len(html_escaped(value@)) <= isize::MAX,
    ensures
        escaped@ == html_escaped(value@),
{
    let mut chars: Vec<char> = Vec::new();
    push_escaped(&mut chars, value);
    assert(chars@ =~= html_escaped(value@));
    string_from_chars(&chars)
}

/// The two local gamer-services pages.
#[derive(Clone, Copy, Debug, PartialEq, Eq, Structural)]
pub enum GamerServicesView {
    Achievements,
    Leaderboards,
}

pub const ACHIEVEMENTS_FILE: &'static str = "Angry Birds Stella Achievements.html";

pub const LEADERBOARDS_FILE: &'static str = "Angry Birds Stella Leaderboards.html";

pub const ACHIEVEMENTS_HEADING: &'static str = "Achievements";

pub const LEADERBOARDS_HEADING: &'static str = "Leaderboards";

pub const NO_ACHIEVEMENTS: &'static str = "No achievements unlocked yet.";

pub const NO_SCORES: &'static str = "No scores posted yet.";

pub const PAGE_HEAD: &'static str = "<!doctype html><meta charset=utf-8><title>Angry Birds Stella: Rehost — ";

pub const PAGE_STYLE: &'static str = "</title><style>body{font:18px system-ui;background:#251746;color:#fff;max-width:760px;margin:48px auto;padding:0 24px}h1{color:#ff8fe2}table{width:100%;border-collapse:collapse;background:#fff1;border-radius:14px;overflow:hidden}td{padding:14px 18px;border-bottom:1px solid #fff2}td:last-child{text-align:right;color:#ffe36a}.empty{padding:22px;background:#fff1;border-radius:14px}</style><h1>";

pub const HEADING_END: &'static str = "</h1>";

pub const EMPTY_OPEN: &'static str = "<p class=empty>";

pub const EMPTY_CLOSE: &'static str = "</p>";

pub const TABLE_OPEN: &'static str = "<table><tbody>";

pub const TABLE_CLOSE: &'static str = "</tbody></table>";

pub const ROW_OPEN: &'static str = "<tr><td>";

pub const CELL_BREAK: &'static str = "</td><td>";

pub const ROW_CLOSE: &'static str = "</td></tr>";

/// File name, heading and empty-state text of a page.
pub open spec fn page_texts(view: GamerServicesView) -> (Seq<char>, Seq<char>, Seq<char>) {
    match view {
        GamerServicesView::Achievements => (
            ACHIEVEMENTS_FILE@,
            ACHIEVEMENTS_HEADING@,
            NO_ACHIEVEMENTS@,
        ),
        GamerServicesView::Leaderboards => (LEADERBOARDS_FILE@, LEADERBOARDS_HEADING@, NO_SCORES@),
    }
}

/// Table rows of the entries, names and values escaped.
pub open spec fn page_rows(entries: Seq<(Seq<char>, Seq<char>)>) -> Seq<char>
    decreases entries.len(),
{
    if entries.len() == 0 {
        seq![]
    } else {
        page_rows(entries.drop_last()) + ROW_OPEN@ + html_escaped(entries.last().0) + CELL_BREAK@
            + html_escaped(entries.last().1) + ROW_CLOSE@
    }
}

/// The page body: the empty-state paragraph, or the table of entries.
pub open spec fn page_body(view: GamerServicesView, entries: Seq<(Seq<char>, Seq<char>)>) -> Seq<
    char,
> {
    if entries.len() == 0 {
        EMPTY_OPEN@ + page_texts(view).2 + EMPTY_CLOSE@
    } else {
        TABLE_OPEN@ + page_rows(entries) + TABLE_CLOSE@
    }
}

/// The whole HTML document of a page.
pub open spec fn page_document(view: GamerServicesView, entries: Seq<(Seq<char>, Seq<char>)>) -> Seq<
    char,
> {
    PAGE_HEAD@ + page_texts(view).1 + PAGE_STYLE@ + page_texts(view).1 + HEADING_END@ + page_body(
        view,
        entries,
    )
}

pub open spec fn entry_views(entries: Seq<(String, String)>) -> Seq<(Seq<char>, Seq<char>)> {
    entries.map_values(|e: (String, String)| (e.0@, e.1@))
}

/// The local page that shows the achievements or leaderboards the script
/// handed over: its file name and its HTML document.
pub fn gamer_services_page(view: GamerServicesView, entries: &[(String, String)]) -> (page: (
    &'static str,
    String,
))
    requires
        byte_len(page_document(view, entry_views(entries@))) <= isize::MAX,
    ensures
        page.0@ == page_texts(view).0,
        page.1@ == page_document(view, entry_views(entries@)),
{
    let (file, heading, empty) = match view {
        GamerServicesView::Achievements => (ACHIEVEMENTS_FILE, ACHIEVEMENTS_HEADING, NO_ACHIEVEMENTS),
        GamerServicesView::Leaderboards => (LEADERBOARDS_FILE, LEADERBOARDS_HEADING, NO_SCORES),
    };
    let ghost views = entry_views(entries@);
    let mut out: Vec<char> = Vec::new();
    push_text(&mut out, PAGE_HEAD);
    push_text(&mut out, heading);
    push_text(&mut out, PAGE_STYLE);
    push_text(&mut out, heading);
    push_text(&mut out, HEADING_END);
    let ghost head = out@;
    assert(head =~= PAGE_HEAD@ + page_texts(view).1 + PAGE_STYLE@ + page_texts(view).1
        + HEADING_END@);
    if entries.len() == 0 {
        push_text(&mut out, EMPTY_OPEN);
        push_text(&mut out, empty);
        push_text(&mut out, EMPTY_CLOSE);
        assert(out@ =~= head + page_body(view, views));
    } else {
        push_text(&mut out, TABLE_OPEN);
        let ghost open = out@;
        let mut k: usize = 0;
        while k < entries.len()
            invariant
                views == entry_views(entries@),
                0 <= k <= entries@.len(),
                out@ == open + page_rows(views.take(k as int)),
            decreases entries@.len() - k,
        {
            let ghost before = out@;
            push_text(&mut out, ROW_OPEN);
            push_escaped(&mut out, entries[k].0.as_str());
            push_text(&mut out, CELL_BREAK);
            push_escaped(&mut out, entries[k].1.as_str());
            push_text(&mut out, ROW_CLOSE);
            proof {
                assert(views.take(k + 1).drop_last() =~= views.take(k as int));
                assert(views.take(k + 1).last() == views[k as int]);
            }
            k = k + 1;
            assert(out@ =~= open + page_rows(views.take(k as int)));
        }
        assert(views.take(k as int) =~= views);
        push_text(&mut out, TABLE_CLOSE);
        assert(out@ =~= head + page_body(view, views));
    }
    assert(out@ =~= page_document(view, views));
    (file, string_from_chars(&out))
}

// ---------------------------------------------------------------------------
// Screenshot shares

/// Why a framebuffer cannot be staged for sharing.
#[derive(Clone, Copy, Debug, PartialEq, Eq, Structural)]
pub enum ScreenshotError {
    /// The frame's byte size does not fit the host's address space.
    Overflow,
    /// The buffer is not exactly one RGBA frame.
    WrongLength { actual: usize, expected: usize },
}

/// Bytes of one RGBA frame, if addressable.
pub open spec fn rgba_frame_bytes(width: u32, height: u32) -> Option<usize> {
    let n = (width as int) * (height as int) * 4;
    if n > usize::MAX {
        None
    } else {
        Some(n as usize)
    }
}

/// Checks that a framebuffer holds exactly one RGBA frame of the game's
/// resolution before it is written out for sharing.
pub fn check_screenshot_frame(rgba_len: usize, width: u32, height: u32) -> (r: Result<(), ScreenshotError>)
    ensures
        match rgba_frame_bytes(width, height) {
            None => r == Err::<(), ScreenshotError>(ScreenshotError::Overflow),
            Some(expected) => if rgba_len == expected {
                r is Ok
            } else {
                r == Err::<(), ScreenshotError>(
                    ScreenshotError::WrongLength { actual: rgba_len, expected },
                )
            },
        },
{
    let w = width as u64;
    let h = height as u64;
    assert(w * h <= 0xffff_ffff * 0xffff_ffff) by (nonlinear_arith)
        requires
            w <= 0xffff_ffff,
            h <= 0xffff_ffff,
    ;
    let pixels = w * h;
    let bytes = match pixels.checked_mul(4) {
        Some(bytes) => bytes,
        None => return Err(ScreenshotError::Overflow),
    };
    if bytes > usize::MAX as u64 {
        return Err(ScreenshotError::Overflow);
    }
    let expected = bytes as usize;
    if rgba_len != expected {
        return Err(ScreenshotError::WrongLength { actual: rgba_len, expected });
    }
    Ok(())
}

/// The game's name for a hardware key, where it has one: Escape is the
/// back key, the context-menu key the menu key, and the volume keys keep
/// their names. Other keys do not reach the game.
pub fn game_key_name(key: &Key) -> (name: Option<&'static str>)
    ensures
        name == match key {
            Key::Named(NamedKey::Escape) => Some("KEY_BACK"),
            Key::Named(NamedKey::ContextMenu) => Some("KEY_MENU"),
            Key::Named(NamedKey::AudioVolumeUp) => Some("VOLUME_UP"),
            Key::Named(NamedKey::AudioVolumeDown) => Some("VOLUME_DOWN"),
            _ => None::<&'static str>,
        },
{
    match key {
        Key::Named(NamedKey::Escape) => Some("KEY_BACK"),
        Key::Named(NamedKey::ContextMenu) => Some("KEY_MENU"),
        Key::Named(NamedKey::AudioVolumeUp) => Some("VOLUME_UP"),
        Key::Named(NamedKey::AudioVolumeDown) => Some("VOLUME_DOWN"),
        _ => None,
    }
}

} // verus!
