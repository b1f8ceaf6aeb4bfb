//! The address bar: an editable line with a byte-offset cursor, a history of
//! visited addresses, horizontal scrolling and its on-screen layout.
use vstd::prelude::*;
use std::collections::VecDeque;
use std::time::Instant;
use crate::clock::instant_now;
use crate::ui::{
    beveled_rect_spec, clear_rect, clear_rect_spec, draw_beveled_rect, draw_char, draw_char_spec,
    draw_string, draw_string_spec, OMNIBOX_HEIGHT, TABBAR_HEIGHT, char_cover, glyph_bit, glyph_for,
    lemma_draw_chars_glyph_pixel, lemma_draw_chars_keeps, rect_cover, bevel_cover,
};
use crate::ui::pixels::lemma_painted_pixel;
use crate::text::{
    char_width, cursor_split, floor_chars, is_char_boundary_at, lemma_prefix_is_boundary,
    lemma_take_all, lemma_utf8_len_take, lemma_char_width, str_chars, string_from_chars, utf8_len,
    lemma_encode_utf8_concat,
};

verus! {

/// Where a click on the address bar row landed.
#[derive(Debug, Clone, Copy, PartialEq, Eq)]
pub enum OmniboxHit {
    Back,
    Forward,
    Refresh,
    Settings,
    Omnibox,
    NoHit,
}

/// The editing state of the address bar.
pub struct OmniboxState {
    pub is_focused: bool,
    pub input: String,
    pub cursor_position: usize,
    pub select_all_on_type: bool,
    pub history: VecDeque<String>,
    pub history_index: Option<usize>,
    pub scroll_offset: usize,
    pub text_version: u64,
    pub cursor_version: u64,
}

/// Most addresses the history keeps.
pub open spec fn history_capacity() -> nat {
    16
}

/// The text after inserting `t` at the character boundary at or before byte
/// `cur`, and the cursor just after the inserted text.
pub open spec fn insert_text_at(s: Seq<char>, cur: int, t: Seq<char>) -> (Seq<char>, int) {
    let k = floor_chars(s, cur);
    (s.take(k) + t + s.skip(k), cur + utf8_len(t))
}

/// The text after removing the character before the cursor, and the cursor
/// left at the start of the removed character.
pub open spec fn remove_before(s: Seq<char>, cur: int) -> (Seq<char>, int) {
    let k = floor_chars(s, cur);
    if k > 0 {
        (s.take(k - 1) + s.skip(k), utf8_len(s.take(k - 1)) as int)
    } else {
        (s, cur)
    }
}

/// The text after removing the character after the cursor.
pub open spec fn remove_at(s: Seq<char>, cur: int) -> Seq<char> {
    let k = floor_chars(s, cur);
    if k < s.len() {
        s.take(k) + s.skip(k + 1)
    } else {
        s
    }
}

/// The cursor one character to the left.
pub open spec fn step_left(s: Seq<char>, cur: int) -> int {
    let k = floor_chars(s, cur);
    if k > 0 {
        utf8_len(s.take(k - 1)) as int
    } else {
        cur
    }
}

/// The cursor one character to the right.
pub open spec fn step_right(s: Seq<char>, cur: int) -> int {
    let k = floor_chars(s, cur);
    if k < s.len() {
        utf8_len(s.take(k + 1)) as int
    } else {
        cur
    }
}

/// The history after recording `url`: it goes to the front unless it is
/// already there, and the oldest entry beyond the capacity is dropped.
pub open spec fn history_after_push(h: Seq<String>, url: String) -> Seq<String> {
    if h.len() > 0 && h[0]@ == url@ {
        h
    } else {
        let p = seq![url] + h;
        if p.len() > history_capacity() {
            p.drop_last()
        } else {
            p
        }
    }
}

/// The editing part of the address bar's state: text, cursor byte offset,
/// select-all flag, text version and cursor version.
pub type EditView = (Seq<char>, int, bool, u64, u64);

/// The editing state after typing `c`.
pub open spec fn after_insert_char(v: EditView, c: char) -> EditView {
    let base = if v.2 { Seq::<char>::empty() } else { v.0 };
    let cur: int = if v.2 { 0 } else { v.1 };
    if cur <= utf8_len(base) {
        let (t, p) = insert_text_at(base, cur, seq![c]);
        (t, p, false, v.3.wrapping_add(1), v.4.wrapping_add(1))
    } else {
        (base, cur, false, v.3, v.4)
    }
}

/// The editing state after Backspace.
pub open spec fn after_backspace(v: EditView) -> EditView {
    if v.2 {
        (Seq::<char>::empty(), 0, false, v.3.wrapping_add(1), v.4.wrapping_add(1))
    } else if floor_chars(v.0, v.1) > 0 {
        let (t, c) = remove_before(v.0, v.1);
        (t, c, false, v.3.wrapping_add(1), v.4.wrapping_add(1))
    } else {
        v
    }
}

/// The editing state after the left arrow.
pub open spec fn after_arrow_left(v: EditView) -> EditView {
    if floor_chars(v.0, v.1) > 0 {
        (v.0, step_left(v.0, v.1), false, v.3, v.4.wrapping_add(1))
    } else {
        (v.0, v.1, false, v.3, v.4)
    }
}

/// The editing state after the right arrow.
pub open spec fn after_arrow_right(v: EditView) -> EditView {
    if floor_chars(v.0, v.1) < v.0.len() {
        (v.0, step_right(v.0, v.1), false, v.3, v.4.wrapping_add(1))
    } else {
        (v.0, v.1, false, v.3, v.4)
    }
}

/// The end of `a` is a character boundary of any text that starts with `a`.
proof fn lemma_boundary_after(a: Seq<char>, b: Seq<char>)
    ensures
        is_char_boundary_at(a + b, utf8_len(a) as int),
{
    assert((a + b).take(a.len() as int) =~= a);
    lemma_prefix_is_boundary(a + b, a.len() as int);
}

/// The end of a text is one of its character boundaries.
proof fn lemma_end_is_boundary(s: Seq<char>)
    ensures
        is_char_boundary_at(s, utf8_len(s) as int),
{
    lemma_take_all(s);
    lemma_prefix_is_boundary(s, s.len() as int);
}

/// The start of a text is one of its character boundaries.
proof fn lemma_start_is_boundary(s: Seq<char>)
    ensures
        is_char_boundary_at(s, 0),
{
    assert(s.take(0) =~= Seq::<char>::empty());
    crate::text::lemma_utf8_len_empty();
    lemma_prefix_is_boundary(s, 0);
}

impl OmniboxState {
    /// Number of whole characters before the cursor.
    pub open spec fn chars_before_cursor(&self) -> int {
        floor_chars(self.input@, self.cursor_position as int)
    }

    /// Byte length of the text.
    pub open spec fn input_bytes(&self) -> nat {
        utf8_len(self.input@)
    }

    /// The editing part of the state: the text, the cursor, whether all of
    /// the text is selected, and the text and cursor versions.
    pub open spec fn edit_view(&self) -> EditView {
        (self.input@, self.cursor_position as int, self.select_all_on_type, self.text_version, self.cursor_version)
    }

    /// The history position, when there is one, points into the history.
    pub open spec fn history_index_valid(&self) -> bool {
        match self.history_index {
            Some(i) => i < self.history@.len(),
            None => true,
        }
    }

    /// The cursor lies on a character boundary of the text, or past its end
    /// (where typing inserts nothing).
    pub open spec fn cursor_valid(&self) -> bool {
        self.cursor_position > utf8_len(self.input@) || is_char_boundary_at(self.input@, self.cursor_position as int)
    }

    /// The scroll offset that keeps the cursor among `visible` shown
    /// characters, moving as little as possible; zero when unfocused or when
    /// nothing can be shown.
    pub open spec fn scroll_after(&self, visible: int) -> int {
        let k = self.chars_before_cursor();
        if !self.is_focused || visible == 0 {
            0
        } else if k < self.scroll_offset {
            k
        } else if k >= self.scroll_offset + visible {
            k - visible + 1
        } else {
            self.scroll_offset as int
        }
    }

    /// Both versions moved on: the text (and so the cursor) changed.
    pub open spec fn text_bumped(&self, old: &Self) -> bool {
        &&& self.text_version == old.text_version.wrapping_add(1)
        &&& self.cursor_version == old.cursor_version.wrapping_add(1)
    }

    /// Only the cursor version moved on.
    pub open spec fn cursor_bumped(&self, old: &Self) -> bool {
        &&& self.text_version == old.text_version
        &&& self.cursor_version == old.cursor_version.wrapping_add(1)
    }

    /// Focus, history and scrolling are as in `old`.
    pub open spec fn same_session(&self, old: &Self) -> bool {
        &&& self.is_focused == old.is_focused
        &&& self.history == old.history
        &&& self.history_index == old.history_index
        &&& self.scroll_offset == old.scroll_offset
    }

    fn mark_text_changed(&mut self)
        ensures
            final(self).text_bumped(old(self)),
            final(self).is_focused == old(self).is_focused,
            final(self).input == old(self).input,
            final(self).cursor_position == old(self).cursor_position,
            final(self).select_all_on_type == old(self).select_all_on_type,
            final(self).same_session(old(self)),
    {
        self.text_version = self.text_version.wrapping_add(1);
        self.cursor_version = self.cursor_version.wrapping_add(1);
    }

    fn mark_cursor_changed(&mut self)
        ensures
            final(self).cursor_bumped(old(self)),
            final(self).is_focused == old(self).is_focused,
            final(self).input == old(self).input,
            final(self).cursor_position == old(self).cursor_position,
            final(self).select_all_on_type == old(self).select_all_on_type,
            final(self).same_session(old(self)),
    {
        self.cursor_version = self.cursor_version.wrapping_add(1);
    }

    /// The cursor moved back to the nearest character boundary, and never
    /// past the end of the text.
    pub fn safe_cursor(&self) -> (r: usize)
        ensures
            r == utf8_len(self.input@.take(self.chars_before_cursor())),
            is_char_boundary_at(self.input@, r as int),
            r <= self.input_bytes(),
    {
        let chars = str_chars(self.input.as_str());
        let (k, b) = cursor_split(chars.as_slice(), self.cursor_position);
        proof {
            lemma_prefix_is_boundary(self.input@, k as int);
            crate::text::lemma_utf8_len_take_mono(self.input@, k as int, self.input@.len() as int);
            lemma_take_all(self.input@);
        }
        b
    }

    /// An unfocused, empty address bar.
    pub fn new() -> (s: Self)
        ensures
            !s.is_focused,
            s.input@ == Seq::<char>::empty(),
            s.cursor_position == 0,
            !s.select_all_on_type,
            s.history@ == Seq::<String>::empty(),
            s.history_index is None,
            s.scroll_offset == 0,
            s.text_version == 1,
            s.cursor_version == 1,
            s.cursor_valid(),
            s.history_index_valid(),
    {
        proof {
            lemma_boundary_after(Seq::<char>::empty(), Seq::<char>::empty());
            crate::text::lemma_utf8_len_empty();
            assert(Seq::<char>::empty() + Seq::<char>::empty() =~= Seq::<char>::empty());
        }
        Self {
            is_focused: false,
            input: String::new(),
            cursor_position: 0,
            select_all_on_type: false,
            history: VecDeque::with_capacity(16),
            history_index: None,
            scroll_offset: 0,
            text_version: 1,
            cursor_version: 1,
        }
    }

    /// Starts editing `current_url`, all of it selected.
    pub fn focus(&mut self, current_url: &str)
        ensures
            final(self).is_focused,
            final(self).input@ == current_url@,
            final(self).cursor_position == utf8_len(current_url@) as usize,
            final(self).select_all_on_type,
            final(self).history == old(self).history,
            final(self).history_index is None,
            final(self).scroll_offset == 0,
            final(self).text_bumped(old(self)),
            final(self).cursor_valid(),
            final(self).history_index_valid(),
    {
        proof {
            lemma_end_is_boundary(current_url@);
        }
        self.is_focused = true;
        self.input = current_url.to_owned();
        self.cursor_position = crate::text::str_byte_len(self.input.as_str());
        self.select_all_on_type = true;
        self.history_index = None;
        self.scroll_offset = 0;
        self.mark_text_changed();
    }

    /// Stops editing; the text stays as it is.
    pub fn defocus(&mut self)
        ensures
            !final(self).is_focused,
            final(self).input == old(self).input,
            final(self).cursor_position == old(self).cursor_position,
            !final(self).select_all_on_type,
            final(self).history == old(self).history,
            final(self).history_index is None,
            final(self).scroll_offset == 0,
            final(self).text_bumped(old(self)),
            old(self).cursor_valid() ==> final(self).cursor_valid(),
            old(self).history_index_valid() ==> final(self).history_index_valid(),
    {
        self.is_focused = false;
        self.select_all_on_type = false;
        self.history_index = None;
        self.scroll_offset = 0;
        self.mark_text_changed();
    }

    /// Drops the text if all of it is selected, so typing replaces it.
    fn take_selection(&mut self)
        ensures
            !final(self).select_all_on_type,
            old(self).select_all_on_type ==> final(self).input@ == Seq::<char>::empty()
                && final(self).cursor_position == 0,
            !old(self).select_all_on_type ==> final(self).input == old(self).input
                && final(self).cursor_position == old(self).cursor_position,
            final(self).is_focused == old(self).is_focused,
            final(self).same_session(old(self)),
            final(self).text_version == old(self).text_version,
            final(self).cursor_version == old(self).cursor_version,
    {
        if self.select_all_on_type {
            self.input = String::new();
            self.cursor_position = 0;
            self.select_all_on_type = false;
        }
    }

    /// Inserts `t` at the cursor, which must lie on a character boundary.
    fn insert_chars(&mut self, t: &[char])
        requires
            !old(self).select_all_on_type,
            is_char_boundary_at(old(self).input@, old(self).cursor_position as int),
            utf8_len(old(self).input@) + utf8_len(t@) <= usize::MAX,
        ensures
            (final(self).input@, final(self).cursor_position as int) == insert_text_at(
                old(self).input@,
                old(self).cursor_position as int,
                t@,
            ),
            final(self).text_bumped(old(self)),
            final(self).is_focused == old(self).is_focused,
            !final(self).select_all_on_type,
            final(self).same_session(old(self)),
            final(self).cursor_valid(),
    {
        let ghost s0 = old(self).input@;
        let ghost k0 = floor_chars(s0, old(self).cursor_position as int);
        proof {
            crate::text::lemma_floor_chars(s0, old(self).cursor_position as int);
            crate::text::lemma_utf8_len_concat(s0.take(k0), t@);
            lemma_boundary_after(s0.take(k0) + t@, s0.skip(k0));
        }
        let chars = str_chars(self.input.as_str());
        let (k, b) = cursor_split(chars.as_slice(), self.cursor_position);
        let mut out: Vec<char> = Vec::new();
        let mut i: usize = 0;
        while i < k
            invariant
                k <= chars@.len(),
                i <= k,
                out@ == chars@.take(i as int),
            decreases k - i,
        {
            out.push(chars[i]);
            assert(chars@.take(i as int).push(chars@[i as int]) =~= chars@.take(i + 1));
            i += 1;
        }
        let mut j: usize = 0;
        while j < t.len()
            invariant
                j <= t@.len(),
                out@ == chars@.take(k as int) + t@.take(j as int),
            decreases t@.len() - j,
        {
            out.push(t[j]);
            assert(chars@.take(k as int) + t@.take(j as int).push(t@[j as int]) =~= chars@.take(k as int) + t@.take(j + 1));
            j += 1;
        }
        assert(t@.take(t@.len() as int) =~= t@);
        let mut m: usize = k;
        while m < chars.len()
            invariant
                k <= m <= chars@.len(),
                out@ == chars@.take(k as int) + t@ + chars@.subrange(k as int, m as int),
            decreases chars@.len() - m,
        {
            out.push(chars[m]);
            assert(chars@.take(k as int) + t@ + chars@.subrange(k as int, m as int).push(chars@[m as int])
                =~= chars@.take(k as int) + t@ + chars@.subrange(k as int, m + 1));
            m += 1;
        }
        assert(chars@.subrange(k as int, chars@.len() as int) =~= chars@.skip(k as int));
        proof {
            crate::text::lemma_utf8_len_take_mono(chars@, k as int, chars@.len() as int);
            lemma_take_all(chars@);
        }
        let tw = crate::text::utf8_len_of(t);
        self.input = string_from_chars(out.as_slice());
        self.cursor_position = b + tw;
        self.mark_text_changed();
    }

    /// Types one character at the cursor, replacing the text if all of it
    /// was selected. A cursor past the end inserts nothing.
    pub fn insert_char(&mut self, c: char)
        requires
            old(self).select_all_on_type || old(self).cursor_position > utf8_len(old(self).input@)
                || is_char_boundary_at(old(self).input@, old(self).cursor_position as int),
            utf8_len(old(self).input@) + 4 <= usize::MAX,
        ensures
            ({
                let base = if old(self).select_all_on_type { Seq::<char>::empty() } else { old(self).input@ };
                let cur: int = if old(self).select_all_on_type { 0 } else { old(self).cursor_position as int };
                if cur <= utf8_len(base) {
                    &&& (final(self).input@, final(self).cursor_position as int) == insert_text_at(base, cur, seq![c])
                    &&& final(self).text_bumped(old(self))
                } else {
                    &&& final(self).input@ == base
                    &&& final(self).cursor_position == cur
                    &&& final(self).text_version == old(self).text_version
                    &&& final(self).cursor_version == old(self).cursor_version
                }
            }),
            !final(self).select_all_on_type,
            final(self).is_focused == old(self).is_focused,
            final(self).same_session(old(self)),
            final(self).cursor_valid(),
            old(self).history_index_valid() ==> final(self).history_index_valid(),
            final(self).edit_view() == after_insert_char(old(self).edit_view(), c),
    {
        let ghost was = *old(self);
        proof {
            crate::text::lemma_utf8_len_empty();
        }
        self.take_selection();
        if self.cursor_position <= self.input.as_str().len() {
            proof {
                if was.select_all_on_type {
                    assert(self.input@.take(0) =~= Seq::<char>::empty());
                    crate::text::lemma_utf8_len_empty();
                    lemma_prefix_is_boundary(self.input@, 0);
                }
            }
            let mut t: Vec<char> = Vec::new();
            t.push(c);
            proof {
                assert(t@ =~= seq![c]);
                crate::text::lemma_utf8_len_single(c);
                crate::text::lemma_utf8_len_empty();
                lemma_char_width(c);
            }
            self.insert_chars(t.as_slice());
        }
    }

    /// Pastes `text` at the cursor, replacing the text if all of it was
    /// selected. A cursor past the end inserts nothing.
    pub fn insert_str(&mut self, text: &str)
        requires
            old(self).select_all_on_type || old(self).cursor_position > utf8_len(old(self).input@)
                || is_char_boundary_at(old(self).input@, old(self).cursor_position as int),
            utf8_len(old(self).input@) + utf8_len(text@) <= usize::MAX,
        ensures
            ({
                let base = if old(self).select_all_on_type { Seq::<char>::empty() } else { old(self).input@ };
                let cur: int = if old(self).select_all_on_type { 0 } else { old(self).cursor_position as int };
                if cur <= utf8_len(base) {
                    &&& (final(self).input@, final(self).cursor_position as int) == insert_text_at(base, cur, text@)
                    &&& final(self).text_bumped(old(self))
                } else {
                    &&& final(self).input@ == base
                    &&& final(self).cursor_position == cur
                    &&& final(self).text_version == old(self).text_version
                    &&& final(self).cursor_version == old(self).cursor_version
                }
            }),
            !final(self).select_all_on_type,
            final(self).is_focused == old(self).is_focused,
            final(self).same_session(old(self)),
            final(self).cursor_valid(),
            old(self).history_index_valid() ==> final(self).history_index_valid(),
    {
        let ghost was = *old(self);
        proof {
            crate::text::lemma_utf8_len_empty();
        }
        self.take_selection();
        if self.cursor_position <= self.input.as_str().len() {
            proof {
                if was.select_all_on_type {
                    assert(self.input@.take(0) =~= Seq::<char>::empty());
                    lemma_prefix_is_boundary(self.input@, 0);
                }
            }
            let t = str_chars(text);
            self.insert_chars(t.as_slice());
        }
    }

    /// Empties the text after a select-all; the caller then stops.
    fn clear_selected(&mut self)
        requires
            old(self).select_all_on_type,
        ensures
            final(self).input@ == Seq::<char>::empty(),
            final(self).cursor_position == 0,
            !final(self).select_all_on_type,
            final(self).is_focused == old(self).is_focused,
            final(self).same_session(old(self)),
            final(self).text_bumped(old(self)),
    {
        self.take_selection();
        self.mark_text_changed();
    }

    /// Erases the character before the cursor; after a select-all, erases
    /// all of the text.
    pub fn backspace(&mut self)
        ensures
            old(self).select_all_on_type ==> final(self).input@ == Seq::<char>::empty()
                && final(self).cursor_position == 0 && final(self).text_bumped(old(self)),
            !old(self).select_all_on_type ==> {
                let (t, c) = remove_before(old(self).input@, old(self).cursor_position as int);
                if old(self).chars_before_cursor() > 0 {
                    &&& final(self).input@ == t
                    &&& final(self).cursor_position == c
                    &&& final(self).text_bumped(old(self))
                } else {
                    &&& final(self).input == old(self).input
                    &&& final(self).cursor_position == old(self).cursor_position
                    &&& final(self).text_version == old(self).text_version
                    &&& final(self).cursor_version == old(self).cursor_version
                }
            },
            !final(self).select_all_on_type,
            final(self).is_focused == old(self).is_focused,
            final(self).same_session(old(self)),
            old(self).cursor_valid() ==> final(self).cursor_valid(),
            old(self).history_index_valid() ==> final(self).history_index_valid(),
            final(self).edit_view() == after_backspace(old(self).edit_view()),
    {
        if self.select_all_on_type {
            self.clear_selected();
            proof {
                lemma_start_is_boundary(self.input@);
            }
            return;
        }
        let chars = str_chars(self.input.as_str());
        let (k, b) = cursor_split(chars.as_slice(), self.cursor_position);
        if k > 0 {
            proof {
                lemma_boundary_after(chars@.take(k - 1), chars@.skip(k as int));
            }
            let mut out = chars.clone();
            out.remove(k - 1);
            assert(out@ =~= chars@.take(k - 1) + chars@.skip(k as int));
            proof {
                lemma_utf8_len_take(chars@, k - 1);
                lemma_char_width(chars@[k - 1]);
            }
            let prev = b - char_utf8_width_at(chars.as_slice(), k - 1);
            self.input = string_from_chars(out.as_slice());
            self.cursor_position = prev;
            self.mark_text_changed();
        }
    }

    /// Erases the character after the cursor; after a select-all, erases
    /// all of the text.
    pub fn delete(&mut self)
        ensures
            old(self).select_all_on_type ==> final(self).input@ == Seq::<char>::empty()
                && final(self).cursor_position == 0 && final(self).text_bumped(old(self)),
            !old(self).select_all_on_type ==> final(self).cursor_position == old(self).cursor_position,
            !old(self).select_all_on_type ==> if old(self).chars_before_cursor() < old(self).input@.len() {
                &&& final(self).input@ == remove_at(old(self).input@, old(self).cursor_position as int)
                &&& final(self).text_bumped(old(self))
            } else {
                &&& final(self).input == old(self).input
                &&& final(self).text_version == old(self).text_version
                &&& final(self).cursor_version == old(self).cursor_version
            },
            !final(self).select_all_on_type,
            final(self).is_focused == old(self).is_focused,
            final(self).same_session(old(self)),
            old(self).cursor_valid() ==> final(self).cursor_valid(),
            old(self).history_index_valid() ==> final(self).history_index_valid(),
    {
        if self.select_all_on_type {
            self.clear_selected();
            proof {
                lemma_start_is_boundary(self.input@);
            }
            return;
        }
        let chars = str_chars(self.input.as_str());
        let (k, _b) = cursor_split(chars.as_slice(), self.cursor_position);
        if k < chars.len() {
            proof {
                if old(self).cursor_valid() {
                    let c = old(self).cursor_position as int;
                    if c > utf8_len(chars@) {
                        lemma_take_all(chars@);
                        crate::text::lemma_floor_chars_unique(chars@, c, chars@.len() as int);
                    }
                    lemma_boundary_after(chars@.take(k as int), chars@.skip(k + 1));
                }
            }
            let mut out = chars.clone();
            out.remove(k);
            assert(out@ =~= chars@.take(k as int) + chars@.skip(k + 1));
            self.input = string_from_chars(out.as_slice());
            self.mark_text_changed();
        }
    }

    /// Moves the cursor to the start.
    pub fn home(&mut self)
        ensures
            final(self).cursor_position == 0,
            !final(self).select_all_on_type,
            final(self).input == old(self).input,
            final(self).is_focused == old(self).is_focused,
            final(self).same_session(old(self)),
            final(self).cursor_bumped(old(self)),
            final(self).cursor_valid(),
            old(self).history_index_valid() ==> final(self).history_index_valid(),
    {
        proof {
            lemma_start_is_boundary(self.input@);
        }
        self.select_all_on_type = false;
        self.cursor_position = 0;
        self.mark_cursor_changed();
    }

    /// Moves the cursor to the end.
    pub fn end(&mut self)
        ensures
            final(self).cursor_position == utf8_len(old(self).input@) as usize,
            !final(self).select_all_on_type,
            final(self).input == old(self).input,
            final(self).is_focused == old(self).is_focused,
            final(self).same_session(old(self)),
            final(self).cursor_bumped(old(self)),
            final(self).cursor_valid(),
            old(self).history_index_valid() ==> final(self).history_index_valid(),
    {
        proof {
            lemma_end_is_boundary(self.input@);
        }
        self.select_all_on_type = false;
        self.cursor_position = crate::text::str_byte_len(self.input.as_str());
        self.mark_cursor_changed();
    }

    /// Moves the cursor one character to the left, if there is one.
    pub fn arrow_left(&mut self)
        ensures
            old(self).chars_before_cursor() > 0 ==> final(self).cursor_position == step_left(
                old(self).input@,
                old(self).cursor_position as int,
            ) && final(self).cursor_bumped(old(self)),
            old(self).chars_before_cursor() == 0 ==> final(self).cursor_position
                == old(self).cursor_position && final(self).text_version == old(self).text_version
                && final(self).cursor_version == old(self).cursor_version,
            !final(self).select_all_on_type,
            final(self).input == old(self).input,
            final(self).is_focused == old(self).is_focused,
            final(self).same_session(old(self)),
            old(self).cursor_valid() ==> final(self).cursor_valid(),
            old(self).history_index_valid() ==> final(self).history_index_valid(),
            final(self).edit_view() == after_arrow_left(old(self).edit_view()),
    {
        self.select_all_on_type = false;
        let chars = str_chars(self.input.as_str());
        let (k, b) = cursor_split(chars.as_slice(), self.cursor_position);
        if k > 0 {
            proof {
                lemma_utf8_len_take(chars@, k - 1);
                lemma_prefix_is_boundary(chars@, k - 1);
            }
            self.cursor_position = b - char_utf8_width_at(chars.as_slice(), k - 1);
            self.mark_cursor_changed();
        }
    }

    /// Moves the cursor one character to the right, if there is one.
    pub fn arrow_right(&mut self)
        requires
            old(self).input_bytes() <= usize::MAX,
        ensures
            old(self).chars_before_cursor() < old(self).input@.len() ==> final(self).cursor_position
                == step_right(old(self).input@, old(self).cursor_position as int)
                && final(self).cursor_bumped(old(self)),
            old(self).chars_before_cursor() >= old(self).input@.len() ==> final(self).cursor_position
                == old(self).cursor_position && final(self).text_version == old(self).text_version
                && final(self).cursor_version == old(self).cursor_version,
            !final(self).select_all_on_type,
            final(self).input == old(self).input,
            final(self).is_focused == old(self).is_focused,
            final(self).same_session(old(self)),
            old(self).cursor_valid() ==> final(self).cursor_valid(),
            old(self).history_index_valid() ==> final(self).history_index_valid(),
            final(self).edit_view() == after_arrow_right(old(self).edit_view()),
    {
        self.select_all_on_type = false;
        let chars = str_chars(self.input.as_str());
        let (k, b) = cursor_split(chars.as_slice(), self.cursor_position);
        if k < chars.len() {
            proof {
                lemma_prefix_is_boundary(chars@, k + 1);
                lemma_utf8_len_take(chars@, k as int);
                crate::text::lemma_utf8_len_take_mono(chars@, k + 1, chars@.len() as int);
                lemma_take_all(chars@);
                crate::text::lemma_utf8_len_take_mono(chars@, k as int, chars@.len() as int);
            }
            self.cursor_position = b + char_utf8_width_at(chars.as_slice(), k);
            self.mark_cursor_changed();
        }
    }

    /// Recalls the next older address of the history into the text.
    pub fn arrow_up(&mut self)
        requires
            old(self).history@.len() > 0 && old(self).history_index is Some
                ==> old(self).history_index->0 < old(self).history@.len(),
        ensures
            !final(self).select_all_on_type,
            final(self).is_focused == old(self).is_focused,
            final(self).history == old(self).history,
            final(self).scroll_offset == old(self).scroll_offset,
            old(self).history@.len() == 0 ==> final(self).input == old(self).input
                && final(self).cursor_position == old(self).cursor_position
                && final(self).history_index == old(self).history_index
                && final(self).text_version == old(self).text_version
                && final(self).cursor_version == old(self).cursor_version,
            old(self).history@.len() > 0 ==> {
                let n = match old(self).history_index {
                    Some(i) => if i + 1 < old(self).history@.len() { i + 1 } else { i as int },
                    None => 0int,
                };
                &&& final(self).history_index == Some(n as usize)
                &&& final(self).input == old(self).history@[n as int]
                &&& final(self).cursor_position == utf8_len(final(self).input@) as usize
                &&& final(self).text_bumped(old(self))
            },
            old(self).cursor_valid() ==> final(self).cursor_valid(),
            old(self).history_index_valid() ==> final(self).history_index_valid(),
    {
        self.select_all_on_type = false;
        if self.history.len() == 0 {
            return;
        }
        let new_idx = match self.history_index {
            Some(idx) => if idx + 1 < self.history.len() { idx + 1 } else { idx },
            None => 0,
        };
        self.history_index = Some(new_idx);
        self.input = self.history[new_idx].clone();
        self.cursor_position = crate::text::str_byte_len(self.input.as_str());
        proof {
            lemma_end_is_boundary(self.input@);
        }
        self.mark_text_changed();
    }

    /// Recalls the next newer address of the history, or an empty text past
    /// the newest one.
    pub fn arrow_down(&mut self)
        requires
            old(self).history_index is Some && old(self).history_index->0 > 0
                ==> old(self).history_index->0 - 1 < old(self).history@.len(),
        ensures
            !final(self).select_all_on_type,
            final(self).is_focused == old(self).is_focused,
            final(self).history == old(self).history,
            final(self).scroll_offset == old(self).scroll_offset,
            old(self).history_index is None ==> final(self).input == old(self).input
                && final(self).cursor_position == old(self).cursor_position
                && final(self).history_index is None
                && final(self).text_version == old(self).text_version
                && final(self).cursor_version == old(self).cursor_version,
            old(self).history_index is Some && old(self).history_index->0 > 0 ==> {
                let i = old(self).history_index->0;
                &&& final(self).history_index == Some((i - 1) as usize)
                &&& final(self).input == old(self).history@[i - 1]
                &&& final(self).cursor_position == utf8_len(final(self).input@) as usize
                &&& final(self).text_bumped(old(self))
            },
            old(self).history_index == Some(0usize) ==> {
                &&& final(self).history_index is None
                &&& final(self).input@ == Seq::<char>::empty()
                &&& final(self).cursor_position == 0
                &&& final(self).text_bumped(old(self))
            },
            old(self).cursor_valid() ==> final(self).cursor_valid(),
            old(self).history_index_valid() ==> final(self).history_index_valid(),
    {
        self.select_all_on_type = false;
        if let Some(idx) = self.history_index {
            if idx > 0 {
                let new_idx = idx - 1;
                self.history_index = Some(new_idx);
                self.input = self.history[new_idx].clone();
                self.cursor_position = crate::text::str_byte_len(self.input.as_str());
                proof {
                    lemma_end_is_boundary(self.input@);
                }
                self.mark_text_changed();
            } else {
                self.history_index = None;
                self.input = String::new();
                self.cursor_position = 0;
                proof {
                    lemma_start_is_boundary(self.input@);
                }
                self.mark_text_changed();
            }
        }
    }

    /// Records a visited address at the front of the history.
    pub fn push_history(&mut self, url: String)
        ensures
            final(self).history@ == history_after_push(old(self).history@, url),
            final(self).history@.len() <= history_capacity() || final(self).history@.len()
                <= old(self).history@.len(),
            final(self).history@[0]@ == url@,
            final(self).is_focused == old(self).is_focused,
            final(self).input == old(self).input,
            final(self).cursor_position == old(self).cursor_position,
            final(self).select_all_on_type == old(self).select_all_on_type,
            final(self).history_index == old(self).history_index,
            final(self).scroll_offset == old(self).scroll_offset,
            final(self).text_version == old(self).text_version,
            final(self).cursor_version == old(self).cursor_version,
            old(self).cursor_valid() ==> final(self).cursor_valid(),
            old(self).history_index_valid() ==> final(self).history_index_valid(),
    {
        let same_front = self.history.len() > 0 && self.history[0] == url;
        if !same_front {
            self.history.push_front(url);
            if self.history.len() > 16 {
                self.history.pop_back();
            }
        }
        proof {
            let p = seq![url] + old(self).history@;
            if !same_front && p.len() > 16 {
                assert(self.history@ =~= p.drop_last());
            }
        }
    }

    /// Scrolls the text just enough to keep the cursor among the
    /// `visible_chars` characters shown; an unfocused bar or a zero-width
    /// field goes back to the start. Gives whether the offset changed.
    pub fn update_scroll(&mut self, visible_chars: usize) -> (changed: bool)
        requires
            old(self).is_focused && visible_chars > 0 && old(self).chars_before_cursor()
                >= old(self).scroll_offset ==> old(self).scroll_offset + visible_chars <= usize::MAX,
        ensures
            changed == (final(self).scroll_offset != old(self).scroll_offset),
            final(self).scroll_offset == old(self).scroll_after(visible_chars as int),
            // The cursor ends up in the visible window.
            old(self).is_focused && visible_chars > 0 ==> final(self).scroll_offset
                <= old(self).chars_before_cursor() < final(self).scroll_offset + visible_chars,
            final(self).is_focused == old(self).is_focused,
            final(self).input == old(self).input,
            final(self).cursor_position == old(self).cursor_position,
            final(self).select_all_on_type == old(self).select_all_on_type,
            final(self).history == old(self).history,
            final(self).history_index == old(self).history_index,
            final(self).text_version == old(self).text_version,
            final(self).cursor_version == old(self).cursor_version,
            old(self).cursor_valid() ==> final(self).cursor_valid(),
            old(self).history_index_valid() ==> final(self).history_index_valid(),
    {
        if !self.is_focused || visible_chars == 0 {
            let changed = self.scroll_offset != 0;
            self.scroll_offset = 0;
            return changed;
        }
        let chars = str_chars(self.input.as_str());
        let (cursor_char_idx, _b) = cursor_split(chars.as_slice(), self.cursor_position);
        let old_offset = self.scroll_offset;
        if cursor_char_idx < self.scroll_offset {
            self.scroll_offset = cursor_char_idx;
        } else if cursor_char_idx >= self.scroll_offset + visible_chars {
            self.scroll_offset = cursor_char_idx - visible_chars + 1;
        }
        old_offset != self.scroll_offset
    }
}

/// Scrolling moves the shown window as little as possible: when focused and
/// something can be shown, the cursor's character ends up in view and no
/// other offset that shows it is closer to the old offset; otherwise the
/// offset goes back to zero.
pub proof fn lemma_scroll_moves_least(st: OmniboxState, visible: int, o: int)
    requires
        visible >= 0,
    ensures
        !st.is_focused || visible == 0 ==> st.scroll_after(visible) == 0,
        st.is_focused && visible > 0 ==> {
            let n = st.scroll_after(visible);
            let k = st.chars_before_cursor();
            let s = st.scroll_offset as int;
            &&& n <= k < n + visible
            &&& (0 <= o && o <= k < o + visible ==> (if n >= s { n - s } else { s - n }) <= (if o >= s {
                o - s
            } else {
                s - o
            }))
        },
{
    crate::text::lemma_floor_chars(st.input@, st.cursor_position as int);
}

/// Typing a character and then erasing it gives back the text and the cursor.
pub proof fn lemma_backspace_undoes_insert(s: Seq<char>, cur: int, c: char)
    requires
        is_char_boundary_at(s, cur),
    ensures
        remove_before(insert_text_at(s, cur, seq![c]).0, insert_text_at(s, cur, seq![c]).1) == (
            s,
            cur,
        ),
{
    let k = floor_chars(s, cur);
    crate::text::lemma_floor_chars(s, cur);
    let (t, c2) = insert_text_at(s, cur, seq![c]);
    crate::text::lemma_utf8_len_single(c);
    crate::text::lemma_utf8_len_concat(s.take(k), seq![c]);
    assert(t.take(k + 1) =~= s.take(k) + seq![c]);
    assert(0 <= k <= s.len());
    lemma_prefix_is_boundary(t, k + 1);
    assert(t.take(k) =~= s.take(k));
    assert(t.skip(k + 1) =~= s.skip(k));
    assert(t.take(k) + t.skip(k + 1) =~= s);
}

/// Stepping right and then left returns to the same boundary.
pub proof fn lemma_left_undoes_right(s: Seq<char>, cur: int)
    requires
        is_char_boundary_at(s, cur),
        floor_chars(s, cur) < s.len(),
    ensures
        step_left(s, step_right(s, cur)) == cur,
{
    let k = floor_chars(s, cur);
    crate::text::lemma_floor_chars(s, cur);
    lemma_prefix_is_boundary(s, k + 1);
}

/// Stepping left and then right returns to the same boundary.
pub proof fn lemma_right_undoes_left(s: Seq<char>, cur: int)
    requires
        is_char_boundary_at(s, cur),
        floor_chars(s, cur) > 0,
    ensures
        step_right(s, step_left(s, cur)) == cur,
{
    let k = floor_chars(s, cur);
    crate::text::lemma_floor_chars(s, cur);
    lemma_prefix_is_boundary(s, k - 1);
}

/// Typing a character on a boundary and then pressing Backspace gives back
/// the text and the cursor; both versions have moved on by two.
pub proof fn lemma_backspace_undoes_insert_char(v: EditView, c: char)
    requires
        !v.2,
        is_char_boundary_at(v.0, v.1),
    ensures
        after_backspace(after_insert_char(v, c)) == (
            v.0,
            v.1,
            false,
            v.3.wrapping_add(1).wrapping_add(1),
            v.4.wrapping_add(1).wrapping_add(1),
        ),
{
    let s = v.0;
    let cur = v.1;
    let k = floor_chars(s, cur);
    crate::text::lemma_floor_chars(s, cur);
    crate::text::lemma_utf8_len_take_mono(s, k, s.len() as int);
    lemma_take_all(s);
    let (t, p) = insert_text_at(s, cur, seq![c]);
    crate::text::lemma_utf8_len_single(c);
    crate::text::lemma_utf8_len_concat(s.take(k), seq![c]);
    assert(t.take(k + 1) =~= s.take(k) + seq![c]);
    lemma_prefix_is_boundary(t, k + 1);
    lemma_backspace_undoes_insert(s, cur, c);
}

/// The left arrow and then the right arrow, from a boundary with a
/// character before it, give back the cursor; the text is untouched and the
/// cursor version has moved on by two.
pub proof fn lemma_arrow_right_undoes_arrow_left(v: EditView)
    requires
        is_char_boundary_at(v.0, v.1),
        floor_chars(v.0, v.1) > 0,
    ensures
        after_arrow_right(after_arrow_left(v)) == (v.0, v.1, false, v.3, v.4.wrapping_add(1).wrapping_add(1)),
{
    let k = floor_chars(v.0, v.1);
    crate::text::lemma_floor_chars(v.0, v.1);
    lemma_prefix_is_boundary(v.0, k - 1);
    lemma_right_undoes_left(v.0, v.1);
}

/// The right arrow and then the left arrow, from a boundary with a
/// character after it, give back the cursor; the text is untouched and the
/// cursor version has moved on by two.
pub proof fn lemma_arrow_left_undoes_arrow_right(v: EditView)
    requires
        is_char_boundary_at(v.0, v.1),
        floor_chars(v.0, v.1) < v.0.len(),
    ensures
        after_arrow_left(after_arrow_right(v)) == (v.0, v.1, false, v.3, v.4.wrapping_add(1).wrapping_add(1)),
{
    let k = floor_chars(v.0, v.1);
    crate::text::lemma_floor_chars(v.0, v.1);
    lemma_prefix_is_boundary(v.0, k + 1);
    lemma_left_undoes_right(v.0, v.1);
}

/// Each edit works on exactly one whole character at the cursor: the arrows
/// move the cursor over one character, Backspace removes the character
/// before the cursor and leaves the cursor where it was, Delete removes the
/// character after it, and typing puts the character at the cursor with the
/// cursor right after it.
pub proof fn lemma_edits_touch_one_char(s: Seq<char>, cur: int, c: char)
    requires
        is_char_boundary_at(s, cur),
    ensures
        ({
            let k = floor_chars(s, cur);
            let (t, p) = insert_text_at(s, cur, seq![c]);
            &&& k > 0 ==> floor_chars(s, step_left(s, cur)) == k - 1 && is_char_boundary_at(s, step_left(s, cur))
            &&& k < s.len() ==> floor_chars(s, step_right(s, cur)) == k + 1 && is_char_boundary_at(s, step_right(s, cur))
            &&& k > 0 ==> remove_before(s, cur).0 == s.remove(k - 1) && floor_chars(
                remove_before(s, cur).0,
                remove_before(s, cur).1,
            ) == k - 1 && is_char_boundary_at(remove_before(s, cur).0, remove_before(s, cur).1)
            &&& k < s.len() ==> remove_at(s, cur) == s.remove(k)
            &&& t == s.insert(k, c) && floor_chars(t, p) == k + 1 && is_char_boundary_at(t, p)
        }),
{
    let k = floor_chars(s, cur);
    crate::text::lemma_floor_chars(s, cur);
    if k > 0 {
        lemma_prefix_is_boundary(s, k - 1);
        let t = s.take(k - 1) + s.skip(k);
        assert(t =~= s.remove(k - 1));
        assert(t.take(k - 1) =~= s.take(k - 1));
        lemma_prefix_is_boundary(t, k - 1);
    }
    if k < s.len() {
        lemma_prefix_is_boundary(s, k + 1);
        assert(s.take(k) + s.skip(k + 1) =~= s.remove(k));
    }
    let (t, p) = insert_text_at(s, cur, seq![c]);
    assert(t =~= s.insert(k, c));
    crate::text::lemma_utf8_len_single(c);
    crate::text::lemma_utf8_len_concat(s.take(k), seq![c]);
    assert(t.take(k + 1) =~= s.take(k) + seq![c]);
    lemma_prefix_is_boundary(t, k + 1);
}

/// Width in bytes of the character at `i`.
fn char_utf8_width_at(s: &[char], i: usize) -> (w: usize)
    requires
        i < s@.len(),
    ensures
        w == char_width(s@[i as int]),
        1 <= w <= 4,
{
    crate::text::char_utf8_width(s[i])
}

/// `a - b`, or zero when `b` is larger (saturating subtraction).
pub open spec fn sat_sub(a: int, b: int) -> int {
    if a > b {
        a - b
    } else {
        0
    }
}

/// Left edge and width of the address field in a window `width` pixels wide:
/// the back, forward and reload buttons appear from 81, 121 and 181 pixels
/// on, and the settings button from 221.
pub open spec fn omnibox_rect_spec(width: int) -> (int, int) {
    let cx = 10 + (if width > 80 { 42int } else { 0 }) + (if width > 120 { 42int } else { 0 }) + (
    if width > 180 {
        42int
    } else {
        0
    });
    let settings_w: int = if width > 220 { 46 } else { 0 };
    let ox = cx + 4;
    (ox, sat_sub(sat_sub(width, ox + settings_w), 4))
}

/// Which control of the address bar row is under column `x`.
pub open spec fn omnibox_hit_spec(x: int, width: int) -> OmniboxHit {
    if width > 80 && 10 <= x < 46 {
        OmniboxHit::Back
    } else if width > 120 && 52 <= x < 88 {
        OmniboxHit::Forward
    } else if width > 180 && 94 <= x < 130 {
        OmniboxHit::Refresh
    } else if width > 220 && width - 46 <= x < width - 10 {
        OmniboxHit::Settings
    } else {
        let (ox, ow) = omnibox_rect_spec(width);
        if ow > 10 && ox <= x < ox + ow {
            OmniboxHit::Omnibox
        } else {
            OmniboxHit::NoHit
        }
    }
}

/// Left edge and width of the address field.
pub fn get_omnibox_rect(width: usize) -> (r: (usize, usize))
    ensures
        (r.0 as int, r.1 as int) == omnibox_rect_spec(width as int),
{
    let button_w: usize = 36;
    let mut current_x: usize = 10;
    if width > 80 {
        current_x += button_w + 6;
    }
    if width > 120 {
        current_x += button_w + 6;
    }
    if width > 180 {
        current_x += button_w + 6;
    }
    let mut settings_w: usize = 0;
    if width > 220 {
        settings_w = button_w + 10;
    }
    let omnibox_x = current_x + 4;
    let omnibox_w = width.saturating_sub(omnibox_x + settings_w).saturating_sub(4);
    (omnibox_x, omnibox_w)
}

/// Which control of the address bar row is under column `x` (the pointer's
/// position, already converted to whole pixels).
pub fn hit_test_omnibox_at(x: usize, width: usize) -> (r: OmniboxHit)
    ensures
        r == omnibox_hit_spec(x as int, width as int),
{
    let mut current_x: usize = 10;
    let button_w: usize = 36;
    if width > 80 {
        if x >= current_x && x < current_x + button_w {
            return OmniboxHit::Back;
        }
        current_x += button_w + 6;
    }
    if width > 120 {
        if x >= current_x && x < current_x + button_w {
            return OmniboxHit::Forward;
        }
        current_x += button_w + 6;
    }
    if width > 180 {
        if x >= current_x && x < current_x + button_w {
            return OmniboxHit::Refresh;
        }
        current_x += button_w + 6;
    }
    let mut settings_w: usize = 0;
    if width > 220 {
        settings_w = button_w + 10;
        let settings_x = width.saturating_sub(button_w + 10);
        if x >= settings_x && x < settings_x + button_w {
            return OmniboxHit::Settings;
        }
    }
    let omnibox_x = current_x + 4;
    let omnibox_w = width.saturating_sub(omnibox_x + settings_w).saturating_sub(4);
    if omnibox_w > 10 && x >= omnibox_x && x < omnibox_x + omnibox_w {
        return OmniboxHit::Omnibox;
    }
    OmniboxHit::NoHit
}

/// A click counts as one in the address field exactly when it falls inside
/// the rectangle the field is drawn in, off the buttons.
pub proof fn lemma_omnibox_hit_within_rect(x: int, width: int)
    requires
        omnibox_hit_spec(x, width) == OmniboxHit::Omnibox,
    ensures
        omnibox_rect_spec(width).0 <= x < omnibox_rect_spec(width).0 + omnibox_rect_spec(width).1,
        omnibox_rect_spec(width).1 > 10,
{
}

/// Each button answers clicks on its own 36-pixel block, where the bar
/// draws it: back from column 10, forward from 52, reload from 94 and
/// settings 46 columns before the right edge, once the window is wider than
/// 80, 120, 180 and 220 pixels; left of the back button nothing is hit.
pub proof fn lemma_omnibox_buttons(x: int, width: int)
    ensures
        width > 80 && 10 <= x < 46 ==> omnibox_hit_spec(x, width) == OmniboxHit::Back,
        width > 120 && 52 <= x < 88 ==> omnibox_hit_spec(x, width) == OmniboxHit::Forward,
        width > 180 && 94 <= x < 130 ==> omnibox_hit_spec(x, width) == OmniboxHit::Refresh,
        width > 220 && width - 46 <= x < width - 10 ==> omnibox_hit_spec(x, width) == OmniboxHit::Settings,
        x < 10 ==> omnibox_hit_spec(x, width) == OmniboxHit::NoHit,
{
}

/// Where the address field sits: 4 columns after the last button that
/// fits, and up to 4 columns before the settings button (or the edge).
pub proof fn lemma_omnibox_rect_values(width: int)
    requires
        width >= 0,
    ensures
        width > 220 ==> omnibox_rect_spec(width) == (140int, width - 190),
        180 < width <= 220 ==> omnibox_rect_spec(width) == (140int, width - 144),
        120 < width <= 180 ==> omnibox_rect_spec(width) == (98int, width - 102),
        80 < width <= 120 ==> omnibox_rect_spec(width) == (56int, width - 60),
        18 <= width <= 80 ==> omnibox_rect_spec(width) == (14int, width - 18),
        width < 18 ==> omnibox_rect_spec(width) == (14int, 0int),
{
}

/// The field never reaches past the window, nor under the settings button.
pub proof fn lemma_omnibox_rect_fits(width: int)
    requires
        width >= 0,
    ensures
        omnibox_rect_spec(width).1 > 0 ==> omnibox_rect_spec(width).0 + omnibox_rect_spec(width).1
            + (if width > 220 { 46int } else { 0 }) <= width,
{
}

/// Bytes kept as they are by the address encoder.
pub open spec fn is_unreserved_byte(b: u8) -> bool {
    ||| 97 <= b <= 122
    ||| 65 <= b <= 90
    ||| 48 <= b <= 57
    ||| b == 45
    ||| b == 95
    ||| b == 46
    ||| b == 126
}

/// Upper-case hexadecimal digit of a value below sixteen.
pub open spec fn hex_upper(d: nat) -> char {
    if d < 10 {
        crate::text::digit_char(d)
    } else if d == 10 {
        'A'
    } else if d == 11 {
        'B'
    } else if d == 12 {
        'C'
    } else if d == 13 {
        'D'
    } else if d == 14 {
        'E'
    } else {
        'F'
    }
}

/// How one byte is written in an encoded query: as itself when unreserved,
/// otherwise as `%` and two upper-case hex digits.
pub open spec fn encode_byte(b: u8) -> Seq<char> {
    if is_unreserved_byte(b) {
        seq![b as char]
    } else {
        seq!['%', hex_upper((b / 16) as nat), hex_upper((b % 16) as nat)]
    }
}

/// Percent-encoding of a byte string.
pub open spec fn percent_encode(bytes: Seq<u8>) -> Seq<char>
    decreases bytes.len(),
{
    if bytes.len() == 0 {
        Seq::empty()
    } else {
        percent_encode(bytes.drop_last()) + encode_byte(bytes.last())
    }
}

/// Value of an upper-case hexadecimal digit.
pub open spec fn hex_value(c: char) -> int {
    if '0' <= c && c <= '9' {
        c as int - 48
    } else {
        c as int - 55
    }
}

/// Reads an encoded query back into bytes: each `%XX` is the byte with
/// hexadecimal value `XX`, any other character is the byte of its code.
pub open spec fn percent_decode(s: Seq<char>) -> Seq<u8>
    decreases s.len(),
{
    if s.len() == 0 {
        Seq::empty()
    } else if s[0] == '%' && s.len() >= 3 {
        seq![(hex_value(s[1]) * 16 + hex_value(s[2])) as u8] + percent_decode(s.skip(3))
    } else {
        seq![s[0] as u32 as u8] + percent_decode(s.drop_first())
    }
}

/// Encoding a concatenation encodes each part.
proof fn lemma_percent_encode_concat(a: Seq<u8>, b: Seq<u8>)
    ensures
        percent_encode(a + b) == percent_encode(a) + percent_encode(b),
    decreases b.len(),
{
    if b.len() == 0 {
        assert(a + b =~= a);
        assert(percent_encode(b) =~= Seq::<char>::empty());
        assert(percent_encode(a) + percent_encode(b) =~= percent_encode(a));
    } else {
        assert((a + b).drop_last() =~= a + b.drop_last());
        assert((a + b).last() == b.last());
        lemma_percent_encode_concat(a, b.drop_last());
        assert(percent_encode(a + b) =~= percent_encode(a) + percent_encode(b));
    }
}

/// A hexadecimal digit reads back as its value.
proof fn lemma_hex_value(d: nat)
    requires
        d < 16,
    ensures
        hex_value(hex_upper(d)) == d,
{
}

/// Decoding one encoded byte followed by more text gives the byte first.
proof fn lemma_decode_encoded_byte(x: u8, rest: Seq<char>)
    ensures
        percent_decode(encode_byte(x) + rest) == seq![x] + percent_decode(rest),
{
    let e = encode_byte(x);
    let t = e + rest;
    if is_unreserved_byte(x) {
        assert(t[0] == x as char);
        assert(t.drop_first() =~= rest);
        assert((x as char) as u32 as u8 == x);
    } else {
        vstd::arithmetic::div_mod::lemma_fundamental_div_mod(x as int, 16);
        lemma_hex_value((x / 16) as nat);
        lemma_hex_value((x % 16) as nat);
        assert(t[0] == '%');
        assert(t.skip(3) =~= rest);
        assert(hex_value(t[1]) * 16 + hex_value(t[2]) == x as int);
    }
}

/// Encoding loses nothing: decoding an encoded query gives back its bytes,
/// so distinct queries never turn into the same address text.
pub proof fn lemma_percent_decode_encode(bytes: Seq<u8>)
    ensures
        percent_decode(percent_encode(bytes)) == bytes,
    decreases bytes.len(),
{
    if bytes.len() > 0 {
        let first = seq![bytes[0]];
        let rest = bytes.drop_first();
        assert(bytes =~= first + rest);
        lemma_percent_encode_concat(first, rest);
        assert(first.drop_last() =~= Seq::<u8>::empty());
        assert(first.last() == bytes[0]);
        assert(percent_encode(first.drop_last()) =~= Seq::<char>::empty());
        assert(percent_encode(first) == percent_encode(first.drop_last()) + encode_byte(first.last()));
        assert(percent_encode(first) =~= encode_byte(bytes[0]));
        lemma_decode_encoded_byte(bytes[0], percent_encode(rest));
        lemma_percent_decode_encode(rest);
        assert(seq![bytes[0]] + rest =~= bytes);
    } else {
        assert(percent_encode(bytes) =~= Seq::<char>::empty());
    }
}

fn hex_upper_char(d: u8) -> (c: char)
    requires
        d < 16,
    ensures
        c == hex_upper(d as nat),
{
    if d == 0 { '0' } else if d == 1 { '1' } else if d == 2 { '2' } else if d == 3 { '3' }
    else if d == 4 { '4' } else if d == 5 { '5' } else if d == 6 { '6' } else if d == 7 { '7' }
    else if d == 8 { '8' } else if d == 9 { '9' } else if d == 10 { 'A' } else if d == 11 { 'B' }
    else if d == 12 { 'C' } else if d == 13 { 'D' } else if d == 14 { 'E' } else { 'F' }
}

/// Percent-encodes the UTF-8 bytes of `input` for use in a query.
fn minimal_encode(input: &str) -> (out: Vec<char>)
    ensures
        out@ == percent_encode(vstd::utf8::encode_utf8(input@)),
{
    let bytes = input.as_bytes();
    let mut out: Vec<char> = Vec::new();
    let mut i: usize = 0;
    assert(bytes@.take(0) =~= Seq::<u8>::empty());
    while i < bytes.len()
        invariant
            i <= bytes@.len(),
            out@ == percent_encode(bytes@.take(i as int)),
        decreases bytes@.len() - i,
    {
        let b = bytes[i];
        let ghost prev = out@;
        if (b >= 97 && b <= 122) || (b >= 65 && b <= 90) || (b >= 48 && b <= 57) || b == 45 || b
            == 95 || b == 46 || b == 126 {
            out.push(b as char);
        } else {
            out.push('%');
            out.push(hex_upper_char(b / 16));
            out.push(hex_upper_char(b % 16));
        }
        assert(bytes@.take(i + 1).drop_last() =~= bytes@.take(i as int));
        assert(out@ =~= prev + encode_byte(b));
        i += 1;
    }
    assert(bytes@.take(bytes@.len() as int) =~= bytes@);
    out
}

/// Every character of an encoded query is unreserved or part of a `%XX` escape.
pub proof fn lemma_percent_encode_is_url_safe(bytes: Seq<u8>)
    ensures
        forall|i: int|
            0 <= i < percent_encode(bytes).len() ==> {
                let c = #[trigger] percent_encode(bytes)[i];
                ||| c == '%'
                ||| (c as u32) < 128 && is_unreserved_byte(c as u32 as u8)
            },
    decreases bytes.len(),
{
    if bytes.len() > 0 {
        lemma_percent_encode_is_url_safe(bytes.drop_last());
        let p = percent_encode(bytes.drop_last());
        let e = encode_byte(bytes.last());
        assert forall|i: int| 0 <= i < percent_encode(bytes).len() implies {
            let c = #[trigger] percent_encode(bytes)[i];
            ||| c == '%'
            ||| (c as u32) < 128 && is_unreserved_byte(c as u32 as u8)
        } by {
            if i >= p.len() {
                let b = bytes.last();
                if !is_unreserved_byte(b) {
                    let d1 = (b / 16) as nat;
                    let d0 = (b % 16) as nat;
                    assert(d1 < 16 && d0 < 16);
                }
            } else {
                assert(percent_encode(bytes)[i] == p[i]);
            }
        }
    }
}

/// The schemes whose addresses are opened as typed.
pub open spec fn has_known_scheme(t: Seq<char>) -> bool {
    ||| crate::text::seq_starts_with(t, "http://"@)
    ||| crate::text::seq_starts_with(t, "https://"@)
    ||| crate::text::seq_starts_with(t, "file://"@)
    ||| crate::text::seq_starts_with(t, "petal://"@)
}

/// Where typing `input` in the address bar navigates to: nothing for blank
/// input; the address itself when it has a known scheme; plain HTTP for local
/// servers; HTTPS for anything that looks like a domain (a dot and no space);
/// otherwise a search, with the percent-encoded text in place of each `{}` of
/// the search engine template.
pub open spec fn navigation_target_spec(input: Seq<char>, search_engine: Seq<char>) -> Seq<char> {
    let t = crate::text::trim_spec(input);
    if t.len() == 0 {
        Seq::empty()
    } else if has_known_scheme(t) {
        t
    } else if crate::text::seq_starts_with(t, "localhost:"@) || crate::text::seq_starts_with(
        t,
        "127.0.0.1"@,
    ) {
        "http://"@ + t
    } else if t.contains('.') && !t.contains(' ') {
        "https://"@ + t
    } else {
        crate::text::replace_all(search_engine, "{}"@, percent_encode(vstd::utf8::encode_utf8(t)))
    }
}

/// Where typed text leads: blank text nowhere; text starting with
/// `http://`, `https://`, `file://` or `petal://` to itself (trimmed); local
/// servers over plain HTTP; other text with a dot and no space over HTTPS;
/// anything else to a search whose query decodes back to the trimmed text.
pub proof fn lemma_navigation_cases(input: Seq<char>, engine: Seq<char>)
    ensures
        ({
            let t = crate::text::trim_spec(input);
            let r = navigation_target_spec(input, engine);
            let scheme = crate::text::seq_starts_with(t, "http://"@) || crate::text::seq_starts_with(t, "https://"@)
                || crate::text::seq_starts_with(t, "file://"@) || crate::text::seq_starts_with(t, "petal://"@);
            let local = crate::text::seq_starts_with(t, "localhost:"@) || crate::text::seq_starts_with(t, "127.0.0.1"@);
            &&& t.len() == 0 ==> r.len() == 0
            &&& t.len() > 0 && scheme ==> r == t
            &&& t.len() > 0 && !scheme && local ==> r == "http://"@ + t
            &&& t.len() > 0 && !scheme && !local && t.contains('.') && !t.contains(' ') ==> r == "https://"@ + t
            &&& t.len() > 0 && !scheme && !local && !(t.contains('.') && !t.contains(' ')) ==> r
                == crate::text::replace_all(engine, "{}"@, percent_encode(vstd::utf8::encode_utf8(t)))
                && percent_decode(percent_encode(vstd::utf8::encode_utf8(t))) == vstd::utf8::encode_utf8(t)
        }),
{
    lemma_percent_decode_encode(vstd::utf8::encode_utf8(crate::text::trim_spec(input)));
}

fn starts_with_lit(s: &[char], lit: &str) -> (r: bool)
    ensures
        r == crate::text::seq_starts_with(s@, lit@),
{
    let p = str_chars(lit);
    crate::text::starts_with_chars(s, p.as_slice())
}

/// Resolves what was typed in the address bar to the address to open.
pub fn resolve_navigation_target(input: &str, search_engine: &str) -> (r: String)
    ensures
        r@ == navigation_target_spec(input@, search_engine@),
{
    let chars = str_chars(input);
    let trimmed = crate::text::trim_chars(chars.as_slice());
    let t = trimmed.as_slice();
    if t.len() == 0 {
        return String::new();
    }
    if starts_with_lit(t, "http://") || starts_with_lit(t, "https://") || starts_with_lit(
        t,
        "file://",
    ) || starts_with_lit(t, "petal://") {
        return string_from_chars(t);
    }
    if starts_with_lit(t, "localhost:") || starts_with_lit(t, "127.0.0.1") {
        let mut out = String::new();
        crate::text::push_str_chars(&mut out, "http://");
        crate::text::push_chars(&mut out, t);
        return out;
    }
    if crate::text::contains_char(t, '.') && !crate::text::contains_char(t, ' ') {
        let mut out = String::new();
        crate::text::push_str_chars(&mut out, "https://");
        crate::text::push_chars(&mut out, t);
        return out;
    }
    let t_string = string_from_chars(t);
    let encoded = minimal_encode(t_string.as_str());
    let engine = str_chars(search_engine);
    let pattern = str_chars("{}");
    proof {
        reveal_strlit("{}");
    }
    let replaced = crate::text::replace_all_chars(
        engine.as_slice(),
        pattern.as_slice(),
        encoded.as_slice(),
    );
    string_from_chars(replaced.as_slice())
}

/// What the address field shows and where its cursor is drawn, cached
/// between frames and rebuilt only when something it depends on changed.
pub struct OmniboxLayout {
    pub last_text_version: u64,
    pub last_cursor_version: u64,
    pub last_url: String,
    pub last_width: usize,
    pub cached_visible_text: String,
    pub cached_selection_width: usize,
    pub cached_cursor_x_offset: Option<usize>,
    pub cursor_blink_visible: bool,
    pub last_cursor_blink: Instant,
}

/// How many 8-pixel characters fit in a field `field_w` pixels wide.
pub open spec fn visible_chars_for(field_w: int) -> int {
    sat_sub(field_w, 20) / 8
}

impl OmniboxLayout {
    /// A layout that has cached nothing yet.
    pub fn new() -> (l: Self)
        ensures
            l.last_text_version == 0,
            l.last_cursor_version == 0,
            l.last_url@ == Seq::<char>::empty(),
            l.last_width == 0,
            l.cached_visible_text@ == Seq::<char>::empty(),
            l.cached_selection_width == 0,
            l.cached_cursor_x_offset is None,
            l.cursor_blink_visible,
    {
        Self {
            last_text_version: 0,
            last_cursor_version: 0,
            last_url: String::new(),
            last_width: 0,
            cached_visible_text: String::new(),
            cached_selection_width: 0,
            cached_cursor_x_offset: None,
            cursor_blink_visible: true,
            last_cursor_blink: instant_now(),
        }
    }

    /// Brings the cache up to date with the editing state, the window width
    /// and the address of the tab in front, scrolling the text if needed.
    pub fn update(&mut self, state: &mut OmniboxState, window_width: usize, current_url: &str)
        requires
            ({
                let visible = visible_chars_for(omnibox_rect_spec(window_width as int).1);
                old(state).is_focused && visible > 0 && old(state).chars_before_cursor()
                    >= old(state).scroll_offset ==> old(state).scroll_offset + visible <= usize::MAX
            }),
            old(state).input@.len() * 8 <= usize::MAX,
            current_url@.len() * 8 <= usize::MAX,
        ensures
            ({
                let ow = omnibox_rect_spec(window_width as int).1;
                let visible = visible_chars_for(ow);
                let st = *final(state);
                let focused = old(state).is_focused;
                let scrolled = st.scroll_offset != old(state).scroll_offset;
                let text_changed = old(self).last_width != ow || (!focused && old(self).last_url@
                    != current_url@) || scrolled || old(self).last_text_version
                    != old(state).text_version;
                let cursor_changed = text_changed || old(self).last_cursor_version
                    != old(state).cursor_version;
                let display = if focused { old(state).input@ } else { current_url@ };
                let start: int = if focused {
                    if st.scroll_offset < display.len() { st.scroll_offset as int } else { display.len() as int }
                } else {
                    0
                };
                let k = old(state).chars_before_cursor();
                if ow <= 10 {
                    &&& *final(self) == *old(self)
                    &&& *final(state) == *old(state)
                } else {
                    // The editing state only scrolls.
                    &&& st.scroll_offset == old(state).scroll_after(visible)
                    &&& st.is_focused == old(state).is_focused
                    &&& st.input == old(state).input
                    &&& st.cursor_position == old(state).cursor_position
                    &&& st.select_all_on_type == old(state).select_all_on_type
                    &&& st.history == old(state).history
                    &&& st.history_index == old(state).history_index
                    &&& st.text_version == old(state).text_version
                    &&& st.cursor_version == old(state).cursor_version
                    &&& final(self).last_width == ow
                    &&& final(self).last_url@ == (if focused { old(self).last_url@ } else { current_url@ })
                    &&& final(self).cursor_blink_visible == (cursor_changed || old(self).cursor_blink_visible)
                    &&& if text_changed {
                        &&& final(self).cached_visible_text@ == display.skip(start)
                        &&& final(self).cached_selection_width == (if focused && old(state).select_all_on_type
                            && display.len() > 0 {
                            if (display.len() - start) * 8 < sat_sub(ow, 20) {
                                (display.len() - start) * 8
                            } else {
                                sat_sub(ow, 20)
                            }
                        } else {
                            0
                        })
                        &&& final(self).last_text_version == old(state).text_version
                    } else {
                        &&& final(self).cached_visible_text == old(self).cached_visible_text
                        &&& final(self).cached_selection_width == old(self).cached_selection_width
                        &&& final(self).last_text_version == old(self).last_text_version
                    }
                    &&& if cursor_changed {
                        &&& final(self).cached_cursor_x_offset == (if focused
                            && !old(state).select_all_on_type && k >= st.scroll_offset
                            && (k - st.scroll_offset) * 8 < sat_sub(ow, 10) {
                            Some(((k - st.scroll_offset) * 8) as usize)
                        } else {
                            None
                        })
                        &&& final(self).last_cursor_version == old(state).cursor_version
                    } else {
                        &&& final(self).cached_cursor_x_offset == old(self).cached_cursor_x_offset
                        &&& final(self).last_cursor_version == old(self).last_cursor_version
                    }
                }
            }),
            old(state).cursor_valid() ==> final(state).cursor_valid(),
            old(state).history_index_valid() ==> final(state).history_index_valid(),
    {
        let (_, omnibox_w) = get_omnibox_rect(window_width);
        if omnibox_w <= 10 {
            return;
        }
        let url_chars = str_chars(current_url);
        let last_url_chars = str_chars(self.last_url.as_str());
        let width_changed = self.last_width != omnibox_w;
        let url_changed = !state.is_focused && !crate::text::chars_eq(
            last_url_chars.as_slice(),
            url_chars.as_slice(),
        );
        let mut force_text_rebuild = width_changed || url_changed;
        self.last_width = omnibox_w;
        if !state.is_focused {
            self.last_url = string_from_chars(url_chars.as_slice());
        }
        let visible_chars = omnibox_w.saturating_sub(20) / 8;
        if state.update_scroll(visible_chars) {
            force_text_rebuild = true;
        }
        let text_changed = force_text_rebuild || self.last_text_version != state.text_version;
        let cursor_changed = text_changed || self.last_cursor_version != state.cursor_version;
        if text_changed || cursor_changed {
            self.cursor_blink_visible = true;
            self.last_cursor_blink = instant_now();
        }
        if text_changed {
            let display = if state.is_focused {
                str_chars(state.input.as_str())
            } else {
                str_chars(current_url)
            };
            let start_idx = if state.is_focused {
                if state.scroll_offset < display.len() {
                    state.scroll_offset
                } else {
                    display.len()
                }
            } else {
                0
            };
            let shown = vstd::slice::slice_subrange(display.as_slice(), start_idx, display.len());
            assert(shown@ =~= display@.skip(start_idx as int));
            self.cached_visible_text = string_from_chars(shown);
            if state.is_focused && state.select_all_on_type && display.len() > 0 {
                let w = shown.len() * 8;
                let limit = omnibox_w.saturating_sub(20);
                self.cached_selection_width = if w < limit {
                    w
                } else {
                    limit
                };
            } else {
                self.cached_selection_width = 0;
            }
            self.last_text_version = state.text_version;
        }
        if cursor_changed {
            if state.is_focused && !state.select_all_on_type {
                let chars = str_chars(state.input.as_str());
                let (chars_before_cursor, _b) = cursor_split(chars.as_slice(), state.cursor_position);
                if chars_before_cursor >= state.scroll_offset {
                    let offset = (chars_before_cursor - state.scroll_offset) * 8;
                    if offset < omnibox_w.saturating_sub(10) {
                        self.cached_cursor_x_offset = Some(offset);
                    } else {
                        self.cached_cursor_x_offset = None;
                    }
                } else {
                    self.cached_cursor_x_offset = None;
                }
            } else {
                self.cached_cursor_x_offset = None;
            }
            self.last_cursor_version = state.cursor_version;
        }
    }
}

/// Background of the address bar row.
pub const OMNIBOX_BG: u32 = 0xFF28_2828;

/// Background of the navigation buttons.
pub const BUTTON_BG: u32 = 0xFF3C_3C3C;

/// Color of the navigation buttons' icons.
pub const ICON_COLOR: u32 = 0xFFDD_DDDD;

/// Background of the address field while it is being edited.
pub const FIELD_FOCUSED_BG: u32 = 0xFF00_0000;

/// Background of the address field otherwise.
pub const FIELD_BG: u32 = 0xFF11_1111;

/// The buffer after drawing a 36 by 30 button at column `x` with icon `icon`.
pub open spec fn button_spec(buf: Seq<u32>, width: int, x: int, icon: char, font: Seq<[u8; 16]>) -> Seq<u32> {
    draw_char_spec(beveled_rect_spec(buf, width, x, 8, 36, 30, BUTTON_BG), width, x + 14, 15, icon, ICON_COLOR, font)
}

/// The buffer (the address bar's own layer) after drawing its static part:
/// background, the buttons that fit, and the field.
pub open spec fn render_omnibox_static_spec(buf: Seq<u32>, width: int, is_focused: bool, font: Seq<[u8; 16]>) -> Seq<u32> {
    if width < 2 {
        buf
    } else {
        let b0 = clear_rect_spec(buf, width, 0, 0, width, 46, OMNIBOX_BG);
        let b1 = if width > 80 { button_spec(b0, width, 10, '<', font) } else { b0 };
        let b2 = if width > 120 { button_spec(b1, width, 52, '>', font) } else { b1 };
        let b3 = if width > 180 { button_spec(b2, width, 94, 'C', font) } else { b2 };
        let b4 = if width > 220 { button_spec(b3, width, width - 46, 'S', font) } else { b3 };
        let (ox, ow) = omnibox_rect_spec(width);
        if ow > 10 {
            beveled_rect_spec(b4, width, ox, 8, ow, 30, if is_focused { FIELD_FOCUSED_BG } else { FIELD_BG })
        } else {
            b4
        }
    }
}

/// Draws the parts of the address bar that only change with the window width
/// and focus.
pub fn render_omnibox_static(buffer: &mut [u32], width: usize, is_focused: bool, font: &[[u8; 16]])
    requires
        font@.len() > 63,
    ensures
        final(buffer)@ == render_omnibox_static_spec(old(buffer)@, width as int, is_focused, font@),
{
    if width < 2 {
        return;
    }
    clear_rect(buffer, width, 0, 0, width, OMNIBOX_HEIGHT as usize, OMNIBOX_BG);
    let nav_y: usize = 8;
    let button_h: usize = 30;
    let button_w: usize = 36;
    let mut current_x: usize = 10;
    if width > 80 {
        draw_beveled_rect(buffer, width, current_x, nav_y, button_w, button_h, BUTTON_BG);
        draw_char(buffer, width, current_x + 14, nav_y + 7, '<', ICON_COLOR, font);
        current_x += button_w + 6;
    }
    if width > 120 {
        draw_beveled_rect(buffer, width, current_x, nav_y, button_w, button_h, BUTTON_BG);
        draw_char(buffer, width, current_x + 14, nav_y + 7, '>', ICON_COLOR, font);
        current_x += button_w + 6;
    }
    if width > 180 {
        draw_beveled_rect(buffer, width, current_x, nav_y, button_w, button_h, BUTTON_BG);
        draw_char(buffer, width, current_x + 14, nav_y + 7, 'C', ICON_COLOR, font);
        current_x += button_w + 6;
    }
    let mut settings_w: usize = 0;
    if width > 220 {
        settings_w = button_w + 10;
        let settings_x = width.saturating_sub(button_w + 10);
        draw_beveled_rect(buffer, width, settings_x, nav_y, button_w, button_h, BUTTON_BG);
        draw_char(buffer, width, settings_x + 14, nav_y + 7, 'S', ICON_COLOR, font);
    }
    let omnibox_x = current_x + 4;
    let omnibox_w = width.saturating_sub(omnibox_x + settings_w).saturating_sub(4);
    if omnibox_w > 10 {
        let field_bg = if is_focused {
            FIELD_FOCUSED_BG
        } else {
            FIELD_BG
        };
        draw_beveled_rect(buffer, width, omnibox_x, nav_y, omnibox_w, button_h, field_bg);
    }
}

/// The buffer (the whole window) after drawing the address bar's dynamic
/// part from the cached layout: selection, visible text and cursor.
pub open spec fn render_omnibox_dynamic_spec(buf: Seq<u32>, window_width: int, layout: OmniboxLayout, font: Seq<[u8; 16]>) -> Seq<u32> {
    let (ox, ow) = omnibox_rect_spec(window_width);
    if window_width < 2 || ow <= 10 {
        buf
    } else {
        let b0 = if layout.cached_selection_width > 0 {
            clear_rect_spec(buf, window_width, ox + 10, 55, layout.cached_selection_width as int, 16, 0xFF00_55AA)
        } else {
            buf
        };
        let b1 = draw_string_spec(b0, window_width, ox + 10, 55, layout.cached_visible_text@, 0xFFE0_E0E0, sat_sub(ow, 20), font);
        if layout.cursor_blink_visible && layout.cached_cursor_x_offset is Some {
            clear_rect_spec(b1, window_width, ox + 10 + layout.cached_cursor_x_offset->0, 55, 2, 16, 0xFFFF_FFFF)
        } else {
            b1
        }
    }
}

/// Draws the address text, selection and cursor from the cached layout.
pub fn render_omnibox_dynamic(buffer: &mut [u32], window_width: usize, layout: &OmniboxLayout, font: &[[u8; 16]])
    requires
        font@.len() > 63,
        layout.cursor_blink_visible && layout.cached_cursor_x_offset is Some ==> omnibox_rect_spec(
            window_width as int,
        ).0 + 10 + layout.cached_cursor_x_offset->0 <= usize::MAX,
    ensures
        final(buffer)@ == render_omnibox_dynamic_spec(old(buffer)@, window_width as int, *layout, font@),
{
    if window_width < 2 {
        return;
    }
    let (omnibox_x, omnibox_w) = get_omnibox_rect(window_width);
    if omnibox_w <= 10 {
        return;
    }
    let nav_y = TABBAR_HEIGHT as usize + 8;
    if layout.cached_selection_width > 0 {
        clear_rect(buffer, window_width, omnibox_x + 10, nav_y + 7, layout.cached_selection_width, 16, 0xFF00_55AA);
    }
    draw_string(
        buffer,
        window_width,
        omnibox_x + 10,
        nav_y + 7,
        layout.cached_visible_text.as_str(),
        0xFFE0_E0E0,
        omnibox_w.saturating_sub(20),
        font,
    );
    if layout.cursor_blink_visible {
        if let Some(cursor_offset) = layout.cached_cursor_x_offset {
            clear_rect(buffer, window_width, omnibox_x + 10 + cursor_offset, nav_y + 7, 2, 16, 0xFFFF_FFFF);
        }
    }
}

/// The address text is drawn over its selection: once the dynamic part is
/// drawn, every pixel that a glyph of the shown text sets inside the field
/// and that the cursor does not cover has the text color, whether or not it
/// lies in the selection box.
pub proof fn lemma_text_drawn_over_selection(
    buf: Seq<u32>,
    window_width: int,
    layout: OmniboxLayout,
    font: Seq<[u8; 16]>,
    j: int,
    r: int,
    c: int,
)
    requires
        2 <= window_width <= usize::MAX,
        omnibox_rect_spec(window_width).1 > 10,
        0 <= j < layout.cached_visible_text@.len(),
        55 <= r < 71,
        r < (buf.len() as int) / window_width,
        ({
            let x0 = omnibox_rect_spec(window_width).0 + 10 + 8 * j;
            let ch = layout.cached_visible_text@[j];
            let glyph = if (ch as u32) < font.len() { font[ch as u32 as int] } else { font[63] };
            &&& x0 <= c < x0 + 8
            &&& c < omnibox_rect_spec(window_width).0 + omnibox_rect_spec(window_width).1 - 10
            &&& c < window_width
            &&& glyph_bit(glyph@[r - 55], c - x0)
        }),
        !(layout.cursor_blink_visible && layout.cached_cursor_x_offset is Some && omnibox_rect_spec(
            window_width,
        ).0 + 10 + layout.cached_cursor_x_offset->0 <= c < omnibox_rect_spec(window_width).0 + 12
            + layout.cached_cursor_x_offset->0),
    ensures
        render_omnibox_dynamic_spec(buf, window_width, layout, font)[r * window_width + c] == 0xFFE0_E0E0,
{
    let (ox, ow) = omnibox_rect_spec(window_width);
    lemma_omnibox_rect_fits(window_width);
    let bw = window_width;
    let x0 = ox + 10;
    let text = layout.cached_visible_text@;
    let mw = sat_sub(ow, 20);
    let b0 = if layout.cached_selection_width > 0 {
        clear_rect_spec(buf, bw, x0, 55, layout.cached_selection_width as int, 16, 0xFF00_55AA)
    } else {
        buf
    };
    assert(b0.len() == buf.len());
    let bh = (buf.len() as int) / bw;
    let limit = crate::ui::pixels::sat_add(x0, mw);
    assert(limit == x0 + mw);
    let clip_w = crate::ui::pixels::min(mw, crate::ui::pixels::sat_sub(bw, x0));
    let clip_h = crate::ui::pixels::sat_sub(bh, 55);
    let xj = x0 + 8 * j;
    assert(glyph_for(font, text[j]) == (if (text[j] as u32) < font.len() { font[text[j] as u32 as int] } else { font[63] }));
    assert(char_cover(xj, 55, glyph_for(font, text[j]), x0, 55, clip_w, clip_h, bw, bh)(r, c));
    lemma_draw_chars_glyph_pixel(b0, bw, x0, 55, text, 0xFFE0_E0E0, limit, x0, clip_w, clip_h, font, j, r, c);
    let b1 = draw_string_spec(b0, bw, x0, 55, text, 0xFFE0_E0E0, mw, font);
    lemma_draw_chars_keeps(b0, bw, x0, 55, text, 0xFFE0_E0E0, limit, x0, clip_w, clip_h, font, 0);
    assert(b1[r * bw + c] == 0xFFE0_E0E0);
    if layout.cursor_blink_visible && layout.cached_cursor_x_offset is Some {
        let xc = x0 + layout.cached_cursor_x_offset->0;
        lemma_painted_pixel(b1, bw, rect_cover(xc, 55, 2, 16), 0xFFFF_FFFF, r, c);
    }
}

/// The address field is drawn over the rest of the bar's layer and fills
/// its rectangle between the top and bottom border rows: black while the
/// field is focused, dark grey otherwise.
pub proof fn lemma_static_field_color(
    buf: Seq<u32>,
    width: int,
    is_focused: bool,
    font: Seq<[u8; 16]>,
    r: int,
    c: int,
)
    requires
        2 <= width <= usize::MAX,
        omnibox_rect_spec(width).1 > 10,
        9 <= r < 37,
        r < (buf.len() as int) / width,
        omnibox_rect_spec(width).0 <= c < omnibox_rect_spec(width).0 + omnibox_rect_spec(width).1,
    ensures
        render_omnibox_static_spec(buf, width, is_focused, font)[r * width + c] == (if is_focused {
            0xFF00_0000u32
        } else {
            0xFF11_1111u32
        }),
{
    let (ox, ow) = omnibox_rect_spec(width);
    lemma_omnibox_rect_fits(width);
    let b0 = clear_rect_spec(buf, width, 0, 0, width, 46, OMNIBOX_BG);
    let b1 = if width > 80 { button_spec(b0, width, 10, '<', font) } else { b0 };
    let b2 = if width > 120 { button_spec(b1, width, 52, '>', font) } else { b1 };
    let b3 = if width > 180 { button_spec(b2, width, 94, 'C', font) } else { b2 };
    let b4 = if width > 220 { button_spec(b3, width, width - 46, 'S', font) } else { b3 };
    assert(b4.len() == buf.len());
    let color = if is_focused { FIELD_FOCUSED_BG } else { FIELD_BG };
    crate::ui::pixels::lemma_painted_pixel(b4, width, bevel_cover(ox, 8, ow, 30), color, r, c);
}

} // verus!
