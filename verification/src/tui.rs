//! The dropdown of the terminal wrapper, drawn on the lines below the cursor,
//! and the decisions of its input loop: what each keystroke does to the
//! dropdown and the tracked line, and what goes to the screen and the shell.
use vstd::prelude::*;

use crate::dropdown::{items_view, min_visible, repeat_seq, window_end, window_start};
use crate::line_tracker::{feed_byte, feed_bytes, replaced_filter, LineTracker};
use crate::text::{
    chars_of, decimal, decimal_chars, pad_left, pad_right, push_chars, push_pad_left,
    push_pad_right, push_repeat, push_str, repeat_char, string_of,
};
use crate::tools::{match_tool_prefix, spec_match_tool_prefix};

verus! {

pub const TUI_MAX_VISIBLE: usize = 8;

pub const NAME_W: usize = 20;

pub const PREVIEW_W: usize = 28;

pub const INNER_W: usize = 51;

/// `s` when it has at most `max_len` characters, else its first
/// `max_len - 1` characters and an ellipsis.
pub open spec fn spec_truncate(s: Seq<char>, max_len: nat) -> Seq<char> {
    if s.len() <= max_len {
        s
    } else {
        s.take(if max_len >= 1 {
            max_len - 1
        } else {
            0
        }) + "…"@
    }
}

pub fn truncate(s: &str, max_len: usize) -> (r: String)
    ensures
        r@ == spec_truncate(s@, max_len as nat),
{
    let cs = chars_of(s);
    if cs.len() <= max_len {
        string_of(&cs)
    } else {
        let keep = if max_len >= 1 {
            max_len - 1
        } else {
            0
        };
        let mut out = crate::text::subvec(&cs, 0, keep);
        push_str(&mut out, "…");
        assert(out@ =~= spec_truncate(s@, max_len as nat));
        string_of(&out)
    }
}

/// Moves down a line, to its first column, and clears it.
pub open spec fn next_line() -> Seq<char> {
    "\x1b[1B\r\x1b[2K"@
}

pub open spec fn tui_border() -> Seq<char> {
    next_line() + " \x1b[90m+"@ + repeat_char('-', 51) + "+\x1b[0m"@
}

/// One item row.
pub open spec fn tui_row(item: (Seq<char>, Seq<char>), selected: bool) -> Seq<char> {
    let name = spec_truncate(item.0, 20);
    let preview = spec_truncate(item.1, 28);
    if selected {
        next_line() + " \x1b[90m|\x1b[0m\x1b[7m "@ + pad_right(name, 20) + " "@ + pad_left(
            preview,
            28,
        ) + " \x1b[0m\x1b[90m|\x1b[0m"@
    } else {
        next_line() + " \x1b[90m|\x1b[0m "@ + pad_right(name, 20) + " \x1b[2m"@ + pad_left(
            preview,
            28,
        ) + "\x1b[0m \x1b[90m|\x1b[0m"@
    }
}

/// The rows of the items from `lo` up to `hi`.
pub open spec fn tui_rows(items: Seq<(Seq<char>, Seq<char>)>, selected: nat, lo: int, hi: int) -> Seq<
    char,
>
    decreases hi - lo,
{
    if hi <= lo {
        seq![]
    } else {
        tui_rows(items, selected, lo, hi - 1) + tui_row(items[hi - 1], hi - 1 == selected)
    }
}

/// The text that draws the dropdown on the lines below the cursor and goes
/// back up: the window of at most eight items that keeps the selection in
/// view; nothing without items.
pub open spec fn tui_render(items: Seq<(Seq<char>, Seq<char>)>, selected: nat) -> Seq<char> {
    if items.len() == 0 {
        seq![]
    } else {
        let count = min_visible(items.len());
        tui_border() + tui_rows(
            items,
            selected,
            window_start(items.len(), selected) as int,
            window_end(items.len(), selected) as int,
        ) + tui_border() + "\x1b["@ + decimal(count + 2) + "A"@
    }
}

/// The text that clears `lines` lines below the cursor and goes back up.
pub open spec fn tui_clear(lines: nat) -> Seq<char> {
    if lines == 0 {
        seq![]
    } else {
        repeat_seq(next_line(), lines) + "\x1b["@ + decimal(lines) + "A"@
    }
}

pub struct TuiView {
    pub visible: bool,
    pub items: Seq<(Seq<char>, Seq<char>)>,
    pub selected: nat,
    pub rendered: nat,
}

pub open spec fn tv_move_up(v: TuiView) -> TuiView {
    TuiView {
        selected: if v.items.len() == 0 {
            v.selected
        } else if v.selected > 0 {
            (v.selected - 1) as nat
        } else {
            (v.items.len() - 1) as nat
        },
        ..v
    }
}

pub open spec fn tv_move_down(v: TuiView) -> TuiView {
    TuiView {
        selected: if v.items.len() == 0 {
            v.selected
        } else if v.selected + 1 < v.items.len() {
            v.selected + 1
        } else {
            0
        },
        ..v
    }
}

pub open spec fn tv_cleared(v: TuiView) -> TuiView {
    TuiView { rendered: 0, ..v }
}

pub open spec fn tv_rendered(v: TuiView) -> TuiView {
    TuiView {
        rendered: if v.items.len() == 0 {
            v.rendered
        } else {
            min_visible(v.items.len()) + 2
        },
        ..v
    }
}

pub open spec fn tv_hidden(v: TuiView) -> TuiView {
    TuiView { visible: false, items: seq![], selected: 0, ..v }
}

pub open spec fn tv_updated(v: TuiView, items: Seq<(Seq<char>, Seq<char>)>) -> TuiView {
    TuiView { visible: items.len() > 0, items, selected: 0, ..v }
}

/// Moving down and then up (or up and then down) over a dropdown whose
/// selection is on an item comes back to the same selection.
pub proof fn law_tui_moves_undo(v: TuiView)
    requires
        v.items.len() > 0 ==> v.selected < v.items.len(),
    ensures
        tv_move_up(tv_move_down(v)) == v,
        tv_move_down(tv_move_up(v)) == v,
{
}

/// A truncated text fits its width, and text that fits is kept whole.
pub proof fn law_truncate_fits(s: Seq<char>, max_len: nat)
    requires
        max_len >= 1 || s.len() == 0,
    ensures
        spec_truncate(s, max_len).len() <= max_len,
        s.len() <= max_len ==> spec_truncate(s, max_len) == s,
{
    reveal_strlit("…");
}

pub struct TuiDropdown {
    visible: bool,
    items: Vec<(String, String)>,
    selected: usize,
    rendered_lines: usize,
}

/// Appends one item row.
fn push_tui_row(out: &mut Vec<char>, name: &str, preview: &str, selected: bool)
    ensures
        final(out)@ == old(out)@ + tui_row((name@, preview@), selected),
{
    let dname = chars_of(truncate(name, NAME_W).as_str());
    let dprev = chars_of(truncate(preview, PREVIEW_W).as_str());
    let ghost before = out@;
    push_str(out, "\x1b[1B\r\x1b[2K");
    if selected {
        push_str(out, " \x1b[90m|\x1b[0m\x1b[7m ");
        push_pad_right(out, &dname, NAME_W);
        push_str(out, " ");
        push_pad_left(out, &dprev, PREVIEW_W);
        push_str(out, " \x1b[0m\x1b[90m|\x1b[0m");
    } else {
        push_str(out, " \x1b[90m|\x1b[0m ");
        push_pad_right(out, &dname, NAME_W);
        push_str(out, " \x1b[2m");
        push_pad_left(out, &dprev, PREVIEW_W);
        push_str(out, "\x1b[0m \x1b[90m|\x1b[0m");
    }
    assert(out@ =~= before + tui_row((name@, preview@), selected));
}

fn push_tui_border(out: &mut Vec<char>)
    ensures
        final(out)@ == old(out)@ + tui_border(),
{
    let ghost before = out@;
    push_str(out, "\x1b[1B\r\x1b[2K");
    push_str(out, " \x1b[90m+");
    push_repeat(out, '-', INNER_W);
    push_str(out, "+\x1b[0m");
    assert(out@ =~= before + tui_border());
}

impl TuiDropdown {
    pub closed spec fn spec_view(&self) -> TuiView {
        TuiView {
            visible: self.visible,
            items: items_view(self.items@),
            selected: self.selected as nat,
            rendered: self.rendered_lines as nat,
        }
    }

    /// The selection is on an item (or 0 without items), the dropdown is
    /// visible exactly when it has items, and at most a screenful of lines
    /// is drawn.
    pub closed spec fn wf(&self) -> bool {
        &&& (self.items@.len() > 0 ==> self.selected < self.items@.len())
        &&& (self.items@.len() == 0 ==> self.selected == 0)
        &&& self.visible == (self.items@.len() > 0)
        &&& self.rendered_lines <= TUI_MAX_VISIBLE + 2
    }

    /// A well-formed dropdown is visible exactly when it has items, which is
    /// when `selected_name` gives a name, and the selection is on an item.
    pub proof fn law_visible_iff_selected(&self)
        requires
            self.wf(),
        ensures
            self.spec_view().visible <==> self.spec_view().items.len() > 0,
            self.spec_view().items.len() > 0 ==> self.spec_view().selected
                < self.spec_view().items.len(),
    {
    }

    /// Whether the dropdown is shown.
    pub fn is_visible(&self) -> (r: bool)
        ensures
            r == self.spec_view().visible,
    {
        self.visible
    }

    pub fn new() -> (r: Self)
        ensures
            r.wf(),
            r.spec_view() == (TuiView { visible: false, items: seq![], selected: 0, rendered: 0 }),
    {
        let r = TuiDropdown { visible: false, items: Vec::new(), selected: 0, rendered_lines: 0 };
        assert(items_view(r.items@) =~= seq![]);
        r
    }

    /// Shows `items` with the first one selected; hidden when there are none.
    pub fn update(&mut self, items: Vec<(String, String)>)
        requires
            old(self).wf(),
        ensures
            final(self).wf(),
            final(self).spec_view() == tv_updated(old(self).spec_view(), items_view(items@)),
    {
        self.items = items;
        self.selected = 0;
        self.visible = !self.items.is_empty();
    }

    pub fn dismiss(&mut self)
        requires
            old(self).wf(),
        ensures
            final(self).wf(),
            final(self).spec_view() == tv_hidden(old(self).spec_view()),
    {
        self.visible = false;
        self.items.clear();
        self.selected = 0;
        assert(items_view(self.items@) =~= seq![]);
    }

    /// Selects the item above, wrapping from the first to the last; the
    /// window of shown items follows the selection.
    pub fn move_up(&mut self)
        requires
            old(self).wf(),
        ensures
            final(self).wf(),
            final(self).spec_view() == tv_move_up(old(self).spec_view()),
    {
        if self.items.is_empty() {
            return;
        }
        if self.selected > 0 {
            self.selected -= 1;
        } else {
            self.selected = self.items.len() - 1;
        }
    }

    /// Selects the item below, wrapping from the last to the first; the
    /// window of shown items follows the selection.
    pub fn move_down(&mut self)
        requires
            old(self).wf(),
        ensures
            final(self).wf(),
            final(self).spec_view() == tv_move_down(old(self).spec_view()),
    {
        if self.items.is_empty() {
            return;
        }
        if self.selected < self.items.len() - 1 {
            self.selected += 1;
        } else {
            self.selected = 0;
        }
    }

    pub fn selected_name(&self) -> (r: Option<&str>)
        requires
            self.wf(),
        ensures
            match r {
                Some(n) => self.spec_view().items.len() > 0 && n@
                    == self.spec_view().items[self.spec_view().selected as int].0,
                None => self.spec_view().items.len() == 0,
            },
    {
        if self.selected < self.items.len() {
            Some(self.items[self.selected].0.as_str())
        } else {
            None
        }
    }

    /// The text that clears the lines rendered before; none are afterwards.
    pub fn clear(&mut self) -> (r: String)
        requires
            old(self).wf(),
        ensures
            final(self).wf(),
            r@ == tui_clear(old(self).spec_view().rendered),
            final(self).spec_view() == tv_cleared(old(self).spec_view()),
    {
        let mut out: Vec<char> = Vec::new();
        if self.rendered_lines == 0 {
            return string_of(&out);
        }
        let n = self.rendered_lines;
        let mut k: usize = 0;
        while k < n
            invariant
                k <= n,
                out@ == repeat_seq(next_line(), k as nat),
            decreases n - k,
        {
            // Move down one line, go to column 1, clear line
            push_str(&mut out, "\x1b[1B\r\x1b[2K");
            k += 1;
        }
        // Move back up to where the cursor was
        push_str(&mut out, "\x1b[");
        let digits = decimal_chars(n as u64);
        push_chars(&mut out, &digits);
        push_str(&mut out, "A");
        self.rendered_lines = 0;
        string_of(&out)
    }

    /// The text that draws the dropdown below the cursor.
    pub fn render(&mut self) -> (r: String)
        requires
            old(self).wf(),
        ensures
            final(self).wf(),
            r@ == tui_render(old(self).spec_view().items, old(self).spec_view().selected),
            final(self).spec_view() == tv_rendered(old(self).spec_view()),
    {
        let mut out: Vec<char> = Vec::new();
        if self.items.is_empty() {
            return string_of(&out);
        }
        let ghost items = items_view(self.items@);
        let ghost selected = self.selected as nat;
        let count = if self.items.len() < TUI_MAX_VISIBLE {
            self.items.len()
        } else {
            TUI_MAX_VISIBLE
        };
        // Scroll window that keeps the selection in view
        let start = if self.selected >= count {
            self.selected - count + 1
        } else {
            0
        };
        let end = if start + count < self.items.len() {
            start + count
        } else {
            self.items.len()
        };
        // Top border
        push_tui_border(&mut out);
        let ghost head = out@;
        let mut i: usize = start;
        while i < end
            invariant
                start <= i <= end <= self.items@.len(),
                items == items_view(self.items@),
                selected == self.selected,
                out@ == head + tui_rows(items, selected, start as int, i as int),
            decreases end - i,
        {
            assert(items[i as int] == (self.items@[i as int].0@, self.items@[i as int].1@));
            push_tui_row(
                &mut out,
                self.items[i].0.as_str(),
                self.items[i].1.as_str(),
                i == self.selected,
            );
            i += 1;
        }
        // Bottom border
        push_tui_border(&mut out);
        self.rendered_lines = count + 2;
        // Move back up to where the cursor was
        push_str(&mut out, "\x1b[");
        let digits = decimal_chars((count + 2) as u64);
        push_chars(&mut out, &digits);
        push_str(&mut out, "A");
        assert(out@ =~= tui_render(items, selected));
        string_of(&out)
    }
}

/// Updates the dropdown with the suggestions that the daemon gave for the
/// current line: shown when there are any, hidden when there are none.
/// Returns the text for the screen.
pub fn refresh_suggestions(dd: &mut TuiDropdown, suggestions: Vec<(String, String)>) -> (r: String)
    requires
        old(dd).wf(),
    ensures
        final(dd).wf(),
        suggestions@.len() > 0 ==> final(dd).spec_view() == tv_rendered(
            tv_updated(tv_cleared(old(dd).spec_view()), items_view(suggestions@)),
        ) && r@ == tui_clear(old(dd).spec_view().rendered) + tui_render(
            items_view(suggestions@),
            0,
        ),
        suggestions@.len() == 0 ==> final(dd).spec_view() == tv_hidden(
            tv_cleared(old(dd).spec_view()),
        ) && r@ == tui_clear(old(dd).spec_view().rendered),
{
    if !suggestions.is_empty() {
        let a = dd.clear();
        dd.update(suggestions);
        let b = dd.render();
        let mut out = chars_of(a.as_str());
        let bc = chars_of(b.as_str());
        push_chars(&mut out, &bc);
        string_of(&out)
    } else {
        let a = dd.clear();
        dd.dismiss();
        a
    }
}

} // verus!
