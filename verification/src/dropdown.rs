//! A boxed dropdown drawn below the cursor with ANSI escape sequences: its
//! selection state and the text that draws and erases it.
use vstd::prelude::*;

use crate::text::{
    char_utf8_len, chars_of, decimal, decimal_chars, pad_left, pad_right, push_chars, push_pad_left,
    push_pad_right, push_repeat, push_str, repeat_char, string_of, strings_view, utf8_len,
    utf8_len_upto,
};

verus! {

pub const MAX_VISIBLE: usize = 8;

/// The characters of `s` that take exactly `n` bytes of UTF-8, when `n`
/// falls on a character boundary.
pub open spec fn byte_prefix(s: Seq<char>, n: nat) -> Option<Seq<char>>
    decreases s.len(),
{
    if n == 0 {
        Some(seq![])
    } else if s.len() == 0 {
        None
    } else if char_utf8_len(s[0]) > n {
        None
    } else {
        match byte_prefix(s.drop_first(), (n - char_utf8_len(s[0])) as nat) {
            Some(p) => Some(seq![s[0]] + p),
            None => None,
        }
    }
}

/// `s` when it takes at most `max` bytes, else its first `keep` bytes and
/// `...`.
pub open spec fn shorten(s: Seq<char>, max: nat, keep: nat) -> Seq<char> {
    if utf8_len(s) > max {
        byte_prefix(s, keep).unwrap() + "..."@
    } else {
        s
    }
}

/// `s` can be shortened without cutting a character: it is short enough, or
/// its first `keep` bytes end on a character boundary.
pub open spec fn can_shorten(s: Seq<char>, max: nat, keep: nat) -> bool {
    utf8_len(s) > max ==> byte_prefix(s, keep) is Some
}

/// Items whose name and preview can be shortened for display.
pub open spec fn displayable(items: Seq<(Seq<char>, Seq<char>)>) -> bool {
    forall|i: int|
        0 <= i < items.len() ==> can_shorten((#[trigger] items[i]).0, 22, 19) && can_shorten(
            items[i].1,
            26,
            23,
        )
}

pub open spec fn min_visible(len: nat) -> nat {
    if len < 8 {
        len
    } else {
        8
    }
}

/// One item row of the dropdown.
pub open spec fn dropdown_row(item: (Seq<char>, Seq<char>), selected: bool) -> Seq<char> {
    let name = shorten(item.0, 22, 19);
    let preview = shorten(item.1, 26, 23);
    if selected {
        "\x1b[2K"@ + "\x1b[90m│\x1b[0m \x1b[7;1m "@ + pad_right(name, 22) + "\x1b[22;2m"@
            + pad_left(preview, 26) + " \x1b[0m\x1b[90m│\x1b[0m\n"@
    } else {
        "\x1b[2K"@ + "\x1b[90m│\x1b[0m  "@ + pad_right(name, 22) + "\x1b[2m"@ + pad_left(
            preview,
            26,
        ) + "\x1b[0m \x1b[90m│\x1b[0m\n"@
    }
}

/// The rows of the items from `lo` up to `hi`.
pub open spec fn dropdown_rows(
    items: Seq<(Seq<char>, Seq<char>)>,
    selected: nat,
    lo: int,
    hi: int,
) -> Seq<char>
    decreases hi - lo,
{
    if hi <= lo {
        seq![]
    } else {
        dropdown_rows(items, selected, lo, hi - 1) + dropdown_row(items[hi - 1], hi - 1 == selected)
    }
}

/// First item of the window of visible items that keeps `selected` in view.
pub open spec fn window_start(len: nat, selected: nat) -> nat {
    let count = min_visible(len);
    if selected >= count {
        (selected - count + 1) as nat
    } else {
        0
    }
}

pub open spec fn window_end(len: nat, selected: nat) -> nat {
    let e = window_start(len, selected) + min_visible(len);
    if e < len {
        e
    } else {
        len
    }
}

/// The text that draws the dropdown below the cursor and puts the cursor
/// back: nothing when there are no items.
pub open spec fn dropdown_render(items: Seq<(Seq<char>, Seq<char>)>, selected: nat) -> Seq<char> {
    if items.len() == 0 {
        seq![]
    } else {
        "\x1b7"@ + "\n"@ + "\x1b[2K\x1b[90m┌"@ + repeat_char('─', 52) + "┐\x1b[0m\n"@
            + dropdown_rows(
            items,
            selected,
            window_start(items.len(), selected) as int,
            window_end(items.len(), selected) as int,
        ) + "\x1b[2K\x1b[90m└"@ + repeat_char('─', 52) + "┘\x1b[0m"@ + "\x1b8"@
    }
}

/// `n` copies of `s`.
pub open spec fn repeat_seq(s: Seq<char>, n: nat) -> Seq<char>
    decreases n,
{
    if n == 0 {
        seq![]
    } else {
        repeat_seq(s, (n - 1) as nat) + s
    }
}

/// The text that erases a dropdown of `height` items and puts the cursor
/// back: nothing when none is drawn.
pub open spec fn dropdown_clear(height: nat) -> Seq<char> {
    if height == 0 {
        seq![]
    } else {
        "\x1b7"@ + repeat_seq("\n\x1b[2K"@, height + 2) + "\x1b["@ + decimal(height + 2) + "A"@
            + "\x1b8"@
    }
}

pub open spec fn items_view(items: Seq<(String, String)>) -> Seq<(Seq<char>, Seq<char>)> {
    items.map_values(|it: (String, String)| (it.0@, it.1@))
}

/// What a dropdown holds: whether it is shown, its items, the selected item
/// and the number of item rows on screen.
pub struct DropdownView {
    pub visible: bool,
    pub items: Seq<(Seq<char>, Seq<char>)>,
    pub selected: nat,
    pub rendered: nat,
}

pub open spec fn dv_move_up(v: DropdownView) -> DropdownView {
    DropdownView {
        selected: if v.items.len() == 0 {
            v.selected
        } else if v.selected > 0 {
            (v.selected - 1) as nat
        } else {
            (v.items.len() - 1) as nat
        },
        ..v
    }
}

pub open spec fn dv_move_down(v: DropdownView) -> DropdownView {
    DropdownView {
        selected: if v.items.len() == 0 {
            v.selected
        } else if v.selected + 1 < v.items.len() {
            v.selected + 1
        } else {
            0
        },
        ..v
    }
}

/// Up selects the item above, the last from the first; Down the item
/// below, the first from the last; neither changes the items.
pub proof fn law_moves_select_neighbours(v: DropdownView)
    requires
        v.items.len() > 0,
        v.selected < v.items.len(),
    ensures
        dv_move_up(v).selected == if v.selected > 0 {
            v.selected - 1
        } else {
            v.items.len() - 1
        },
        dv_move_down(v).selected == if v.selected + 1 < v.items.len() {
            v.selected + 1
        } else {
            0
        },
        dv_move_up(v).items == v.items && dv_move_down(v).items == v.items,
        dv_move_up(v).selected < v.items.len() && dv_move_down(v).selected < v.items.len(),
{
}

/// Moving down and then up (or up and then down) comes back to the same
/// selection.
pub proof fn law_moves_undo(v: DropdownView)
    requires
        v.items.len() > 0 ==> v.selected < v.items.len(),
    ensures
        dv_move_up(dv_move_down(v)) == v,
        dv_move_down(dv_move_up(v)) == v,
{
}

pub struct Dropdown {
    visible: bool,
    items: Vec<(String, String)>,  // (name, preview)
    selected: usize,
    rendered_height: usize,
}

/// The first `s` characters of `v` that take exactly `n` bytes.
fn byte_prefix_chars(s: &Vec<char>, n: usize) -> (r: Vec<char>)
    requires
        byte_prefix(s@, n as nat) is Some,
    ensures
        r@ == byte_prefix(s@, n as nat).unwrap(),
{
    let mut out: Vec<char> = Vec::new();
    let mut used: usize = 0;
    let mut i: usize = 0;
    assert(s@.skip(0) =~= s@);
    assert(byte_prefix(s@, n as nat) matches Some(p) && out@ + p =~= p);
    while used < n
        invariant
            i <= s.len(),
            used <= n,
            byte_prefix(s@, n as nat) == match byte_prefix(s@.skip(i as int), (n - used) as nat) {
                Some(p) => Some(out@ + p),
                None => None,
            },
            byte_prefix(s@, n as nat) is Some,
        decreases n - used,
    {
        let ghost rest = s@.skip(i as int);
        assert(rest.len() > 0);
        assert(rest[0] == s@[i as int]);
        assert(rest.drop_first() =~= s@.skip(i + 1));
        let u = s[i] as u32;
        let w: usize = if u < 0x80 {
            1
        } else if u < 0x800 {
            2
        } else if u < 0x10000 {
            3
        } else {
            4
        };
        out.push(s[i]);
        used = used + w;
        i = i + 1;
        proof {
            let ghost before = out@.drop_last();
            assert(out@ =~= before + seq![s@[i - 1]]);
            match byte_prefix(s@.skip(i as int), (n - used) as nat) {
                Some(p) => {
                    assert(before + (seq![s@[i - 1]] + p) =~= out@ + p);
                },
                None => {},
            }
        }
    }
    assert(out@ + seq![] =~= out@);
    out
}

/// `shorten` for display, as characters.
fn shorten_chars(s: &Vec<char>, max: usize, keep: usize) -> (r: Vec<char>)
    requires
        max < 1000,
        can_shorten(s@, max as nat, keep as nat),
    ensures
        r@ == shorten(s@, max as nat, keep as nat),
{
    match utf8_len_upto(s, max) {
        Some(_) => s.clone(),
        None => {
            let mut p = byte_prefix_chars(s, keep);
            push_str(&mut p, "...");
            p
        },
    }
}

/// Appends one item row.
fn push_row(out: &mut Vec<char>, name: &Vec<char>, preview: &Vec<char>, selected: bool)
    requires
        can_shorten(name@, 22, 19),
        can_shorten(preview@, 26, 23),
    ensures
        final(out)@ == old(out)@ + dropdown_row((name@, preview@), selected),
{
    let display_name = shorten_chars(name, 22, 19);
    let display_preview = shorten_chars(preview, 26, 23);
    let ghost before = out@;
    push_str(out, "\x1b[2K");
    if selected {
        // Selected item: highlighted
        push_str(out, "\x1b[90m│\x1b[0m \x1b[7;1m ");
        push_pad_right(out, &display_name, 22);
        push_str(out, "\x1b[22;2m");
        push_pad_left(out, &display_preview, 26);
        push_str(out, " \x1b[0m\x1b[90m│\x1b[0m\n");
    } else {
        push_str(out, "\x1b[90m│\x1b[0m  ");
        push_pad_right(out, &display_name, 22);
        push_str(out, "\x1b[2m");
        push_pad_left(out, &display_preview, 26);
        push_str(out, "\x1b[0m \x1b[90m│\x1b[0m\n");
    }
    assert(out@ =~= before + dropdown_row((name@, preview@), selected));
}

impl Dropdown {
    pub closed spec fn spec_view(&self) -> DropdownView {
        DropdownView {
            visible: self.visible,
            items: items_view(self.items@),
            selected: self.selected as nat,
            rendered: self.rendered_height as nat,
        }
    }

    /// The selection is on an item (or 0 without items), the dropdown is
    /// visible exactly when it has items, and at most a screenful of rows is
    /// drawn.
    pub closed spec fn wf(&self) -> bool {
        &&& (self.items@.len() > 0 ==> self.selected < self.items@.len())
        &&& (self.items@.len() == 0 ==> self.selected == 0)
        &&& self.visible == (self.items@.len() > 0)
        &&& self.rendered_height <= MAX_VISIBLE
    }

    /// A well-formed dropdown is visible exactly when it has items, which is
    /// when `selected_name` gives a name, and the selection is on an item.
    pub proof fn law_visible_iff_selected(&self)
        requires
            self.wf(),
        ensures
            self.spec_view().visible <==> self.spec_view().items.len() > 0,
            self.spec_view().items.len() > 0 ==> self.spec_view().selected
                < self.spec_view().items.len(),
    {
    }

    /// Whether the dropdown is shown.
    pub fn is_visible(&self) -> (r: bool)
        ensures
            r == self.spec_view().visible,
    {
        self.visible
    }

    pub fn new() -> (r: Self)
        ensures
            r.wf(),
            r.spec_view() == (DropdownView {
                visible: false,
                items: seq![],
                selected: 0,
                rendered: 0,
            }),
    {
        let r = Dropdown { visible: false, items: Vec::new(), selected: 0, rendered_height: 0 };
        assert(items_view(r.items@) =~= seq![]);
        r
    }

    /// Shows `items` with the first one selected; hidden when there are none.
    pub fn update(&mut self, items: Vec<(String, String)>)
        requires
            old(self).wf(),
        ensures
            final(self).wf(),
            final(self).spec_view() == (DropdownView {
                visible: items@.len() > 0,
                items: items_view(items@),
                selected: 0,
                rendered: old(self).spec_view().rendered,
            }),
    {
        self.items = items;
        self.selected = 0;
        self.visible = !self.items.is_empty();
    }

    pub fn dismiss(&mut self)
        requires
            old(self).wf(),
        ensures
            final(self).wf(),
            final(self).spec_view() == (DropdownView {
                visible: false,
                items: seq![],
                selected: 0,
                rendered: old(self).spec_view().rendered,
            }),
    {
        self.visible = false;
        self.items.clear();
        self.selected = 0;
        assert(items_view(self.items@) =~= seq![]);
    }

    /// Selects the item above, wrapping from the first to the last.
    pub fn move_up(&mut self)
        requires
            old(self).wf(),
        ensures
            final(self).wf(),
            final(self).spec_view() == dv_move_up(old(self).spec_view()),
    {
        if self.items.is_empty() {
            return;
        }
        if self.selected > 0 {
            self.selected -= 1;
        } else {
            self.selected = self.items.len() - 1;
        }
    }

    /// Selects the item below, wrapping from the last to the first.
    pub fn move_down(&mut self)
        requires
            old(self).wf(),
        ensures
            final(self).wf(),
            final(self).spec_view() == dv_move_down(old(self).spec_view()),
    {
        if self.items.is_empty() {
            return;
        }
        if self.selected < self.items.len() - 1 {
            self.selected += 1;
        } else {
            self.selected = 0;
        }
    }

    /// The name of the selected item.
    pub fn selected_name(&self) -> (r: Option<&str>)
        requires
            self.wf(),
        ensures
            match r {
                Some(n) => self.spec_view().items.len() > 0 && n@
                    == self.spec_view().items[self.spec_view().selected as int].0,
                None => self.spec_view().items.len() == 0,
            },
    {
        if self.selected < self.items.len() {
            Some(self.items[self.selected].0.as_str())
        } else {
            None
        }
    }

    /// The text that erases the previously rendered dropdown; nothing is
    /// rendered afterwards.
    pub fn clear(&mut self) -> (r: String)
        requires
            old(self).wf(),
        ensures
            final(self).wf(),
            r@ == dropdown_clear(old(self).spec_view().rendered),
            final(self).spec_view() == (DropdownView { rendered: 0, ..old(self).spec_view() }),
    {
        let mut out: Vec<char> = Vec::new();
        if self.rendered_height == 0 {
            return string_of(&out);
        }
        // Save cursor position
        push_str(&mut out, "\x1b7");
        // Move down and clear each line (border + items + border)
        let total_lines = self.rendered_height + 2;
        let ghost start = out@;
        let mut k: usize = 0;
        while k < total_lines
            invariant
                k <= total_lines,
                out@ == start + repeat_seq("\n\x1b[2K"@, k as nat),
            decreases total_lines - k,
        {
            push_str(&mut out, "\n\x1b[2K");
            k += 1;
        }
        // Move back up, then restore the cursor position
        push_str(&mut out, "\x1b[");
        let digits = decimal_chars(total_lines as u64);
        push_chars(&mut out, &digits);
        push_str(&mut out, "A");
        push_str(&mut out, "\x1b8");
        self.rendered_height = 0;
        string_of(&out)
    }

    /// The text that renders the dropdown below the current cursor position.
    pub fn render(&mut self) -> (r: String)
        requires
            old(self).wf(),
            displayable(old(self).spec_view().items),
        ensures
            final(self).wf(),
            r@ == dropdown_render(old(self).spec_view().items, old(self).spec_view().selected),
            final(self).spec_view() == (DropdownView {
                rendered: if old(self).spec_view().items.len() == 0 {
                    old(self).spec_view().rendered
                } else {
                    min_visible(old(self).spec_view().items.len())
                },
                ..old(self).spec_view()
            }),
    {
        let mut out: Vec<char> = Vec::new();
        if self.items.is_empty() {
            return string_of(&out);
        }
        let ghost items = items_view(self.items@);
        let ghost selected = self.selected as nat;
        let count = if self.items.len() < MAX_VISIBLE {
            self.items.len()
        } else {
            MAX_VISIBLE
        };
        self.rendered_height = count;
        // Calculate scroll window
        let start = if self.selected >= count {
            self.selected - count + 1
        } else {
            0
        };
        let end = if start + count < self.items.len() {
            start + count
        } else {
            self.items.len()
        };
        let box_width: usize = 52;
        // Save cursor position, move to the next line, draw the top border
        push_str(&mut out, "\x1b7");
        push_str(&mut out, "\n");
        push_str(&mut out, "\x1b[2K\x1b[90m┌");
        push_repeat(&mut out, '─', box_width);
        push_str(&mut out, "┐\x1b[0m\n");
        let ghost head = out@;
        let mut i: usize = start;
        while i < end
            invariant
                start <= i <= end <= self.items@.len(),
                items == items_view(self.items@),
                selected == self.selected,
                displayable(items),
                out@ == head + dropdown_rows(items, selected, start as int, i as int),
            decreases end - i,
        {
            let name = chars_of(self.items[i].0.as_str());
            let preview = chars_of(self.items[i].1.as_str());
            assert(items[i as int] == (name@, preview@));
            let ghost before = out@;
            push_row(&mut out, &name, &preview, i == self.selected);
            i += 1;
        }
        // Bottom border, then restore the cursor position
        push_str(&mut out, "\x1b[2K\x1b[90m└");
        push_repeat(&mut out, '─', box_width);
        push_str(&mut out, "┘\x1b[0m");
        push_str(&mut out, "\x1b8");
        assert(out@ =~= dropdown_render(items, selected));
        string_of(&out)
    }
}

} // verus!
