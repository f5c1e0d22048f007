//! The decisions of the terminal wrapper's input loop: what a keystroke does
//! to the dropdown and the tracked line, and what goes to the screen, to the
//! shell, and to the daemon.
use vstd::prelude::*;
use vstd::utf8::encode_utf8;

use crate::dropdown::items_view;
use crate::line_tracker::{feed_byte, feed_bytes, replaced_filter, LineTracker};
use crate::text::string_of;
use crate::tools::{match_tool_prefix, spec_match_tool_prefix};
use crate::tui::{
    tui_clear, tui_render, tv_cleared, tv_hidden, tv_move_down, tv_move_up, tv_rendered,
    TuiDropdown, TuiView,
};

verus! {

/// What a keystroke asks of a shown dropdown.
#[derive(Debug, Clone, Copy, PartialEq, Eq, Structural)]
pub enum KeyAction {
    /// Up arrow: select the item above.
    Up,
    /// Down arrow: select the item below.
    Down,
    /// Tab: put the selected item on the line.
    Accept,
    /// A lone Escape: close the dropdown.
    Dismiss,
    /// Enter: put the selected item on the line and run it.
    AcceptAndRun,
    /// Anything else: pass it on and update the suggestions.
    Other,
}

/// The action of the keystroke at the start of `rest`, and how many bytes
/// it takes.
pub open spec fn spec_classify_key(rest: Seq<u8>) -> (KeyAction, nat) {
    if rest.len() >= 3 && rest[0] == 0x1b && rest[1] == 0x5b && rest[2] == 0x41 {
        (KeyAction::Up, 3)
    } else if rest.len() >= 3 && rest[0] == 0x1b && rest[1] == 0x5b && rest[2] == 0x42 {
        (KeyAction::Down, 3)
    } else if rest[0] == 0x09 {
        (KeyAction::Accept, 1)
    } else if rest[0] == 0x1b && rest.len() == 1 {
        (KeyAction::Dismiss, 1)
    } else if rest[0] == 0x0d {
        (KeyAction::AcceptAndRun, 1)
    } else {
        (KeyAction::Other, 1)
    }
}

pub fn classify_key(rest: &[u8]) -> (r: (KeyAction, usize))
    requires
        rest@.len() > 0,
    ensures
        r.0 == spec_classify_key(rest@).0,
        r.1 == spec_classify_key(rest@).1,
{
    if rest.len() >= 3 && rest[0] == 0x1b && rest[1] == 0x5b && rest[2] == 0x41 {
        (KeyAction::Up, 3)
    } else if rest.len() >= 3 && rest[0] == 0x1b && rest[1] == 0x5b && rest[2] == 0x42 {
        (KeyAction::Down, 3)
    } else if rest[0] == 0x09 {
        (KeyAction::Accept, 1)
    } else if rest[0] == 0x1b && rest.len() == 1 {
        (KeyAction::Dismiss, 1)
    } else if rest[0] == 0x0d {
        (KeyAction::AcceptAndRun, 1)
    } else {
        (KeyAction::Other, 1)
    }
}

/// Work for the input loop, done in order.
#[derive(Debug, PartialEq, Eq)]
pub enum Effect {
    /// Write this text to the screen.
    Screen(String),
    /// Write these bytes to the shell.
    Shell(Vec<u8>),
    /// Ask the daemon for suggestions for this line and pass them to
    /// `refresh_suggestions`.
    Refresh(String),
}

pub enum EffectView {
    Screen(Seq<char>),
    Shell(Seq<u8>),
    Refresh(Seq<char>),
}

pub open spec fn effect_view(e: Effect) -> EffectView {
    match e {
        Effect::Screen(s) => EffectView::Screen(s@),
        Effect::Shell(b) => EffectView::Shell(b@),
        Effect::Refresh(l) => EffectView::Refresh(l@),
    }
}

pub open spec fn effects_view(v: Seq<Effect>) -> Seq<EffectView> {
    v.map_values(|e: Effect| effect_view(e))
}

/// The filter text of a line: what follows its tool's trigger prefix.
pub open spec fn filter_of(line: Seq<char>) -> Seq<char> {
    match spec_match_tool_prefix(line) {
        Some((_, f)) => f,
        None => Seq::empty(),
    }
}

/// Erase the filter with backspaces, one per byte, then type `name`.
pub open spec fn retype(line: Seq<char>, name: Seq<char>) -> Seq<u8> {
    Seq::new((encode_utf8(filter_of(line)).len() as usize) as nat, |i: int| 0x08u8) + encode_utf8(
        name,
    )
}

/// What a keystroke at the start of `rest` does while the dropdown is
/// shown: the dropdown and line afterwards, the bytes taken, and the work
/// for the loop.
pub open spec fn spec_visible_key(v: TuiView, line: Seq<char>, rest: Seq<u8>) -> (
    TuiView,
    Seq<char>,
    nat,
    Seq<EffectView>,
) {
    let (action, n) = spec_classify_key(rest);
    match action {
        KeyAction::Up => {
            let m = tv_move_up(v);
            (
                tv_rendered(tv_cleared(m)),
                line,
                n,
                seq![EffectView::Screen(tui_clear(m.rendered) + tui_render(m.items, m.selected))],
            )
        },
        KeyAction::Down => {
            let m = tv_move_down(v);
            (
                tv_rendered(tv_cleared(m)),
                line,
                n,
                seq![EffectView::Screen(tui_clear(m.rendered) + tui_render(m.items, m.selected))],
            )
        },
        KeyAction::Accept => if v.items.len() > 0 {
            let name = v.items[v.selected as int].0;
            (
                tv_hidden(tv_cleared(v)),
                replaced_filter(line, name),
                n,
                seq![
                    EffectView::Screen(tui_clear(v.rendered)),
                    EffectView::Shell(retype(line, name)),
                ],
            )
        } else {
            (v, line, n, seq![])
        },
        KeyAction::Dismiss => (
            tv_hidden(tv_cleared(v)),
            line,
            n,
            seq![EffectView::Screen(tui_clear(v.rendered))],
        ),
        KeyAction::AcceptAndRun => if v.items.len() > 0 {
            let name = v.items[v.selected as int].0;
            (
                tv_hidden(tv_cleared(v)),
                Seq::empty(),
                n,
                seq![
                    EffectView::Screen(tui_clear(v.rendered)),
                    EffectView::Shell(retype(line, name).push(0x0du8)),
                ],
            )
        } else {
            (v, Seq::empty(), n, seq![EffectView::Shell(seq![0x0du8])])
        },
        KeyAction::Other => {
            let b = rest[0];
            let l2 = feed_byte(line, b);
            if spec_match_tool_prefix(l2) is Some {
                (v, l2, n, seq![EffectView::Shell(seq![b]), EffectView::Refresh(l2)])
            } else {
                (
                    tv_hidden(tv_cleared(v)),
                    l2,
                    n,
                    seq![EffectView::Shell(seq![b]), EffectView::Screen(tui_clear(v.rendered))],
                )
            }
        },
    }
}

/// The keys of a shown dropdown: the Up arrow selects the item above (from
/// the first, the last), the Down arrow the item below (from the last, the
/// first), and Up then Down comes back; both leave the items and the line
/// alone and take three bytes. A lone Escape hides the dropdown and leaves
/// the line. Tab puts the selected name in place of the filter and hides
/// the dropdown; Enter does the same, sends a carriage return last and
/// starts a new line. Any other byte goes to the shell and to the line.
pub proof fn law_visible_keys(v: TuiView, line: Seq<char>, rest: Seq<u8>)
    requires
        v.items.len() > 0 ==> v.selected < v.items.len(),
        rest.len() > 0,
    ensures
        ({
            let r = spec_visible_key(v, line, rest);
            &&& (rest.len() >= 3 && rest[0] == 0x1bu8 && rest[1] == 0x5bu8 && rest[2] == 0x41u8
                && v.items.len() > 0) ==> r.0.selected == (if v.selected > 0 {
                v.selected - 1
            } else {
                v.items.len() - 1
            }) && r.0.items == v.items && r.1 == line && r.2 == 3
            &&& (rest.len() >= 3 && rest[0] == 0x1bu8 && rest[1] == 0x5bu8 && rest[2] == 0x42u8
                && v.items.len() > 0) ==> r.0.selected == (if v.selected + 1 < v.items.len() {
                v.selected + 1
            } else {
                0
            }) && r.0.items == v.items && r.1 == line && r.2 == 3
            &&& (rest.len() >= 3 && rest[0] == 0x1bu8 && rest[1] == 0x5bu8 && rest[2] == 0x41u8)
                ==> spec_visible_key(r.0, line, seq![0x1bu8, 0x5bu8, 0x42u8]).0.selected
                == v.selected
            &&& rest == seq![0x1bu8] ==> !r.0.visible && r.0.items.len() == 0 && r.1 == line
                && r.2 == 1
            &&& (rest[0] == 0x09u8 && v.items.len() > 0 && spec_match_tool_prefix(line) is Some)
                ==> !r.0.visible && r.1 == line.take(line.len() - filter_of(line).len())
                + v.items[v.selected as int].0 && r.2 == 1
            &&& (rest[0] == 0x0du8 && v.items.len() > 0) ==> !r.0.visible && r.1 == Seq::<
                char,
            >::empty() && (r.3.last() matches EffectView::Shell(b) && b.last() == 0x0du8)
            &&& (rest[0] != 0x1bu8 && rest[0] != 0x09u8 && rest[0] != 0x0du8) ==> r.1
                == feed_byte(line, rest[0]) && r.2 == 1 && r.3[0] == EffectView::Shell(
                seq![rest[0]],
            )
        }),
{
    crate::tools::lemma_filter_is_suffix(line);
    let r = spec_visible_key(v, line, rest);
    if rest.len() >= 3 && rest[0] == 0x1bu8 && rest[1] == 0x5bu8 && rest[2] == 0x41u8 {
        let d = seq![0x1bu8, 0x5bu8, 0x42u8];
        assert(d[0] == 0x1bu8 && d[1] == 0x5bu8 && d[2] == 0x42u8);
        assert(spec_classify_key(d).0 == KeyAction::Down);
    }
    if rest[0] == 0x0du8 && v.items.len() > 0 {
        let name = v.items[v.selected as int].0;
        assert(retype(line, name).push(0x0du8).last() == 0x0du8);
    }
}

/// What input does while no dropdown is shown: all of it goes to the shell
/// and to the line; suggestions are asked for when the line names a tool.
pub open spec fn spec_hidden_input(line: Seq<char>, data: Seq<u8>) -> (Seq<char>, Seq<EffectView>) {
    let l2 = feed_bytes(line, data);
    if spec_match_tool_prefix(l2) is Some {
        (l2, seq![EffectView::Shell(data), EffectView::Refresh(l2)])
    } else {
        (l2, seq![EffectView::Shell(data)])
    }
}

/// Without a dropdown, all input goes to the shell first, as it is, and
/// suggestions are asked for the new line exactly when it names a tool.
pub proof fn law_hidden_input(line: Seq<char>, data: Seq<u8>)
    ensures
        ({
            let (l2, e) = spec_hidden_input(line, data);
            &&& l2 == feed_bytes(line, data)
            &&& e[0] == EffectView::Shell(data)
            &&& (spec_match_tool_prefix(l2) is Some ==> e.len() == 2 && e[1] == EffectView::Refresh(
                l2,
            ))
            &&& (spec_match_tool_prefix(l2) is None ==> e.len() == 1)
        }),
{
}

fn bytes_of(s: &str) -> (r: Vec<u8>)
    ensures
        r@ == encode_utf8(s@),
{
    let b = s.as_bytes();
    let mut out: Vec<u8> = Vec::new();
    let mut i: usize = 0;
    while i < b.len()
        invariant
            i <= b@.len(),
            b@ == encode_utf8(s@),
            out@ == b@.take(i as int),
        decreases b@.len() - i,
    {
        out.push(b[i]);
        i += 1;
        assert(out@ =~= b@.take(i as int));
    }
    assert(b@.take(b@.len() as int) =~= b@);
    out
}

/// The backspaces that erase the filter of `line`, then the bytes of `name`.
fn retype_bytes(line: &String, name: &str) -> (r: Vec<u8>)
    ensures
        r@ == retype(line@, name@),
{
    let filter = match match_tool_prefix(line.as_str()) {
        Some((_t, f)) => f,
        None => String::new(),
    };
    assert(filter@ == filter_of(line@));
    let n = filter.as_str().len();
    let mut out: Vec<u8> = Vec::new();
    let mut i: usize = 0;
    while i < n
        invariant
            i <= n,
            n == encode_utf8(filter_of(line@)).len() as usize,
            out@ == Seq::new(i as nat, |k: int| 0x08u8),
        decreases n - i,
    {
        out.push(0x08);
        i += 1;
        assert(out@ =~= Seq::new(i as nat, |k: int| 0x08u8));
    }
    let ghost bs = out@;
    let name_bytes = bytes_of(name);
    let mut j: usize = 0;
    while j < name_bytes.len()
        invariant
            j <= name_bytes@.len(),
            out@ == bs + name_bytes@.take(j as int),
        decreases name_bytes@.len() - j,
    {
        out.push(name_bytes[j]);
        j += 1;
        assert(out@ =~= bs + name_bytes@.take(j as int));
    }
    assert(name_bytes@.take(name_bytes@.len() as int) =~= name_bytes@);
    out
}

pub struct Session {
    pub dropdown: TuiDropdown,
    pub tracker: LineTracker,
}

impl Session {
    pub fn new() -> (r: Self)
        ensures
            r.dropdown.wf(),
            r.dropdown.spec_view().items.len() == 0,
            !r.dropdown.spec_view().visible,
            r.tracker@ == Seq::<char>::empty(),
    {
        Session { dropdown: TuiDropdown::new(), tracker: LineTracker::new() }
    }

    /// Handles the keystroke at the start of `rest` while the dropdown is
    /// shown. Returns the number of bytes it took and the work for the loop.
    pub fn handle_visible_key(&mut self, rest: &[u8]) -> (r: (usize, Vec<Effect>))
        requires
            old(self).dropdown.wf(),
            rest@.len() > 0,
        ensures
            final(self).dropdown.wf(),
            ({
                let (v, l, n, e) = spec_visible_key(
                    old(self).dropdown.spec_view(),
                    old(self).tracker@,
                    rest@,
                );
                &&& final(self).dropdown.spec_view() == v
                &&& final(self).tracker@ == l
                &&& r.0 == n
                &&& effects_view(r.1@) == e
            }),
    {
        let (action, n) = classify_key(rest);
        let ghost want = spec_visible_key(old(self).dropdown.spec_view(), old(self).tracker@, rest@);
        let mut effects: Vec<Effect> = Vec::new();
        match action {
            KeyAction::Up => {
                self.dropdown.move_up();
                let a = self.dropdown.clear();
                let b = self.dropdown.render();
                effects.push(Effect::Screen(join(&a, &b)));
                assert(effects_view(effects@) =~= want.3);
                assert(self.dropdown.spec_view() == want.0);
            },
            KeyAction::Down => {
                self.dropdown.move_down();
                let a = self.dropdown.clear();
                let b = self.dropdown.render();
                effects.push(Effect::Screen(join(&a, &b)));
            },
            KeyAction::Accept => {
                if let Some(name) = self.dropdown.selected_name() {
                    let name = name.to_owned();
                    let a = self.dropdown.clear();
                    self.dropdown.dismiss();
                    let line = self.tracker.current_line();
                    let bytes = retype_bytes(&line, name.as_str());
                    self.tracker.replace_filter(name.as_str());
                    effects.push(Effect::Screen(a));
                    effects.push(Effect::Shell(bytes));
                    assert(effects_view(effects@) =~= want.3);
                    assert(self.dropdown.spec_view() == want.0);
                    assert(self.tracker@ == want.1);
                }
            },
            KeyAction::Dismiss => {
                let a = self.dropdown.clear();
                self.dropdown.dismiss();
                effects.push(Effect::Screen(a));
            },
            KeyAction::AcceptAndRun => {
                if let Some(name) = self.dropdown.selected_name() {
                    let name = name.to_owned();
                    let a = self.dropdown.clear();
                    self.dropdown.dismiss();
                    let line = self.tracker.current_line();
                    let mut bytes = retype_bytes(&line, name.as_str());
                    bytes.push(0x0d);
                    effects.push(Effect::Screen(a));
                    effects.push(Effect::Shell(bytes));
                } else {
                    let mut bytes: Vec<u8> = Vec::new();
                    bytes.push(0x0d);
                    effects.push(Effect::Shell(bytes));
                }
                self.tracker.reset();
            },
            KeyAction::Other => {
                let b = rest[0];
                let mut bytes: Vec<u8> = Vec::new();
                bytes.push(b);
                effects.push(Effect::Shell(bytes));
                let one: [u8; 1] = [b];
                let ghost line0 = self.tracker@;
                assert(one@ =~= seq![b]);
                assert(seq![b].drop_last() =~= Seq::<u8>::empty());
                assert(feed_bytes(line0, Seq::<u8>::empty()) == line0);
                assert(feed_bytes(line0, seq![b]) == feed_byte(line0, b));
                self.tracker.feed(&one);
                assert(self.tracker@ == feed_byte(line0, b));
                let line = self.tracker.current_line();
                if match_tool_prefix(line.as_str()).is_some() {
                    effects.push(Effect::Refresh(line));
                } else {
                    let a = self.dropdown.clear();
                    self.dropdown.dismiss();
                    effects.push(Effect::Screen(a));
                }
                assert(effects_view(effects@) =~= want.3);
                assert(self.dropdown.spec_view() == want.0);
                assert(self.tracker@ == want.1);
            },
        }
        assert(effects_view(effects@) =~= spec_visible_key(
            old(self).dropdown.spec_view(),
            old(self).tracker@,
            rest@,
        ).3);
        (n, effects)
    }

    /// Handles input while no dropdown is shown.
    pub fn handle_hidden_input(&mut self, data: &[u8]) -> (r: Vec<Effect>)
        ensures
            final(self).dropdown == old(self).dropdown,
            final(self).tracker@ == spec_hidden_input(old(self).tracker@, data@).0,
            effects_view(r@) == spec_hidden_input(old(self).tracker@, data@).1,
    {
        let mut effects: Vec<Effect> = Vec::new();
        let mut bytes: Vec<u8> = Vec::new();
        let mut i: usize = 0;
        while i < data.len()
            invariant
                i <= data@.len(),
                bytes@ == data@.take(i as int),
            decreases data@.len() - i,
        {
            bytes.push(data[i]);
            i += 1;
            assert(bytes@ =~= data@.take(i as int));
        }
        assert(data@.take(data@.len() as int) =~= data@);
        effects.push(Effect::Shell(bytes));
        self.tracker.feed(data);
        let line = self.tracker.current_line();
        if match_tool_prefix(line.as_str()).is_some() {
            effects.push(Effect::Refresh(line));
        }
        assert(effects_view(effects@) =~= spec_hidden_input(old(self).tracker@, data@).1);
        effects
    }
}

/// `a` followed by `b`.
fn join(a: &String, b: &String) -> (r: String)
    ensures
        r@ == a@ + b@,
{
    let mut out = crate::text::chars_of(a.as_str());
    let bc = crate::text::chars_of(b.as_str());
    crate::text::push_chars(&mut out, &bc);
    string_of(&out)
}

} // verus!
