//! Tracks what the user has typed on the current command line, from the raw
//! keystrokes that pass through the terminal wrapper (best effort).
use vstd::prelude::*;

use crate::text::{chars_of, count_trailing_ws, lemma_trailing_ws_bounds, push_chars, string_of, subvec, trim_end};
use crate::tools::{lemma_filter_is_suffix, match_tool_prefix, spec_match_tool_prefix, Tool};

verus! {

/// Position of the last `c` in `s`.
pub open spec fn last_index_of(s: Seq<char>, c: char) -> Option<int>
    decreases s.len(),
{
    if s.len() == 0 {
        None
    } else if s.last() == c {
        Some(s.len() - 1)
    } else {
        last_index_of(s.drop_last(), c)
    }
}

/// A key that ends the line: Enter (CR, LF), Ctrl-C, Ctrl-D.
pub open spec fn is_line_end(b: u8) -> bool {
    b == 0x0d || b == 0x0a || b == 0x03 || b == 0x04
}

/// What one byte of input does to the line.
pub open spec fn feed_byte(line: Seq<char>, b: u8) -> Seq<char> {
    if is_line_end(b) {
        seq![]
    } else if b == 0x08 || b == 0x7f {
        // Backspace / DEL
        if line.len() > 0 {
            line.drop_last()
        } else {
            line
        }
    } else if b == 0x15 {
        // Ctrl-U: clear line
        seq![]
    } else if b == 0x17 {
        // Ctrl-W: delete the last word, keeping the space before it
        match last_index_of(trim_end(line), ' ') {
            Some(p) => line.take(p + 1),
            None => seq![],
        }
    } else if 0x20 <= b <= 0x7e {
        // Printable ASCII
        line.push(b as char)
    } else {
        // Escape and other control bytes
        line
    }
}

/// What a run of input bytes does to the line, byte by byte.
pub open spec fn feed_bytes(line: Seq<char>, data: Seq<u8>) -> Seq<char>
    decreases data.len(),
{
    if data.len() == 0 {
        line
    } else {
        feed_byte(feed_bytes(line, data.drop_last()), data.last())
    }
}

/// The line after its filter is replaced: the trigger prefix that
/// `match_tool_prefix` matched (the longest), then the replacement;
/// unchanged when the line names no tool.
pub open spec fn replaced_filter(line: Seq<char>, replacement: Seq<char>) -> Seq<char> {
    match spec_match_tool_prefix(line) {
        Some((_, f)) => line.take(line.len() - f.len()) + replacement,
        None => line,
    }
}


/// Feeding two runs of bytes one after the other is feeding them joined.
pub proof fn law_feed_concat(line: Seq<char>, a: Seq<u8>, b: Seq<u8>)
    ensures
        feed_bytes(line, a + b) == feed_bytes(feed_bytes(line, a), b),
    decreases b.len(),
{
    if b.len() == 0 {
        assert(a + b =~= a);
    } else {
        law_feed_concat(line, a, b.drop_last());
        assert((a + b).drop_last() =~= a + b.drop_last());
        assert((a + b).last() == b.last());
    }
}

/// A backspace right after a printable character takes it back off.
pub proof fn law_backspace_undoes_typing(line: Seq<char>, c: u8)
    requires
        0x20 <= c <= 0x7e,
    ensures
        feed_bytes(line, seq![c, 0x7fu8]) == line,
{
    let d = seq![c, 0x7fu8];
    assert(d.drop_last() =~= seq![c]);
    assert(seq![c].drop_last() =~= Seq::<u8>::empty());
    assert(feed_bytes(line, Seq::<u8>::empty()) == line);
    assert(feed_bytes(line, seq![c]) == feed_byte(line, c));
    assert(feed_byte(line, c) == line.push(c as char));
    assert(d.last() == 0x7fu8);
    assert(feed_bytes(line, d) == feed_byte(line.push(c as char), 0x7fu8));
    assert(line.push(c as char).drop_last() =~= line);
}

/// Enter, Ctrl-C or Ctrl-D leaves an empty line, whatever came before.
pub proof fn law_line_end_resets(line: Seq<char>, data: Seq<u8>, b: u8)
    requires
        is_line_end(b),
    ensures
        feed_bytes(line, data.push(b)) == Seq::<char>::empty(),
{
    assert(data.push(b).drop_last() =~= data);
}

/// What each key does to the line: Enter (CR or LF), Ctrl-C, Ctrl-D and
/// Ctrl-U empty it, Backspace and DEL take off its last character, a
/// printable ASCII byte is appended, and every other byte below 0x20 (other
/// than Ctrl-W) or from 0x80 up leaves it as it is.
pub proof fn law_keys(line: Seq<char>, b: u8)
    ensures
        b == 0x0du8 || b == 0x0au8 || b == 0x03u8 || b == 0x04u8 || b == 0x15u8 ==> feed_byte(
            line,
            b,
        ) == Seq::<char>::empty(),
        (b == 0x08u8 || b == 0x7fu8) && line.len() > 0 ==> feed_byte(line, b) == line.subrange(
            0,
            line.len() - 1,
        ),
        (b == 0x08u8 || b == 0x7fu8) && line.len() == 0 ==> feed_byte(line, b) == line,
        0x20u8 <= b <= 0x7eu8 ==> feed_byte(line, b).len() == line.len() + 1 && feed_byte(
            line,
            b,
        ).subrange(0, line.len() as int) == line && feed_byte(line, b)[line.len() as int] as u32
            == b as u32,
        (b < 0x20u8 && b != 0x0du8 && b != 0x0au8 && b != 0x03u8 && b != 0x04u8 && b != 0x15u8
            && b != 0x08u8 && b != 0x17u8) || b >= 0x80u8 ==> feed_byte(line, b) == line,
{
    if 0x20u8 <= b <= 0x7eu8 {
        assert(feed_byte(line, b).subrange(0, line.len() as int) =~= line);
    }
    if (b == 0x08u8 || b == 0x7fu8) && line.len() > 0 {
        assert(line.drop_last() =~= line.subrange(0, line.len() - 1));
    }
}

/// Ctrl-W deletes the last word and keeps the space before it: on a line
/// `a` + " " + `w` whose last word `w` has no space and does not end in
/// whitespace, it leaves `a` + " ".
pub proof fn law_ctrl_w_deletes_last_word(a: Seq<char>, w: Seq<char>)
    requires
        w.len() > 0,
        !crate::text::is_ws(w.last()),
        forall|j: int| 0 <= j < w.len() ==> #[trigger] w[j] != ' ',
    ensures
        feed_byte(a + seq![' '] + w, 0x17u8) == a + seq![' '],
{
    let line = a + seq![' '] + w;
    assert(line.last() == w.last());
    crate::text::lemma_trailing_ws_bounds(line);
    assert(trim_end(line) =~= line) by {
        reveal_with_fuel(crate::text::trailing_ws, 2);
    }
    lemma_last_space(a + seq![' '], w);
    assert(line.take(a.len() as int + 1) =~= a + seq![' ']);
}

proof fn lemma_last_space(p: Seq<char>, w: Seq<char>)
    requires
        p.len() > 0,
        p.last() == ' ',
        forall|j: int| 0 <= j < w.len() ==> #[trigger] w[j] != ' ',
    ensures
        last_index_of(p + w, ' ') == Some(p.len() - 1),
    decreases w.len(),
{
    if w.len() == 0 {
        assert(p + w =~= p);
    } else {
        assert((p + w).drop_last() =~= p + w.drop_last());
        assert((p + w).last() == w.last());
        lemma_last_space(p, w.drop_last());
    }
}

/// Replacing the filter keeps everything before it and ends the line with
/// the replacement; putting the filter back in its own place changes
/// nothing, and a line that names no tool is left as it is.
pub proof fn law_replace_filter(line: Seq<char>, replacement: Seq<char>)
    ensures
        spec_match_tool_prefix(line) is None ==> replaced_filter(line, replacement) == line,
        spec_match_tool_prefix(line) matches Some((_, f)) ==> ({
            let keep = line.len() - f.len();
            let r = replaced_filter(line, replacement);
            &&& r.len() == keep + replacement.len()
            &&& r.subrange(0, keep) == line.subrange(0, keep)
            &&& r.subrange(keep, r.len() as int) == replacement
            &&& replaced_filter(line, f) == line
        }),
{
    lemma_filter_is_suffix(line);
    match spec_match_tool_prefix(line) {
        Some((_, f)) => {
            let keep = line.len() - f.len();
            let r = replaced_filter(line, replacement);
            assert(r.subrange(0, keep) =~= line.subrange(0, keep));
            assert(r.subrange(keep, r.len() as int) =~= replacement);
            assert(line.take(keep) + f =~= line);
        },
        None => {},
    }
}

/// Every character of `line` is printable ASCII.
pub open spec fn printable(line: Seq<char>) -> bool {
    forall|j: int| 0 <= j < line.len() ==> ' ' <= #[trigger] line[j] <= '~'
}

/// Typing keeps a printable line printable: only printable ASCII bytes are
/// ever added to it.
pub proof fn law_feed_keeps_printable(line: Seq<char>, data: Seq<u8>)
    requires
        printable(line),
    ensures
        printable(feed_bytes(line, data)),
    decreases data.len(),
{
    if data.len() > 0 {
        law_feed_keeps_printable(line, data.drop_last());
        let l = feed_bytes(line, data.drop_last());
        let b = data.last();
        let r = feed_byte(l, b);
        if b == 0x17u8 {
            match last_index_of(trim_end(l), ' ') {
                Some(p) => {
                    lemma_last_index_bounds(trim_end(l), ' ');
                    crate::text::lemma_trailing_ws_bounds(l);
                    assert forall|j: int| 0 <= j < r.len() implies ' ' <= #[trigger] r[j] <= '~' by {
                        assert(r[j] == l[j]);
                    }
                },
                None => {},
            }
        } else if 0x20 <= b <= 0x7e && !is_line_end(b) && b != 0x08 && b != 0x7f && b != 0x15 {
            assert forall|j: int| 0 <= j < r.len() implies ' ' <= #[trigger] r[j] <= '~' by {
                if j < l.len() {
                    assert(r[j] == l[j]);
                } else {
                    assert(r[j] == b as char);
                }
            }
        } else if (b == 0x08 || b == 0x7f) && !is_line_end(b) {
            assert forall|j: int| 0 <= j < r.len() implies ' ' <= #[trigger] r[j] <= '~' by {
                assert(r[j] == l[j]);
            }
        }
    }
}

proof fn lemma_last_index_bounds(s: Seq<char>, c: char)
    ensures
        last_index_of(s, c) matches Some(p) ==> 0 <= p < s.len(),
    decreases s.len(),
{
    if s.len() > 0 && s.last() != c {
        lemma_last_index_bounds(s.drop_last(), c);
    }
}

pub struct LineTracker {
    line: Vec<char>,
    prefix_end: usize,
}

impl View for LineTracker {
    type V = Seq<char>;

    closed spec fn view(&self) -> Seq<char> {
        self.line@
    }
}

impl LineTracker {
    pub fn new() -> (r: Self)
        ensures
            r@ == Seq::<char>::empty(),
    {
        LineTracker { line: Vec::new(), prefix_end: 0 }
    }

    fn feed_one(&mut self, b: u8)
        ensures
            final(self)@ == feed_byte(old(self)@, b),
    {
        if b == 0x0d || b == 0x0a || b == 0x03 || b == 0x04 {
            // Enter / Ctrl-C / Ctrl-D: reset
            self.reset();
        } else if b == 0x08 || b == 0x7f {
            // Backspace / DEL
            self.line.pop();
        } else if b == 0x15 {
            // Ctrl-U: clear line
            self.line.clear();
        } else if b == 0x17 {
            // Ctrl-W: delete last word
            let k = count_trailing_ws(&self.line);
            proof {
                lemma_trailing_ws_bounds(self.line@);
            }
            let n = self.line.len() - k;
            let ghost t = trim_end(self.line@);
            assert(t =~= self.line@.take(n as int));
            let mut j: usize = n;
            assert(t.take(n as int) =~= t);
            while j > 0 && self.line[j - 1] != ' '
                invariant
                    j <= n <= self.line@.len(),
                    t == self.line@.take(n as int),
                    last_index_of(t, ' ') == last_index_of(t.take(j as int), ' '),
                decreases j,
            {
                assert(t.take(j as int).drop_last() =~= t.take(j - 1));
                j -= 1;
            }
            assert(t.take(n as int) =~= t);
            if j > 0 {
                assert(t.take(j as int).last() == ' ');
                self.line.truncate(j);
                assert(self.line@ =~= old(self).line@.take(j as int));
            } else {
                assert(t.take(0) =~= Seq::<char>::empty());
                self.line.clear();
            }
        } else if 0x20 <= b && b <= 0x7e {
            // Printable ASCII
            self.line.push(b as char);
        }
        // Escape sequences and other control bytes are ignored.
    }

    /// Feed raw input bytes from the user.
    pub fn feed(&mut self, data: &[u8])
        ensures
            final(self)@ == feed_bytes(old(self)@, data@),
    {
        let mut i: usize = 0;
        assert(data@.take(0) =~= Seq::<u8>::empty());
        while i < data.len()
            invariant
                i <= data.len(),
                self@ == feed_bytes(old(self)@, data@.take(i as int)),
            decreases data.len() - i,
        {
            assert(data@.take(i + 1).drop_last() =~= data@.take(i as int));
            self.feed_one(data[i]);
            i += 1;
        }
        assert(data@.take(data.len() as int) =~= data@);
    }

    pub fn current_line(&self) -> (r: String)
        ensures
            r@ == self@,
    {
        string_of(&self.line)
    }

    /// Get the text after the tool prefix (the filter for fuzzy matching).
    pub fn filter_text(&self) -> (r: String)
        ensures
            r@ == match spec_match_tool_prefix(self@) {
                Some((_, f)) => f,
                None => Seq::empty(),
            },
    {
        let line = string_of(&self.line);
        match match_tool_prefix(line.as_str()) {
            Some((_tool, filter)) => filter,
            None => String::new(),
        }
    }

    /// Replace the filter portion of the line with new text.
    pub fn replace_filter(&mut self, replacement: &str)
        ensures
            final(self)@ == replaced_filter(old(self)@, replacement@),
    {
        let line = string_of(&self.line);
        if let Some((_tool, filter)) = match_tool_prefix(line.as_str()) {
            proof {
                lemma_filter_is_suffix(line@);
            }
            let f = chars_of(filter.as_str());
            let keep = self.line.len() - f.len();
            let mut next = subvec(&self.line, 0, keep);
            let r = chars_of(replacement);
            push_chars(&mut next, &r);
            self.line = next;
            assert(self@ =~= replaced_filter(old(self)@, replacement@));
        }
    }

    pub fn reset(&mut self)
        ensures
            final(self)@ == Seq::<char>::empty(),
    {
        self.line.clear();
        self.prefix_end = 0;
    }
}

} // verus!
