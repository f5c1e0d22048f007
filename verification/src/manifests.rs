//! Readers of the project files that name runnable scripts: Makefile
//! targets, docker-compose services and the `scripts` of a package.json.
use vstd::prelude::*;

use crate::text::{
    chars_eq, chars_of, contains_char, count_leading_ws, ends_with_char, find_char, index_of,
    is_ws, leading_ws, lines_of, split_lines, starts_with, starts_with_char, string_of, subvec,
    trim, trim_chars, trim_end, trim_end_char, trim_end_char_chars, trim_end_chars, trim_start,
    trim_start_chars, utf8_len, utf8_len_upto, words, words_of, has_prefix,
};

verus! {

/// One runnable item of a tool: its name and a short preview of what it runs.
#[derive(Debug, Clone)]
pub struct ScriptEntry {
    pub name: String,
    pub preview: String,
}

impl View for ScriptEntry {
    type V = (Seq<char>, Seq<char>);

    open spec fn view(&self) -> (Seq<char>, Seq<char>) {
        (self.name@, self.preview@)
    }
}

pub open spec fn entries_view(v: Seq<ScriptEntry>) -> Seq<(Seq<char>, Seq<char>)> {
    v.map_values(|e: ScriptEntry| e@)
}

pub proof fn lemma_entries_view_push(s: Seq<ScriptEntry>, e: ScriptEntry)
    ensures
        entries_view(s.push(e)) == entries_view(s).push(e@),
{
    assert(entries_view(s.push(e)) =~= entries_view(s).push(e@));
}

impl ScriptEntry {
    /// A copy with equal name and preview.
    pub fn duplicate(&self) -> (r: ScriptEntry)
        ensures
            r@ == self@,
    {
        ScriptEntry { name: self.name.clone(), preview: self.preview.clone() }
    }
}

/// A copy of `v`, entry by entry.
pub fn duplicate_entries(v: &Vec<ScriptEntry>) -> (r: Vec<ScriptEntry>)
    ensures
        entries_view(r@) == entries_view(v@),
{
    let mut r: Vec<ScriptEntry> = Vec::new();
    let mut i: usize = 0;
    while i < v.len()
        invariant
            i <= v.len(),
            entries_view(r@) == entries_view(v@.take(i as int)),
            r@.len() == i,
        decreases v.len() - i,
    {
        let e = v[i].duplicate();
        let ghost old_r = r@;
        r.push(e);
        assert(r@ == old_r.push(e));
        proof {
            lemma_entries_view_push(old_r, e);
            assert(v@.take(i + 1) =~= v@.take(i as int).push(v@[i as int]));
            lemma_entries_view_push(v@.take(i as int), v@[i as int]);
        }
        i += 1;
        assert(entries_view(r@) =~= entries_view(v@.take(i as int)));
    }
    assert(v@.take(v.len() as int) =~= v@);
    r
}

// ---------------------------------------------------------------------------
// Makefile
// ---------------------------------------------------------------------------
/// A target list that is not a plain list of names: empty, special
/// (`.PHONY`), a variable assignment, a pattern rule or a variable reference.
pub open spec fn target_excluded(t: Seq<char>) -> bool {
    ||| t.len() == 0
    ||| t[0] == '.'
    ||| t[0] == '\t'
    ||| t.contains('=')
    ||| t.contains('%')
    ||| t.contains('$')
}

/// The part of a Makefile line that names targets: everything before the
/// first `:`; `None` without a `:`.
pub open spec fn target_part(line: Seq<char>) -> Option<Seq<char>> {
    if line.contains(':') {
        Some(line.take(index_of(line, ':') as int))
    } else {
        None
    }
}

/// A line that is no rule even though it holds a `:`: a recipe line (it
/// starts with a tab), or a `:=` or `::=` assignment.
pub open spec fn not_a_rule(line: Seq<char>) -> bool {
    ||| starts_with_char(line, '\t')
    ||| (line.contains(':') && {
        let i = index_of(line, ':') as int;
        ||| (i + 1 < line.len() && line[i + 1] == '=')
        ||| (i + 2 < line.len() && line[i + 1] == ':' && line[i + 2] == '=')
    })
}

/// The targets that one Makefile line declares: only lines of the form
/// `targets:` or `targets: prerequisites` count.
pub open spec fn line_targets(line: Seq<char>) -> Seq<Seq<char>> {
    if not_a_rule(line) {
        seq![]
    } else {
        match target_part(line) {
            Some(part) => if target_excluded(trim(part)) {
                seq![]
            } else {
                words(trim(part))
            },
            None => seq![],
        }
    }
}

/// The targets of all lines, in order.
pub open spec fn targets_of_lines(lines: Seq<Seq<char>>) -> Seq<Seq<char>>
    decreases lines.len(),
{
    if lines.len() == 0 {
        seq![]
    } else {
        targets_of_lines(lines.drop_last()) + line_targets(lines.last())
    }
}

/// `names` with each name kept only where it first occurs.
pub open spec fn dedup(names: Seq<Seq<char>>) -> Seq<Seq<char>>
    decreases names.len(),
{
    if names.len() == 0 {
        seq![]
    } else {
        let d = dedup(names.drop_last());
        if d.contains(names.last()) {
            d
        } else {
            d.push(names.last())
        }
    }
}

/// The distinct targets that a Makefile declares, in order of first mention.
pub open spec fn makefile_targets(content: Seq<char>) -> Seq<Seq<char>> {
    dedup(targets_of_lines(split_lines(content)))
}

/// The first line of the recipe of the rule on line `i - 1`: line `i`
/// when it is a recipe line (it starts with a tab), trimmed; empty when the
/// rule has no recipe.
pub open spec fn recipe_after(lines: Seq<Seq<char>>, i: int) -> Seq<char> {
    if 0 <= i < lines.len() && starts_with_char(lines[i], '\t') {
        trim(lines[i])
    } else {
        seq![]
    }
}

/// The targets of the first `n` lines, each with the first line of its
/// rule's recipe as the preview.
pub open spec fn rule_entries(lines: Seq<Seq<char>>, n: nat) -> Seq<(Seq<char>, Seq<char>)>
    decreases n,
{
    if n == 0 || n > lines.len() {
        seq![]
    } else {
        rule_entries(lines, (n - 1) as nat) + line_targets(lines[n - 1]).map_values(
            |t: Seq<char>| (t, recipe_after(lines, n as int)),
        )
    }
}

pub open spec fn entry_names(es: Seq<(Seq<char>, Seq<char>)>) -> Seq<Seq<char>> {
    es.map_values(|e: (Seq<char>, Seq<char>)| e.0)
}

/// `es` with each name kept only where it first occurs.
pub open spec fn dedup_entries(es: Seq<(Seq<char>, Seq<char>)>) -> Seq<(Seq<char>, Seq<char>)>
    decreases es.len(),
{
    if es.len() == 0 {
        seq![]
    } else {
        let d = dedup_entries(es.drop_last());
        if entry_names(d).contains(es.last().0) {
            d
        } else {
            d.push(es.last())
        }
    }
}

/// The distinct targets that a Makefile declares, in order of first
/// mention, each with the first line of the recipe of the rule that first
/// mentions it.
pub open spec fn makefile_entries(content: Seq<char>) -> Seq<(Seq<char>, Seq<char>)> {
    let lines = split_lines(content);
    dedup_entries(rule_entries(lines, lines.len()))
}

proof fn lemma_rule_entry_names(lines: Seq<Seq<char>>, n: nat)
    requires
        n <= lines.len(),
    ensures
        entry_names(rule_entries(lines, n)) == targets_of_lines(lines.take(n as int)),
    decreases n,
{
    if n == 0 {
        assert(entry_names(rule_entries(lines, n)) =~= seq![]);
        assert(lines.take(0) =~= seq![]);
    } else {
        lemma_rule_entry_names(lines, (n - 1) as nat);
        assert(lines.take(n as int).drop_last() =~= lines.take(n - 1));
        assert(lines.take(n as int).last() == lines[n - 1]);
        let m = line_targets(lines[n - 1]).map_values(
            |t: Seq<char>| (t, recipe_after(lines, n as int)),
        );
        assert(entry_names(rule_entries(lines, (n - 1) as nat) + m) =~= entry_names(
            rule_entries(lines, (n - 1) as nat),
        ) + line_targets(lines[n - 1]));
    }
}

proof fn lemma_dedup_entry_names(es: Seq<(Seq<char>, Seq<char>)>)
    ensures
        entry_names(dedup_entries(es)) == dedup(entry_names(es)),
    decreases es.len(),
{
    if es.len() == 0 {
        assert(entry_names(dedup_entries(es)) =~= seq![]);
    } else {
        lemma_dedup_entry_names(es.drop_last());
        assert(entry_names(es).drop_last() =~= entry_names(es.drop_last()));
        assert(entry_names(es).last() == es.last().0);
        let d = dedup_entries(es.drop_last());
        assert(entry_names(d.push(es.last())) =~= entry_names(d).push(es.last().0));
    }
}

/// The names of a Makefile's entries are its distinct targets.
proof fn lemma_makefile_entry_names(content: Seq<char>)
    ensures
        entry_names(makefile_entries(content)) == makefile_targets(content),
{
    let lines = split_lines(content);
    lemma_rule_entry_names(lines, lines.len());
    assert(lines.take(lines.len() as int) =~= lines);
    lemma_dedup_entry_names(rule_entries(lines, lines.len()));
}

/// A name as a Makefile target: not empty, no whitespace, no `:`, and none
/// of the characters that mark assignments, pattern rules and variables.
pub open spec fn plain_target(w: Seq<char>) -> bool {
    &&& w.len() > 0
    &&& forall|j: int|
        0 <= j < w.len() ==> !is_ws(#[trigger] w[j]) && w[j] != ':' && w[j] != '=' && w[j] != '%'
            && w[j] != '$'
}

proof fn lemma_words_chars(s: Seq<char>)
    ensures
        forall|k: int|
            0 <= k < words(s).len() ==> (#[trigger] words(s)[k]).len() > 0 && forall|j: int|
                0 <= j < words(s)[k].len() ==> !is_ws(#[trigger] words(s)[k][j]) && s.contains(
                    words(s)[k][j],
                ),
    decreases s.len(),
{
    if s.len() > 0 {
        let p = s.drop_last();
        lemma_words_chars(p);
        let wp = words(p);
        let w = words(s);
        let c = s.last();
        assert(s[s.len() - 1] == c);
        assert forall|x: char| p.contains(x) implies s.contains(x) by {
            let i = choose|i: int| 0 <= i < p.len() && p[i] == x;
            assert(s[i] == x);
        }
        if is_ws(c) {
        } else if s.len() >= 2 && !is_ws(s[s.len() - 2]) {
            crate::text::lemma_words_nonempty(p);
            assert forall|k: int| 0 <= k < w.len() implies (#[trigger] w[k]).len() > 0 && forall|j: int|
                0 <= j < w[k].len() ==> !is_ws(#[trigger] w[k][j]) && s.contains(w[k][j]) by {
                if k < w.len() - 1 {
                    assert(w[k] == wp[k]);
                    assert forall|j: int| 0 <= j < w[k].len() implies !is_ws(#[trigger] w[k][j])
                        && s.contains(w[k][j]) by {
                        assert(p.contains(wp[k][j]));
                    }
                } else {
                    assert(w[k] == wp.last().push(c));
                    assert forall|j: int| 0 <= j < w[k].len() implies !is_ws(#[trigger] w[k][j])
                        && s.contains(w[k][j]) by {
                        if j < wp.last().len() {
                            assert(w[k][j] == wp[wp.len() - 1][j]);
                            assert(p.contains(wp[wp.len() - 1][j]));
                        }
                    }
                }
            }
        } else {
            assert forall|k: int| 0 <= k < w.len() implies (#[trigger] w[k]).len() > 0 && forall|j: int|
                0 <= j < w[k].len() ==> !is_ws(#[trigger] w[k][j]) && s.contains(w[k][j]) by {
                if k < w.len() - 1 {
                    assert(w[k] == wp[k]);
                    assert forall|j: int| 0 <= j < w[k].len() implies !is_ws(#[trigger] w[k][j])
                        && s.contains(w[k][j]) by {
                        assert(p.contains(wp[k][j]));
                    }
                } else {
                    assert(w[k] == seq![c]);
                }
            }
        }
    }
}

proof fn lemma_line_targets_plain(line: Seq<char>)
    ensures
        forall|k: int| 0 <= k < line_targets(line).len() ==> plain_target(#[trigger] line_targets(line)[k]),
{
    if !not_a_rule(line) {
        match target_part(line) {
            Some(part) => {
                let t = trim(part);
                crate::text::lemma_index_of_bounds(line, ':');
                crate::text::lemma_leading_ws_bounds(part);
                crate::text::lemma_trailing_ws_bounds(trim_start(part));
                assert forall|x: char| t.contains(x) implies x != ':' by {
                    let j = choose|j: int| 0 <= j < t.len() && t[j] == x;
                    let a = leading_ws(part) as int;
                    assert(t[j] == part[a + j]);
                    assert(part[a + j] == line[a + j]);
                }
                if !target_excluded(t) {
                    lemma_words_chars(t);
                    assert forall|k: int| 0 <= k < words(t).len() implies plain_target(
                        #[trigger] words(t)[k],
                    ) by {
                        let w = words(t)[k];
                        assert forall|j: int| 0 <= j < w.len() implies !is_ws(#[trigger] w[j])
                            && w[j] != ':' && w[j] != '=' && w[j] != '%' && w[j] != '$' by {
                            assert(t.contains(w[j]));
                        }
                    }
                }
            },
            None => {},
        }
    }
}

proof fn lemma_targets_of_lines_plain(lines: Seq<Seq<char>>)
    ensures
        forall|k: int|
            0 <= k < targets_of_lines(lines).len() ==> plain_target(
                #[trigger] targets_of_lines(lines)[k],
            ),
    decreases lines.len(),
{
    if lines.len() > 0 {
        lemma_targets_of_lines_plain(lines.drop_last());
        lemma_line_targets_plain(lines.last());
        let a = targets_of_lines(lines.drop_last());
        let b = line_targets(lines.last());
        assert forall|k: int| 0 <= k < (a + b).len() implies plain_target(#[trigger] (a + b)[k]) by {
            if k < a.len() {
                assert((a + b)[k] == a[k]);
            } else {
                assert((a + b)[k] == b[k - a.len()]);
            }
        }
    }
}

proof fn lemma_dedup(names: Seq<Seq<char>>)
    ensures
        dedup(names).no_duplicates(),
        forall|k: int|
            0 <= k < dedup(names).len() ==> names.contains(#[trigger] dedup(names)[k]),
    decreases names.len(),
{
    if names.len() > 0 {
        let p = names.drop_last();
        lemma_dedup(p);
        let d = dedup(p);
        assert forall|x: Seq<char>| p.contains(x) implies names.contains(x) by {
            let i = choose|i: int| 0 <= i < p.len() && p[i] == x;
            assert(names[i] == x);
        }
        if !d.contains(names.last()) {
            let d2 = d.push(names.last());
            assert forall|k: int| 0 <= k < d2.len() implies names.contains(#[trigger] d2[k]) by {
                if k < d.len() {
                    assert(d2[k] == d[k]);
                } else {
                    assert(names[names.len() - 1] == names.last());
                }
            }
            assert forall|i: int, j: int| 0 <= i < d2.len() && 0 <= j < d2.len() && i != j
                implies d2[i] != d2[j] by {
                if i < d.len() && j < d.len() {
                } else if i < d.len() {
                    assert(d.contains(d[i]));
                } else {
                    assert(d.contains(d[j]));
                }
            }
        }
    }
}

proof fn lemma_words_of_word(w: Seq<char>)
    requires
        w.len() > 0,
        forall|j: int| 0 <= j < w.len() ==> !is_ws(#[trigger] w[j]),
    ensures
        words(w) == seq![w],
    decreases w.len(),
{
    assert(!is_ws(w.last()));
    if w.len() == 1 {
        assert(w.drop_last() =~= Seq::<char>::empty());
        assert(words(w.drop_last()) == Seq::<Seq<char>>::empty());
        assert(seq![w.last()] =~= w);
        assert(words(w) == Seq::<Seq<char>>::empty().push(seq![w.last()]));
        assert(Seq::<Seq<char>>::empty().push(seq![w.last()]) =~= seq![w]);
    } else {
        let p = w.drop_last();
        lemma_words_of_word(p);
        assert(w[w.len() - 2] == p[p.len() - 1]);
        assert(!is_ws(w[w.len() - 2]));
        assert(p.push(w.last()) =~= w);
        assert(words(w) == words(p).update(0, words(p).last().push(w.last())));
        assert(seq![p].update(0, p.push(w.last())) =~= seq![w]);
    }
}

/// Which Makefile lines declare targets: a recipe line (starting with a
/// tab) and a `name := value` assignment declare none, and `name:` followed
/// by prerequisites (or nothing) declares exactly `name`.
pub proof fn law_makefile_rule_lines(line: Seq<char>, name: Seq<char>, rest: Seq<char>)
    ensures
        starts_with_char(line, '\t') ==> line_targets(line) == Seq::<Seq<char>>::empty(),
        plain_target(name) ==> line_targets(name + seq![':', '='] + rest) == Seq::<
            Seq<char>,
        >::empty(),
        plain_target(name) && name[0] != '.' && !(rest.len() > 0 && rest[0] == '=') && !(rest.len()
            > 1 && rest[0] == ':' && rest[1] == '=') ==> line_targets(name + seq![':'] + rest)
            == seq![name],
{
    if plain_target(name) {
        let l1 = name + seq![':', '='] + rest;
        crate::text::lemma_index_of_bounds(l1, ':');
        assert(l1[name.len() as int] == ':');
        if index_of(l1, ':') < name.len() {
            assert(l1[index_of(l1, ':') as int] == name[index_of(l1, ':') as int]);
        }
        assert(index_of(l1, ':') == name.len());
        assert(l1.contains(':'));
        assert(l1[name.len() as int + 1] == '=');
        let l2 = name + seq![':'] + rest;
        crate::text::lemma_index_of_bounds(l2, ':');
        assert(l2[name.len() as int] == ':');
        if index_of(l2, ':') < name.len() {
            assert(l2[index_of(l2, ':') as int] == name[index_of(l2, ':') as int]);
        }
        assert(index_of(l2, ':') == name.len());
        assert(l2.contains(':'));
        if name[0] != '.' && !(rest.len() > 0 && rest[0] == '=') && !(rest.len() > 1 && rest[0]
            == ':' && rest[1] == '=') {
            assert(l2[0] == name[0]);
            assert(!not_a_rule(l2)) by {
                if name.len() + 1 < l2.len() {
                    assert(l2[name.len() as int + 1] == rest[0]);
                }
                if name.len() + 2 < l2.len() {
                    assert(l2[name.len() as int + 2] == rest[1]);
                }
            }
            assert(l2.take(name.len() as int) =~= name);
            assert(leading_ws(name) == 0);
            assert(name.skip(0) =~= name);
            assert(crate::text::trailing_ws(name) == 0);
            assert(name.take(name.len() as int) =~= name);
            assert(trim(name) == name);
            assert(!name.contains('=') && !name.contains('%') && !name.contains('$'));
            lemma_words_of_word(name);
        }
    }
}

/// Each target that a Makefile yields is named once, and is a plain name:
/// no pattern rule, assignment, variable reference or recipe text becomes
/// a target.
pub proof fn law_makefile_targets_plain_and_distinct(content: Seq<char>)
    ensures
        entry_names(makefile_entries(content)).no_duplicates(),
        forall|k: int|
            0 <= k < makefile_entries(content).len() ==> plain_target(
                #[trigger] makefile_entries(content)[k].0,
            ),
{
    lemma_makefile_entry_names(content);
    assert forall|k: int| 0 <= k < makefile_entries(content).len() implies makefile_entries(
        content,
    )[k].0 == #[trigger] makefile_targets(content)[k] by {
        assert(entry_names(makefile_entries(content))[k] == makefile_entries(content)[k].0);
    }
    let all = targets_of_lines(split_lines(content));
    lemma_dedup(all);
    lemma_targets_of_lines_plain(split_lines(content));
    assert forall|k: int| 0 <= k < dedup(all).len() implies plain_target(#[trigger] dedup(all)[k]) by {
        let i = choose|i: int| 0 <= i < all.len() && all[i] == dedup(all)[k];
        assert(plain_target(all[i]));
    }
    assert(makefile_targets(content) == dedup(all));
    assert forall|k: int| 0 <= k < makefile_entries(content).len() implies plain_target(
        #[trigger] makefile_entries(content)[k].0,
    ) by {
        assert(entry_names(makefile_entries(content))[k] == makefile_entries(content)[k].0);
        assert(plain_target(dedup(all)[k]));
    }
}

fn line_targets_of(line: &Vec<char>) -> (r: Vec<Vec<char>>)
    ensures
        r@.map_values(|w: Vec<char>| w@) == line_targets(line@),
{
    if line.len() > 0 && line[0] == '\t' {
        let r: Vec<Vec<char>> = Vec::new();
        assert(r@.map_values(|w: Vec<char>| w@) =~= Seq::<Seq<char>>::empty());
        return r;
    }
    if contains_char(line, ':') {
        let k = find_char(line, ':');
        proof {
            crate::text::lemma_index_of_bounds(line@, ':');
        }
        if k + 1 < line.len() && (line[k + 1] == '=' || (k + 2 < line.len() && line[k + 1] == ':'
            && line[k + 2] == '=')) {
            let r: Vec<Vec<char>> = Vec::new();
            assert(r@.map_values(|w: Vec<char>| w@) =~= Seq::<Seq<char>>::empty());
            return r;
        }
    }
    assert(!not_a_rule(line@));
    let part: Vec<char>;
    if contains_char(line, ':') {
        let k = find_char(line, ':');
        proof {
            crate::text::lemma_index_of_bounds(line@, ':');
        }
        part = subvec(line, 0, k);
        assert(part@ =~= line@.take(k as int));
    } else {
        let r: Vec<Vec<char>> = Vec::new();
        assert(r@.map_values(|w: Vec<char>| w@) =~= Seq::<Seq<char>>::empty());
        return r;
    }
    let t = trim_chars(&part);
    if t.len() == 0 || t[0] == '.' || t[0] == '\t' || contains_char(&t, '=') || contains_char(
        &t,
        '%',
    ) || contains_char(&t, '$') {
        let r: Vec<Vec<char>> = Vec::new();
        assert(r@.map_values(|w: Vec<char>| w@) =~= Seq::<Seq<char>>::empty());
        return r;
    }
    words_of(&t)
}

fn contains_name(names: &Vec<Vec<char>>, w: &Vec<char>) -> (r: bool)
    ensures
        r == names@.map_values(|n: Vec<char>| n@).contains(w@),
{
    let ghost view = names@.map_values(|n: Vec<char>| n@);
    let mut i: usize = 0;
    while i < names.len()
        invariant
            i <= names.len(),
            view == names@.map_values(|n: Vec<char>| n@),
            forall|j: int| 0 <= j < i ==> view[j] != w@,
        decreases names.len() - i,
    {
        if chars_eq(&names[i], w) {
            assert(view[i as int] == w@);
            return true;
        }
        i += 1;
    }
    false
}

fn recipe_after_of(lines: &Vec<Vec<char>>, i: usize) -> (r: Vec<char>)
    ensures
        r@ == recipe_after(lines@.map_values(|l: Vec<char>| l@), i as int),
{
    if i < lines.len() && lines[i].len() > 0 && lines[i][0] == '\t' {
        trim_chars(&lines[i])
    } else {
        Vec::new()
    }
}

/// The distinct targets of a Makefile's text, each with the first line of
/// the recipe of the rule that first mentions it (empty without a recipe).
pub fn makefile_targets_in(content: &str) -> (r: Vec<ScriptEntry>)
    ensures
        entries_view(r@) == makefile_entries(content@),
{
    let chars = chars_of(content);
    let lines = lines_of(&chars);
    let ghost lv = lines@.map_values(|l: Vec<char>| l@);
    let mut names: Vec<Vec<char>> = Vec::new();
    let mut out: Vec<ScriptEntry> = Vec::new();
    let mut i: usize = 0;
    assert(dedup_entries(rule_entries(lv, 0)) =~= seq![]);
    assert(entries_view(out@) =~= seq![]);
    while i < lines.len()
        invariant
            i <= lines.len(),
            lv == lines@.map_values(|l: Vec<char>| l@),
            entries_view(out@) == dedup_entries(rule_entries(lv, i as nat)),
            names@.map_values(|n: Vec<char>| n@) == entry_names(entries_view(out@)),
        decreases lines.len() - i,
    {
        let ts = line_targets_of(&lines[i]);
        let preview = recipe_after_of(&lines, i + 1);
        let ghost before = rule_entries(lv, i as nat);
        let ghost tv = ts@.map_values(|w: Vec<char>| w@);
        let ghost m = tv.map_values(|t: Seq<char>| (t, preview@));
        assert(lv[i as int] == lines@[i as int]@);
        assert(rule_entries(lv, (i + 1) as nat) == before + m);
        let mut j: usize = 0;
        assert(before + m.take(0) =~= before);
        while j < ts.len()
            invariant
                j <= ts.len(),
                tv == ts@.map_values(|w: Vec<char>| w@),
                m == tv.map_values(|t: Seq<char>| (t, preview@)),
                entries_view(out@) == dedup_entries(before + m.take(j as int)),
                names@.map_values(|n: Vec<char>| n@) == entry_names(entries_view(out@)),
            decreases ts.len() - j,
        {
            let w = &ts[j];
            let ghost seen = before + m.take(j as int);
            assert((before + m.take(j + 1)).drop_last() =~= seen);
            assert((before + m.take(j + 1)).last() == (w@, preview@));
            if !contains_name(&names, w) {
                let wc = w.clone();
                assert(wc@ =~= w@);
                let ghost old_names = names@.map_values(|n: Vec<char>| n@);
                names.push(wc);
                let e = ScriptEntry { name: string_of(w), preview: string_of(&preview) };
                let ghost old_out = out@;
                out.push(e);
                assert(out@ == old_out.push(e));
                proof {
                    lemma_entries_view_push(old_out, e);
                }
                assert(names@.map_values(|n: Vec<char>| n@) =~= old_names.push(w@));
                assert(entry_names(entries_view(out@)) =~= entry_names(entries_view(old_out)).push(
                    w@,
                ));
            }
            j += 1;
        }
        assert(m.take(ts.len() as int) =~= m);
        i += 1;
    }
    assert(split_lines(content@) == lv);
    out
}

// ---------------------------------------------------------------------------
// docker-compose
// ---------------------------------------------------------------------------
/// A line that opens the `services:` block.
pub open spec fn is_services_header(line: Seq<char>) -> bool {
    let t = trim_start(line);
    t == "services:"@ || starts_with(t, "services:"@)
}

/// Bytes of leading whitespace of a line.
pub open spec fn indent_bytes(line: Seq<char>) -> nat {
    utf8_len(line.take(leading_ws(line) as int))
}

/// A line that ends the `services:` block: not empty and not indented by a
/// space or a tab.
pub open spec fn leaves_block(line: Seq<char>) -> bool {
    !starts_with_char(line, ' ') && !starts_with_char(line, '\t') && line.len() > 0
}

/// The service that a line inside the block declares: a key that ends in
/// `:` and is indented by two bytes, or by one tab.
pub open spec fn service_name(line: Seq<char>) -> Option<Seq<char>> {
    let tr = trim_end(line);
    if ends_with_char(tr, ':') && (indent_bytes(line) == 2 || (indent_bytes(line) == 1
        && starts_with_char(line, '\t'))) {
        let name = trim_end_char(trim(tr), ':');
        if name.len() > 0 {
            Some(name)
        } else {
            None
        }
    } else {
        None
    }
}

/// `v` without one pair of surrounding double or single quotes.
pub open spec fn unquote(v: Seq<char>) -> Seq<char> {
    if v.len() >= 2 && ((v[0] == '"' && v.last() == '"') || (v[0] == '\'' && v.last() == '\'')) {
        v.subrange(1, v.len() - 1)
    } else {
        v
    }
}

/// The image that an `image:` line names.
pub open spec fn image_value(line: Seq<char>) -> Option<Seq<char>> {
    let t = trim_start(line);
    if starts_with(t, "image:"@) {
        Some(unquote(trim(t.skip("image:"@.len() as int))))
    } else {
        None
    }
}

/// A line after which the lines no longer belong to the service before it:
/// another `services:` header, the end of the block, or the next service.
pub open spec fn ends_service(line: Seq<char>) -> bool {
    is_services_header(line) || leaves_block(line) || service_name(line) is Some
}

/// The image of the service whose definition starts with `lines`: the
/// first `image:` line before the service ends; empty without one.
pub open spec fn image_of(lines: Seq<Seq<char>>) -> Seq<char>
    decreases lines.len(),
{
    if lines.len() == 0 {
        seq![]
    } else if ends_service(lines[0]) {
        seq![]
    } else {
        match image_value(lines[0]) {
            Some(v) => v,
            None => image_of(lines.drop_first()),
        }
    }
}

/// The services declared by `lines`, each with its image as the preview,
/// reading them with `in_services` telling whether the `services:` block is
/// open before the first one.
pub open spec fn services_from(lines: Seq<Seq<char>>, in_services: bool) -> Seq<(Seq<char>, Seq<char>)>
    decreases lines.len(),
{
    if lines.len() == 0 {
        seq![]
    } else {
        let line = lines[0];
        let rest = lines.drop_first();
        if is_services_header(line) {
            services_from(rest, true)
        } else if !in_services {
            services_from(rest, false)
        } else if leaves_block(line) {
            services_from(rest, false)
        } else {
            match service_name(line) {
                Some(n) => seq![(n, image_of(rest))] + services_from(rest, true),
                None => services_from(rest, true),
            }
        }
    }
}

/// The services that a compose file's text declares, in order, with their
/// images.
pub open spec fn compose_services(content: Seq<char>) -> Seq<(Seq<char>, Seq<char>)> {
    services_from(split_lines(content), false)
}

/// Which compose lines name a service: a key indented by two spaces or by
/// one tab is a service, a key indented by four spaces (a setting of a
/// service) is not, and an unindented line ends the `services:` block.
pub proof fn law_compose_service_lines(n: Seq<char>)
    requires
        n.len() > 0,
        forall|j: int| 0 <= j < n.len() ==> !is_ws(#[trigger] n[j]) && n[j] != ':',
    ensures
        service_name(seq![' ', ' '] + n + seq![':']) == Some(n),
        service_name(seq!['\t'] + n + seq![':']) == Some(n),
        service_name(seq![' ', ' ', ' ', ' '] + n + seq![':']) is None,
        leaves_block(n + seq![':']),
{
    lemma_key_line(seq![' ', ' '], n);
    lemma_key_line(seq!['\t'], n);
    lemma_key_line(seq![' ', ' ', ' ', ' '], n);
    assert((n + seq![':'])[0] == n[0]);
}

proof fn lemma_key_line(pad: Seq<char>, n: Seq<char>)
    requires
        pad.len() > 0,
        forall|j: int| 0 <= j < pad.len() ==> #[trigger] pad[j] == ' ' || pad[j] == '\t',
        n.len() > 0,
        forall|j: int| 0 <= j < n.len() ==> !is_ws(#[trigger] n[j]) && n[j] != ':',
    ensures
        ({
            let line = pad + n + seq![':'];
            &&& trim_end(line) == line
            &&& leading_ws(line) == pad.len()
            &&& indent_bytes(line) == pad.len()
            &&& trim_end_char(trim(line), ':') == n
        }),
    decreases pad.len(),
{
    let line = pad + n + seq![':'];
    assert(line.last() == ':');
    assert(trim_end(line) =~= line) by {
        reveal_with_fuel(crate::text::trailing_ws, 2);
    }
    lemma_leading_pad(pad, n + seq![':']);
    assert(line =~= pad + (n + seq![':']));
    assert(line.take(pad.len() as int) =~= pad);
    lemma_utf8_len_pad(pad);
    let t = trim(line);
    assert(trim_start(line) =~= n + seq![':']);
    assert(crate::text::trailing_ws(n + seq![':']) == 0) by {
        reveal_with_fuel(crate::text::trailing_ws, 2);
    }
    assert(t =~= n + seq![':']);
    assert((n + seq![':']).drop_last() =~= n);
    assert(!(n.len() > 0 && n.last() == ':'));
    reveal_with_fuel(trim_end_char, 2);
}

proof fn lemma_leading_pad(pad: Seq<char>, rest: Seq<char>)
    requires
        forall|j: int| 0 <= j < pad.len() ==> #[trigger] pad[j] == ' ' || pad[j] == '\t',
        rest.len() > 0,
        !is_ws(rest[0]),
    ensures
        leading_ws(pad + rest) == pad.len(),
    decreases pad.len(),
{
    if pad.len() == 0 {
        assert(pad + rest =~= rest);
    } else {
        assert((pad + rest).drop_first() =~= pad.drop_first() + rest);
        assert((pad + rest)[0] == pad[0]);
        lemma_leading_pad(pad.drop_first(), rest);
    }
}

proof fn lemma_utf8_len_pad(pad: Seq<char>)
    requires
        forall|j: int| 0 <= j < pad.len() ==> #[trigger] pad[j] == ' ' || pad[j] == '\t',
    ensures
        crate::text::utf8_len(pad) == pad.len(),
    decreases pad.len(),
{
    if pad.len() > 0 {
        lemma_utf8_len_pad(pad.drop_last());
        assert(pad.last() == pad[pad.len() - 1]);
    }
}

fn is_services_header_of(line: &Vec<char>, header: &Vec<char>) -> (r: bool)
    requires
        header@ == "services:"@,
    ensures
        r == is_services_header(line@),
{
    let t = trim_start_chars(line);
    chars_eq(&t, header) || has_prefix(&t, header)
}

fn service_name_of(line: &Vec<char>) -> (r: Option<Vec<char>>)
    ensures
        match (r, service_name(line@)) {
            (Some(n), Some(m)) => n@ == m,
            (None, None) => true,
            _ => false,
        },
{
    let tr = trim_end_chars(line);
    if !(tr.len() > 0 && tr[tr.len() - 1] == ':') {
        return None;
    }
    let k = count_leading_ws(line);
    proof {
        crate::text::lemma_leading_ws_bounds(line@);
    }
    let lead = subvec(line, 0, k);
    assert(lead@ =~= line@.take(leading_ws(line@) as int));
    let indent_ok = match utf8_len_upto(&lead, 2) {
        Some(n) => n == 2 || (n == 1 && line.len() > 0 && line[0] == '\t'),
        None => false,
    };
    if !indent_ok {
        return None;
    }
    let t = trim_chars(&tr);
    let name = trim_end_char_chars(&t, ':');
    if name.len() > 0 {
        Some(name)
    } else {
        None
    }
}

fn leaves_block_of(line: &Vec<char>) -> (r: bool)
    ensures
        r == leaves_block(line@),
{
    !(line.len() > 0 && line[0] == ' ') && !(line.len() > 0 && line[0] == '\t') && line.len() > 0
}

fn ends_service_of(line: &Vec<char>, header: &Vec<char>) -> (r: bool)
    requires
        header@ == "services:"@,
    ensures
        r == ends_service(line@),
{
    is_services_header_of(line, header) || leaves_block_of(line) || service_name_of(line).is_some()
}

fn unquote_of(v: &Vec<char>) -> (r: Vec<char>)
    ensures
        r@ == unquote(v@),
{
    let n = v.len();
    if n >= 2 && ((v[0] == '"' && v[n - 1] == '"') || (v[0] == '\'' && v[n - 1] == '\'')) {
        subvec(v, 1, n - 1)
    } else {
        v.clone()
    }
}

fn image_value_of(line: &Vec<char>, key: &Vec<char>) -> (r: Option<Vec<char>>)
    requires
        key@ == "image:"@,
    ensures
        match (r, image_value(line@)) {
            (Some(a), Some(b)) => a@ == b,
            (None, None) => true,
            _ => false,
        },
{
    let t = trim_start_chars(line);
    if has_prefix(&t, key) {
        let rest = subvec(&t, key.len(), t.len());
        assert(rest@ =~= t@.skip("image:"@.len() as int));
        let v = trim_chars(&rest);
        Some(unquote_of(&v))
    } else {
        None
    }
}

/// The image of the service whose definition starts at line `start`.
fn image_after(lines: &Vec<Vec<char>>, start: usize, header: &Vec<char>, key: &Vec<char>) -> (r: Vec<
    char,
>)
    requires
        start <= lines@.len(),
        header@ == "services:"@,
        key@ == "image:"@,
    ensures
        r@ == image_of(lines@.map_values(|l: Vec<char>| l@).skip(start as int)),
{
    let ghost lv = lines@.map_values(|l: Vec<char>| l@);
    let mut j: usize = start;
    while j < lines.len()
        invariant
            start <= j <= lines@.len(),
            lv == lines@.map_values(|l: Vec<char>| l@),
            header@ == "services:"@,
            key@ == "image:"@,
            image_of(lv.skip(start as int)) == image_of(lv.skip(j as int)),
        decreases lines@.len() - j,
    {
        let ghost rest = lv.skip(j as int);
        assert(rest[0] == lines@[j as int]@);
        assert(rest.drop_first() =~= lv.skip(j + 1));
        if ends_service_of(&lines[j], header) {
            let r: Vec<char> = Vec::new();
            assert(r@ =~= seq![]);
            return r;
        }
        match image_value_of(&lines[j], key) {
            Some(v) => {
                return v;
            },
            None => {},
        }
        j += 1;
    }
    assert(lv.skip(j as int) =~= Seq::<Seq<char>>::empty());
    let r: Vec<char> = Vec::new();
    assert(r@ =~= seq![]);
    r
}

/// The services of a compose file's text, each with its image as the
/// preview.
pub fn compose_services_in(content: &str) -> (r: Vec<ScriptEntry>)
    ensures
        entries_view(r@) == compose_services(content@),
{
    let chars = chars_of(content);
    let lines = lines_of(&chars);
    let header = chars_of("services:");
    let key = chars_of("image:");
    let ghost lv = lines@.map_values(|l: Vec<char>| l@);
    let mut in_services = false;
    let mut out: Vec<ScriptEntry> = Vec::new();
    let mut i: usize = 0;
    assert(lv.skip(0) =~= lv);
    assert(Seq::<(Seq<char>, Seq<char>)>::empty() + services_from(lv, false) =~= services_from(
        lv,
        false,
    ));
    assert(entries_view(out@) =~= Seq::<(Seq<char>, Seq<char>)>::empty());
    while i < lines.len()
        invariant
            i <= lines.len(),
            lv == lines@.map_values(|l: Vec<char>| l@),
            header@ == "services:"@,
            key@ == "image:"@,
            entries_view(out@) + services_from(lv.skip(i as int), in_services) == services_from(
                lv,
                false,
            ),
        decreases lines.len() - i,
    {
        let line = &lines[i];
        let ghost rest = lv.skip(i as int);
        assert(rest[0] == line@);
        assert(rest.drop_first() =~= lv.skip(i + 1));
        if is_services_header_of(line, &header) {
            in_services = true;
        } else if !in_services {
        } else if leaves_block_of(line) {
            in_services = false;
        } else {
            match service_name_of(line) {
                Some(n) => {
                    let preview = image_after(&lines, i + 1, &header, &key);
                    let e = ScriptEntry { name: string_of(&n), preview: string_of(&preview) };
                    let ghost before = entries_view(out@);
                    let ghost old_out = out@;
                    out.push(e);
                    proof {
                        lemma_entries_view_push(old_out, e);
                    }
                    assert(before.push(e@) + services_from(lv.skip(i + 1), true) =~= before + (seq![
                        (n@, image_of(lv.skip(i + 1))),
                    ] + services_from(lv.skip(i + 1), true)));
                },
                None => {},
            }
        }
        i += 1;
    }
    assert(lv.skip(lines.len() as int) =~= Seq::<Seq<char>>::empty());
    assert(entries_view(out@) + seq![] =~= entries_view(out@));
    out
}

// ---------------------------------------------------------------------------
// package.json
// ---------------------------------------------------------------------------
/// A JSON document as the library reads it: numbers are kept only as such.
#[derive(Debug)]
pub enum JsonValue {
    Null,
    Bool(bool),
    Number,
    Str(String),
    Array(Vec<JsonValue>),
    Object(Vec<(String, JsonValue)>),
}

/// The value of the first member of `members` named `key`.
pub open spec fn member(members: Seq<(String, JsonValue)>, key: Seq<char>) -> Option<JsonValue>
    decreases members.len(),
{
    if members.len() == 0 {
        None
    } else if members[0].0@ == key {
        Some(members[0].1)
    } else {
        member(members.drop_first(), key)
    }
}

/// `Value::get` with a string key: the member of an object.
pub open spec fn json_get(v: JsonValue, key: Seq<char>) -> Option<JsonValue> {
    match v {
        JsonValue::Object(members) => member(members@, key),
        _ => None,
    }
}

/// The command of a script: its text when it is a string, else nothing.
pub open spec fn script_preview(v: JsonValue) -> Seq<char> {
    match v {
        JsonValue::Str(s) => s@,
        _ => Seq::empty(),
    }
}

/// The `scripts` object of a package.json as (name, command) pairs; nothing
/// when there is no such object.
pub open spec fn package_scripts(doc: JsonValue) -> Seq<(Seq<char>, Seq<char>)> {
    match json_get(doc, "scripts"@) {
        Some(JsonValue::Object(members)) => members@.map_values(
            |m: (String, JsonValue)| (m.0@, script_preview(m.1)),
        ),
        _ => seq![],
    }
}

fn find_member<'a>(members: &'a Vec<(String, JsonValue)>, key: &Vec<char>) -> (r: Option<&'a JsonValue>)
    ensures
        match (r, member(members@, key@)) {
            (Some(v), Some(w)) => *v == w,
            (None, None) => true,
            _ => false,
        },
{
    let mut i: usize = 0;
    assert(members@.skip(0) =~= members@);
    while i < members.len()
        invariant
            i <= members.len(),
            member(members@, key@) == member(members@.skip(i as int), key@),
        decreases members.len() - i,
    {
        let ghost rest = members@.skip(i as int);
        assert(rest[0] == members@[i as int]);
        assert(rest.drop_first() =~= members@.skip(i + 1));
        let name = chars_of(members[i].0.as_str());
        if chars_eq(&name, key) {
            return Some(&members[i].1);
        }
        i += 1;
    }
    None
}

/// The scripts of a parsed package.json.
pub fn package_scripts_in(doc: &JsonValue) -> (r: Vec<ScriptEntry>)
    ensures
        entries_view(r@) == package_scripts(*doc),
{
    let key = chars_of("scripts");
    let mut out: Vec<ScriptEntry> = Vec::new();
    let members = match doc {
        JsonValue::Object(members) => members,
        _ => {
            assert(entries_view(out@) =~= package_scripts(*doc));
            return out;
        },
    };
    assert(members@.skip(0) =~= members@);
    let scripts = match find_member(members, &key) {
        Some(JsonValue::Object(scripts)) => scripts,
        _ => {
            assert(entries_view(out@) =~= package_scripts(*doc));
            return out;
        },
    };
    let ghost want = scripts@.map_values(|m: (String, JsonValue)| (m.0@, script_preview(m.1)));
    let mut i: usize = 0;
    while i < scripts.len()
        invariant
            i <= scripts.len(),
            want == scripts@.map_values(|m: (String, JsonValue)| (m.0@, script_preview(m.1))),
            entries_view(out@) == want.take(i as int),
            out@.len() == i,
        decreases scripts.len() - i,
    {
        let preview = match &scripts[i].1 {
            JsonValue::Str(s) => s.clone(),
            _ => String::new(),
        };
        let e = ScriptEntry { name: scripts[i].0.clone(), preview };
        assert(e@ == want[i as int]);
        let ghost old_out = out@;
        out.push(e);
        proof {
            lemma_entries_view_push(old_out, e);
            assert(want.take(i + 1) =~= want.take(i as int).push(want[i as int]));
        }
        i += 1;
    }
    assert(want.take(scripts.len() as int) =~= want);
    out
}

} // verus!
