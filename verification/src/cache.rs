//! In-memory cache of the tools found per directory, invalidated when the
//! tracked files of a directory change: one appears, disappears, or gets
//! another modification time.
use vstd::prelude::*;

use crate::text::{chars_eq, chars_of, lemma_strings_view_push, push_str, string_of, strings_view};
use crate::tools::{tool_scripts_view, tracked_file_names, tracked_names, ToolScripts};

verus! {

/// What a look at a file's metadata found.
#[derive(Debug, Clone, Copy, PartialEq, Eq, Structural)]
pub enum FileStamp {
    /// The metadata could not be read: the file does not exist (any more).
    Missing,
    /// The file exists and its modification time cannot be read.
    NoModTime,
    /// The modification time, in nanoseconds from the Unix epoch.
    Modified(i128),
}

/// The stamp of one path.
#[derive(Debug, Clone)]
pub struct PathStamp {
    pub path: String,
    pub stamp: FileStamp,
}

/// `dir` joined with the relative name `name` (`Path::join`).
pub open spec fn path_join(dir: Seq<char>, name: Seq<char>) -> Seq<char> {
    if dir.len() == 0 {
        name
    } else if dir.last() == '/' {
        dir + name
    } else {
        dir + "/"@ + name
    }
}

pub fn join_path(dir: &str, name: &str) -> (r: String)
    ensures
        r@ == path_join(dir@, name@),
{
    let d = chars_of(dir);
    let mut out = d.clone();
    assert(out@ =~= d@);
    if d.len() > 0 && d[d.len() - 1] != '/' {
        push_str(&mut out, "/");
    }
    push_str(&mut out, name);
    string_of(&out)
}

/// A part of a path between separators is kept as a component unless it is
/// empty, or is `.` anywhere but at the very start of the path.
pub open spec fn keeps_part(part: Seq<char>, index: nat) -> bool {
    part.len() > 0 && !(part == seq!['.'] && index > 0)
}

/// The components kept so far, the part being read, and its index among
/// the parts, after reading `s`.
pub open spec fn split_state(s: Seq<char>) -> (Seq<Seq<char>>, Seq<char>, nat)
    decreases s.len(),
{
    if s.len() == 0 {
        (seq![], seq![], 0)
    } else {
        let (kept, cur, idx) = split_state(s.drop_last());
        if s.last() == '/' {
            (if keeps_part(cur, idx) {
                kept.push(cur)
            } else {
                kept
            }, seq![], idx + 1)
        } else {
            (kept, cur.push(s.last()), idx)
        }
    }
}

/// The components of a path, as `Path::components` gives them after the
/// root: repeated separators, a trailing separator and `.` parts past the
/// start are dropped.
pub open spec fn path_components(s: Seq<char>) -> Seq<Seq<char>> {
    let (kept, cur, idx) = split_state(s);
    if keeps_part(cur, idx) {
        kept.push(cur)
    } else {
        kept
    }
}

/// Parts joined with `/`.
pub open spec fn join_parts(parts: Seq<Seq<char>>) -> Seq<char>
    decreases parts.len(),
{
    if parts.len() == 0 {
        seq![]
    } else if parts.len() == 1 {
        parts[0]
    } else {
        join_parts(parts.drop_last()) + seq!['/'] + parts.last()
    }
}

/// The form in which the cache keys a directory: two paths get the same key
/// exactly when they have the same root and components, as `Path`
/// equality has it (so `/x` and `/x/` are one directory).
pub open spec fn path_key(s: Seq<char>) -> Seq<char> {
    if s.len() > 0 && s[0] == '/' {
        seq!['/'] + join_parts(path_components(s))
    } else {
        join_parts(path_components(s))
    }
}

/// A trailing separator does not change which directory a path names.
pub proof fn law_trailing_separator_same_key(s: Seq<char>)
    requires
        s.len() > 0,
    ensures
        path_key(s.push('/')) == path_key(s),
{
    assert(s.push('/').drop_last() =~= s);
    assert(s.push('/')[0] == s[0]);
}

/// The key under which the cache holds the directory `dir`.
pub fn path_key_of(dir: &str) -> (r: String)
    ensures
        r@ == path_key(dir@),
{
    let s = chars_of(dir);
    let mut kept: Vec<Vec<char>> = Vec::new();
    let mut cur: Vec<char> = Vec::new();
    let mut idx: usize = 0;
    let mut i: usize = 0;
    while i < s.len()
        invariant
            i <= s@.len(),
            idx <= i,
            s@ == dir@,
            (kept@.map_values(|p: Vec<char>| p@), cur@, idx as nat) == split_state(s@.take(i as int)),
        decreases s@.len() - i,
    {
        assert(s@.take(i + 1).drop_last() =~= s@.take(i as int));
        assert(s@.take(i + 1).last() == s@[i as int]);
        if s[i] == '/' {
            let keep = cur.len() > 0 && !(cur.len() == 1 && cur[0] == '.' && idx > 0);
            assert(keep == keeps_part(cur@, idx as nat)) by {
                if cur@.len() == 1 && cur@[0] == '.' {
                    assert(cur@ =~= seq!['.']);
                }
            }
            if keep {
                let ghost before = kept@;
                let c = cur.clone();
                kept.push(c);
                assert(kept@.map_values(|p: Vec<char>| p@) =~= before.map_values(
                    |p: Vec<char>| p@,
                ).push(cur@));
            }
            cur = Vec::new();
            idx += 1;
        } else {
            cur.push(s[i]);
        }
        i += 1;
    }
    assert(s@.take(s@.len() as int) =~= s@);
    let keep = cur.len() > 0 && !(cur.len() == 1 && cur[0] == '.' && idx > 0);
    assert(keep == keeps_part(cur@, idx as nat)) by {
        if cur@.len() == 1 && cur@[0] == '.' {
            assert(cur@ =~= seq!['.']);
        }
    }
    if keep {
        let ghost before = kept@;
        let ghost cv = cur@;
        kept.push(cur);
        assert(kept@.map_values(|p: Vec<char>| p@) =~= before.map_values(|p: Vec<char>| p@).push(
            cv,
        ));
    }
    let ghost parts = path_components(dir@);
    assert(kept@.map_values(|p: Vec<char>| p@) =~= parts);
    let mut out: Vec<char> = Vec::new();
    if s.len() > 0 && s[0] == '/' {
        out.push('/');
    }
    let ghost head = out@;
    let mut k: usize = 0;
    while k < kept.len()
        invariant
            k <= kept@.len(),
            kept@.map_values(|p: Vec<char>| p@) == parts,
            out@ == head + join_parts(parts.take(k as int)),
        decreases kept@.len() - k,
    {
        assert(parts.take(k + 1).drop_last() =~= parts.take(k as int));
        assert(parts.take(k + 1).last() == kept@[k as int]@);
        if k > 0 {
            out.push('/');
        }
        crate::text::push_chars(&mut out, &kept[k]);
        assert(out@ =~= head + join_parts(parts.take(k + 1)));
        k += 1;
    }
    assert(parts.take(kept@.len() as int) =~= parts);
    assert(out@ =~= path_key(dir@));
    string_of(&out)
}

/// The paths of the tracked files of `dir`, in the tracked order.
pub open spec fn spec_tracked_paths(dir: Seq<char>) -> Seq<Seq<char>> {
    tracked_names().map_values(|n: Seq<char>| path_join(dir, n))
}

/// The paths of the files of `dir` whose stamps decide whether its cache
/// entry is fresh.
pub fn tracked_paths(dir: &str) -> (r: Vec<String>)
    ensures
        strings_view(r@) == spec_tracked_paths(dir@),
{
    let names = tracked_file_names();
    let ghost want = spec_tracked_paths(dir@);
    let mut out: Vec<String> = Vec::new();
    let mut i: usize = 0;
    while i < names.len()
        invariant
            i <= names.len(),
            names@.map_values(|n: &str| n@) == tracked_names(),
            want == spec_tracked_paths(dir@),
            strings_view(out@) == want.take(i as int),
        decreases names.len() - i,
    {
        let p = join_path(dir, names[i]);
        assert(p@ == want[i as int]);
        let ghost before = out@;
        out.push(p);
        proof {
            lemma_strings_view_push(before, p);
            assert(want.take(i + 1) =~= want.take(i as int).push(want[i as int]));
        }
        i += 1;
    }
    assert(want.take(names.len() as int) =~= want);
    out
}

/// The stamp recorded for `path` (the first one), `Missing` without one.
pub open spec fn stamp_of(obs: Seq<PathStamp>, path: Seq<char>) -> FileStamp
    decreases obs.len(),
{
    if obs.len() == 0 {
        FileStamp::Missing
    } else if obs[0].path@ == path {
        obs[0].stamp
    } else {
        stamp_of(obs.drop_first(), path)
    }
}

/// The stamps that the cache records for a directory: every observed path
/// with its stamp, absent files included, so that a tracked file that
/// appears later makes the entry stale.
pub open spec fn spec_collect_mtimes(obs: Seq<PathStamp>) -> Seq<(Seq<char>, FileStamp)> {
    obs.map_values(|o: PathStamp| (o.path@, o.stamp))
}

/// A recorded stamp still holds: a file that was absent is still absent, a
/// file that existed still exists, and a modification time that was read
/// is the same where it can be read now.
pub open spec fn still_holds(obs: Seq<PathStamp>, m: (Seq<char>, FileStamp)) -> bool {
    let now = stamp_of(obs, m.0);
    match m.1 {
        FileStamp::Missing => now == FileStamp::Missing,
        FileStamp::NoModTime => now != FileStamp::Missing,
        FileStamp::Modified(t) => match now {
            FileStamp::Missing => false,
            FileStamp::NoModTime => true,
            FileStamp::Modified(t2) => t2 == t,
        },
    }
}

/// Every recorded stamp still holds.
pub open spec fn fresh(stamps: Seq<(Seq<char>, FileStamp)>, obs: Seq<PathStamp>) -> bool {
    forall|k: int| 0 <= k < stamps.len() ==> still_holds(obs, #[trigger] stamps[k])
}

/// The tracked files of `dir` that exist.
pub open spec fn existing(paths: Seq<Seq<char>>, obs: Seq<PathStamp>) -> Seq<Seq<char>>
    decreases paths.len(),
{
    if paths.len() == 0 {
        seq![]
    } else {
        let prev = existing(paths.drop_last(), obs);
        if stamp_of(obs, paths.last()) != FileStamp::Missing {
            prev.push(paths.last())
        } else {
            prev
        }
    }
}

/// No path is observed twice.
pub open spec fn distinct_paths(obs: Seq<PathStamp>) -> bool {
    forall|i: int, j: int| 0 <= i < j < obs.len() ==> obs[i].path@ != obs[j].path@
}

proof fn lemma_stamp_at(obs: Seq<PathStamp>, i: int)
    requires
        distinct_paths(obs),
        0 <= i < obs.len(),
    ensures
        stamp_of(obs, obs[i].path@) == obs[i].stamp,
    decreases i,
{
    if i > 0 {
        let rest = obs.drop_first();
        assert(obs[0].path@ != obs[i].path@);
        assert(rest[i - 1] == obs[i]);
        assert forall|a: int, b: int| 0 <= a < b < rest.len() implies rest[a].path@ != rest[b].path@ by {
            assert(rest[a] == obs[a + 1] && rest[b] == obs[b + 1]);
        }
        lemma_stamp_at(rest, i - 1);
    }
}

/// What the cache records for a directory from a set of observations is
/// fresh for the same observations: a read right after a write gives back
/// the tools written, as long as no path is observed twice.
pub proof fn law_read_after_write(
    m: Map<Seq<char>, EntryView>,
    dir: Seq<char>,
    tools: Seq<(crate::tools::Tool, Seq<(Seq<char>, Seq<char>)>)>,
    obs: Seq<PathStamp>,
)
    requires
        distinct_paths(obs),
    ensures
        ({
            let m2 = m.insert(dir, (tools, spec_collect_mtimes(obs)));
            &&& m2.contains_key(dir)
            &&& m2[dir].0 == tools
            &&& fresh(m2[dir].1, obs)
        }),
{
    let c = spec_collect_mtimes(obs);
    assert forall|k: int| 0 <= k < c.len() implies still_holds(obs, #[trigger] c[k]) by {
        lemma_stamp_at(obs, k);
    }
}

/// What makes a recorded entry stale: a tracked file that was absent and
/// exists now, a file that existed and is gone, or a modification time that
/// can be read now and differs from the recorded one.
pub proof fn law_what_makes_an_entry_stale(
    stamps: Seq<(Seq<char>, FileStamp)>,
    obs: Seq<PathStamp>,
    k: int,
)
    requires
        0 <= k < stamps.len(),
    ensures
        stamps[k].1 == FileStamp::Missing && stamp_of(obs, stamps[k].0) != FileStamp::Missing
            ==> !fresh(stamps, obs),
        stamps[k].1 != FileStamp::Missing && stamp_of(obs, stamps[k].0) == FileStamp::Missing
            ==> !fresh(stamps, obs),
        (stamps[k].1 matches FileStamp::Modified(t) && stamp_of(obs, stamps[k].0) matches FileStamp::Modified(
            t2,
        ) && t != t2) ==> !fresh(stamps, obs),
        fresh(stamps, obs) ==> (stamps[k].1 == FileStamp::Missing <==> stamp_of(obs, stamps[k].0)
            == FileStamp::Missing),
{
    assert(fresh(stamps, obs) ==> still_holds(obs, stamps[k]));
}

/// Writing or invalidating one directory leaves what the cache holds for
/// every other directory as it was, and an invalidated directory is gone.
pub proof fn law_other_directories_untouched(
    m: Map<Seq<char>, EntryView>,
    dir: Seq<char>,
    other: Seq<char>,
    e: EntryView,
)
    requires
        other != dir,
    ensures
        m.insert(dir, e).contains_key(other) == m.contains_key(other),
        m.contains_key(other) ==> m.insert(dir, e)[other] == m[other],
        m.remove(dir).contains_key(other) == m.contains_key(other),
        m.contains_key(other) ==> m.remove(dir)[other] == m[other],
        !m.remove(dir).contains_key(dir),
{
}

fn find_stamp(obs: &Vec<PathStamp>, path: &Vec<char>) -> (r: FileStamp)
    ensures
        r == stamp_of(obs@, path@),
{
    let mut i: usize = 0;
    assert(obs@.skip(0) =~= obs@);
    while i < obs.len()
        invariant
            i <= obs.len(),
            stamp_of(obs@, path@) == stamp_of(obs@.skip(i as int), path@),
        decreases obs.len() - i,
    {
        let ghost rest = obs@.skip(i as int);
        assert(rest[0] == obs@[i as int]);
        assert(rest.drop_first() =~= obs@.skip(i + 1));
        let p = chars_of(obs[i].path.as_str());
        if chars_eq(&p, path) {
            return obs[i].stamp;
        }
        i += 1;
    }
    FileStamp::Missing
}

/// The stamps that the cache records from the observations.
pub fn collect_mtimes(obs: &Vec<PathStamp>) -> (r: Vec<(String, FileStamp)>)
    ensures
        r@.map_values(|m: (String, FileStamp)| (m.0@, m.1)) == spec_collect_mtimes(obs@),
{
    let mut out: Vec<(String, FileStamp)> = Vec::new();
    let mut i: usize = 0;
    while i < obs.len()
        invariant
            i <= obs.len(),
            out@.map_values(|m: (String, FileStamp)| (m.0@, m.1)) == spec_collect_mtimes(
                obs@.take(i as int),
            ),
        decreases obs.len() - i,
    {
        let path = obs[i].path.clone();
        let stamp = obs[i].stamp;
        let ghost before = out@;
        out.push((path, stamp));
        assert(out@.map_values(|m: (String, FileStamp)| (m.0@, m.1)) =~= before.map_values(
            |m: (String, FileStamp)| (m.0@, m.1),
        ).push((obs@[i as int].path@, obs@[i as int].stamp)));
        assert(obs@.take(i + 1) =~= obs@.take(i as int).push(obs@[i as int]));
        i += 1;
        assert(out@.map_values(|m: (String, FileStamp)| (m.0@, m.1)) =~= spec_collect_mtimes(
            obs@.take(i as int),
        ));
    }
    assert(obs@.take(obs.len() as int) =~= obs@);
    out
}

/// Returns the tracked files of `dir` that exist.
pub fn tracked_files_in(dir: &str, obs: &Vec<PathStamp>) -> (r: Vec<String>)
    ensures
        strings_view(r@) == existing(spec_tracked_paths(dir@), obs@),
{
    let paths = tracked_paths(dir);
    let ghost pv = strings_view(paths@);
    let mut out: Vec<String> = Vec::new();
    let mut i: usize = 0;
    while i < paths.len()
        invariant
            i <= paths.len(),
            pv == strings_view(paths@),
            strings_view(out@) == existing(pv.take(i as int), obs@),
        decreases paths.len() - i,
    {
        assert(pv.take(i + 1).drop_last() =~= pv.take(i as int));
        assert(pv[i as int] == paths@[i as int]@);
        let p = chars_of(paths[i].as_str());
        if find_stamp(obs, &p) != FileStamp::Missing {
            let c = paths[i].clone();
            let ghost before = out@;
            out.push(c);
            proof {
                lemma_strings_view_push(before, c);
            }
        }
        i += 1;
    }
    assert(pv.take(paths.len() as int) =~= pv);
    out
}

struct CacheEntry {
    dir: String,
    tools: Vec<ToolScripts>,
    mtimes: Vec<(String, FileStamp)>,
}

/// What the cache holds for one directory: its tools and the modification
/// times of its tracked files when they were scanned.
pub type EntryView = (Seq<(crate::tools::Tool, Seq<(Seq<char>, Seq<char>)>)>, Seq<(Seq<char>, FileStamp)>);

impl CacheEntry {
    spec fn view(self) -> EntryView {
        (tool_scripts_view(self.tools@), self.mtimes@.map_values(|m: (String, FileStamp)| (m.0@, m.1)))
    }
}

spec fn entries_map(es: Seq<CacheEntry>) -> Map<Seq<char>, EntryView>
    decreases es.len(),
{
    if es.len() == 0 {
        Map::empty()
    } else {
        entries_map(es.drop_last()).insert(es.last().dir@, es.last().view())
    }
}

spec fn distinct_dirs(es: Seq<CacheEntry>) -> bool {
    forall|i: int, j: int| 0 <= i < j < es.len() ==> es[i].dir@ != es[j].dir@
}

proof fn lemma_entries_map(es: Seq<CacheEntry>)
    requires
        distinct_dirs(es),
    ensures
        forall|k: Seq<char>|
            #[trigger] entries_map(es).contains_key(k) <==> exists|i: int|
                0 <= i < es.len() && es[i].dir@ == k,
        forall|i: int|
            0 <= i < es.len() ==> #[trigger] entries_map(es)[es[i].dir@] == es[i].view(),
    decreases es.len(),
{
    if es.len() > 0 {
        let p = es.drop_last();
        lemma_entries_map(p);
        assert forall|k: Seq<char>| #[trigger] entries_map(es).contains_key(k) <==> exists|i: int|
            0 <= i < es.len() && es[i].dir@ == k by {
            if entries_map(es).contains_key(k) && k != es.last().dir@ {
                assert(entries_map(p).contains_key(k));
                let i = choose|i: int| 0 <= i < p.len() && p[i].dir@ == k;
                assert(p[i] == es[i]);
                assert(es[i].dir@ == k);
            }
            if exists|i: int| 0 <= i < es.len() && es[i].dir@ == k {
                let i = choose|i: int| 0 <= i < es.len() && es[i].dir@ == k;
                if i < es.len() - 1 {
                    assert(p[i] == es[i]);
                    assert(p[i].dir@ == k);
                    assert(entries_map(p).contains_key(k));
                }
            }
        }
        assert forall|i: int| 0 <= i < es.len() implies #[trigger] entries_map(es)[es[i].dir@]
            == es[i].view() by {
            if i < es.len() - 1 {
                assert(p[i] == es[i]);
                assert(es[i].dir@ != es.last().dir@);
                assert(entries_map(p)[p[i].dir@] == p[i].view());
            }
        }
    }
}

/// The tools found per directory, each with the stamps of the directory's
/// tracked files (absent ones included) at the time of the scan.
pub struct DirectoryCache {
    entries: Vec<CacheEntry>,
}

impl View for DirectoryCache {
    type V = Map<Seq<char>, EntryView>;

    closed spec fn view(&self) -> Map<Seq<char>, EntryView> {
        entries_map(self.entries@)
    }
}

impl DirectoryCache {
    #[verifier::type_invariant]
    spec fn well_formed(self) -> bool {
        distinct_dirs(self.entries@)
    }

    pub fn new() -> (r: Self)
        ensures
            r@ == Map::<Seq<char>, EntryView>::empty(),
    {
        DirectoryCache { entries: Vec::new() }
    }

    fn position(&self, dir: &str) -> (r: Option<usize>)
        ensures
            match r {
                Some(i) => i < self.entries@.len() && self.entries@[i as int].dir@ == dir@,
                None => forall|i: int|
                    0 <= i < self.entries@.len() ==> self.entries@[i].dir@ != dir@,
            },
    {
        let key = chars_of(dir);
        let mut i: usize = 0;
        while i < self.entries.len()
            invariant
                i <= self.entries@.len(),
                key@ == dir@,
                forall|j: int| 0 <= j < i ==> self.entries@[j].dir@ != dir@,
            decreases self.entries@.len() - i,
        {
            let d = chars_of(self.entries[i].dir.as_str());
            if chars_eq(&d, &key) {
                return Some(i);
            }
            i += 1;
        }
        None
    }

    fn get_key(&self, dir: &str, obs: &Vec<PathStamp>) -> (r: Option<&[ToolScripts]>)
        ensures
            match r {
                Some(ts) => self@.contains_key(dir@) && fresh(self@[dir@].1, obs@)
                    && tool_scripts_view(ts@) == self@[dir@].0,
                None => !(self@.contains_key(dir@) && fresh(self@[dir@].1, obs@)),
            },
    {
        proof {
            use_type_invariant(self);
            lemma_entries_map(self.entries@);
        }
        let i = match self.position(dir) {
            Some(i) => i,
            None => {
                assert(!self@.contains_key(dir@));
                return None;
            },
        };
        let entry = &self.entries[i];
        assert(self@[dir@] == entry.view());
        assert(self@.contains_key(dir@));
        let ghost mv = entry.mtimes@.map_values(|m: (String, FileStamp)| (m.0@, m.1));
        let mut k: usize = 0;
        while k < entry.mtimes.len()
            invariant
                k <= entry.mtimes@.len(),
                mv == entry.mtimes@.map_values(|m: (String, FileStamp)| (m.0@, m.1)),
                self@.contains_key(dir@),
                self@[dir@].1 == mv,
                forall|j: int| 0 <= j < k ==> still_holds(obs@, #[trigger] mv[j]),
            decreases entry.mtimes@.len() - k,
        {
            let p = chars_of(entry.mtimes[k].0.as_str());
            let now = find_stamp(obs, &p);
            let holds = match entry.mtimes[k].1 {
                FileStamp::Missing => now == FileStamp::Missing,
                FileStamp::NoModTime => now != FileStamp::Missing,
                FileStamp::Modified(t) => match now {
                    FileStamp::Missing => false,
                    FileStamp::NoModTime => true,
                    FileStamp::Modified(t2) => t2 == t,
                },
            };
            assert(holds == still_holds(obs@, mv[k as int]));
            if !holds {
                assert(self@[dir@].1[k as int] == mv[k as int]);
                assert(!fresh(self@[dir@].1, obs@));
                return None;
            }
            k += 1;
        }
        Some(entry.tools.as_slice())
    }

    fn invalidate_key(&mut self, dir: &str)
        ensures
            final(self)@ == old(self)@.remove(dir@),
    {
        proof {
            use_type_invariant(&*self);
        }
        let key = chars_of(dir);
        let ghost es = self.entries@;
        let mut kept: Vec<CacheEntry> = Vec::new();
        let mut old_entries: Vec<CacheEntry> = Vec::new();
        std::mem::swap(&mut old_entries, &mut self.entries);
        assert(old_entries@ == es);
        assert(es.len() == old_entries.len());
        assert(es.skip(0) =~= es);
        let mut i: usize = 0;
        while old_entries.len() > 0
            invariant
                i + old_entries@.len() == es.len(),
                es.len() <= usize::MAX,
                old_entries@ == es.skip(i as int),
                key@ == dir@,
                distinct_dirs(es),
                distinct_dirs(kept@),
                forall|j: int|
                    0 <= j < kept@.len() ==> #[trigger] kept@[j].dir@ != dir@ && exists|m: int|
                        0 <= m < i && es[m].dir@ == kept@[j].dir@,
                entries_map(kept@) == entries_map(es.take(i as int)).remove(dir@),
            decreases old_entries@.len(),
        {
            let e = old_entries.remove(0);
            assert(e == es[i as int]);
            assert(old_entries@ =~= es.skip(i + 1));
            assert(es.take(i + 1).drop_last() =~= es.take(i as int));
            let d = chars_of(e.dir.as_str());
            if chars_eq(&d, &key) {
                assert(entries_map(es.take(i + 1)).remove(dir@) =~= entries_map(
                    es.take(i as int),
                ).remove(dir@));
            } else {
                let ghost before = kept@;
                kept.push(e);
                assert(kept@.drop_last() =~= before);
                assert(entries_map(kept@) =~= entries_map(es.take(i + 1)).remove(dir@));
                assert forall|a: int, b: int| 0 <= a < b < kept@.len() implies kept@[a].dir@
                    != kept@[b].dir@ by {
                    if b == kept@.len() - 1 {
                        assert(kept@[a] == before[a]);
                        let m = choose|m: int| 0 <= m < i && es[m].dir@ == before[a].dir@;
                        assert(es[m].dir@ != es[i as int].dir@);
                    } else {
                        assert(kept@[a] == before[a] && kept@[b] == before[b]);
                    }
                }
                assert forall|j: int| 0 <= j < kept@.len() implies #[trigger] kept@[j].dir@
                    != dir@ && exists|m: int| 0 <= m < i + 1 && es[m].dir@ == kept@[j].dir@ by {
                    if j == kept@.len() - 1 {
                        assert(es[i as int].dir@ == kept@[j].dir@);
                    } else {
                        assert(kept@[j] == before[j]);
                        let m = choose|m: int| 0 <= m < i && es[m].dir@ == before[j].dir@;
                        assert(es[m].dir@ == kept@[j].dir@);
                    }
                }
            }
            i += 1;
        }
        assert(es.take(es.len() as int) =~= es);
        self.entries = kept;
    }

    /// Get cached tools for a directory, or `None` if stale or missing:
    /// stale when a tracked file that was absent exists now, one that
    /// existed is gone, or one has another modification time now. `obs`
    /// holds the stamps of the directory's tracked files as they are now.
    pub fn get(&self, dir: &str, obs: &Vec<PathStamp>) -> (r: Option<&[ToolScripts]>)
        ensures
            match r {
                Some(ts) => self@.contains_key(path_key(dir@)) && fresh(self@[path_key(dir@)].1, obs@)
                    && tool_scripts_view(ts@) == self@[path_key(dir@)].0,
                None => !(self@.contains_key(path_key(dir@)) && fresh(
                    self@[path_key(dir@)].1,
                    obs@,
                )),
            },
    {
        let key = path_key_of(dir);
        self.get_key(key.as_str(), obs)
    }

    /// Invalidate the cache for a directory.
    pub fn invalidate(&mut self, dir: &str)
        ensures
            final(self)@ == old(self)@.remove(path_key(dir@)),
    {
        let key = path_key_of(dir);
        self.invalidate_key(key.as_str());
    }

    /// Insert or update the cache for a directory. `obs` holds the stamps of
    /// the directory's tracked files as they are now.
    pub fn insert(&mut self, dir: String, tools: Vec<ToolScripts>, obs: &Vec<PathStamp>)
        ensures
            final(self)@ == old(self)@.insert(
                path_key(dir@),
                (tool_scripts_view(tools@), spec_collect_mtimes(obs@)),
            ),
    {
        let dir = path_key_of(dir.as_str());
        self.invalidate_key(dir.as_str());
        proof {
            use_type_invariant(&*self);
        }
        let mtimes = collect_mtimes(obs);
        let e = CacheEntry { dir, tools, mtimes };
        let ghost before = self.entries@;
        proof {
            lemma_entries_map(before);
            assert forall|a: int, b: int| 0 <= a < b < before.len() + 1 implies (#[trigger] before.push(e)[a]).dir@
                != (#[trigger] before.push(e)[b]).dir@ by {
                if b == before.len() {
                    assert(!self@.contains_key(e.dir@));
                    assert(before[a].dir@ != e.dir@);
                }
            }
        }
        let mut es: Vec<CacheEntry> = Vec::new();
        std::mem::swap(&mut es, &mut self.entries);
        es.push(e);
        self.entries = es;
        assert(self.entries@.drop_last() =~= before);
        assert(self@ =~= old(self)@.insert(
            e.dir@,
            (tool_scripts_view(e.tools@), spec_collect_mtimes(obs@)),
        ));
    }

    /// List all cached directories, by their keys.
    pub fn cached_dirs(&self) -> (r: Vec<String>)
        ensures
            strings_view(r@).to_set() == self@.dom(),
            strings_view(r@).no_duplicates(),
    {
        proof {
            use_type_invariant(self);
            lemma_entries_map(self.entries@);
        }
        let mut out: Vec<String> = Vec::new();
        let mut i: usize = 0;
        while i < self.entries.len()
            invariant
                i <= self.entries@.len(),
                distinct_dirs(self.entries@),
                out@.len() == i,
                forall|j: int| 0 <= j < i ==> #[trigger] out@[j]@ == self.entries@[j].dir@,
            decreases self.entries@.len() - i,
        {
            out.push(self.entries[i].dir.clone());
            i += 1;
        }
        let ghost dv = strings_view(out@);
        assert(dv.to_set() =~= self@.dom()) by {
            assert forall|k: Seq<char>| dv.to_set().contains(k) <==> self@.contains_key(k) by {
                if dv.to_set().contains(k) {
                    let j = choose|j: int| 0 <= j < dv.len() && dv[j] == k;
                    assert(self.entries@[j].dir@ == k);
                }
                if self@.contains_key(k) {
                    let j = choose|j: int| 0 <= j < self.entries@.len() && self.entries@[j].dir@ == k;
                    assert(dv[j] == k);
                }
            }
        }
        out
    }
}

impl Default for DirectoryCache {
    fn default() -> (r: Self)
        ensures
            r@ == Map::<Seq<char>, EntryView>::empty(),
    {
        DirectoryCache::new()
    }
}

} // verus!
