//! The tools that suggestions are offered for, and how a command line names one.
use vstd::prelude::*;

use crate::manifests::{
    compose_services, compose_services_in, duplicate_entries, entries_view,
    lemma_entries_view_push, makefile_entries, makefile_targets_in, package_scripts,
    package_scripts_in, JsonValue, ScriptEntry,
};
use crate::text::{chars_eq, chars_of, has_prefix, starts_with, string_of, subvec};

verus! {

#[derive(Debug, Clone, Copy, PartialEq, Eq, Structural, Hash)]
pub enum Tool {
    Pnpm,
    Npm,
    Yarn,
    Bun,
    Make,
    DockerCompose,
    Cargo,
}

/// Every tool, in the order in which command lines are matched against them.
pub open spec fn all_tools() -> Seq<Tool> {
    seq![
        Tool::Pnpm,
        Tool::Npm,
        Tool::Yarn,
        Tool::Bun,
        Tool::Make,
        Tool::DockerCompose,
        Tool::Cargo,
    ]
}

impl Tool {
    pub open spec fn spec_command_prefix(self) -> Seq<char> {
        match self {
            Tool::Pnpm => "pnpm "@,
            Tool::Npm => "npm run "@,
            Tool::Yarn => "yarn "@,
            Tool::Bun => "bun run "@,
            Tool::Make => "make "@,
            Tool::DockerCompose => "docker compose "@,
            Tool::Cargo => "cargo "@,
        }
    }

    pub open spec fn spec_name(self) -> Seq<char> {
        match self {
            Tool::Pnpm => "pnpm"@,
            Tool::Npm => "npm"@,
            Tool::Yarn => "yarn"@,
            Tool::Bun => "bun"@,
            Tool::Make => "make"@,
            Tool::DockerCompose => "docker compose"@,
            Tool::Cargo => "cargo"@,
        }
    }

    /// The command prefixes that trigger suggestions for this tool, in order.
    pub open spec fn spec_trigger_prefixes(self) -> Seq<Seq<char>> {
        match self {
            Tool::Pnpm => seq!["pnpm "@, "pnpm run "@],
            Tool::Npm => seq!["npm run "@],
            Tool::Yarn => seq!["yarn "@, "yarn run "@],
            Tool::Bun => seq!["bun run "@],
            Tool::Make => seq!["make "@],
            Tool::DockerCompose => seq!["docker compose "@, "docker-compose "@],
            Tool::Cargo => seq!["cargo "@],
        }
    }

    /// The prefix with which a command for this tool is written.
    pub fn command_prefix(&self) -> (r: &'static str)
        ensures
            r@ == self.spec_command_prefix(),
    {
        match self {
            Tool::Pnpm => "pnpm ",
            Tool::Npm => "npm run ",
            Tool::Yarn => "yarn ",
            Tool::Bun => "bun run ",
            Tool::Make => "make ",
            Tool::DockerCompose => "docker compose ",
            Tool::Cargo => "cargo ",
        }
    }

    /// The tool's display name.
    pub fn name(&self) -> (r: &'static str)
        ensures
            r@ == self.spec_name(),
    {
        match self {
            Tool::Pnpm => "pnpm",
            Tool::Npm => "npm",
            Tool::Yarn => "yarn",
            Tool::Bun => "bun",
            Tool::Make => "make",
            Tool::DockerCompose => "docker compose",
            Tool::Cargo => "cargo",
        }
    }

    /// All command prefixes that should trigger suggestions for this tool.
    pub fn trigger_prefixes(&self) -> (r: &'static [&'static str])
        ensures
            r@.map_values(|p: &str| p@) == self.spec_trigger_prefixes(),
    {
        let r: &'static [&'static str] = match self {
            Tool::Pnpm => &["pnpm ", "pnpm run "],
            Tool::Npm => &["npm run "],
            Tool::Yarn => &["yarn ", "yarn run "],
            Tool::Bun => &["bun run "],
            Tool::Make => &["make "],
            Tool::DockerCompose => &["docker compose ", "docker-compose "],
            Tool::Cargo => &["cargo "],
        };
        assert(r@.map_values(|p: &str| p@) =~= self.spec_trigger_prefixes());
        r
    }
}


/// The (tool, prefix) pairs of `tools`, each tool's prefixes in their order.
pub open spec fn candidates_of(tools: Seq<Tool>) -> Seq<(Tool, Seq<char>)>
    decreases tools.len(),
{
    if tools.len() == 0 {
        seq![]
    } else {
        let t = tools.last();
        candidates_of(tools.drop_last()) + t.spec_trigger_prefixes().map_values(
            |p: Seq<char>| (t, p),
        )
    }
}

pub open spec fn all_candidates() -> Seq<(Tool, Seq<char>)> {
    candidates_of(all_tools())
}

/// Length that a best match so far has claimed, 0 for none.
pub open spec fn claimed_len(best: Option<(Tool, nat)>) -> nat {
    match best {
        Some((_, n)) => n,
        None => 0,
    }
}

/// Walks `cands` in order and keeps a candidate whose prefix starts `line`
/// and is strictly longer than the one kept so far.
pub open spec fn best_prefix(cands: Seq<(Tool, Seq<char>)>, line: Seq<char>) -> Option<(Tool, nat)>
    decreases cands.len(),
{
    if cands.len() == 0 {
        None
    } else {
        let prev = best_prefix(cands.drop_last(), line);
        let (t, p) = cands.last();
        if starts_with(line, p) && p.len() > claimed_len(prev) {
            Some((t, p.len()))
        } else {
            prev
        }
    }
}

/// The tool that `line` invokes and the text after its trigger prefix.
pub open spec fn spec_match_tool_prefix(line: Seq<char>) -> Option<(Tool, Seq<char>)> {
    match best_prefix(all_candidates(), line) {
        Some((t, n)) => Some((t, line.skip(n as int))),
        None => None,
    }
}

pub proof fn lemma_best_prefix(cands: Seq<(Tool, Seq<char>)>, line: Seq<char>)
    ensures
        match best_prefix(cands, line) {
            None => forall|k: int|
                0 <= k < cands.len() ==> !(starts_with(line, (#[trigger] cands[k]).1) && cands[k].1.len()
                    > 0),
            Some((t, n)) => n > 0 && exists|k: int|
                #![trigger cands[k]]
                0 <= k < cands.len() && cands[k].0 == t && cands[k].1.len() == n && starts_with(
                    line,
                    cands[k].1,
                ) && (forall|j: int|
                    0 <= j < cands.len() && starts_with(line, (#[trigger] cands[j]).1)
                        ==> cands[j].1.len() <= n) && (forall|j: int|
                    0 <= j < k && starts_with(line, (#[trigger] cands[j]).1) ==> cands[j].1.len()
                        < n),
        },
    decreases cands.len(),
{
    if cands.len() > 0 {
        let prev_c = cands.drop_last();
        lemma_best_prefix(prev_c, line);
        let prev = best_prefix(prev_c, line);
        let (t, p) = cands.last();
        let last = cands.len() - 1;
        assert forall|j: int| 0 <= j < last implies #[trigger] cands[j] == prev_c[j] by {}
        if starts_with(line, p) && p.len() > claimed_len(prev) {
            assert(cands[last] == (t, p));
            match prev {
                None => {
                    assert forall|j: int|
                        0 <= j < last && starts_with(line, (#[trigger] cands[j]).1) implies cands[j].1.len()
                        < p.len() by {
                        assert(cands[j] == prev_c[j]);
                    }
                },
                Some((t2, n2)) => {
                    assert forall|j: int|
                        0 <= j < last && starts_with(line, (#[trigger] cands[j]).1) implies cands[j].1.len()
                        < p.len() by {
                        assert(cands[j] == prev_c[j]);
                    }
                },
            }
        } else {
            match prev {
                None => {
                    assert forall|k: int|
                        0 <= k < cands.len() implies !(starts_with(line, (#[trigger] cands[k]).1)
                        && cands[k].1.len() > 0) by {
                        if k < last {
                            assert(cands[k] == prev_c[k]);
                        }
                    }
                },
                Some((t2, n2)) => {
                    let k = choose|k: int|
                        #![trigger prev_c[k]]
                        0 <= k < prev_c.len() && prev_c[k].0 == t2 && prev_c[k].1.len() == n2
                            && starts_with(line, prev_c[k].1) && (forall|j: int|
                            0 <= j < prev_c.len() && starts_with(line, (#[trigger] prev_c[j]).1)
                                ==> prev_c[j].1.len() <= n2) && (forall|j: int|
                            0 <= j < k && starts_with(line, (#[trigger] prev_c[j]).1)
                                ==> prev_c[j].1.len() < n2);
                    assert(cands[k] == prev_c[k]);
                    assert forall|j: int|
                        0 <= j < cands.len() && starts_with(line, (#[trigger] cands[j]).1) implies cands[j].1.len()
                        <= n2 by {
                        if j < last {
                            assert(cands[j] == prev_c[j]);
                        }
                    }
                    assert forall|j: int|
                        0 <= j < k && starts_with(line, (#[trigger] cands[j]).1) implies cands[j].1.len()
                        < n2 by {
                        assert(cands[j] == prev_c[j]);
                    }
                },
            }
        }
    }
}

/// Of the trigger prefixes that a line starts with, the longest decides the
/// tool (the earliest listed among equally long ones), and the filter is the
/// rest of the line; a line that starts with no non-empty trigger prefix
/// names no tool.
pub proof fn law_longest_trigger_prefix_wins(line: Seq<char>)
    ensures
        match spec_match_tool_prefix(line) {
            None => forall|k: int|
                0 <= k < all_candidates().len() ==> !(starts_with(line, (#[trigger] all_candidates()[k]).1)
                    && all_candidates()[k].1.len() > 0),
            Some((t, f)) => exists|k: int|
                #![trigger all_candidates()[k]]
                0 <= k < all_candidates().len() && all_candidates()[k].0 == t && starts_with(
                    line,
                    all_candidates()[k].1,
                ) && f == line.skip(all_candidates()[k].1.len() as int) && (forall|j: int|
                    0 <= j < all_candidates().len() && starts_with(line, (#[trigger] all_candidates()[j]).1)
                        ==> all_candidates()[j].1.len() <= all_candidates()[k].1.len()),
        },
{
    lemma_best_prefix(all_candidates(), line);
}

/// Every (tool, trigger prefix) pair, in matching order.
proof fn lemma_all_candidates()
    ensures
        all_candidates() == seq![
            (Tool::Pnpm, "pnpm "@),
            (Tool::Pnpm, "pnpm run "@),
            (Tool::Npm, "npm run "@),
            (Tool::Yarn, "yarn "@),
            (Tool::Yarn, "yarn run "@),
            (Tool::Bun, "bun run "@),
            (Tool::Make, "make "@),
            (Tool::DockerCompose, "docker compose "@),
            (Tool::DockerCompose, "docker-compose "@),
            (Tool::Cargo, "cargo "@),
        ],
{
    let ts = all_tools();
    reveal_with_fuel(candidates_of, 8);
    assert(ts.take(0) =~= seq![]);
    assert forall|k: int| 1 <= k <= 7 implies #[trigger] ts.take(k).drop_last() == ts.take(k - 1)
        && ts.take(k).last() == ts[k - 1] by {
        assert(ts.take(k).drop_last() =~= ts.take(k - 1));
    }
    assert(ts.take(7) =~= ts);
    let c1 = candidates_of(ts.take(1));
    assert(c1 =~= seq![(Tool::Pnpm, "pnpm "@), (Tool::Pnpm, "pnpm run "@)]);
    let c2 = candidates_of(ts.take(2));
    assert(c2 =~= c1.push((Tool::Npm, "npm run "@)));
    let c3 = candidates_of(ts.take(3));
    assert(c3 =~= c2 + seq![(Tool::Yarn, "yarn "@), (Tool::Yarn, "yarn run "@)]);
    let c4 = candidates_of(ts.take(4));
    assert(c4 =~= c3.push((Tool::Bun, "bun run "@)));
    let c5 = candidates_of(ts.take(5));
    assert(c5 =~= c4.push((Tool::Make, "make "@)));
    let c6 = candidates_of(ts.take(6));
    assert(c6 =~= c5 + seq![(Tool::DockerCompose, "docker compose "@), (Tool::DockerCompose, "docker-compose "@)]);
    let c7 = candidates_of(ts.take(7));
    assert(c7 =~= c6.push((Tool::Cargo, "cargo "@)));
}

/// A tool's command prefix is its first trigger prefix, and a line that is
/// just that prefix names the tool with an empty filter.
pub proof fn law_command_prefix_names_its_tool(t: Tool)
    ensures
        t.spec_command_prefix() == t.spec_trigger_prefixes()[0],
        spec_match_tool_prefix(t.spec_command_prefix()) == Some((t, Seq::<char>::empty())),
{
    lemma_all_candidates();
    let c = all_candidates();
    let line = t.spec_command_prefix();
    reveal_strlit("pnpm ");
    reveal_strlit("pnpm run ");
    reveal_strlit("npm run ");
    reveal_strlit("yarn ");
    reveal_strlit("yarn run ");
    reveal_strlit("bun run ");
    reveal_strlit("make ");
    reveal_strlit("docker compose ");
    reveal_strlit("docker-compose ");
    reveal_strlit("cargo ");
    lemma_best_prefix(c, line);
    let own: int = match t {
        Tool::Pnpm => 0,
        Tool::Npm => 2,
        Tool::Yarn => 3,
        Tool::Bun => 5,
        Tool::Make => 6,
        Tool::DockerCompose => 7,
        Tool::Cargo => 9,
    };
    assert(c[own] == (t, line));
    assert(starts_with(line, c[own].1)) by {
        assert(line.take(line.len() as int) =~= line);
    }
    match best_prefix(c, line) {
        Some((t2, n)) => {
            let k = choose|k: int|
                #![trigger c[k]]
                0 <= k < c.len() && c[k].0 == t2 && c[k].1.len() == n && starts_with(line, c[k].1)
                    && (forall|j: int| 0 <= j < c.len() && starts_with(line, (#[trigger] c[j]).1)
                    ==> c[j].1.len() <= n) && (forall|j: int|
                    0 <= j < k && starts_with(line, (#[trigger] c[j]).1) ==> c[j].1.len() < n);
            assert(n == line.len());
            assert(c[k].1 =~= line);
            assert(c[k].0 == t) by {
                assert(c[k].1 == c[own].1);
                if c[k].0 != t {
                    assert(c[k].1[0] != c[own].1[0] || c[k].1.len() != c[own].1.len()
                        || c[k].1[3] != c[own].1[3] || c[k].1[6] != c[own].1[6]);
                }
            }
            assert(line.skip(n as int) =~= Seq::<char>::empty());
        },
        None => {},
    }
}

/// The filter that a line yields is the end of the line after its prefix.
pub proof fn lemma_filter_is_suffix(line: Seq<char>)
    ensures
        spec_match_tool_prefix(line) matches Some((_, f)) ==> f.len() <= line.len() && f
            == line.skip(line.len() - f.len()),
{
    lemma_best_prefix(all_candidates(), line);
}

/// Given a command line, determine which tool is being invoked and extract
/// the filter text.
pub fn match_tool_prefix(line: &str) -> (r: Option<(Tool, String)>)
    ensures
        match (r, spec_match_tool_prefix(line@)) {
            (Some((t, f)), Some((t2, f2))) => t == t2 && f@ == f2,
            (None, None) => true,
            _ => false,
        },
{
    let tools: [Tool; 7] = [
        Tool::Pnpm,
        Tool::Npm,
        Tool::Yarn,
        Tool::Bun,
        Tool::Make,
        Tool::DockerCompose,
        Tool::Cargo,
    ];
    assert(tools@ =~= all_tools());
    let chars = chars_of(line);
    let mut best: Option<(Tool, usize)> = None;
    let mut i: usize = 0;
    while i < 7
        invariant
            i <= 7,
            tools@ == all_tools(),
            chars@ == line@,
            match best {
                Some((t, n)) => best_prefix(candidates_of(tools@.take(i as int)), line@)
                    == Some((t, n as nat)) && n <= chars.len(),
                None => best_prefix(candidates_of(tools@.take(i as int)), line@) is None,
            },
        decreases 7 - i,
    {
        let tool = tools[i];
        let prefixes = tool.trigger_prefixes();
        let ghost done = candidates_of(tools@.take(i as int));
        let ghost pairs = tool.spec_trigger_prefixes().map_values(|p: Seq<char>| (tool, p));
        assert(tools@.take(i + 1).drop_last() =~= tools@.take(i as int));
        assert(candidates_of(tools@.take(i + 1)) == done + pairs);
        let mut j: usize = 0;
        assert(done + pairs.take(0) =~= done);
        while j < prefixes.len()
            invariant
                j <= prefixes.len(),
                prefixes@.map_values(|p: &str| p@) == tool.spec_trigger_prefixes(),
                pairs == tool.spec_trigger_prefixes().map_values(|p: Seq<char>| (tool, p)),
                chars@ == line@,
                match best {
                    Some((t, n)) => best_prefix(done + pairs.take(j as int), line@) == Some(
                        (t, n as nat),
                    ) && n <= chars.len(),
                    None => best_prefix(done + pairs.take(j as int), line@) is None,
                },
            decreases prefixes.len() - j,
        {
            let p = chars_of(prefixes[j]);
            assert(p@ == tool.spec_trigger_prefixes()[j as int]);
            let ghost seen = done + pairs.take(j as int);
            assert((done + pairs.take(j + 1)).drop_last() =~= seen);
            assert((done + pairs.take(j + 1)).last() == (tool, p@));
            let claimed: usize = match best {
                Some((_, n)) => n,
                None => 0,
            };
            if has_prefix(&chars, &p) && p.len() > claimed {
                best = Some((tool, p.len()));
            }
            j += 1;
        }
        assert(pairs.take(prefixes.len() as int) =~= pairs);
        i += 1;
    }
    assert(tools@.take(7) =~= tools@);
    match best {
        Some((t, n)) => {
            let rest = subvec(&chars, n, chars.len());
            assert(rest@ =~= line@.skip(n as int));
            Some((t, string_of(&rest)))
        },
        None => None,
    }
}


// ---------------------------------------------------------------------------
// Directory contents
// ---------------------------------------------------------------------------
/// The scripts that one tool offers in a directory.
#[derive(Debug)]
pub struct ToolScripts {
    pub tool: Tool,
    pub entries: Vec<ScriptEntry>,
}

impl View for ToolScripts {
    type V = (Tool, Seq<(Seq<char>, Seq<char>)>);

    open spec fn view(&self) -> (Tool, Seq<(Seq<char>, Seq<char>)>) {
        (self.tool, entries_view(self.entries@))
    }
}

pub open spec fn tool_scripts_view(v: Seq<ToolScripts>) -> Seq<(Tool, Seq<(Seq<char>, Seq<char>)>)> {
    v.map_values(|t: ToolScripts| t@)
}

pub proof fn lemma_tool_scripts_view_push(s: Seq<ToolScripts>, t: ToolScripts)
    ensures
        tool_scripts_view(s.push(t)) == tool_scripts_view(s).push(t@),
{
    assert(tool_scripts_view(s.push(t)) =~= tool_scripts_view(s).push(t@));
}

impl ToolScripts {
    /// A copy with the same tool and equal entries.
    pub fn duplicate(&self) -> (r: ToolScripts)
        ensures
            r@ == self@,
    {
        ToolScripts { tool: self.tool, entries: duplicate_entries(&self.entries) }
    }
}

/// A file of a directory that tool detection looks at. `content` is its
/// text when it was read, `None` when it exists but could not be read (or
/// its text is not needed).
#[derive(Debug)]
pub struct TrackedFile {
    pub name: String,
    pub content: Option<String>,
}

/// What a directory holds of the files that tool detection looks at: the
/// files that exist, and the parsed package.json when it could be read and
/// parsed.
#[derive(Debug)]
pub struct DirSnapshot {
    pub files: Vec<TrackedFile>,
    pub package_json: Option<JsonValue>,
}

/// Why a project file gave no scripts.
#[derive(Debug, Clone, Copy, PartialEq, Eq, Structural)]
pub enum ScanError {
    /// The file does not exist.
    NotFound,
    /// The file exists and could not be read.
    Unreadable,
    /// The file is not valid JSON.
    InvalidJson,
}

/// The first file of `files` named `name`.
pub open spec fn find_file(files: Seq<TrackedFile>, name: Seq<char>) -> Option<TrackedFile>
    decreases files.len(),
{
    if files.len() == 0 {
        None
    } else if files[0].name@ == name {
        Some(files[0])
    } else {
        find_file(files.drop_first(), name)
    }
}

impl DirSnapshot {
    pub open spec fn has(self, name: Seq<char>) -> bool {
        find_file(self.files@, name) is Some
    }

    /// The first of `names` that exists.
    pub open spec fn first_present(self, names: Seq<Seq<char>>) -> Option<Seq<char>>
        decreases names.len(),
    {
        if names.len() == 0 {
            None
        } else if self.has(names[0]) {
            Some(names[0])
        } else {
            self.first_present(names.drop_first())
        }
    }

    pub proof fn lemma_first_present(self, names: Seq<Seq<char>>)
        ensures
            self.first_present(names) matches Some(m) ==> self.has(m),
        decreases names.len(),
    {
        if names.len() > 0 && !self.has(names[0]) {
            self.lemma_first_present(names.drop_first());
        }
    }

    /// The file with the given name.
    pub fn lookup(&self, name: &str) -> (r: Option<&TrackedFile>)
        ensures
            match (r, find_file(self.files@, name@)) {
                (Some(f), Some(g)) => *f == g,
                (None, None) => true,
                _ => false,
            },
    {
        let key = chars_of(name);
        let mut i: usize = 0;
        assert(self.files@.skip(0) =~= self.files@);
        while i < self.files.len()
            invariant
                i <= self.files.len(),
                key@ == name@,
                find_file(self.files@, name@) == find_file(self.files@.skip(i as int), name@),
            decreases self.files.len() - i,
        {
            let ghost rest = self.files@.skip(i as int);
            assert(rest[0] == self.files@[i as int]);
            assert(rest.drop_first() =~= self.files@.skip(i + 1));
            let n = chars_of(self.files[i].name.as_str());
            if chars_eq(&n, &key) {
                return Some(&self.files[i]);
            }
            i += 1;
        }
        None
    }

    /// Whether a file with the given name exists.
    pub fn has_file(&self, name: &str) -> (r: bool)
        ensures
            r == self.has(name@),
    {
        self.lookup(name).is_some()
    }

    /// The first of `names` that exists.
    fn first_existing(&self, names: &[&'static str]) -> (r: Option<&'static str>)
        ensures
            match (r, self.first_present(names@.map_values(|n: &str| n@))) {
                (Some(n), Some(m)) => n@ == m,
                (None, None) => true,
                _ => false,
            },
    {
        let ghost nv = names@.map_values(|n: &str| n@);
        let mut i: usize = 0;
        assert(nv.skip(0) =~= nv);
        while i < names.len()
            invariant
                i <= names.len(),
                nv == names@.map_values(|n: &str| n@),
                self.first_present(nv) == self.first_present(nv.skip(i as int)),
            decreases names.len() - i,
        {
            let ghost rest = nv.skip(i as int);
            assert(rest[0] == names@[i as int]@);
            assert(rest.drop_first() =~= nv.skip(i + 1));
            if self.has_file(names[i]) {
                return Some(names[i]);
            }
            i += 1;
        }
        None
    }
}

pub open spec fn makefile_names() -> Seq<Seq<char>> {
    seq!["Makefile"@, "makefile"@, "GNUmakefile"@]
}

pub open spec fn compose_names() -> Seq<Seq<char>> {
    seq!["docker-compose.yml"@, "docker-compose.yaml"@, "compose.yml"@, "compose.yaml"@]
}

/// The names of the files whose changes can change what a directory offers.
pub open spec fn tracked_names() -> Seq<Seq<char>> {
    seq![
        "package.json"@,
        "pnpm-lock.yaml"@,
        "yarn.lock"@,
        "package-lock.json"@,
        "bun.lockb"@,
        "bun.lock"@,
        "Makefile"@,
        "makefile"@,
        "GNUmakefile"@,
        "docker-compose.yml"@,
        "docker-compose.yaml"@,
        "compose.yml"@,
        "compose.yaml"@,
        "Cargo.toml"@,
    ]
}

/// Files we track for cache invalidation per directory.
pub fn tracked_file_names() -> (r: &'static [&'static str])
    ensures
        r@.map_values(|n: &str| n@) == tracked_names(),
{
    let r: &'static [&'static str] = &[
        "package.json",
        "pnpm-lock.yaml",
        "yarn.lock",
        "package-lock.json",
        "bun.lockb",
        "bun.lock",
        "Makefile",
        "makefile",
        "GNUmakefile",
        "docker-compose.yml",
        "docker-compose.yaml",
        "compose.yml",
        "compose.yaml",
        "Cargo.toml",
    ];
    assert(r@.map_values(|n: &str| n@) =~= tracked_names());
    r
}

/// The tracked files whose text the scanner reads: package.json, the
/// Makefiles and the compose files.
pub open spec fn text_needed(name: Seq<char>) -> bool {
    text_names().contains(name)
}

pub open spec fn text_names() -> Seq<Seq<char>> {
    seq![
        "package.json"@,
        "Makefile"@,
        "makefile"@,
        "GNUmakefile"@,
        "docker-compose.yml"@,
        "docker-compose.yaml"@,
        "compose.yml"@,
        "compose.yaml"@,
    ]
}

/// Whether the scanner reads the text of the tracked file `name`.
pub fn needs_text(name: &str) -> (r: bool)
    ensures
        r == text_needed(name@),
{
    let n = chars_of(name);
    let names: &'static [&'static str] = &[
        "package.json",
        "Makefile",
        "makefile",
        "GNUmakefile",
        "docker-compose.yml",
        "docker-compose.yaml",
        "compose.yml",
        "compose.yaml",
    ];
    let ghost nv = names@.map_values(|m: &str| m@);
    assert(nv =~= text_names());
    let mut i: usize = 0;
    while i < names.len()
        invariant
            i <= names.len(),
            n@ == name@,
            nv == names@.map_values(|m: &str| m@),
            nv == text_names(),
            forall|j: int| 0 <= j < i ==> nv[j] != name@,
        decreases names.len() - i,
    {
        let m = chars_of(names[i]);
        assert(m@ == nv[i as int]);
        if chars_eq(&m, &n) {
            assert(nv.contains(name@));
            return true;
        }
        i += 1;
    }
    assert(!nv.contains(name@));
    false
}

/// Which package manager the lockfiles of a directory call for, in order
/// of priority: pnpm, yarn, npm, bun; npm for a package.json without a
/// lockfile.
pub open spec fn spec_detect_package_manager(snap: DirSnapshot) -> Option<Tool> {
    if snap.has("pnpm-lock.yaml"@) {
        Some(Tool::Pnpm)
    } else if snap.has("yarn.lock"@) {
        Some(Tool::Yarn)
    } else if snap.has("package-lock.json"@) {
        Some(Tool::Npm)
    } else if snap.has("bun.lockb"@) || snap.has("bun.lock"@) {
        Some(Tool::Bun)
    } else if snap.has("package.json"@) {
        Some(Tool::Npm)
    } else {
        None
    }
}

/// Detect which package manager to use based on lockfile presence
/// (pnpm-lock.yaml, yarn.lock, package-lock.json, then bun.lockb/bun.lock).
pub fn detect_package_manager(snap: &DirSnapshot) -> (r: Option<Tool>)
    ensures
        r == spec_detect_package_manager(*snap),
{
    if snap.has_file("pnpm-lock.yaml") {
        Some(Tool::Pnpm)
    } else if snap.has_file("yarn.lock") {
        Some(Tool::Yarn)
    } else if snap.has_file("package-lock.json") {
        Some(Tool::Npm)
    } else if snap.has_file("bun.lockb") || snap.has_file("bun.lock") {
        Some(Tool::Bun)
    } else if snap.has_file("package.json") {
        // Default to npm if there's a package.json but no lockfile
        Some(Tool::Npm)
    } else {
        None
    }
}

pub open spec fn spec_package_json_scripts(snap: DirSnapshot) -> Result<
    Seq<(Seq<char>, Seq<char>)>,
    ScanError,
> {
    match find_file(snap.files@, "package.json"@) {
        None => Err(ScanError::NotFound),
        Some(f) => match f.content {
            None => Err(ScanError::Unreadable),
            Some(_) => match snap.package_json {
                None => Err(ScanError::InvalidJson),
                Some(doc) => Ok(package_scripts(doc)),
            },
        },
    }
}

/// Parse scripts from the directory's package.json.
pub fn parse_package_json_scripts(snap: &DirSnapshot) -> (r: Result<Vec<ScriptEntry>, ScanError>)
    ensures
        match (r, spec_package_json_scripts(*snap)) {
            (Ok(v), Ok(w)) => entries_view(v@) == w,
            (Err(e), Err(f)) => e == f,
            _ => false,
        },
{
    match snap.lookup("package.json") {
        None => Err(ScanError::NotFound),
        Some(f) => match &f.content {
            None => Err(ScanError::Unreadable),
            Some(_) => match &snap.package_json {
                None => Err(ScanError::InvalidJson),
                Some(doc) => Ok(package_scripts_in(doc)),
            },
        },
    }
}

pub open spec fn spec_makefile_targets(snap: DirSnapshot) -> Result<
    Seq<(Seq<char>, Seq<char>)>,
    ScanError,
> {
    match snap.first_present(makefile_names()) {
        None => Ok(seq![]),
        Some(n) => match find_file(snap.files@, n).unwrap().content {
            None => Err(ScanError::Unreadable),
            Some(text) => Ok(makefile_entries(text@)),
        },
    }
}

/// Parse targets from the directory's Makefile.
pub fn parse_makefile_targets(snap: &DirSnapshot) -> (r: Result<Vec<ScriptEntry>, ScanError>)
    ensures
        match (r, spec_makefile_targets(*snap)) {
            (Ok(v), Ok(w)) => entries_view(v@) == w,
            (Err(e), Err(f)) => e == f,
            _ => false,
        },
{
    let names: &'static [&'static str] = &["Makefile", "makefile", "GNUmakefile"];
    assert(names@.map_values(|n: &str| n@) =~= makefile_names());
    proof {
        snap.lemma_first_present(makefile_names());
    }
    match snap.first_existing(names) {
        None => {
            let r: Vec<ScriptEntry> = Vec::new();
            assert(entries_view(r@) =~= seq![]);
            Ok(r)
        },
        Some(n) => match snap.lookup(n) {
            None => Err(ScanError::NotFound),
            Some(f) => match &f.content {
                None => Err(ScanError::Unreadable),
                Some(text) => Ok(makefile_targets_in(text.as_str())),
            },
        },
    }
}

pub open spec fn spec_compose_services(snap: DirSnapshot) -> Result<
    Seq<(Seq<char>, Seq<char>)>,
    ScanError,
> {
    match snap.first_present(compose_names()) {
        None => Ok(seq![]),
        Some(n) => match find_file(snap.files@, n).unwrap().content {
            None => Err(ScanError::Unreadable),
            Some(text) => Ok(compose_services(text@)),
        },
    }
}

/// Parse services from the directory's docker-compose file.
pub fn parse_compose_services(snap: &DirSnapshot) -> (r: Result<Vec<ScriptEntry>, ScanError>)
    ensures
        match (r, spec_compose_services(*snap)) {
            (Ok(v), Ok(w)) => entries_view(v@) == w,
            (Err(e), Err(f)) => e == f,
            _ => false,
        },
{
    let names: &'static [&'static str] = &[
        "docker-compose.yml",
        "docker-compose.yaml",
        "compose.yml",
        "compose.yaml",
    ];
    assert(names@.map_values(|n: &str| n@) =~= compose_names());
    proof {
        snap.lemma_first_present(compose_names());
    }
    match snap.first_existing(names) {
        None => {
            let r: Vec<ScriptEntry> = Vec::new();
            assert(entries_view(r@) =~= seq![]);
            Ok(r)
        },
        Some(n) => match snap.lookup(n) {
            None => Err(ScanError::NotFound),
            Some(f) => match &f.content {
                None => Err(ScanError::Unreadable),
                Some(text) => Ok(compose_services_in(text.as_str())),
            },
        },
    }
}

/// The standard cargo subcommands with their descriptions.
pub open spec fn cargo_commands() -> Seq<(Seq<char>, Seq<char>)> {
    seq![
        ("build"@, "Compile the current package"@),
        ("run"@, "Run a binary or example"@),
        ("test"@, "Run the tests"@),
        ("check"@, "Check for errors without building"@),
        ("clippy"@, "Run clippy lints"@),
        ("fmt"@, "Format the code"@),
        ("bench"@, "Run benchmarks"@),
        ("doc"@, "Build documentation"@),
        ("clean"@, "Remove build artifacts"@),
        ("update"@, "Update dependencies"@),
    ]
}

pub open spec fn spec_cargo_commands(snap: DirSnapshot) -> Seq<(Seq<char>, Seq<char>)> {
    if snap.has("Cargo.toml"@) {
        cargo_commands()
    } else {
        seq![]
    }
}

/// Get standard cargo subcommands when Cargo.toml is present.
pub fn parse_cargo_commands(snap: &DirSnapshot) -> (r: Result<Vec<ScriptEntry>, ScanError>)
    ensures
        match r {
            Ok(v) => entries_view(v@) == spec_cargo_commands(*snap),
            Err(_) => false,
        },
{
    let mut out: Vec<ScriptEntry> = Vec::new();
    if !snap.has_file("Cargo.toml") {
        assert(entries_view(out@) =~= seq![]);
        return Ok(out);
    }
    let commands: &'static [(&'static str, &'static str)] = &[
        ("build", "Compile the current package"),
        ("run", "Run a binary or example"),
        ("test", "Run the tests"),
        ("check", "Check for errors without building"),
        ("clippy", "Run clippy lints"),
        ("fmt", "Format the code"),
        ("bench", "Run benchmarks"),
        ("doc", "Build documentation"),
        ("clean", "Remove build artifacts"),
        ("update", "Update dependencies"),
    ];
    let ghost want = commands@.map_values(|c: (&str, &str)| (c.0@, c.1@));
    assert(want =~= cargo_commands());
    let mut i: usize = 0;
    while i < commands.len()
        invariant
            i <= commands.len(),
            want == commands@.map_values(|c: (&str, &str)| (c.0@, c.1@)),
            entries_view(out@) == want.take(i as int),
            out@.len() == i,
        decreases commands.len() - i,
    {
        let (name, preview) = commands[i];
        let e = ScriptEntry { name: name.to_owned(), preview: preview.to_owned() };
        let ghost old_out = out@;
        out.push(e);
        proof {
            lemma_entries_view_push(old_out, e);
            assert(want.take(i + 1) =~= want.take(i as int).push(want[i as int]));
        }
        i += 1;
    }
    assert(want.take(commands.len() as int) =~= want);
    Ok(out)
}

/// Tools with their scripts for one parser's result: nothing when the
/// parser failed or found nothing.
pub open spec fn found(tools: Seq<Tool>, r: Result<Seq<(Seq<char>, Seq<char>)>, ScanError>) -> Seq<
    (Tool, Seq<(Seq<char>, Seq<char>)>),
> {
    match r {
        Ok(es) => if es.len() > 0 {
            tools.map_values(|t: Tool| (t, es))
        } else {
            seq![]
        },
        Err(_) => seq![],
    }
}

/// Every detected tool of a directory with its scripts: the package.json
/// scripts for all four JS package managers, then Make, docker compose and
/// cargo, each only where it offers something.
pub open spec fn spec_scan_directory(snap: DirSnapshot) -> Seq<(Tool, Seq<(Seq<char>, Seq<char>)>)> {
    let js = if snap.has("package.json"@) {
        found(
            seq![Tool::Pnpm, Tool::Npm, Tool::Yarn, Tool::Bun],
            spec_package_json_scripts(snap),
        )
    } else {
        seq![]
    };
    js + found(seq![Tool::Make], spec_makefile_targets(snap)) + found(
        seq![Tool::DockerCompose],
        spec_compose_services(snap),
    ) + found(seq![Tool::Cargo], Ok(spec_cargo_commands(snap)))
}

/// The scripts of a directory's package.json are offered under every JS
/// package manager, whichever lockfile is present.
pub proof fn law_js_scripts_for_every_package_manager(snap: DirSnapshot)
    requires
        snap.has("package.json"@),
    ensures
        match spec_package_json_scripts(snap) {
            Ok(es) => es.len() > 0 ==> spec_scan_directory(snap).take(4) == seq![
                (Tool::Pnpm, es),
                (Tool::Npm, es),
                (Tool::Yarn, es),
                (Tool::Bun, es),
            ],
            Err(_) => true,
        },
{
    match spec_package_json_scripts(snap) {
        Ok(es) => {
            if es.len() > 0 {
                let js = found(
                    seq![Tool::Pnpm, Tool::Npm, Tool::Yarn, Tool::Bun],
                    spec_package_json_scripts(snap),
                );
                assert(js =~= seq![
                    (Tool::Pnpm, es),
                    (Tool::Npm, es),
                    (Tool::Yarn, es),
                    (Tool::Bun, es),
                ]);
                let rest = found(seq![Tool::Make], spec_makefile_targets(snap)) + found(
                    seq![Tool::DockerCompose],
                    spec_compose_services(snap),
                ) + found(seq![Tool::Cargo], Ok(spec_cargo_commands(snap)));
                assert(spec_scan_directory(snap) =~= js + rest);
                assert((js + rest).take(4) =~= js);
            }
        },
        Err(_) => {},
    }
}

/// The package manager follows the lockfiles in the order pnpm, yarn, npm,
/// bun (either of bun's two lockfiles), and a package.json without any
/// lockfile calls for npm; without any of these files there is none.
pub proof fn law_package_manager_by_lockfile(snap: DirSnapshot)
    ensures
        snap.has("pnpm-lock.yaml"@) ==> spec_detect_package_manager(snap) == Some(Tool::Pnpm),
        !snap.has("pnpm-lock.yaml"@) && snap.has("yarn.lock"@) ==> spec_detect_package_manager(
            snap,
        ) == Some(Tool::Yarn),
        !snap.has("pnpm-lock.yaml"@) && !snap.has("yarn.lock"@) && snap.has("package-lock.json"@)
            ==> spec_detect_package_manager(snap) == Some(Tool::Npm),
        !snap.has("pnpm-lock.yaml"@) && !snap.has("yarn.lock"@) && !snap.has("package-lock.json"@)
            && snap.has("bun.lock"@) ==> spec_detect_package_manager(snap) == Some(Tool::Bun),
        !snap.has("pnpm-lock.yaml"@) && !snap.has("yarn.lock"@) && !snap.has("package-lock.json"@)
            && snap.has("bun.lockb"@) ==> spec_detect_package_manager(snap) == Some(Tool::Bun),
        !snap.has("pnpm-lock.yaml"@) && !snap.has("yarn.lock"@) && !snap.has("package-lock.json"@)
            && !snap.has("bun.lock"@) && !snap.has("bun.lockb"@) && snap.has("package.json"@)
            ==> spec_detect_package_manager(snap) == Some(Tool::Npm),
        !snap.has("pnpm-lock.yaml"@) && !snap.has("yarn.lock"@) && !snap.has("package-lock.json"@)
            && !snap.has("bun.lock"@) && !snap.has("bun.lockb"@) && !snap.has("package.json"@)
            ==> spec_detect_package_manager(snap) is None,
{
}

/// Whichever of the four compose file names a directory uses, that file is
/// read: when it is the directory's only compose file, its services are
/// those of its text, and an unreadable one is an error.
pub proof fn law_every_compose_file_is_read(snap: DirSnapshot, n: Seq<char>)
    requires
        n == "docker-compose.yml"@ || n == "docker-compose.yaml"@ || n == "compose.yml"@ || n
            == "compose.yaml"@,
        snap.has(n),
        forall|m: Seq<char>|
            (m == "docker-compose.yml"@ || m == "docker-compose.yaml"@ || m == "compose.yml"@ || m
                == "compose.yaml"@) && m != n ==> !#[trigger] snap.has(m),
    ensures
        match find_file(snap.files@, n) {
            Some(f) => match f.content {
                Some(text) => spec_compose_services(snap) == Ok::<Seq<(Seq<char>, Seq<char>)>, ScanError>(
                    compose_services(text@),
                ),
                None => spec_compose_services(snap) == Err::<Seq<(Seq<char>, Seq<char>)>, ScanError>(
                    ScanError::Unreadable,
                ),
            },
            None => false,
        },
{
    let names = compose_names();
    reveal_with_fuel(DirSnapshot::first_present, 5);
    assert(names.drop_first() =~= seq!["docker-compose.yaml"@, "compose.yml"@, "compose.yaml"@]);
    assert(names.drop_first().drop_first() =~= seq!["compose.yml"@, "compose.yaml"@]);
    assert(names.drop_first().drop_first().drop_first() =~= seq!["compose.yaml"@]);
    assert(names.drop_first().drop_first().drop_first().drop_first() =~= Seq::<Seq<char>>::empty());
    assert(snap.first_present(names) == Some(n));
}

/// Whichever of the three Makefile names a directory uses, that file is
/// read when it is the directory's only Makefile.
pub proof fn law_every_makefile_is_read(snap: DirSnapshot, n: Seq<char>)
    requires
        n == "Makefile"@ || n == "makefile"@ || n == "GNUmakefile"@,
        snap.has(n),
        forall|m: Seq<char>|
            (m == "Makefile"@ || m == "makefile"@ || m == "GNUmakefile"@) && m != n
                ==> !#[trigger] snap.has(m),
    ensures
        match find_file(snap.files@, n) {
            Some(f) => match f.content {
                Some(text) => spec_makefile_targets(snap) == Ok::<
                    Seq<(Seq<char>, Seq<char>)>,
                    ScanError,
                >(makefile_entries(text@)),
                None => spec_makefile_targets(snap) == Err::<Seq<(Seq<char>, Seq<char>)>, ScanError>(
                    ScanError::Unreadable,
                ),
            },
            None => false,
        },
{
    let names = makefile_names();
    reveal_with_fuel(DirSnapshot::first_present, 4);
    assert(names.drop_first() =~= seq!["makefile"@, "GNUmakefile"@]);
    assert(names.drop_first().drop_first() =~= seq!["GNUmakefile"@]);
    assert(names.drop_first().drop_first().drop_first() =~= Seq::<Seq<char>>::empty());
    assert(snap.first_present(names) == Some(n));
}

/// The scripts of a readable, parsed package.json are its `scripts`; a
/// directory with a Cargo.toml offers the standard cargo commands, starting
/// with build, run and test.
pub proof fn law_package_json_and_cargo_are_read(snap: DirSnapshot)
    ensures
        (find_file(snap.files@, "package.json"@) matches Some(f) && f.content is Some
            && snap.package_json is Some) ==> spec_package_json_scripts(snap) == Ok::<
            Seq<(Seq<char>, Seq<char>)>,
            ScanError,
        >(package_scripts(snap.package_json.unwrap())),
        !snap.has("package.json"@) ==> spec_package_json_scripts(snap) == Err::<
            Seq<(Seq<char>, Seq<char>)>,
            ScanError,
        >(ScanError::NotFound),
        snap.has("Cargo.toml"@) ==> spec_cargo_commands(snap).len() == 10 && spec_cargo_commands(
            snap,
        )[0].0 == "build"@ && spec_cargo_commands(snap)[1].0 == "run"@ && spec_cargo_commands(
            snap,
        )[2].0 == "test"@,
        !snap.has("Cargo.toml"@) ==> spec_cargo_commands(snap).len() == 0,
{
}

/// Every file that tool detection reads is among the files whose changes
/// make a cached scan stale.
pub proof fn law_scanned_files_are_tracked()
    ensures
        forall|n: Seq<char>|
            n == "package.json"@ || n == "pnpm-lock.yaml"@ || n == "yarn.lock"@ || n
                == "package-lock.json"@ || n == "bun.lockb"@ || n == "bun.lock"@ || n
                == "Makefile"@ || n == "makefile"@ || n == "GNUmakefile"@ || n
                == "docker-compose.yml"@ || n == "docker-compose.yaml"@ || n == "compose.yml"@
                || n == "compose.yaml"@ || n == "Cargo.toml"@ ==> #[trigger] tracked_names().contains(
                n,
            ),
{
    let t = tracked_names();
    assert forall|n: Seq<char>|
        n == "package.json"@ || n == "pnpm-lock.yaml"@ || n == "yarn.lock"@ || n
            == "package-lock.json"@ || n == "bun.lockb"@ || n == "bun.lock"@ || n == "Makefile"@
            || n == "makefile"@ || n == "GNUmakefile"@ || n == "docker-compose.yml"@ || n
            == "docker-compose.yaml"@ || n == "compose.yml"@ || n == "compose.yaml"@ || n
            == "Cargo.toml"@ implies #[trigger] t.contains(n) by {
        if n == "package.json"@ { assert(t[0] == n); }
        else if n == "pnpm-lock.yaml"@ { assert(t[1] == n); }
        else if n == "yarn.lock"@ { assert(t[2] == n); }
        else if n == "package-lock.json"@ { assert(t[3] == n); }
        else if n == "bun.lockb"@ { assert(t[4] == n); }
        else if n == "bun.lock"@ { assert(t[5] == n); }
        else if n == "Makefile"@ { assert(t[6] == n); }
        else if n == "makefile"@ { assert(t[7] == n); }
        else if n == "GNUmakefile"@ { assert(t[8] == n); }
        else if n == "docker-compose.yml"@ { assert(t[9] == n); }
        else if n == "docker-compose.yaml"@ { assert(t[10] == n); }
        else if n == "compose.yml"@ { assert(t[11] == n); }
        else if n == "compose.yaml"@ { assert(t[12] == n); }
        else { assert(t[13] == n); }
    }
}

fn push_found(
    out: &mut Vec<ToolScripts>,
    tools: &[Tool],
    r: Result<Vec<ScriptEntry>, ScanError>,
    Ghost(spec_r): Ghost<Result<Seq<(Seq<char>, Seq<char>)>, ScanError>>,
)
    requires
        match (r, spec_r) {
            (Ok(v), Ok(w)) => entries_view(v@) == w,
            (Err(_), Err(_)) => true,
            _ => false,
        },
    ensures
        tool_scripts_view(final(out)@) == tool_scripts_view(old(out)@) + found(tools@, spec_r),
{
    let ghost start = tool_scripts_view(out@);
    match r {
        Ok(entries) => {
            if entries.len() > 0 {
                let ghost want = found(tools@, spec_r);
                let mut i: usize = 0;
                while i < tools.len()
                    invariant
                        i <= tools.len(),
                        want == tools@.map_values(|t: Tool| (t, entries_view(entries@))),
                        tool_scripts_view(out@) == start + want.take(i as int),
                    decreases tools.len() - i,
                {
                    let ts = ToolScripts { tool: tools[i], entries: duplicate_entries(&entries) };
                    let ghost old_out = out@;
                    out.push(ts);
                    proof {
                        lemma_tool_scripts_view_push(old_out, ts);
                        assert(want.take(i + 1) =~= want.take(i as int).push(want[i as int]));
                        assert(start + want.take(i + 1) =~= (start + want.take(i as int)).push(
                            want[i as int],
                        ));
                    }
                    i += 1;
                }
                assert(want.take(tools.len() as int) =~= want);
            } else {
                assert(start + seq![] =~= start);
            }
        },
        Err(_) => {
            assert(start + seq![] =~= start);
        },
    }
}

/// Scan a directory and return all detected tools with their scripts/targets.
pub fn scan_directory(snap: &DirSnapshot) -> (r: Vec<ToolScripts>)
    ensures
        tool_scripts_view(r@) == spec_scan_directory(*snap),
{
    let mut results: Vec<ToolScripts> = Vec::new();
    // Package manager scripts: registered for all JS package managers so
    // suggestions work regardless of which lockfile is present.
    if snap.has_file("package.json") {
        push_found(
            &mut results,
            &[Tool::Pnpm, Tool::Npm, Tool::Yarn, Tool::Bun],
            parse_package_json_scripts(snap),
            Ghost(spec_package_json_scripts(*snap)),
        );
    }
    assert(tool_scripts_view(results@) =~= if snap.has("package.json"@) {
        found(seq![Tool::Pnpm, Tool::Npm, Tool::Yarn, Tool::Bun], spec_package_json_scripts(*snap))
    } else {
        seq![]
    });
    push_found(
        &mut results,
        &[Tool::Make],
        parse_makefile_targets(snap),
        Ghost(spec_makefile_targets(*snap)),
    );
    push_found(
        &mut results,
        &[Tool::DockerCompose],
        parse_compose_services(snap),
        Ghost(spec_compose_services(*snap)),
    );
    push_found(
        &mut results,
        &[Tool::Cargo],
        parse_cargo_commands(snap),
        Ghost(Ok(spec_cargo_commands(*snap))),
    );
    results
}

} // verus!
