//! How the daemon answers a request for suggestions: which tool the line
//! names, whether it is enabled, and which of its scripts match the filter.
use vstd::prelude::*;

use crate::config::ToolsConfig;
use crate::fuzzy::{fuzzy_match, is_ranking, scores_for, FuzzyMatch, MAX_QUERY_LEN};
use crate::manifests::ScriptEntry;
use crate::text::{chars_of, string_of};
use crate::tools::{
    match_tool_prefix, scan_directory, spec_match_tool_prefix, spec_scan_directory,
    tool_scripts_view, lemma_tool_scripts_view_push, DirSnapshot, Tool, ToolScripts,
};

verus! {

/// Where a request for suggestions goes.
#[derive(Debug, Clone, PartialEq, Eq)]
pub enum SuggestRoute {
    /// The line names no tool: no suggestions, no tool.
    NoTool,
    /// The line names a tool that is disabled: no suggestions.
    Disabled(Tool),
    /// Look up the tool's scripts in the directory and rank them by the
    /// filter text.
    Lookup(Tool, String),
}

/// Decides where a request for suggestions for `line` goes.
pub fn route_suggest(line: &str, tools: &ToolsConfig) -> (r: SuggestRoute)
    ensures
        match r {
            SuggestRoute::NoTool => spec_match_tool_prefix(line@) is None,
            SuggestRoute::Disabled(t) => spec_match_tool_prefix(line@) matches Some((t2, _)) && t
                == t2 && !tools.enabled(t),
            SuggestRoute::Lookup(t, f) => spec_match_tool_prefix(line@) matches Some((t2, f2))
                && t == t2 && f@ == f2 && tools.enabled(t),
        },
{
    match match_tool_prefix(line) {
        None => SuggestRoute::NoTool,
        Some((tool, filter)) => {
            if !tools.is_tool_enabled(tool) {
                SuggestRoute::Disabled(tool)
            } else {
                SuggestRoute::Lookup(tool, filter)
            }
        },
    }
}

/// The tools of a directory that are enabled, in scan order.
pub open spec fn enabled_only(
    found: Seq<(Tool, Seq<(Seq<char>, Seq<char>)>)>,
    tools: ToolsConfig,
) -> Seq<(Tool, Seq<(Seq<char>, Seq<char>)>)>
    decreases found.len(),
{
    if found.len() == 0 {
        seq![]
    } else {
        let prev = enabled_only(found.drop_last(), tools);
        if tools.enabled(found.last().0) {
            prev.push(found.last())
        } else {
            prev
        }
    }
}

/// Scans a directory and keeps the enabled tools.
pub fn scan_enabled_tools(snap: &DirSnapshot, tools: &ToolsConfig) -> (r: Vec<ToolScripts>)
    ensures
        tool_scripts_view(r@) == enabled_only(spec_scan_directory(*snap), *tools),
{
    let all = scan_directory(snap);
    let ghost av = tool_scripts_view(all@);
    let mut out: Vec<ToolScripts> = Vec::new();
    let mut i: usize = 0;
    while i < all.len()
        invariant
            i <= all@.len(),
            av == tool_scripts_view(all@),
            tool_scripts_view(out@) == enabled_only(av.take(i as int), *tools),
        decreases all@.len() - i,
    {
        assert(av.take(i + 1).drop_last() =~= av.take(i as int));
        assert(av.take(i + 1).last() == all@[i as int]@);
        if tools.is_tool_enabled(all[i].tool) {
            let t = all[i].duplicate();
            let ghost before = out@;
            out.push(t);
            proof {
                lemma_tool_scripts_view_push(before, t);
            }
        }
        i += 1;
    }
    assert(av.take(all@.len() as int) =~= av);
    out
}

/// A script that matched the filter, with its fuzzy score.
#[derive(Debug, Clone)]
pub struct RankedEntry {
    pub name: String,
    pub preview: String,
    pub fuzzy_score: u32,
}

pub open spec fn ranked_view(r: Seq<RankedEntry>) -> Seq<(Seq<char>, Seq<char>, u32)> {
    r.map_values(|e: RankedEntry| (e.name@, e.preview@, e.fuzzy_score))
}

/// The entries that the matches point at, in the matches' order, with
/// their scores.
pub open spec fn take_ranked(entries: Seq<ScriptEntry>, matches: Seq<FuzzyMatch>) -> Seq<
    (Seq<char>, Seq<char>, u32),
> {
    Seq::new(
        matches.len(),
        |k: int|
            (
                entries[matches[k].index as int].name@,
                entries[matches[k].index as int].preview@,
                matches[k].score,
            ),
    )
}

/// The entries that the matches point at, with their scores.
pub fn take_matches(entries: &Vec<ScriptEntry>, matches: &Vec<FuzzyMatch>) -> (r: Vec<RankedEntry>)
    requires
        forall|k: int| 0 <= k < matches@.len() ==> (#[trigger] matches@[k]).index < entries@.len(),
    ensures
        ranked_view(r@) == take_ranked(entries@, matches@),
{
    let n = matches.len();
    let ghost want = take_ranked(entries@, matches@);
    let mut out: Vec<RankedEntry> = Vec::new();
    let mut k: usize = 0;
    while k < n
        invariant
            k <= n == matches@.len(),
            n == want.len(),
            want == take_ranked(entries@, matches@),
            forall|j: int| 0 <= j < matches@.len() ==> (#[trigger] matches@[j]).index < entries@.len(),
            ranked_view(out@) == want.take(k as int),
        decreases n - k,
    {
        let m = matches[k];
        let e = &entries[m.index];
        let r = RankedEntry { name: e.name.clone(), preview: e.preview.clone(), fuzzy_score: m.score };
        let ghost before = out@;
        out.push(r);
        assert(ranked_view(out@) =~= ranked_view(before).push((r.name@, r.preview@, r.fuzzy_score)));
        assert(want.take(k + 1) =~= want.take(k as int).push(want[k as int]));
        k += 1;
    }
    assert(want.take(n as int) =~= want);
    out
}

/// Every script name of `all_tools` has at most `u32::MAX` characters, the
/// most that nucleo scores.
pub open spec fn names_fit(all_tools: Seq<ToolScripts>) -> bool {
    forall|i: int, k: int|
        0 <= i < all_tools.len() && 0 <= k < all_tools[i].entries@.len() ==> (
        #[trigger] all_tools[i].entries@[k]).name@.len() <= u32::MAX
}

/// The matches of an empty filter: every entry, in order, with score 0.
pub open spec fn all_unscored(n: nat) -> Seq<FuzzyMatch> {
    Seq::new(n, |i: int| FuzzyMatch { index: i as usize, score: 0 })
}

/// Ranks all the scripts of `tool` among `all_tools` that match the filter,
/// best first; `None` when the directory does not offer the tool. How many
/// are shown is decided after frecency is added to these scores.
pub fn rank_entries(all_tools: &Vec<ToolScripts>, tool: Tool, filter: &str) -> (r: Option<
    Vec<RankedEntry>,
>)
    requires
        filter@.len() <= MAX_QUERY_LEN,
        names_fit(all_tools@),
    ensures
        match r {
            None => forall|i: int| 0 <= i < all_tools@.len() ==> (#[trigger] all_tools@[i]).tool
                != tool,
            Some(v) => exists|i: int|
                #![trigger all_tools@[i]]
                0 <= i < all_tools@.len() && all_tools@[i].tool == tool && (forall|j: int|
                    0 <= j < i ==> (#[trigger] all_tools@[j]).tool != tool) && exists|
                    ms: Seq<FuzzyMatch>,
                |
                    (if filter@.len() == 0 {
                        ms == all_unscored(all_tools@[i].entries@.len())
                    } else {
                        is_ranking(
                            ms,
                            all_tools@[i].entries@.map_values(
                                |e: ScriptEntry| crate::fuzzy::nucleo_score(filter@, e.name@),
                            ),
                        )
                    }) && ranked_view(v@) == take_ranked(all_tools@[i].entries@, ms),
        },
{
    let mut i: usize = 0;
    while i < all_tools.len()
        invariant
            i <= all_tools@.len(),
            filter@.len() <= MAX_QUERY_LEN,
            names_fit(all_tools@),
            forall|j: int| 0 <= j < i ==> (#[trigger] all_tools@[j]).tool != tool,
        decreases all_tools@.len() - i,
    {
        if all_tools[i].tool == tool {
            let entries = &all_tools[i].entries;
            let mut names: Vec<&str> = Vec::new();
            let mut k: usize = 0;
            while k < entries.len()
                invariant
                    k <= entries@.len(),
                    entries == all_tools@[i as int].entries,
                    i < all_tools@.len(),
                    names_fit(all_tools@),
                    names@.len() == k,
                    forall|j: int| 0 <= j < k ==> (#[trigger] names@[j])@ == entries@[j].name@,
                decreases entries@.len() - k,
            {
                names.push(entries[k].name.as_str());
                k += 1;
            }
            assert forall|j: int| 0 <= j < names@.len() implies (#[trigger] names@[j])@.len()
                <= u32::MAX by {
                assert(all_tools@[i as int].entries@[j].name@.len() <= u32::MAX);
            }
            let matches = fuzzy_match(filter, names.as_slice());
            let ghost ms = matches@;
            proof {
                if filter@.len() > 0 {
                    assert(scores_for(filter@, names@) =~= entries@.map_values(
                        |e: ScriptEntry| crate::fuzzy::nucleo_score(filter@, e.name@),
                    ));
                } else {
                    assert(ms =~= all_unscored(entries@.len()));
                }
                assert forall|k: int| 0 <= k < matches@.len() implies (#[trigger] matches@[k]).index
                    < entries@.len() by {
                    if filter@.len() > 0 {
                        assert(matches@[k] == ms[k]);
                    }
                }
            }
            let v = take_matches(entries, &matches);
            return Some(v);
        }
        i += 1;
    }
    None
}

} // verus!
