//! How the terminal wrapper starts the user's shell.
use vstd::prelude::*;

use crate::text::{chars_of, has_prefix, starts_with, subvec};

verus! {

/// `pat` occurs somewhere in `s`.
pub open spec fn contains_text(s: Seq<char>, pat: Seq<char>) -> bool {
    exists|i: int| 0 <= i <= s.len() - pat.len() && #[trigger] s.subrange(i, i + pat.len()) == pat
}

/// The fish command that drops fish's own completions for the tools that
/// peek completes, and registers empty ones so that fish does not load its
/// bundled completions for them.
pub open spec fn fish_init() -> Seq<char> {
    "complete -e -c pnpm; complete -c pnpm -f; complete -e -c npm; complete -c npm -f; complete -e -c yarn; complete -c yarn -f; complete -e -c bun; complete -c bun -f; complete -e -c make; complete -c make -f; complete -e -c cargo; complete -c cargo -f"@
}

/// The program and arguments that start `shell`: fish with the command
/// above, any other shell as a login shell.
pub open spec fn spec_shell_args(shell: Seq<char>) -> Seq<Seq<char>> {
    if contains_text(shell, "fish"@) {
        seq![shell, "-C"@, fish_init()]
    } else {
        seq![shell, "-l"@]
    }
}

fn contains_fish(shell: &str) -> (r: bool)
    ensures
        r == contains_text(shell@, "fish"@),
{
    let s = chars_of(shell);
    let pat = chars_of("fish");
    let mut i: usize = 0;
    while i < s.len()
        invariant
            i <= s@.len(),
            s@ == shell@,
            pat@ == "fish"@,
            forall|j: int|
                0 <= j < i && j + pat@.len() <= s@.len() ==> #[trigger] s@.subrange(j, j + pat@.len())
                    != pat@,
        decreases s@.len() - i,
    {
        let rest = subvec(&s, i, s.len());
        if has_prefix(&rest, &pat) {
            assert(s@.subrange(i as int, i + pat@.len()) =~= rest@.take(pat@.len() as int));
            return true;
        }
        assert(i + pat@.len() <= s@.len() ==> s@.subrange(i as int, i + pat@.len())
            =~= rest@.take(pat@.len() as int));
        i += 1;
    }
    assert forall|j: int| 0 <= j <= s@.len() - pat@.len() implies #[trigger] s@.subrange(
        j,
        j + pat@.len(),
    ) != pat@ by {
        reveal_strlit("fish");
    }
    false
}

/// The program and arguments that start `shell` in the terminal wrapper.
pub fn shell_args(shell: &str) -> (r: Vec<String>)
    ensures
        r@.map_values(|a: String| a@) == spec_shell_args(shell@),
{
    let mut r: Vec<String> = Vec::new();
    r.push(shell.to_owned());
    if contains_fish(shell) {
        r.push("-C".to_owned());
        r.push(
            "complete -e -c pnpm; complete -c pnpm -f; complete -e -c npm; complete -c npm -f; complete -e -c yarn; complete -c yarn -f; complete -e -c bun; complete -c bun -f; complete -e -c make; complete -c make -f; complete -e -c cargo; complete -c cargo -f".to_owned(),
        );
    } else {
        r.push("-l".to_owned());
    }
    assert(r@.map_values(|a: String| a@) =~= spec_shell_args(shell@));
    r
}

} // verus!
