//! Loop control for interactive transaction menus. The decision logic is
//! pure: a reply either returns to the menu, repeats the action, or is
//! invalid and re-asked; a transcript of replies then determines how many
//! times a transaction action runs.

use vstd::prelude::*;
use crate::text::str_eq;

verus! {

/// What one menu reply decides: return to the menu (`Some(true)`), repeat
/// the action (`Some(false)`), or ask again (`None`).
pub open spec fn spec_menu_reply(s: Seq<char>) -> Option<bool> {
    if s == seq!['Y'] || s == seq!['y'] {
        Some(true)
    } else if s == seq!['N'] || s == seq!['n'] {
        Some(false)
    } else {
        None
    }
}

/// Classifies one already-trimmed menu reply.
pub fn parse_menu_reply(answer: &str) -> (r: Option<bool>)
    ensures
        r == spec_menu_reply(answer@),
{
    proof {
        reveal_strlit("Y");
        reveal_strlit("y");
        reveal_strlit("N");
        reveal_strlit("n");
        assert("Y"@ =~= seq!['Y']);
        assert("y"@ =~= seq!['y']);
        assert("N"@ =~= seq!['N']);
        assert("n"@ =~= seq!['n']);
    }
    if str_eq(answer, "Y") || str_eq(answer, "y") {
        Some(true)
    } else if str_eq(answer, "N") || str_eq(answer, "n") {
        Some(false)
    } else {
        None
    }
}

/// How many times a transaction action runs against a transcript of menu
/// replies: once up front, once more after every "repeat" reply, stopping
/// at the first "return to menu" reply; invalid replies decide nothing. An
/// exhausted transcript ends the loop.
pub open spec fn spec_run_count(replies: Seq<Seq<char>>) -> int
    decreases replies.len(),
{
    if replies.len() == 0 {
        1
    } else {
        match spec_menu_reply(replies[0]) {
            Some(true) => 1,
            Some(false) => 1 + spec_run_count(replies.drop_first()),
            None => spec_run_count(replies.drop_first()),
        }
    }
}

/// Drives one transaction loop against a transcript of menu replies,
/// returning how many times the action runs.
pub fn run_transaction(replies: &Vec<String>) -> (runs: usize)
    requires
        replies@.len() < usize::MAX,
    ensures
        runs as int == spec_run_count(replies@.map_values(|s: String| s@)),
{
    let n: usize = replies.len();
    let mut runs: usize = 1;
    let mut i: usize = 0;
    proof {
        assert(replies@.map_values(|s: String| s@).skip(0) =~= replies@.map_values(
            |s: String| s@,
        ));
    }
    while i < n
        invariant
            i <= n,
            n == replies@.len(),
            n < usize::MAX,
            1 <= runs,
            runs <= 1 + i,
            spec_run_count(replies@.map_values(|s: String| s@)) == runs - 1 + spec_run_count(
                replies@.map_values(|s: String| s@).skip(i as int),
            ),
        decreases n - i,
    {
        proof {
            let ghost rv = replies@.map_values(|s: String| s@);
            assert(rv.skip(i as int)[0] == rv[i as int]);
            assert(rv.skip(i as int).drop_first() =~= rv.skip(i + 1));
        }
        match parse_menu_reply(replies[i].as_str()) {
            Some(true) => {
                proof {
                    let ghost rv = replies@.map_values(|s: String| s@);
                    assert(spec_run_count(rv.skip(i as int)) == 1);
                }
                return runs;
            },
            Some(false) => {
                runs += 1;
            },
            None => {},
        }
        i += 1;
    }
    proof {
        let ghost rv = replies@.map_values(|s: String| s@);
        assert(rv.skip(n as int) =~= Seq::<Seq<char>>::empty());
        assert(spec_run_count(rv.skip(n as int)) == 1);
    }
    runs
}

} // verus!
