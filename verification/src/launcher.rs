//! The decision logic of the launcher command parser: picking the launcher
//! invocation and game id out of a command line, and looking the title up in
//! the installed-game list. Running the launcher and decoding its output
//! happen outside this crate; this module decides from plain values.

use vstd::prelude::*;

use crate::node::seq_views;
use crate::order::str_eqx;

verus! {

/// `s` ends with `t`.
pub open spec fn spec_ends_with(s: Seq<char>, t: Seq<char>) -> bool {
    s.len() >= t.len() && s.skip(s.len() - t.len()) == t
}

/// Decides `spec_ends_with` on two string slices.
pub fn str_ends_with(s: &str, t: &str) -> (r: bool)
    ensures
        r == spec_ends_with(s@, t@),
{
    let n = s.unicode_len();
    let m = t.unicode_len();
    if m > n {
        return false;
    }
    let mut i: usize = 0;
    while i < m
        invariant
            i <= m,
            m <= n,
            n == s@.len(),
            m == t@.len(),
            forall|j: int| 0 <= j < i ==> s@[n - m + j] == t@[j],
        decreases m - i,
    {
        if s.get_char(n - m + i) != t.get_char(i) {
            proof {
                assert(s@.skip(n - m)[i as int] == s@[n - m + i]);
                assert(s@.skip(n - m) != t@);
            }
            return false;
        }
        i = i + 1;
    }
    proof {
        assert forall|j: int| 0 <= j < m implies s@.skip(n - m)[j] == t@[j] by {
            assert(s@.skip(n - m)[j] == s@[n - m + j]);
        }
        assert(s@.skip(n - m) =~= t@);
    }
    true
}

/// The first index at or after `from` whose entry ends with `suffix`, or the
/// length when there is none.
pub open spec fn first_match(cmds: Seq<Seq<char>>, from: int, suffix: Seq<char>) -> int
    decreases cmds.len() - from,
{
    if from >= cmds.len() {
        cmds.len() as int
    } else if spec_ends_with(cmds[from], suffix) {
        from
    } else {
        first_match(cmds, from + 1, suffix)
    }
}

/// A scan that saw no match before `i` and a match at `i` pins `first_match`.
proof fn lemma_first_match_char(cmds: Seq<Seq<char>>, from: int, i: int, suffix: Seq<char>)
    requires
        0 <= from <= i <= cmds.len(),
        forall|j: int| from <= j < i ==> !spec_ends_with(cmds[j], suffix),
        i < cmds.len() ==> spec_ends_with(cmds[i], suffix),
    ensures
        first_match(cmds, from, suffix) == i,
    decreases i - from,
{
    if from < i {
        lemma_first_match_char(cmds, from + 1, i, suffix);
    }
}

/// What the command line decides: the launcher command found and the game id
/// that follows the launch verb, when both are present.
pub open spec fn spec_parse_command(cmds: Seq<Seq<char>>) -> Option<(Seq<char>, Seq<char>)> {
    let i0 = first_match(cmds, 0, "legendary"@);
    if i0 >= cmds.len() {
        None
    } else {
        let i1 = first_match(cmds, i0 + 1, "launch"@);
        if i1 + 1 < cmds.len() {
            Some((cmds[i0], cmds[i1 + 1]))
        } else {
            None
        }
    }
}

/// One installed game as the launcher lists it.
#[derive(Debug)]
pub struct LegendaryGameInfo {
    pub app_name: String,
    pub title: String,
}

/// The first index at or after `from` whose game carries `id`, or the length
/// when there is none.
pub open spec fn first_game(games: Seq<LegendaryGameInfo>, from: int, id: Seq<char>) -> int
    decreases games.len() - from,
{
    if from >= games.len() {
        games.len() as int
    } else if games[from].app_name@ == id {
        from
    } else {
        first_game(games, from + 1, id)
    }
}

proof fn lemma_first_game_char(games: Seq<LegendaryGameInfo>, from: int, i: int, id: Seq<char>)
    requires
        0 <= from <= i <= games.len(),
        forall|j: int| from <= j < i ==> games[j].app_name@ != id,
        i < games.len() ==> games[i].app_name@ == id,
    ensures
        first_game(games, from, id) == i,
    decreases i - from,
{
    if from < i {
        lemma_first_game_char(games, from + 1, i, id);
    }
}

/// The launcher command parser.
#[derive(Debug)]
pub struct Legendary;

impl Legendary {
    /// Picks the launcher command and the game id out of a command line:
    /// the first entry ending in the launcher's name, then the entry after
    /// the first later entry ending in the launch verb.
    pub fn parse_command(commands: &Vec<String>) -> (r: Option<(String, String)>)
        ensures
            match (r, Legendary::spec_parsed(commands@)) {
                (Some(p), Some(q)) => p.0@ == q.0 && p.1@ == q.1,
                (None, None) => true,
                _ => false,
            },
    {
        let ghost cv = seq_views(commands@);
        let mut i0: usize = 0;
        while i0 < commands.len() && !str_ends_with(commands[i0].as_str(), "legendary")
            invariant
                cv == seq_views(commands@),
                i0 <= commands@.len(),
                forall|j: int| 0 <= j < i0 ==> !spec_ends_with(cv[j], "legendary"@),
            decreases commands@.len() - i0,
        {
            proof {
                assert(cv[i0 as int] == commands@[i0 as int]@);
            }
            i0 = i0 + 1;
        }
        proof {
            lemma_first_match_char(cv, 0, i0 as int, "legendary"@);
        }
        if i0 == commands.len() {
            return None;
        }
        let mut i1: usize = i0 + 1;
        while i1 < commands.len() && !str_ends_with(commands[i1].as_str(), "launch")
            invariant
                cv == seq_views(commands@),
                i0 + 1 <= i1 <= commands@.len(),
                forall|j: int| i0 + 1 <= j < i1 ==> !spec_ends_with(cv[j], "launch"@),
            decreases commands@.len() - i1,
        {
            proof {
                assert(cv[i1 as int] == commands@[i1 as int]@);
            }
            i1 = i1 + 1;
        }
        proof {
            lemma_first_match_char(cv, i0 + 1, i1 as int, "launch"@);
        }
        if commands.len() - i1 > 1 {
            Some((commands[i0].clone(), commands[i1 + 1].clone()))
        } else {
            None
        }
    }

    /// `parse_command` over views.
    pub open spec fn spec_parsed(commands: Seq<String>) -> Option<(Seq<char>, Seq<char>)> {
        spec_parse_command(seq_views(commands))
    }

    /// The title of the first installed game carrying `game_id`.
    pub fn find_title(games: &Vec<LegendaryGameInfo>, game_id: &str) -> (r: Option<String>)
        ensures
            ({
                let i = first_game(games@, 0, game_id@);
                match r {
                    Some(t) => i < games@.len() && t@ == games@[i].title@,
                    None => i >= games@.len(),
                }
            }),
    {
        let mut i: usize = 0;
        while i < games.len() && !str_eqx(games[i].app_name.as_str(), game_id)
            invariant
                i <= games@.len(),
                forall|j: int| 0 <= j < i ==> games@[j].app_name@ != game_id@,
            decreases games@.len() - i,
        {
            i = i + 1;
        }
        proof {
            lemma_first_game_char(games@, 0, i as int, game_id@);
        }
        if i < games.len() {
            Some(games[i].title.clone())
        } else {
            None
        }
    }
}

} // verus!
