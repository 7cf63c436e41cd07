use vstd::prelude::*;

use crate::models::{Player, PlayerView, players_view};

verus! {

/// Who wins a game that is ended.
#[derive(PartialEq, Eq, Structural, Clone, Copy, Debug)]
pub enum WinnerPolicy {
    /// The player with the highest life total; of several, the last by position.
    HighestLife,
    /// The first player by position that is not eliminated.
    FirstStanding,
    /// The player the caller names, if seated.
    Named,
}

/// What a life change may set off.
#[derive(PartialEq, Eq, Structural, Clone, Copy, Debug)]
pub enum EliminationPolicy {
    /// Nothing: players are eliminated and games ended by explicit request only.
    Manual,
    /// A player whose life drops to 0 or below is eliminated, and the game
    /// ends once at most one player is left standing.
    AtZeroLife,
}

/// The strategies a session service applies.
#[derive(PartialEq, Eq, Structural, Clone, Copy, Debug)]
pub struct GameRules {
    pub elimination: EliminationPolicy,
    pub winner: WinnerPolicy,
}

impl GameRules {
    /// Explicit ending only, and the highest life total wins.
    pub fn manual() -> (r: GameRules)
        ensures
            r.elimination == EliminationPolicy::Manual,
            r.winner == WinnerPolicy::HighestLife,
    {
        GameRules { elimination: EliminationPolicy::Manual, winner: WinnerPolicy::HighestLife }
    }
}

/// The index of the highest life total, the last one among equals; -1 when empty.
pub open spec fn highest_life_idx(ps: Seq<PlayerView>) -> int
    decreases ps.len(),
{
    if ps.len() == 0 {
        -1
    } else {
        let b = highest_life_idx(ps.drop_last());
        if b < 0 || ps.last().life >= ps[b].life {
            ps.len() - 1
        } else {
            b
        }
    }
}

/// The index of the first seat not eliminated, or -1.
pub open spec fn first_standing_idx(ps: Seq<PlayerView>) -> int
    decreases ps.len(),
{
    if ps.len() == 0 {
        -1
    } else {
        let b = first_standing_idx(ps.drop_last());
        if b >= 0 {
            b
        } else if !ps.last().eliminated {
            ps.len() - 1
        } else {
            -1
        }
    }
}

/// The index of the first seat of player `pid`, or -1.
pub open spec fn named_idx(ps: Seq<PlayerView>, pid: u128) -> int
    decreases ps.len(),
{
    if ps.len() == 0 {
        -1
    } else {
        let b = named_idx(ps.drop_last(), pid);
        if b >= 0 {
            b
        } else if ps.last().id == pid {
            ps.len() - 1
        } else {
            -1
        }
    }
}

/// The index of the winner under `policy`, or -1 for none.
pub open spec fn winner_idx(ps: Seq<PlayerView>, policy: WinnerPolicy, named: Option<u128>) -> int {
    match policy {
        WinnerPolicy::HighestLife => highest_life_idx(ps),
        WinnerPolicy::FirstStanding => first_standing_idx(ps),
        WinnerPolicy::Named => match named {
            Some(pid) => named_idx(ps, pid),
            None => -1,
        },
    }
}

/// Whether `w` is the winner under `policy` among `ps`: none when there is none.
pub open spec fn winner_is(
    w: Option<Player>,
    ps: Seq<PlayerView>,
    policy: WinnerPolicy,
    named: Option<u128>,
) -> bool {
    let i = winner_idx(ps, policy, named);
    if i < 0 {
        w is None
    } else {
        w matches Some(p) && p@ == ps[i]
    }
}

pub proof fn lemma_winner_idx_range(ps: Seq<PlayerView>, policy: WinnerPolicy, named: Option<u128>)
    ensures
        -1 <= winner_idx(ps, policy, named) < ps.len(),
    decreases ps.len(),
{
    if ps.len() > 0 {
        lemma_winner_idx_range(ps.drop_last(), policy, named);
    }
}

/// The winner under `policy` among `players`, if any; `named` is the
/// player a caller asks for.
pub fn resolve_winner(players: &Vec<Player>, policy: WinnerPolicy, named: Option<u128>) -> (r:
    Option<Player>)
    ensures
        winner_idx(players_view(players@), policy, named) < 0 ==> r is None,
        winner_idx(players_view(players@), policy, named) >= 0 ==> (r matches Some(w) && w@
            == players_view(players@)[winner_idx(players_view(players@), policy, named)]),
{
    let ghost ps = players_view(players@);
    let mut best: Option<usize> = None;
    let mut i: usize = 0;
    while i < players.len()
        invariant
            i <= players.len(),
            ps == players_view(players@),
            match best {
                Some(b) => b < i && b as int == winner_idx(ps.subrange(0, i as int), policy, named),
                None => winner_idx(ps.subrange(0, i as int), policy, named) < 0,
            },
        decreases players.len() - i,
    {
        let p = &players[i];
        assert(ps[i as int] == players@[i as int]@);
        let ghost sub = ps.subrange(0, i + 1);
        assert(sub.drop_last() =~= ps.subrange(0, i as int));
        assert(sub.last() == ps[i as int]);
        proof {
            lemma_winner_idx_range(ps.subrange(0, i as int), policy, named);
        }
        match policy {
            WinnerPolicy::HighestLife => {
                match best {
                    None => best = Some(i),
                    Some(b) => {
                        assert(ps.subrange(0, i as int)[b as int] == ps[b as int]);
                        assert(ps[b as int] == players@[b as int]@);
                        if p.current_life >= players[b].current_life {
                            best = Some(i);
                        }
                    },
                }
            },
            WinnerPolicy::FirstStanding => {
                if best.is_none() && !p.is_eliminated {
                    best = Some(i);
                }
            },
            WinnerPolicy::Named => {
                match named {
                    Some(pid) => {
                        if best.is_none() && p.id == pid {
                            best = Some(i);
                        }
                    },
                    None => {},
                }
            },
        }
        i = i + 1;
    }
    assert(ps.subrange(0, i as int) =~= ps);
    match best {
        Some(b) => Some(players[b].clone()),
        None => None,
    }
}

/// How many seats are not eliminated.
pub open spec fn standing_count(ps: Seq<PlayerView>) -> nat
    decreases ps.len(),
{
    if ps.len() == 0 {
        0
    } else {
        standing_count(ps.drop_last()) + if ps.last().eliminated {
            0nat
        } else {
            1nat
        }
    }
}

/// The number of players not eliminated.
pub fn count_standing(players: &Vec<Player>) -> (r: usize)
    ensures
        r == standing_count(players_view(players@)),
{
    let ghost ps = players_view(players@);
    let mut n: usize = 0;
    let mut i: usize = 0;
    while i < players.len()
        invariant
            i <= players.len(),
            ps == players_view(players@),
            n == standing_count(ps.subrange(0, i as int)),
            n <= i,
        decreases players.len() - i,
    {
        assert(ps[i as int] == players@[i as int]@);
        let ghost sub = ps.subrange(0, i + 1);
        assert(sub.drop_last() =~= ps.subrange(0, i as int));
        if !players[i].is_eliminated {
            n = n + 1;
        }
        i = i + 1;
    }
    assert(ps.subrange(0, i as int) =~= ps);
    n
}

/// Whether a player whose life total is now `life` is to be eliminated.
pub open spec fn eliminates(policy: EliminationPolicy, life: i32, already: bool) -> bool {
    policy == EliminationPolicy::AtZeroLife && life <= 0 && !already
}

/// Whether a game with `standing` players left standing ends by itself.
pub open spec fn auto_ends(policy: EliminationPolicy, standing: nat) -> bool {
    policy == EliminationPolicy::AtZeroLife && standing <= 1
}

pub fn should_eliminate(policy: EliminationPolicy, p: &Player) -> (r: bool)
    ensures
        r == eliminates(policy, p.current_life, p.is_eliminated),
{
    policy == EliminationPolicy::AtZeroLife && p.current_life <= 0 && !p.is_eliminated
}

pub fn should_end(policy: EliminationPolicy, players: &Vec<Player>) -> (r: bool)
    ensures
        r == auto_ends(policy, standing_count(players_view(players@))),
{
    policy == EliminationPolicy::AtZeroLife && count_standing(players) <= 1
}

} // verus!
