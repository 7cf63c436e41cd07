use vstd::prelude::*;
use vstd::set_lib::{lemma_int_range, lemma_len_subset, set_int_range};

use crate::errors::{ApiError, ConflictKind, InvalidInput};
use crate::policy::{highest_life_idx, resolve_winner, WinnerPolicy};
use crate::stamps::{new_id, now_millis};
use crate::models::{
    clone_players, players_view, CommanderDamage, GameHistory, GameState, GameWithPlayers,
    GameWithUsers, UserInfo, Game, GameStatus, GameView, LifeChange, Player, PlayerView,
    MAX_COMMANDER_DAMAGE, MAX_PLAYERS_PER_GAME, MAX_STARTING_LIFE,
};

verus! {

/// Everything stored for one game.
pub struct GameRecord {
    pub game: Game,
    /// The seated players, ordered by position.
    pub players: Vec<Player>,
    /// The audit log of life changes, oldest first.
    pub life_changes: Vec<LifeChange>,
    pub commander_damage: Vec<CommanderDamage>,
}

/// What a game record holds, as plain values.
pub struct RecordView {
    pub game: GameView,
    pub players: Seq<PlayerView>,
    pub life_changes: Seq<LifeChange>,
    pub damage: Seq<CommanderDamage>,
}

impl View for GameRecord {
    type V = RecordView;

    open spec fn view(&self) -> RecordView {
        RecordView {
            game: self.game@,
            players: players_view(self.players@),
            life_changes: self.life_changes@,
            damage: self.commander_damage@,
        }
    }
}

/// The transactional store of games, players, life changes and commander
/// damage. Every operation either applies in full or leaves it unchanged.
pub struct GameRepository {
    pub games: Vec<GameRecord>,
}

impl View for GameRepository {
    type V = Seq<RecordView>;

    open spec fn view(&self) -> Seq<RecordView> {
        self.games@.map_values(|r: GameRecord| r@)
    }
}

// ---------------------------------------------------------------------------
// Lookups, as spec functions
// ---------------------------------------------------------------------------

/// Whether some seat of `ps` has player id `pid`.
pub open spec fn has_player(ps: Seq<PlayerView>, pid: u128) -> bool {
    exists|i: int| 0 <= i < ps.len() && (#[trigger] ps[i]).id == pid
}

/// The index of the seat with player id `pid`, or -1.
pub open spec fn player_idx(ps: Seq<PlayerView>, pid: u128) -> int {
    if has_player(ps, pid) {
        choose|i: int| 0 <= i < ps.len() && (#[trigger] ps[i]).id == pid
    } else {
        -1
    }
}

/// The index of the seat held by `user`, or -1.
pub open spec fn seat_idx(ps: Seq<PlayerView>, user: Seq<char>) -> int {
    if exists|i: int| 0 <= i < ps.len() && (#[trigger] ps[i]).user == user {
        choose|i: int| 0 <= i < ps.len() && (#[trigger] ps[i]).user == user
    } else {
        -1
    }
}

/// The index of the game with id `gid`, or -1.
pub open spec fn game_idx(v: Seq<RecordView>, gid: u128) -> int {
    if exists|g: int| 0 <= g < v.len() && (#[trigger] v[g]).game.id == gid {
        choose|g: int| 0 <= g < v.len() && (#[trigger] v[g]).game.id == gid
    } else {
        -1
    }
}

/// Whether any game of the store has a player with id `pid`.
pub open spec fn player_id_used(v: Seq<RecordView>, pid: u128) -> bool {
    exists|g: int| 0 <= g < v.len() && has_player(#[trigger] v[g].players, pid)
}

/// Whether an active game of the store is called `name`.
pub open spec fn active_name_taken(v: Seq<RecordView>, name: Seq<char>) -> bool {
    exists|g: int|
        0 <= g < v.len() && (#[trigger] v[g]).game.status == GameStatus::Active && v[g].game.name
            == name
}

/// Whether `cd` holds an entry for the key (`from`, `to`, `slot`).
pub open spec fn has_entry(cd: Seq<CommanderDamage>, from: u128, to: u128, slot: i32) -> bool {
    exists|k: int| 0 <= k < cd.len() && same_key(#[trigger] cd[k], from, to, slot)
}

pub open spec fn same_key(e: CommanderDamage, from: u128, to: u128, slot: i32) -> bool {
    e.from_player_id == from && e.to_player_id == to && e.commander_number == slot
}

/// Whether an entry names player `pid` as source or target.
pub open spec fn references(e: CommanderDamage, pid: u128) -> bool {
    e.from_player_id == pid || e.to_player_id == pid
}

/// A fresh entry with no damage.
pub open spec fn zero_entry(gid: u128, from: u128, to: u128, slot: i32, now: i64) -> CommanderDamage {
    CommanderDamage {
        game_id: gid,
        from_player_id: from,
        to_player_id: to,
        commander_number: slot,
        damage: 0,
        created_at: now,
        updated_at: now,
    }
}

// ---------------------------------------------------------------------------
// Invariants
// ---------------------------------------------------------------------------

pub open spec fn entry_ok(e: CommanderDamage, gid: u128, ps: Seq<PlayerView>) -> bool {
    &&& e.game_id == gid
    &&& e.from_player_id != e.to_player_id
    &&& (e.commander_number == 1 || e.commander_number == 2)
    &&& 0 <= e.damage <= 999
    &&& has_player(ps, e.from_player_id)
    &&& has_player(ps, e.to_player_id)
}

/// Player ids and users differ between any two seats.
pub open spec fn seats_distinct(ps: Seq<PlayerView>) -> bool {
    forall|i: int, j: int|
        0 <= i < ps.len() && 0 <= j < ps.len() && i != j ==> (#[trigger] ps[i]).id != (
        #[trigger] ps[j]).id && ps[i].user != ps[j].user
}

/// Positions are 1, 2, ... in seat order, and every seat belongs to game `gid`.
pub open spec fn seats_dense(ps: Seq<PlayerView>, gid: u128) -> bool {
    forall|i: int|
        0 <= i < ps.len() ==> (#[trigger] ps[i]).position == i + 1 && ps[i].game_id == gid
}

/// No two entries share a key.
pub open spec fn keys_distinct(cd: Seq<CommanderDamage>) -> bool {
    forall|k1: int, k2: int|
        0 <= k1 < cd.len() && 0 <= k2 < cd.len() && k1 != k2 ==> !same_key(
            #[trigger] cd[k1],
            cd[k2].from_player_id,
            cd[k2].to_player_id,
            #[trigger] cd[k2].commander_number,
        )
}

/// Every ordered pair of distinct seats has a slot-1 entry.
pub open spec fn slot_one_complete(ps: Seq<PlayerView>, cd: Seq<CommanderDamage>) -> bool {
    forall|i: int, j: int|
        0 <= i < ps.len() && 0 <= j < ps.len() && i != j ==> has_entry(
            cd,
            (#[trigger] ps[i]).id,
            (#[trigger] ps[j]).id,
            1,
        )
}

impl RecordView {
    pub open spec fn wf(self) -> bool {
        &&& 1 <= self.game.starting_life <= 999
        &&& self.players.len() <= 8
        &&& seats_dense(self.players, self.game.id)
        &&& seats_distinct(self.players)
        &&& forall|k: int|
            0 <= k < self.damage.len() ==> entry_ok(
                #[trigger] self.damage[k],
                self.game.id,
                self.players,
            )
        &&& keys_distinct(self.damage)
        &&& slot_one_complete(self.players, self.damage)
    }
}

/// Games are kept in order of creation time.
pub open spec fn created_in_order(v: Seq<RecordView>) -> bool {
    forall|g1: int, g2: int|
        0 <= g1 < g2 < v.len() ==> (#[trigger] v[g1]).game.created_at <= (
        #[trigger] v[g2]).game.created_at
}

/// The store's invariant: each record is well formed, game ids are unique,
/// no player id is used in two games, and games are kept in order of
/// creation time.
pub open spec fn repo_wf(v: Seq<RecordView>) -> bool {
    &&& created_in_order(v)
    &&& forall|g: int| 0 <= g < v.len() ==> (#[trigger] v[g]).wf()
    &&& forall|g1: int, g2: int|
        0 <= g1 < v.len() && 0 <= g2 < v.len() && g1 != g2 ==> (#[trigger] v[g1]).game.id != (
        #[trigger] v[g2]).game.id
    &&& forall|g1: int, g2: int, pid: u128|
        #![trigger has_player(v[g1].players, pid), has_player(v[g2].players, pid)]
        0 <= g1 < v.len() && 0 <= g2 < v.len() && g1 != g2 && has_player(v[g1].players, pid)
            ==> !has_player(v[g2].players, pid)
}

impl GameRepository {
    pub open spec fn wf(&self) -> bool {
        repo_wf(self@)
    }
}

// ---------------------------------------------------------------------------
// Effects of the operations, as spec functions
// ---------------------------------------------------------------------------

/// The slot-1 entries a new player `pid` gets against each seat of `ps`:
/// for seat `k`, first `pid -> ps[k]`, then `ps[k] -> pid`.
pub open spec fn bootstrap_entries(gid: u128, ps: Seq<PlayerView>, pid: u128, now: i64) -> Seq<
    CommanderDamage,
> {
    Seq::new(
        2 * ps.len(),
        |k: int|
            if k % 2 == 0 {
                zero_entry(gid, pid, ps[k / 2].id, 1, now)
            } else {
                zero_entry(gid, ps[k / 2].id, pid, 1, now)
            },
    )
}

/// The seat a user gets on joining a record.
pub open spec fn new_seat(r: RecordView, user: Seq<char>, pid: u128) -> PlayerView {
    PlayerView {
        id: pid,
        game_id: r.game.id,
        user: user,
        life: r.game.starting_life,
        position: (r.players.len() + 1) as i32,
        eliminated: false,
    }
}

/// A record after `user` joined it as player `pid`.
pub open spec fn record_joined(r: RecordView, user: Seq<char>, pid: u128, now: i64) -> RecordView {
    RecordView {
        game: r.game,
        players: r.players.push(new_seat(r, user, pid)),
        life_changes: r.life_changes,
        damage: r.damage + bootstrap_entries(r.game.id, r.players, pid, now),
    }
}

/// The outcome of a join, before anything is written.
pub open spec fn join_check(v: Seq<RecordView>, gid: u128, user: Seq<char>, pid: u128) -> Option<
    ApiError,
> {
    let g = game_idx(v, gid);
    if g < 0 {
        Some(ApiError::GameNotFound)
    } else if v[g].game.status == GameStatus::Finished {
        Some(ApiError::Invalid(InvalidInput::GameFinished))
    } else if seat_idx(v[g].players, user) >= 0 {
        Some(ApiError::Conflict(ConflictKind::AlreadySeated))
    } else if v[g].players.len() >= 8 {
        Some(ApiError::Capacity)
    } else if player_id_used(v, pid) {
        Some(ApiError::Internal)
    } else {
        None
    }
}

// ---------------------------------------------------------------------------
// Lemmas on the lookups
// ---------------------------------------------------------------------------

pub proof fn lemma_player_idx(ps: Seq<PlayerView>, pid: u128, i: int)
    requires
        seats_distinct(ps),
        0 <= i < ps.len(),
        ps[i].id == pid,
    ensures
        player_idx(ps, pid) == i,
{
    assert(has_player(ps, pid));
}

pub proof fn lemma_seat_idx(ps: Seq<PlayerView>, user: Seq<char>, i: int)
    requires
        seats_distinct(ps),
        0 <= i < ps.len(),
        ps[i].user == user,
    ensures
        seat_idx(ps, user) == i,
{
    assert(ps[i].user == user);
}

pub proof fn lemma_game_idx(v: Seq<RecordView>, gid: u128, g: int)
    requires
        repo_wf(v),
        0 <= g < v.len(),
        v[g].game.id == gid,
    ensures
        game_idx(v, gid) == g,
{
    assert(v[g].game.id == gid);
}

pub proof fn lemma_player_idx_range(ps: Seq<PlayerView>, pid: u128)
    ensures
        -1 <= player_idx(ps, pid) < ps.len(),
        player_idx(ps, pid) >= 0 <==> has_player(ps, pid),
        player_idx(ps, pid) >= 0 ==> ps[player_idx(ps, pid)].id == pid,
{
}

// ---------------------------------------------------------------------------
// Record-level operations
// ---------------------------------------------------------------------------

impl GameRecord {
    /// The index of the seat held by `user`, if any.
    pub fn seat_of(&self, user: &String) -> (r: Option<usize>)
        requires
            self@.wf(),
        ensures
            r is None <==> seat_idx(self@.players, user@) < 0,
            r matches Some(i) ==> i == seat_idx(self@.players, user@),
    {
        let mut i: usize = 0;
        while i < self.players.len()
            invariant
                i <= self.players.len(),
                self@.wf(),
                forall|j: int| 0 <= j < i ==> (#[trigger] self@.players[j]).user != user@,
            decreases self.players.len() - i,
        {
            if self.players[i].clerk_user_id == *user {
                proof {
                    assert(self@.players[i as int] == self.players@[i as int]@);
                    lemma_seat_idx(self@.players, user@, i as int);
                }
                return Some(i);
            }
            assert(self@.players[i as int] == self.players@[i as int]@);
            i = i + 1;
        }
        None
    }

    /// The index of the seat of player `pid`, if any.
    pub fn index_of_player(&self, pid: u128) -> (r: Option<usize>)
        requires
            self@.wf(),
        ensures
            r is None <==> !has_player(self@.players, pid),
            r matches Some(i) ==> i == player_idx(self@.players, pid),
    {
        let mut i: usize = 0;
        while i < self.players.len()
            invariant
                i <= self.players.len(),
                self@.wf(),
                forall|j: int| 0 <= j < i ==> (#[trigger] self@.players[j]).id != pid,
            decreases self.players.len() - i,
        {
            assert(self@.players[i as int] == self.players@[i as int]@);
            if self.players[i].id == pid {
                proof {
                    lemma_player_idx(self@.players, pid, i as int);
                }
                return Some(i);
            }
            i = i + 1;
        }
        None
    }

    /// Seats `user` as player `pid` and gives the new seat its slot-1
    /// entries against every other seat.
    pub fn add_player(&mut self, user: String, pid: u128, now: i64) -> (r: Player)
        requires
            old(self)@.wf(),
            old(self)@.players.len() < 8,
            seat_idx(old(self)@.players, user@) < 0,
            !has_player(old(self)@.players, pid),
        ensures
            final(self)@ == record_joined(old(self)@, user@, pid, now),
            final(self)@.wf(),
            r@ == new_seat(old(self)@, user@, pid),
    {
        let ghost old_v = self@;
        let gid = self.game.id;
        let n = self.players.len();
        let mut i: usize = 0;
        while i < n
            invariant
                n == self.players.len(),
                i <= n,
                self.game == old(self).game,
                self.players@ == old(self).players@,
                self.life_changes@ == old(self).life_changes@,
                gid == self.game.id,
                old_v == old(self)@,
                old_v.players.len() == n,
                self.commander_damage@ == old_v.damage + bootstrap_entries(
                    gid,
                    old_v.players.subrange(0, i as int),
                    pid,
                    now,
                ),
            decreases n - i,
        {
            let other = self.players[i].id;
            proof {
                assert(old_v.players[i as int].id == other);
            }
            self.commander_damage.push(
                CommanderDamage {
                    game_id: gid,
                    from_player_id: pid,
                    to_player_id: other,
                    commander_number: 1,
                    damage: 0,
                    created_at: now,
                    updated_at: now,
                },
            );
            self.commander_damage.push(
                CommanderDamage {
                    game_id: gid,
                    from_player_id: other,
                    to_player_id: pid,
                    commander_number: 1,
                    damage: 0,
                    created_at: now,
                    updated_at: now,
                },
            );
            proof {
                let a = bootstrap_entries(gid, old_v.players.subrange(0, i as int), pid, now);
                let b = bootstrap_entries(gid, old_v.players.subrange(0, i + 1), pid, now);
                assert(b =~= a.push(zero_entry(gid, pid, other, 1, now)).push(
                    zero_entry(gid, other, pid, 1, now),
                ));
            }
            i = i + 1;
        }
        assert(old_v.players.subrange(0, n as int) =~= old_v.players);
        let p = Player {
            id: pid,
            game_id: gid,
            clerk_user_id: user,
            current_life: self.game.starting_life,
            position: (n + 1) as i32,
            is_eliminated: false,
        };
        let r = p.clone();
        self.players.push(p);
        proof {
            assert(players_view(self.players@) =~= old_v.players.push(new_seat(old_v, user@, pid)));
            lemma_joined_wf(old_v, user@, pid, now);
        }
        r
    }
}

/// Joining keeps a record well formed.
pub proof fn lemma_joined_wf(r: RecordView, user: Seq<char>, pid: u128, now: i64)
    requires
        r.wf(),
        r.players.len() < 8,
        seat_idx(r.players, user) < 0,
        !has_player(r.players, pid),
    ensures
        record_joined(r, user, pid, now).wf(),
{
    let n = record_joined(r, user, pid, now);
    let ps = n.players;
    let cd = n.damage;
    let old_n = r.players.len();
    let boot = bootstrap_entries(r.game.id, r.players, pid, now);
    assert forall|i: int| 0 <= i < old_n implies #[trigger] ps[i] == r.players[i] by {}
    assert forall|i: int| 0 <= i < r.players.len() implies (#[trigger] r.players[i]).user != user by {
        if r.players[i].user == user {
            assert(exists|j: int| 0 <= j < r.players.len() && (#[trigger] r.players[j]).user == user);
        }
    }
    // every seat of the old record is still a seat
    assert forall|q: u128| has_player(r.players, q) implies has_player(ps, q) by {
        let i = choose|i: int| 0 <= i < r.players.len() && (#[trigger] r.players[i]).id == q;
        assert(ps[i].id == q);
    }
    assert(ps[old_n as int].id == pid);
    assert(has_player(ps, pid));
    assert forall|k: int| 0 <= k < cd.len() implies entry_ok(#[trigger] cd[k], n.game.id, ps) by {
        if k >= r.damage.len() {
            let b = k - r.damage.len();
            assert(cd[k] == boot[b]);
            assert(ps[b / 2].id == r.players[b / 2].id);
        } else {
            assert(cd[k] == r.damage[k]);
        }
    }
    assert forall|k1: int, k2: int|
        0 <= k1 < cd.len() && 0 <= k2 < cd.len() && k1 != k2 implies !same_key(
        #[trigger] cd[k1],
        cd[k2].from_player_id,
        cd[k2].to_player_id,
        #[trigger] cd[k2].commander_number,
    ) by {
        let m = r.damage.len() as int;
        if k1 < m && k2 < m {
            assert(cd[k1] == r.damage[k1] && cd[k2] == r.damage[k2]);
        } else if k1 >= m && k2 >= m {
            let b1 = k1 - m;
            let b2 = k2 - m;
            assert(cd[k1] == boot[b1] && cd[k2] == boot[b2]);
            if b1 / 2 != b2 / 2 {
                assert(r.players[b1 / 2].id != r.players[b2 / 2].id);
            }
        } else if k1 < m {
            let b2 = k2 - m;
            assert(cd[k1] == r.damage[k1] && cd[k2] == boot[b2]);
            assert(entry_ok(r.damage[k1], r.game.id, r.players));
        } else {
            let b1 = k1 - m;
            assert(cd[k2] == r.damage[k2] && cd[k1] == boot[b1]);
            assert(entry_ok(r.damage[k2], r.game.id, r.players));
        }
    }
    assert forall|i: int, j: int|
        0 <= i < ps.len() && 0 <= j < ps.len() && i != j implies has_entry(
        cd,
        (#[trigger] ps[i]).id,
        (#[trigger] ps[j]).id,
        1,
    ) by {
        let m = r.damage.len() as int;
        if i < old_n && j < old_n {
            let k = choose|k: int|
                0 <= k < r.damage.len() && same_key(
                    #[trigger] r.damage[k],
                    r.players[i].id,
                    r.players[j].id,
                    1,
                );
            assert(cd[k] == r.damage[k]);
        } else if i == old_n {
            assert(cd[m + 2 * j] == boot[2 * j]);
            assert(same_key(cd[m + 2 * j], ps[i].id, ps[j].id, 1));
        } else {
            assert(cd[m + 2 * i + 1] == boot[2 * i + 1]);
            assert(same_key(cd[m + 2 * i + 1], ps[i].id, ps[j].id, 1));
        }
    }
}


/// Replacing one record by a well-formed one with the same game id, whose
/// seats are either its old seats or unused anywhere, keeps the store well formed.
pub proof fn lemma_repo_update(v: Seq<RecordView>, g: int, nr: RecordView)
    requires
        repo_wf(v),
        0 <= g < v.len(),
        nr.wf(),
        nr.game.id == v[g].game.id,
        nr.game.created_at == v[g].game.created_at,
        forall|pid: u128|
            #[trigger] has_player(nr.players, pid) ==> has_player(v[g].players, pid)
                || !player_id_used(v, pid),
    ensures
        repo_wf(v.update(g, nr)),
{
    let w = v.update(g, nr);
    assert forall|g1: int, g2: int| 0 <= g1 < g2 < w.len() implies (#[trigger] w[g1]).game.created_at
        <= (#[trigger] w[g2]).game.created_at by {
        assert(v[g1].game.created_at <= v[g2].game.created_at);
    }
    assert forall|g1: int, g2: int, pid: u128|
        #![trigger has_player(w[g1].players, pid), has_player(w[g2].players, pid)]
        0 <= g1 < w.len() && 0 <= g2 < w.len() && g1 != g2 && has_player(w[g1].players, pid)
            implies !has_player(w[g2].players, pid) by {
        if g1 == g {
            if !has_player(v[g].players, pid) {
                assert(!has_player(v[g2].players, pid));
            }
        } else if g2 == g {
            if has_player(nr.players, pid) && !has_player(v[g].players, pid) {
                assert(has_player(v[g1].players, pid));
                assert(player_id_used(v, pid));
            }
        }
    }
}

// ---------------------------------------------------------------------------
// Leaving
// ---------------------------------------------------------------------------

/// A seat after the seat in front of it was vacated.
pub open spec fn moved_up(p: PlayerView) -> PlayerView {
    PlayerView {
        id: p.id,
        game_id: p.game_id,
        user: p.user,
        life: p.life,
        position: (p.position - 1) as i32,
        eliminated: p.eliminated,
    }
}

/// The seats after seat `k` is vacated: the ones behind it move up by one.
pub open spec fn seats_after_leave(ps: Seq<PlayerView>, k: int) -> Seq<PlayerView> {
    Seq::new(
        (ps.len() - 1) as nat,
        |i: int|
            if i < k {
                ps[i]
            } else {
                moved_up(ps[i + 1])
            },
    )
}

/// A record after the player in seat `k` left: the seat is gone, the seats
/// behind it move up, and every damage entry that names the player is gone.
pub open spec fn record_left(r: RecordView, k: int) -> RecordView {
    RecordView {
        game: r.game,
        players: seats_after_leave(r.players, k),
        life_changes: r.life_changes,
        damage: r.damage.filter(|e: CommanderDamage| !references(e, r.players[k].id)),
    }
}

/// The outcome of a leave, before anything is written.
pub open spec fn leave_check(v: Seq<RecordView>, gid: u128, user: Seq<char>) -> Option<ApiError> {
    let g = game_idx(v, gid);
    if g < 0 || v[g].game.status == GameStatus::Finished {
        Some(ApiError::GameNotFound)
    } else if seat_idx(v[g].players, user) < 0 {
        Some(ApiError::PlayerNotFound)
    } else {
        None
    }
}

/// Filtering keeps keys distinct, and keeps only entries of the filtered sequence.
pub proof fn lemma_filter_keys(cd: Seq<CommanderDamage>, pred: spec_fn(CommanderDamage) -> bool)
    requires
        keys_distinct(cd),
    ensures
        keys_distinct(cd.filter(pred)),
        forall|k: int| 0 <= k < cd.filter(pred).len() ==> cd.contains(#[trigger] cd.filter(pred)[k]),
    decreases cd.len(),
{
    broadcast use Seq::lemma_filter_contains_rev;

    reveal(Seq::filter);
    let f = cd.filter(pred);
    if cd.len() > 0 {
        let rest = cd.drop_last();
        assert forall|k1: int, k2: int|
            0 <= k1 < rest.len() && 0 <= k2 < rest.len() && k1 != k2 implies !same_key(
            #[trigger] rest[k1],
            rest[k2].from_player_id,
            rest[k2].to_player_id,
            #[trigger] rest[k2].commander_number,
        ) by {
            assert(rest[k1] == cd[k1] && rest[k2] == cd[k2]);
        }
        lemma_filter_keys(rest, pred);
        let rf = rest.filter(pred);
        assert forall|k: int| 0 <= k < f.len() implies cd.contains(#[trigger] f[k]) by {
            if k < rf.len() {
                assert(f[k] == rf[k]);
                assert(rest.contains(rf[k]));
                let j = choose|j: int| 0 <= j < rest.len() && rest[j] == rf[k];
                assert(cd[j] == rf[k]);
            } else {
                assert(f[k] == cd.last());
                assert(cd[cd.len() - 1] == cd.last());
            }
        }
        if pred(cd.last()) {
            let m = cd.len() - 1;
            assert forall|k1: int, k2: int|
                0 <= k1 < f.len() && 0 <= k2 < f.len() && k1 != k2 implies !same_key(
                #[trigger] f[k1],
                f[k2].from_player_id,
                f[k2].to_player_id,
                #[trigger] f[k2].commander_number,
            ) by {
                if k1 < rf.len() && k2 < rf.len() {
                    assert(f[k1] == rf[k1] && f[k2] == rf[k2]);
                } else if k1 < rf.len() {
                    assert(f[k1] == rf[k1]);
                    assert(rest.contains(rf[k1]));
                    let j = choose|j: int| 0 <= j < rest.len() && rest[j] == rf[k1];
                    assert(cd[j] == rest[j]);
                    assert(f[k2] == cd[m]);
                } else {
                    assert(f[k2] == rf[k2]);
                    assert(rest.contains(rf[k2]));
                    let j = choose|j: int| 0 <= j < rest.len() && rest[j] == rf[k2];
                    assert(cd[j] == rest[j]);
                    assert(f[k1] == cd[m]);
                }
            }
        } else {
            assert(f == rf);
        }
    }
}

/// Leaving keeps a record well formed.
pub proof fn lemma_left_wf(r: RecordView, k: int)
    requires
        r.wf(),
        0 <= k < r.players.len(),
    ensures
        record_left(r, k).wf(),
        forall|pid: u128| #[trigger]
            has_player(record_left(r, k).players, pid) ==> has_player(r.players, pid),
{
    let n = record_left(r, k);
    let ps = n.players;
    let pid = r.players[k].id;
    let pred = |e: CommanderDamage| !references(e, pid);
    let cd = n.damage;
    assert(cd == r.damage.filter(pred));
    // seat i of the new record is seat src(i) of the old one
    assert forall|i: int| 0 <= i < ps.len() implies #[trigger] ps[i].id == r.players[
        if i < k { i } else { i + 1 }
    ].id && ps[i].user == r.players[if i < k { i } else { i + 1 }].user by {}
    assert forall|q: u128| #[trigger] has_player(ps, q) implies has_player(r.players, q) by {
        let i = choose|i: int| 0 <= i < ps.len() && (#[trigger] ps[i]).id == q;
        let j = if i < k { i } else { i + 1 };
        assert(r.players[j].id == q);
    }
    assert forall|q: u128| has_player(r.players, q) && q != pid implies #[trigger] has_player(ps, q) by {
        let j = choose|j: int| 0 <= j < r.players.len() && (#[trigger] r.players[j]).id == q;
        let i = if j < k { j } else { j - 1 };
        assert(j != k);
        assert(ps[i].id == q);
    }
    lemma_filter_keys(r.damage, pred);
    assert forall|m: int| 0 <= m < cd.len() implies entry_ok(#[trigger] cd[m], n.game.id, ps) by {
        assert(r.damage.contains(cd[m]));
        let j = choose|j: int| 0 <= j < r.damage.len() && r.damage[j] == cd[m];
        assert(entry_ok(r.damage[j], r.game.id, r.players));
        r.damage.lemma_filter_pred(pred, m);
        assert(pred(cd[m]));
        assert(has_player(ps, cd[m].from_player_id));
        assert(has_player(ps, cd[m].to_player_id));
    }
    assert forall|i: int, j: int|
        0 <= i < ps.len() && 0 <= j < ps.len() && i != j implies has_entry(
        cd,
        (#[trigger] ps[i]).id,
        (#[trigger] ps[j]).id,
        1,
    ) by {
        let a = if i < k { i } else { i + 1 };
        let b = if j < k { j } else { j + 1 };
        assert(ps[i].id == r.players[a].id);
        assert(ps[j].id == r.players[b].id);
        assert(r.players[a].id != pid && r.players[b].id != pid);
        let m = choose|m: int|
            0 <= m < r.damage.len() && same_key(
                #[trigger] r.damage[m],
                r.players[a].id,
                r.players[b].id,
                1,
            );
        r.damage.lemma_filter_contains(pred, m);
        assert(cd.contains(r.damage[m]));
        let c = choose|c: int| 0 <= c < cd.len() && cd[c] == r.damage[m];
        assert(same_key(cd[c], ps[i].id, ps[j].id, 1));
    }
}

impl GameRecord {
    /// Vacates seat `k`: the seats behind it move up and every damage entry
    /// naming its player is dropped.
    pub fn remove_player(&mut self, k: usize)
        requires
            old(self)@.wf(),
            k < old(self)@.players.len(),
        ensures
            final(self)@ == record_left(old(self)@, k as int),
            final(self)@.wf(),
    {
        let ghost old_v = self@;
        let pid = self.players[k].id;
        assert(old_v.players[k as int].id == pid);
        let n = self.players.len();
        let mut seats: Vec<Player> = Vec::new();
        let mut i: usize = 0;
        while i < n
            invariant
                n == self.players.len(),
                k < n <= 8,
                i <= n,
                old_v == self@,
                old_v.wf(),
                players_view(seats@) == seats_after_leave(old_v.players, k as int).subrange(
                    0,
                    if i <= k { i as int } else { i - 1 },
                ),
            decreases n - i,
        {
            assert(old_v.players[i as int] == self.players@[i as int]@);
            let ghost prev = seats@;
            let ghost target = seats_after_leave(old_v.players, k as int);
            if i < k {
                seats.push(self.players[i].clone());
                assert(players_view(seats@) =~= players_view(prev).push(target[i as int]));
            } else if i > k {
                let mut p = self.players[i].clone();
                assert(old_v.players[i as int].position == i + 1);
                p.position = p.position - 1;
                seats.push(p);
                assert(players_view(seats@) =~= players_view(prev).push(target[i - 1]));
            }
            proof {
                assert(players_view(seats@) =~= target.subrange(
                    0,
                    if i + 1 <= k { i + 1 } else { i as int },
                ));
            }
            i = i + 1;
        }
        proof {
            assert(players_view(seats@) =~= seats_after_leave(old_v.players, k as int));
        }
        let ghost pred = |e: CommanderDamage| !references(e, pid);
        let mut kept: Vec<CommanderDamage> = Vec::new();
        let mut j: usize = 0;
        while j < self.commander_damage.len()
            invariant
                j <= self.commander_damage.len(),
                old_v == self@,
                pred == (|e: CommanderDamage| !references(e, pid)),
                kept@ == self.commander_damage@.subrange(0, j as int).filter(pred),
            decreases self.commander_damage.len() - j,
        {
            let e = self.commander_damage[j];
            proof {
                assert(self.commander_damage@.subrange(0, j + 1) =~= self.commander_damage@.subrange(
                    0,
                    j as int,
                ).push(e));
                self.commander_damage@.subrange(0, j as int).lemma_filter_push(e, pred);
            }
            if e.from_player_id != pid && e.to_player_id != pid {
                kept.push(e);
            }
            j = j + 1;
        }
        assert(self.commander_damage@.subrange(0, j as int) =~= self.commander_damage@);
        self.players = seats;
        self.commander_damage = kept;
        proof {
            assert(self@.damage == old_v.damage.filter(pred));
            lemma_left_wf(old_v, k as int);
        }
    }
}

// ---------------------------------------------------------------------------
// Store-level lookups
// ---------------------------------------------------------------------------

impl GameRepository {
    /// An empty store.
    pub fn new() -> (r: GameRepository)
        ensures
            r@ == Seq::<RecordView>::empty(),
            r.wf(),
    {
        let r = GameRepository { games: Vec::new() };
        assert(r@ =~= Seq::<RecordView>::empty());
        r
    }

    /// The index of the record of game `gid`, if any.
    pub fn find_game(&self, gid: u128) -> (r: Option<usize>)
        requires
            self.wf(),
        ensures
            r is None <==> game_idx(self@, gid) < 0,
            r matches Some(g) ==> g == game_idx(self@, gid) && g < self@.len(),
    {
        let mut g: usize = 0;
        while g < self.games.len()
            invariant
                g <= self.games.len(),
                self.wf(),
                forall|j: int| 0 <= j < g ==> (#[trigger] self@[j]).game.id != gid,
            decreases self.games.len() - g,
        {
            assert(self@[g as int] == self.games@[g as int]@);
            if self.games[g].game.id == gid {
                proof {
                    lemma_game_idx(self@, gid, g as int);
                }
                return Some(g);
            }
            g = g + 1;
        }
        None
    }

    /// Whether some game already has a player with id `pid`.
    pub fn player_id_in_use(&self, pid: u128) -> (r: bool)
        requires
            self.wf(),
        ensures
            r == player_id_used(self@, pid),
    {
        let mut g: usize = 0;
        while g < self.games.len()
            invariant
                g <= self.games.len(),
                self.wf(),
                forall|j: int| 0 <= j < g ==> !has_player(#[trigger] self@[j].players, pid),
            decreases self.games.len() - g,
        {
            assert(self@[g as int] == self.games@[g as int]@);
            if self.games[g].index_of_player(pid).is_some() {
                return true;
            }
            g = g + 1;
        }
        false
    }
}

// ---------------------------------------------------------------------------
// Unused identifiers
// ---------------------------------------------------------------------------

/// Of the values 0..=n, a sequence of length n misses at least one.
pub proof fn lemma_some_value_missing(s: Seq<int>)
    ensures
        exists|c: int| 0 <= c <= s.len() && !s.contains(c),
{
    broadcast use vstd::seq_lib::seq_to_set_is_finite;

    if forall|c: int| 0 <= c <= s.len() ==> s.contains(c) {
        let r = set_int_range(0, s.len() + 1 as int);
        lemma_int_range(0, s.len() + 1 as int);
        assert(r.subset_of(s.to_set()));
        s.lemma_cardinality_of_set();
        lemma_len_subset(r, s.to_set());
    }
}

/// Every player id of the store, game by game, in seat order.
pub open spec fn all_player_ids(v: Seq<RecordView>) -> Seq<int>
    decreases v.len(),
{
    if v.len() == 0 {
        Seq::empty()
    } else {
        all_player_ids(v.drop_last()) + v.last().players.map_values(|p: PlayerView| p.id as int)
    }
}

/// The id of every game of the store, in order.
pub open spec fn all_game_ids(v: Seq<RecordView>) -> Seq<int> {
    v.map_values(|r: RecordView| r.game.id as int)
}

pub proof fn lemma_used_id_listed(v: Seq<RecordView>, pid: u128)
    requires
        player_id_used(v, pid),
    ensures
        all_player_ids(v).contains(pid as int),
    decreases v.len(),
{
    let g = choose|g: int| 0 <= g < v.len() && has_player(#[trigger] v[g].players, pid);
    let front = all_player_ids(v.drop_last());
    let back = v.last().players.map_values(|p: PlayerView| p.id as int);
    assert(all_player_ids(v) == front + back);
    if g == v.len() - 1 {
        let i = choose|i: int| 0 <= i < v[g].players.len() && (#[trigger] v[g].players[i]).id == pid;
        assert((front + back)[front.len() + i] == pid as int);
    } else {
        assert(v.drop_last()[g] == v[g]);
        assert(player_id_used(v.drop_last(), pid));
        lemma_used_id_listed(v.drop_last(), pid);
        let i = choose|i: int| 0 <= i < front.len() && front[i] == pid as int;
        assert((front + back)[i] == pid as int);
    }
}

impl GameRepository {
    /// How many players the store seats, over all games.
    pub fn count_player_ids(&self) -> (r: u128)
        requires
            self.wf(),
        ensures
            r == all_player_ids(self@).len(),
            r <= 8 * self@.len(),
    {
        let mut n: u128 = 0;
        let mut g: usize = 0;
        while g < self.games.len()
            invariant
                g <= self.games.len(),
                self.wf(),
                n == all_player_ids(self@.subrange(0, g as int)).len(),
                n <= 8 * g,
            decreases self.games.len() - g,
        {
            assert(self@[g as int] == self.games@[g as int]@);
            assert(self@[g as int].wf());
            proof {
                let sub = self@.subrange(0, g + 1);
                assert(sub.drop_last() =~= self@.subrange(0, g as int));
                assert(sub.last() == self@[g as int]);
            }
            n = n + self.games[g].players.len() as u128;
            g = g + 1;
        }
        assert(self@.subrange(0, g as int) =~= self@);
        n
    }

    /// A player id no game uses.
    pub fn unused_player_id(&self) -> (r: u128)
        requires
            self.wf(),
        ensures
            !player_id_used(self@, r),
    {
        let total = self.count_player_ids();
        let n_games = self.games.len();
        assert(self@.len() == n_games as int);
        let mut c: u128 = 0;
        while c <= total
            invariant
                self.wf(),
                total < u128::MAX,
                total == all_player_ids(self@).len(),
                total <= 8 * self@.len(),
                c <= total + 1,
                forall|x: int| 0 <= x < c ==> all_player_ids(self@).contains(x),
            decreases total + 1 - c,
        {
            if !self.player_id_in_use(c) {
                return c;
            }
            proof {
                lemma_used_id_listed(self@, c);
            }
            c = c + 1;
        }
        proof {
            lemma_some_value_missing(all_player_ids(self@));
        }
        0
    }

    /// A game id no game has.
    pub fn unused_game_id(&self) -> (r: u128)
        requires
            self.wf(),
        ensures
            game_idx(self@, r) < 0,
    {
        let total = self.games.len() as u128;
        let mut c: u128 = 0;
        while c <= total
            invariant
                self.wf(),
                total < u128::MAX,
                total == all_game_ids(self@).len(),
                c <= total + 1,
                forall|x: int| 0 <= x < c ==> all_game_ids(self@).contains(x),
            decreases total + 1 - c,
        {
            match self.find_game(c) {
                None => return c,
                Some(g) => {
                    assert(all_game_ids(self@)[g as int] == c as int);
                },
            }
            c = c + 1;
        }
        proof {
            lemma_some_value_missing(all_game_ids(self@));
        }
        0
    }

    /// `candidate` when no game uses it as a player id, else an unused one.
    pub fn fresh_player_id(&self, candidate: u128) -> (r: u128)
        requires
            self.wf(),
        ensures
            !player_id_used(self@, r),
            !player_id_used(self@, candidate) ==> r == candidate,
    {
        if self.player_id_in_use(candidate) {
            self.unused_player_id()
        } else {
            candidate
        }
    }
}

// ---------------------------------------------------------------------------
// Joining and leaving
// ---------------------------------------------------------------------------

/// What a join of `user` to game `gid` as player `pid` at time `now` does.
pub open spec fn join_effect(
    before: Seq<RecordView>,
    after: Seq<RecordView>,
    r: Result<Player, ApiError>,
    gid: u128,
    user: Seq<char>,
    pid: u128,
    now: i64,
) -> bool {
    match join_check(before, gid, user, pid) {
        Some(e) => r == Err::<Player, ApiError>(e) && after == before,
        None => {
            let g = game_idx(before, gid);
            &&& r matches Ok(p) && p@ == new_seat(before[g], user, pid)
            &&& after == before.update(g, record_joined(before[g], user, pid, now))
        },
    }
}

/// Seats `clerk_user_id` at game `game_id` as player `player_id`, with the
/// slot-1 damage entries against every other seat; see `join_check` for
/// when it fails.
pub fn join_game_with_id(
    pool: &mut GameRepository,
    game_id: u128,
    clerk_user_id: &str,
    player_id: u128,
    now: i64,
) -> (r: Result<Player, ApiError>)
    requires
        old(pool).wf(),
    ensures
        final(pool).wf(),
        join_effect(old(pool)@, final(pool)@, r, game_id, clerk_user_id@, player_id, now),
{
    let user = clerk_user_id.to_owned();
    let g = match pool.find_game(game_id) {
        None => return Err(ApiError::GameNotFound),
        Some(g) => g,
    };
    assert(pool@[g as int] == pool.games@[g as int]@);
    if pool.games[g].game.status == GameStatus::Finished {
        return Err(ApiError::Invalid(InvalidInput::GameFinished));
    }
    if pool.games[g].seat_of(&user).is_some() {
        return Err(ApiError::Conflict(ConflictKind::AlreadySeated));
    }
    if pool.games[g].players.len() >= MAX_PLAYERS_PER_GAME {
        return Err(ApiError::Capacity);
    }
    if pool.player_id_in_use(player_id) {
        return Err(ApiError::Internal);
    }
    let ghost v = pool@;
    proof {
        if has_player(v[g as int].players, player_id) {
            assert(player_id_used(v, player_id));
        }
    }
    let p = pool.games[g].add_player(user, player_id, now);
    proof {
        let nr = record_joined(v[g as int], clerk_user_id@, player_id, now);
        assert(pool@ =~= v.update(g as int, nr));
        assert forall|q: u128| #[trigger] has_player(nr.players, q) implies has_player(
            v[g as int].players,
            q,
        ) || !player_id_used(v, q) by {
            let i = choose|i: int| 0 <= i < nr.players.len() && (#[trigger] nr.players[i]).id == q;
            if i < v[g as int].players.len() {
                assert(v[g as int].players[i].id == q);
            }
        }
        lemma_repo_update(v, g as int, nr);
    }
    Ok(p)
}

/// Seats `clerk_user_id` at game `game_id` under a fresh player id.
pub fn join_game(pool: &mut GameRepository, game_id: u128, clerk_user_id: &str) -> (r: Result<
    Player,
    ApiError,
>)
    requires
        old(pool).wf(),
    ensures
        final(pool).wf(),
        exists|pid: u128, now: i64|
            !player_id_used(old(pool)@, pid) && #[trigger] join_effect(
                old(pool)@,
                final(pool)@,
                r,
                game_id,
                clerk_user_id@,
                pid,
                now,
            ),
{
    let pid = pool.fresh_player_id(new_id());
    let now = now_millis();
    join_game_with_id(pool, game_id, clerk_user_id, pid, now)
}

/// What `user` leaving game `gid` does.
pub open spec fn leave_effect(
    before: Seq<RecordView>,
    after: Seq<RecordView>,
    r: Result<(), ApiError>,
    gid: u128,
    user: Seq<char>,
) -> bool {
    match leave_check(before, gid, user) {
        Some(e) => r == Err::<(), ApiError>(e) && after == before,
        None => {
            let g = game_idx(before, gid);
            &&& r is Ok
            &&& after == before.update(
                g,
                record_left(before[g], seat_idx(before[g].players, user)),
            )
        },
    }
}

/// Removes `clerk_user_id` from game `game_id`: the seat goes, the seats
/// behind it move up one position, and every commander-damage entry naming
/// the player goes too. The game is not ended.
pub fn leave_game(pool: &mut GameRepository, game_id: u128, clerk_user_id: &str) -> (r: Result<
    (),
    ApiError,
>)
    requires
        old(pool).wf(),
    ensures
        final(pool).wf(),
        leave_effect(old(pool)@, final(pool)@, r, game_id, clerk_user_id@),
{
    let user = clerk_user_id.to_owned();
    let g = match pool.find_game(game_id) {
        None => return Err(ApiError::GameNotFound),
        Some(g) => g,
    };
    assert(pool@[g as int] == pool.games@[g as int]@);
    if pool.games[g].game.status == GameStatus::Finished {
        return Err(ApiError::GameNotFound);
    }
    let k = match pool.games[g].seat_of(&user) {
        None => return Err(ApiError::PlayerNotFound),
        Some(k) => k,
    };
    let ghost v = pool@;
    pool.games[g].remove_player(k);
    proof {
        let nr = record_left(v[g as int], k as int);
        assert(pool@ =~= v.update(g as int, nr));
        lemma_left_wf(v[g as int], k as int);
        lemma_repo_update(v, g as int, nr);
    }
    Ok(())
}


// ---------------------------------------------------------------------------
// Life totals
// ---------------------------------------------------------------------------

/// The index of the game that seats player `pid`, or -1.
pub open spec fn player_game(v: Seq<RecordView>, pid: u128) -> int {
    if player_id_used(v, pid) {
        choose|g: int| 0 <= g < v.len() && has_player(#[trigger] v[g].players, pid)
    } else {
        -1
    }
}

/// A seat with another life total.
pub open spec fn with_life(p: PlayerView, life: i32) -> PlayerView {
    PlayerView {
        id: p.id,
        game_id: p.game_id,
        user: p.user,
        life: life,
        position: p.position,
        eliminated: p.eliminated,
    }
}

/// The log entry of a life change of seat `k` by `delta`.
pub open spec fn life_entry(r: RecordView, k: int, delta: i32, change_id: u128, now: i64) -> LifeChange {
    LifeChange {
        id: change_id,
        game_id: r.game.id,
        player_id: r.players[k].id,
        change_amount: delta,
        new_life_total: (r.players[k].life + delta) as i32,
        created_at: now,
    }
}

/// A record after the life of seat `k` changed by `delta`, with the change logged.
pub open spec fn record_life(r: RecordView, k: int, delta: i32, change_id: u128, now: i64) -> RecordView {
    RecordView {
        game: r.game,
        players: r.players.update(k, with_life(r.players[k], (r.players[k].life + delta) as i32)),
        life_changes: r.life_changes.push(life_entry(r, k, delta, change_id, now)),
        damage: r.damage,
    }
}

/// The outcome of a life change, before anything is written.
pub open spec fn life_check(v: Seq<RecordView>, pid: u128, delta: i32) -> Option<ApiError> {
    let g = player_game(v, pid);
    if g < 0 {
        Some(ApiError::PlayerNotFound)
    } else {
        let life = v[g].players[player_idx(v[g].players, pid)].life + delta;
        if life < i32::MIN || life > i32::MAX {
            Some(ApiError::Invalid(InvalidInput::LifeOutOfRange))
        } else {
            None
        }
    }
}

/// What changing the life of player `pid` by `delta` does.
pub open spec fn life_effect(
    before: Seq<RecordView>,
    after: Seq<RecordView>,
    r: Result<(Player, LifeChange), ApiError>,
    pid: u128,
    delta: i32,
    change_id: u128,
    now: i64,
) -> bool {
    match life_check(before, pid, delta) {
        Some(e) => r == Err::<(Player, LifeChange), ApiError>(e) && after == before,
        None => {
            let g = player_game(before, pid);
            let k = player_idx(before[g].players, pid);
            let nr = record_life(before[g], k, delta, change_id, now);
            &&& r matches Ok((p, lc)) && p@ == nr.players[k] && lc == life_entry(
                before[g],
                k,
                delta,
                change_id,
                now,
            )
            &&& after == before.update(g, nr)
        },
    }
}

/// Changing a life total keeps a record well formed and its seats.
pub proof fn lemma_life_wf(r: RecordView, k: int, delta: i32, change_id: u128, now: i64)
    requires
        r.wf(),
        0 <= k < r.players.len(),
    ensures
        record_life(r, k, delta, change_id, now).wf(),
        forall|q: u128|
            #[trigger] has_player(record_life(r, k, delta, change_id, now).players, q)
                == has_player(r.players, q),
{
    let ps = record_life(r, k, delta, change_id, now).players;
    assert forall|i: int| 0 <= i < ps.len() implies (#[trigger] ps[i]).id == r.players[i].id
        && ps[i].user == r.players[i].user && ps[i].position == r.players[i].position
        && ps[i].game_id == r.players[i].game_id by {}
    assert forall|q: u128| #[trigger] has_player(ps, q) == has_player(r.players, q) by {
        if has_player(ps, q) {
            let i = choose|i: int| 0 <= i < ps.len() && (#[trigger] ps[i]).id == q;
            assert(r.players[i].id == q);
        }
        if has_player(r.players, q) {
            let i = choose|i: int| 0 <= i < r.players.len() && (#[trigger] r.players[i]).id == q;
            assert(ps[i].id == q);
        }
    }
    let cd = r.damage;
    assert forall|k2: int| 0 <= k2 < cd.len() implies entry_ok(#[trigger] cd[k2], r.game.id, ps) by {
        assert(entry_ok(cd[k2], r.game.id, r.players));
        assert(has_player(ps, cd[k2].from_player_id) == has_player(r.players, cd[k2].from_player_id));
        assert(has_player(ps, cd[k2].to_player_id) == has_player(r.players, cd[k2].to_player_id));
    }
    assert forall|i: int, j: int|
        0 <= i < ps.len() && 0 <= j < ps.len() && i != j implies has_entry(
        cd,
        (#[trigger] ps[i]).id,
        (#[trigger] ps[j]).id,
        1,
    ) by {
        assert(has_entry(cd, r.players[i].id, r.players[j].id, 1));
    }
}

impl GameRepository {
    /// Where player `pid` sits: the game's index and the seat's index.
    pub fn locate_player(&self, pid: u128) -> (r: Option<(usize, usize)>)
        requires
            self.wf(),
        ensures
            r is None <==> player_game(self@, pid) < 0,
            r matches Some((g, k)) ==> g == player_game(self@, pid) && g < self@.len() && k
                == player_idx(self@[g as int].players, pid) && k < self@[g as int].players.len(),
    {
        let mut g: usize = 0;
        while g < self.games.len()
            invariant
                g <= self.games.len(),
                self.wf(),
                forall|j: int| 0 <= j < g ==> !has_player(#[trigger] self@[j].players, pid),
            decreases self.games.len() - g,
        {
            assert(self@[g as int] == self.games@[g as int]@);
            match self.games[g].index_of_player(pid) {
                Some(k) => {
                    proof {
                        let v = self@;
                        assert(player_id_used(v, pid));
                        let c = choose|c: int| 0 <= c < v.len() && has_player(#[trigger] v[c].players, pid);
                        if c != g {
                            assert(!has_player(v[c].players, pid));
                        }
                        lemma_player_idx_range(v[g as int].players, pid);
                    }
                    return Some((g, k));
                },
                None => {},
            }
            g = g + 1;
        }
        None
    }
}

/// Adds `change_amount` to the life of player `player_id` and logs the change
/// under `change_id`; see `life_check` for when it fails.
pub fn update_player_life_with_id(
    pool: &mut GameRepository,
    player_id: u128,
    change_amount: i32,
    change_id: u128,
    now: i64,
) -> (r: Result<(Player, LifeChange), ApiError>)
    requires
        old(pool).wf(),
    ensures
        final(pool).wf(),
        life_effect(old(pool)@, final(pool)@, r, player_id, change_amount, change_id, now),
{
    let (g, k) = match pool.locate_player(player_id) {
        None => return Err(ApiError::PlayerNotFound),
        Some(loc) => loc,
    };
    let ghost v = pool@;
    assert(v[g as int] == pool.games@[g as int]@);
    assert(v[g as int].players[k as int] == pool.games@[g as int].players@[k as int]@);
    let life = pool.games[g].players[k].current_life;
    let new_life = match life.checked_add(change_amount) {
        None => return Err(ApiError::Invalid(InvalidInput::LifeOutOfRange)),
        Some(x) => x,
    };
    let gid = pool.games[g].game.id;
    let change = LifeChange {
        id: change_id,
        game_id: gid,
        player_id: player_id,
        change_amount: change_amount,
        new_life_total: new_life,
        created_at: now,
    };
    pool.games[g].players[k].current_life = new_life;
    pool.games[g].life_changes.push(change);
    let p = pool.games[g].players[k].clone();
    proof {
        let nr = record_life(v[g as int], k as int, change_amount, change_id, now);
        assert(pool.games@[g as int]@.players =~= nr.players);
        assert(pool.games@[g as int]@ == nr);
        assert(pool@ =~= v.update(g as int, nr));
        lemma_life_wf(v[g as int], k as int, change_amount, change_id, now);
        lemma_repo_update(v, g as int, nr);
    }
    Ok((p, change))
}

/// Adds `change_amount` to the life of player `player_id` and logs the change.
pub fn update_player_life(pool: &mut GameRepository, player_id: u128, change_amount: i32) -> (r:
    Result<(Player, LifeChange), ApiError>)
    requires
        old(pool).wf(),
    ensures
        final(pool).wf(),
        exists|change_id: u128, now: i64|
            life_effect(old(pool)@, final(pool)@, r, player_id, change_amount, change_id, now),
{
    let change_id = new_id();
    let now = now_millis();
    update_player_life_with_id(pool, player_id, change_amount, change_id, now)
}


// ---------------------------------------------------------------------------
// Creating and ending games
// ---------------------------------------------------------------------------

/// A fresh active game record with no seats yet.
pub open spec fn empty_record(gid: u128, name: Seq<char>, starting_life: i32, now: i64) -> RecordView {
    RecordView {
        game: GameView {
            id: gid,
            name: name,
            status: GameStatus::Active,
            starting_life: starting_life,
            created_at: now,
            finished_at: None,
        },
        players: Seq::empty(),
        life_changes: Seq::empty(),
        damage: Seq::empty(),
    }
}

/// The outcome of creating a game, before anything is written.
pub open spec fn create_check(
    v: Seq<RecordView>,
    name: Seq<char>,
    starting_life: i32,
    gid: u128,
    pid: u128,
) -> Option<ApiError> {
    if active_name_taken(v, name) {
        Some(ApiError::Conflict(ConflictKind::GameNameTaken))
    } else if starting_life < 1 || starting_life > 999 {
        Some(ApiError::Invalid(InvalidInput::StartingLifeOutOfRange))
    } else if game_idx(v, gid) >= 0 || player_id_used(v, pid) {
        Some(ApiError::Internal)
    } else {
        None
    }
}

/// What creating game `gid` called `name`, with `creator` seated as `pid`, does.
pub open spec fn create_effect(
    before: Seq<RecordView>,
    after: Seq<RecordView>,
    r: Result<Game, ApiError>,
    name: Seq<char>,
    starting_life: i32,
    creator: Seq<char>,
    gid: u128,
    pid: u128,
    now: i64,
) -> bool {
    match create_check(before, name, starting_life, gid, pid) {
        Some(e) => r == Err::<Game, ApiError>(e) && after == before,
        None => {
            let e = empty_record(gid, name, starting_life, now);
            &&& r matches Ok(game) && game@ == e.game
            &&& after == before.insert(insert_pos(before, now), record_joined(e, creator, pid, now))
        },
    }
}

/// Where a game created at `t` goes: after every game created at `t` or
/// earlier.
pub open spec fn insert_pos(v: Seq<RecordView>, t: i64) -> int
    decreases v.len(),
{
    if v.len() == 0 {
        0
    } else if v.last().game.created_at <= t {
        v.len() as int
    } else {
        insert_pos(v.drop_last(), t)
    }
}

pub proof fn lemma_insert_pos(v: Seq<RecordView>, t: i64)
    requires
        created_in_order(v),
    ensures
        0 <= insert_pos(v, t) <= v.len(),
        forall|i: int| 0 <= i < insert_pos(v, t) ==> (#[trigger] v[i]).game.created_at <= t,
        forall|i: int| insert_pos(v, t) <= i < v.len() ==> (#[trigger] v[i]).game.created_at > t,
    decreases v.len(),
{
    if v.len() > 0 {
        let d = v.drop_last();
        assert forall|g1: int, g2: int| 0 <= g1 < g2 < d.len() implies (#[trigger] d[g1]).game.created_at
            <= (#[trigger] d[g2]).game.created_at by {
            assert(d[g1] == v[g1] && d[g2] == v[g2]);
        }
        lemma_insert_pos(d, t);
        if v.last().game.created_at <= t {
            assert forall|i: int| 0 <= i < v.len() implies (#[trigger] v[i]).game.created_at <= t by {
                if i < v.len() - 1 {
                    assert(v[i].game.created_at <= v[v.len() - 1].game.created_at);
                }
            }
        } else {
            assert forall|i: int| 0 <= i < insert_pos(v, t) implies (#[trigger] v[i]).game.created_at
                <= t by {
                assert(d[i] == v[i]);
            }
            assert forall|i: int| insert_pos(v, t) <= i < v.len() implies (
            #[trigger] v[i]).game.created_at > t by {
                if i < v.len() - 1 {
                    assert(d[i] == v[i]);
                }
            }
        }
    }
}

/// Adding a well-formed record with a new game id and unused seats, at its
/// place in creation order, keeps the store well formed.
pub proof fn lemma_repo_insert(v: Seq<RecordView>, nr: RecordView)
    requires
        repo_wf(v),
        nr.wf(),
        game_idx(v, nr.game.id) < 0,
        forall|q: u128| #[trigger] has_player(nr.players, q) ==> !player_id_used(v, q),
    ensures
        repo_wf(v.insert(insert_pos(v, nr.game.created_at), nr)),
{
    let p = insert_pos(v, nr.game.created_at);
    lemma_insert_pos(v, nr.game.created_at);
    let w = v.insert(p, nr);
    assert forall|g: int| 0 <= g < w.len() && g != p implies #[trigger] w[g] == v[if g < p { g } else { g - 1 }] by {}
    assert(w[p] == nr);
    assert forall|g: int| 0 <= g < w.len() implies (#[trigger] w[g]).wf() by {
        if g != p {
            assert(w[g] == v[if g < p { g } else { g - 1 }]);
        }
    }
    assert forall|g1: int, g2: int| 0 <= g1 < g2 < w.len() implies (#[trigger] w[g1]).game.created_at
        <= (#[trigger] w[g2]).game.created_at by {
        let a = if g1 < p { g1 } else { g1 - 1 };
        let b = if g2 < p { g2 } else { g2 - 1 };
        if g1 != p && g2 != p {
            assert(w[g1] == v[a] && w[g2] == v[b]);
            assert(v[a].game.created_at <= v[b].game.created_at);
        } else if g1 == p {
            assert(w[g2] == v[b]);
        } else {
            assert(w[g1] == v[a]);
        }
    }
    assert forall|g1: int, g2: int|
        0 <= g1 < w.len() && 0 <= g2 < w.len() && g1 != g2 implies (#[trigger] w[g1]).game.id != (
        #[trigger] w[g2]).game.id by {
        let a = if g1 < p { g1 } else { g1 - 1 };
        let b = if g2 < p { g2 } else { g2 - 1 };
        if g1 == p {
            assert(w[g2] == v[b]);
            assert(v[b].game.id != nr.game.id);
        } else if g2 == p {
            assert(w[g1] == v[a]);
            assert(v[a].game.id != nr.game.id);
        } else {
            assert(w[g1] == v[a] && w[g2] == v[b]);
        }
    }
    assert forall|g1: int, g2: int, q: u128|
        #![trigger has_player(w[g1].players, q), has_player(w[g2].players, q)]
        0 <= g1 < w.len() && 0 <= g2 < w.len() && g1 != g2 && has_player(w[g1].players, q)
            implies !has_player(w[g2].players, q) by {
        let a = if g1 < p { g1 } else { g1 - 1 };
        let b = if g2 < p { g2 } else { g2 - 1 };
        if g1 == p {
            assert(w[g2] == v[b]);
            if has_player(v[b].players, q) {
                assert(player_id_used(v, q));
            }
        } else if g2 == p {
            assert(w[g1] == v[a]);
            if has_player(nr.players, q) {
                assert(player_id_used(v, q));
            }
        } else {
            assert(w[g1] == v[a] && w[g2] == v[b]);
            assert(has_player(v[a].players, q));
        }
    }
}

/// Whether an active game of the store is called `name`.
pub fn active_game_named(pool: &GameRepository, name: &String) -> (r: bool)
    ensures
        r == active_name_taken(pool@, name@),
{
    let mut g: usize = 0;
    while g < pool.games.len()
        invariant
            g <= pool.games.len(),
            forall|j: int|
                0 <= j < g ==> !((#[trigger] pool@[j]).game.status == GameStatus::Active
                    && pool@[j].game.name == name@),
        decreases pool.games.len() - g,
    {
        assert(pool@[g as int] == pool.games@[g as int]@);
        if pool.games[g].game.status == GameStatus::Active && pool.games[g].game.name == *name {
            return true;
        }
        g = g + 1;
    }
    false
}

/// Creates an active game `game_id` called `name` and seats its creator as
/// player #1 under `player_id`; see `create_check` for when it fails.
pub fn create_game_with_ids(
    pool: &mut GameRepository,
    name: &str,
    starting_life: i32,
    creator_clerk_user_id: &str,
    game_id: u128,
    player_id: u128,
    now: i64,
) -> (r: Result<Game, ApiError>)
    requires
        old(pool).wf(),
    ensures
        final(pool).wf(),
        create_effect(
            old(pool)@,
            final(pool)@,
            r,
            name@,
            starting_life,
            creator_clerk_user_id@,
            game_id,
            player_id,
            now,
        ),
{
    let name = name.to_owned();
    if active_game_named(pool, &name) {
        return Err(ApiError::Conflict(ConflictKind::GameNameTaken));
    }
    if starting_life < 1 || starting_life > MAX_STARTING_LIFE {
        return Err(ApiError::Invalid(InvalidInput::StartingLifeOutOfRange));
    }
    if pool.find_game(game_id).is_some() || pool.player_id_in_use(player_id) {
        return Err(ApiError::Internal);
    }
    let game = Game {
        id: game_id,
        name: name,
        status: GameStatus::Active,
        starting_life: starting_life,
        created_at: now,
        finished_at: None,
    };
    let result = game.clone();
    let mut record = GameRecord {
        game: game,
        players: Vec::new(),
        life_changes: Vec::new(),
        commander_damage: Vec::new(),
    };
    let ghost e = empty_record(game_id, name@, starting_life, now);
    proof {
        assert(record@.players =~= e.players);
        assert(record@ == e);
        assert(!has_player(e.players, player_id));
    }
    let _creator = record.add_player(creator_clerk_user_id.to_owned(), player_id, now);
    let ghost v = pool@;
    let mut p: usize = pool.games.len();
    assert(v.subrange(0, p as int) =~= v);
    while p > 0 && pool.games[p - 1].game.created_at > now
        invariant
            p <= pool.games.len(),
            v == pool@,
            insert_pos(v.subrange(0, p as int), now) == insert_pos(v, now),
        decreases p,
    {
        proof {
            let sub = v.subrange(0, p as int);
            assert(sub.last() == v[p - 1]);
            assert(v[p - 1] == pool.games@[p - 1]@);
            assert(sub.drop_last() =~= v.subrange(0, p - 1));
        }
        p = p - 1;
    }
    proof {
        if p > 0 {
            assert(v[p - 1] == pool.games@[p - 1]@);
            assert(v.subrange(0, p as int).last() == v[p - 1]);
        } else {
            assert(v.subrange(0, 0) =~= Seq::<RecordView>::empty());
        }
    }
    pool.games.insert(p, record);
    proof {
        let nr = record_joined(e, creator_clerk_user_id@, player_id, now);
        assert(pool@ =~= v.insert(p as int, nr));
        assert forall|q: u128| #[trigger] has_player(nr.players, q) implies !player_id_used(v, q) by {
            let i = choose|i: int| 0 <= i < nr.players.len() && (#[trigger] nr.players[i]).id == q;
            assert(i == 0);
        }
        lemma_repo_insert(v, nr);
    }
    Ok(result)
}

/// Creates an active game called `name` and seats its creator as player #1,
/// under identifiers no game uses yet.
pub fn create_game(
    pool: &mut GameRepository,
    name: &str,
    starting_life: i32,
    creator_clerk_user_id: &str,
) -> (r: Result<Game, ApiError>)
    requires
        old(pool).wf(),
    ensures
        final(pool).wf(),
        exists|gid: u128, pid: u128, now: i64|
            game_idx(old(pool)@, gid) < 0 && !player_id_used(old(pool)@, pid) && #[trigger] create_effect(
                old(pool)@,
                final(pool)@,
                r,
                name@,
                starting_life,
                creator_clerk_user_id@,
                gid,
                pid,
                now,
            ),
{
    let drawn = new_id();
    let game_id = if pool.find_game(drawn).is_some() {
        pool.unused_game_id()
    } else {
        drawn
    };
    let player_id = pool.fresh_player_id(new_id());
    let now = now_millis();
    create_game_with_ids(pool, name, starting_life, creator_clerk_user_id, game_id, player_id, now)
}

/// A record whose game finished at `now`.
pub open spec fn record_ended(r: RecordView, now: i64) -> RecordView {
    RecordView {
        game: GameView {
            id: r.game.id,
            name: r.game.name,
            status: GameStatus::Finished,
            starting_life: r.game.starting_life,
            created_at: r.game.created_at,
            finished_at: Some(now),
        },
        players: r.players,
        life_changes: r.life_changes,
        damage: r.damage,
    }
}

/// What ending game `gid` at `now` does.
pub open spec fn end_effect(
    before: Seq<RecordView>,
    after: Seq<RecordView>,
    r: Result<Game, ApiError>,
    gid: u128,
    now: i64,
) -> bool {
    let g = game_idx(before, gid);
    if g < 0 {
        r == Err::<Game, ApiError>(ApiError::GameNotFound) && after == before
    } else {
        &&& r matches Ok(game) && game@ == record_ended(before[g], now).game
        &&& after == before.update(g, record_ended(before[g], now))
    }
}

/// Marks game `game_id` finished at `now`. Ending a finished game again
/// stamps the new time.
pub fn end_game_at(pool: &mut GameRepository, game_id: u128, now: i64) -> (r: Result<Game, ApiError>)
    requires
        old(pool).wf(),
    ensures
        final(pool).wf(),
        end_effect(old(pool)@, final(pool)@, r, game_id, now),
{
    let g = match pool.find_game(game_id) {
        None => return Err(ApiError::GameNotFound),
        Some(g) => g,
    };
    let ghost v = pool@;
    assert(v[g as int] == pool.games@[g as int]@);
    pool.games[g].game.status = GameStatus::Finished;
    pool.games[g].game.finished_at = Some(now);
    let game = pool.games[g].game.clone();
    proof {
        let nr = record_ended(v[g as int], now);
        assert(pool.games@[g as int]@ == nr);
        assert(pool@ =~= v.update(g as int, nr));
        lemma_repo_update(v, g as int, nr);
    }
    Ok(game)
}

/// Marks game `game_id` finished now.
pub fn end_game(pool: &mut GameRepository, game_id: u128) -> (r: Result<Game, ApiError>)
    requires
        old(pool).wf(),
    ensures
        final(pool).wf(),
        exists|now: i64| end_effect(old(pool)@, final(pool)@, r, game_id, now),
{
    let now = now_millis();
    end_game_at(pool, game_id, now)
}


// ---------------------------------------------------------------------------
// Commander damage
// ---------------------------------------------------------------------------

/// The index of the entry with key (`from`, `to`, `slot`), or -1.
pub open spec fn entry_idx(cd: Seq<CommanderDamage>, from: u128, to: u128, slot: i32) -> int {
    if has_entry(cd, from, to, slot) {
        choose|k: int| 0 <= k < cd.len() && same_key(#[trigger] cd[k], from, to, slot)
    } else {
        -1
    }
}

/// An entry with another damage total, changed at `now`.
pub open spec fn with_damage(e: CommanderDamage, damage: i32, now: i64) -> CommanderDamage {
    CommanderDamage {
        game_id: e.game_id,
        from_player_id: e.from_player_id,
        to_player_id: e.to_player_id,
        commander_number: e.commander_number,
        damage: damage,
        created_at: e.created_at,
        updated_at: now,
    }
}

/// The entries after the one keyed (`from`, `to`, `slot`) is set to `damage`:
/// updated in place when it exists, appended otherwise.
pub open spec fn damage_upserted(
    cd: Seq<CommanderDamage>,
    gid: u128,
    from: u128,
    to: u128,
    slot: i32,
    damage: i32,
    now: i64,
) -> Seq<CommanderDamage> {
    let k = entry_idx(cd, from, to, slot);
    if k >= 0 {
        cd.update(k, with_damage(cd[k], damage, now))
    } else {
        cd.push(with_damage(zero_entry(gid, from, to, slot, now), damage, now))
    }
}

pub open spec fn record_damage(
    r: RecordView,
    from: u128,
    to: u128,
    slot: i32,
    damage: i32,
    now: i64,
) -> RecordView {
    RecordView {
        game: r.game,
        players: r.players,
        life_changes: r.life_changes,
        damage: damage_upserted(r.damage, r.game.id, from, to, slot, damage, now),
    }
}

/// The outcome of setting a commander-damage total, before anything is written.
pub open spec fn damage_check(
    v: Seq<RecordView>,
    gid: u128,
    from: u128,
    to: u128,
    slot: i32,
    damage: i32,
) -> Option<ApiError> {
    let g = game_idx(v, gid);
    if damage < 0 || damage > 999 {
        Some(ApiError::Invalid(InvalidInput::DamageOutOfRange))
    } else if slot != 1 && slot != 2 {
        Some(ApiError::Invalid(InvalidInput::CommanderNumber))
    } else if from == to {
        Some(ApiError::Invalid(InvalidInput::SelfDamage))
    } else if g < 0 {
        Some(ApiError::GameNotFound)
    } else if !has_player(v[g].players, from) || !has_player(v[g].players, to) {
        Some(ApiError::Invalid(InvalidInput::PlayerNotInGame))
    } else {
        None
    }
}

/// What setting the damage of key (`from`, `to`, `slot`) in game `gid` does.
pub open spec fn damage_effect(
    before: Seq<RecordView>,
    after: Seq<RecordView>,
    r: Result<CommanderDamage, ApiError>,
    gid: u128,
    from: u128,
    to: u128,
    slot: i32,
    damage: i32,
    now: i64,
) -> bool {
    match damage_check(before, gid, from, to, slot, damage) {
        Some(e) => r == Err::<CommanderDamage, ApiError>(e) && after == before,
        None => {
            let g = game_idx(before, gid);
            let nr = record_damage(before[g], from, to, slot, damage, now);
            &&& r matches Ok(e) && e == nr.damage[entry_idx(nr.damage, from, to, slot)]
            &&& has_entry(nr.damage, from, to, slot)
            &&& after == before.update(g, nr)
        },
    }
}

/// The index of the entry keyed like the `k`-th one is `k` itself.
pub proof fn lemma_entry_idx(cd: Seq<CommanderDamage>, k: int)
    requires
        keys_distinct(cd),
        0 <= k < cd.len(),
    ensures
        entry_idx(cd, cd[k].from_player_id, cd[k].to_player_id, cd[k].commander_number) == k,
{
    assert(same_key(cd[k], cd[k].from_player_id, cd[k].to_player_id, cd[k].commander_number));
}

/// Setting a damage total keeps a record well formed.
pub proof fn lemma_damage_wf(r: RecordView, from: u128, to: u128, slot: i32, damage: i32, now: i64)
    requires
        r.wf(),
        0 <= damage <= 999,
        slot == 1 || slot == 2,
        from != to,
        has_player(r.players, from),
        has_player(r.players, to),
    ensures
        record_damage(r, from, to, slot, damage, now).wf(),
        has_entry(record_damage(r, from, to, slot, damage, now).damage, from, to, slot),
        entry_idx(record_damage(r, from, to, slot, damage, now).damage, from, to, slot) >= 0,
        record_damage(r, from, to, slot, damage, now).damage[entry_idx(
            record_damage(r, from, to, slot, damage, now).damage,
            from,
            to,
            slot,
        )].damage == damage,
{
    let cd = r.damage;
    let nd = record_damage(r, from, to, slot, damage, now).damage;
    let k = entry_idx(cd, from, to, slot);
    let m = if k >= 0 { k } else { cd.len() as int };
    assert(same_key(nd[m], from, to, slot));
    assert forall|j: int| 0 <= j < cd.len() implies same_key(
        #[trigger] nd[j],
        cd[j].from_player_id,
        cd[j].to_player_id,
        cd[j].commander_number,
    ) by {}
    assert forall|k1: int, k2: int|
        0 <= k1 < nd.len() && 0 <= k2 < nd.len() && k1 != k2 implies !same_key(
        #[trigger] nd[k1],
        nd[k2].from_player_id,
        nd[k2].to_player_id,
        #[trigger] nd[k2].commander_number,
    ) by {
        if k1 < cd.len() && k2 < cd.len() {
            assert(!same_key(cd[k1], cd[k2].from_player_id, cd[k2].to_player_id, cd[k2].commander_number));
        } else if k1 < cd.len() {
            assert(!same_key(cd[k1], from, to, slot));
        } else {
            assert(!same_key(cd[k2], from, to, slot));
        }
    }
    assert forall|j: int| 0 <= j < nd.len() implies entry_ok(#[trigger] nd[j], r.game.id, r.players) by {
        if j < cd.len() {
            assert(entry_ok(cd[j], r.game.id, r.players));
        }
    }
    assert forall|i: int, j: int|
        0 <= i < r.players.len() && 0 <= j < r.players.len() && i != j implies has_entry(
        nd,
        (#[trigger] r.players[i]).id,
        (#[trigger] r.players[j]).id,
        1,
    ) by {
        let c = choose|c: int|
            0 <= c < cd.len() && same_key(#[trigger] cd[c], r.players[i].id, r.players[j].id, 1);
        assert(same_key(nd[c], r.players[i].id, r.players[j].id, 1));
    }
    assert(has_entry(nd, from, to, slot));
    lemma_entry_idx(nd, m);
}

impl GameRecord {
    /// The index of the entry keyed (`from`, `to`, `slot`), if any.
    pub fn entry_of(&self, from: u128, to: u128, slot: i32) -> (r: Option<usize>)
        requires
            self@.wf(),
        ensures
            r is None <==> !has_entry(self@.damage, from, to, slot),
            r matches Some(k) ==> k == entry_idx(self@.damage, from, to, slot) && k
                < self@.damage.len(),
    {
        let mut k: usize = 0;
        while k < self.commander_damage.len()
            invariant
                k <= self.commander_damage.len(),
                self@.wf(),
                forall|j: int|
                    0 <= j < k ==> !same_key(#[trigger] self@.damage[j], from, to, slot),
            decreases self.commander_damage.len() - k,
        {
            let e = self.commander_damage[k];
            if e.from_player_id == from && e.to_player_id == to && e.commander_number == slot {
                proof {
                    lemma_entry_idx(self@.damage, k as int);
                }
                return Some(k);
            }
            k = k + 1;
        }
        None
    }
}

/// Sets the commander damage dealt by `from_player_id`'s commander
/// `commander_number` to `to_player_id` in game `game_id` to `new_damage`,
/// stamped `now`; see `damage_check` for when it fails.
pub fn update_commander_damage_at(
    pool: &mut GameRepository,
    game_id: u128,
    from_player_id: u128,
    to_player_id: u128,
    commander_number: i32,
    new_damage: i32,
    now: i64,
) -> (r: Result<CommanderDamage, ApiError>)
    requires
        old(pool).wf(),
    ensures
        final(pool).wf(),
        damage_effect(
            old(pool)@,
            final(pool)@,
            r,
            game_id,
            from_player_id,
            to_player_id,
            commander_number,
            new_damage,
            now,
        ),
{
    if new_damage < 0 || new_damage > MAX_COMMANDER_DAMAGE {
        return Err(ApiError::Invalid(InvalidInput::DamageOutOfRange));
    }
    if commander_number != 1 && commander_number != 2 {
        return Err(ApiError::Invalid(InvalidInput::CommanderNumber));
    }
    if from_player_id == to_player_id {
        return Err(ApiError::Invalid(InvalidInput::SelfDamage));
    }
    let g = match pool.find_game(game_id) {
        None => return Err(ApiError::GameNotFound),
        Some(g) => g,
    };
    let ghost v = pool@;
    assert(v[g as int] == pool.games@[g as int]@);
    if pool.games[g].index_of_player(from_player_id).is_none() || pool.games[g].index_of_player(
        to_player_id,
    ).is_none() {
        return Err(ApiError::Invalid(InvalidInput::PlayerNotInGame));
    }
    let entry = match pool.games[g].entry_of(from_player_id, to_player_id, commander_number) {
        Some(k) => {
            let mut e = pool.games[g].commander_damage[k];
            e.damage = new_damage;
            e.updated_at = now;
            pool.games[g].commander_damage.set(k, e);
            e
        },
        None => {
            let e = CommanderDamage {
                game_id: game_id,
                from_player_id: from_player_id,
                to_player_id: to_player_id,
                commander_number: commander_number,
                damage: new_damage,
                created_at: now,
                updated_at: now,
            };
            pool.games[g].commander_damage.push(e);
            e
        },
    };
    proof {
        let nr = record_damage(v[g as int], from_player_id, to_player_id, commander_number, new_damage, now);
        assert(pool.games@[g as int]@.damage =~= nr.damage);
        assert(pool@ =~= v.update(g as int, nr));
        lemma_damage_wf(v[g as int], from_player_id, to_player_id, commander_number, new_damage, now);
        lemma_repo_update(v, g as int, nr);
    }
    Ok(entry)
}

/// Sets a commander-damage total, stamped with the current time.
pub fn update_commander_damage(
    pool: &mut GameRepository,
    game_id: u128,
    from_player_id: u128,
    to_player_id: u128,
    commander_number: i32,
    new_damage: i32,
) -> (r: Result<CommanderDamage, ApiError>)
    requires
        old(pool).wf(),
    ensures
        final(pool).wf(),
        exists|now: i64|
            damage_effect(
                old(pool)@,
                final(pool)@,
                r,
                game_id,
                from_player_id,
                to_player_id,
                commander_number,
                new_damage,
                now,
            ),
{
    let now = now_millis();
    update_commander_damage_at(
        pool,
        game_id,
        from_player_id,
        to_player_id,
        commander_number,
        new_damage,
        now,
    )
}


// ---------------------------------------------------------------------------
// Partner commanders
// ---------------------------------------------------------------------------

/// `cd` with entry `e` appended, unless an entry with its key is already there.
pub open spec fn add_if_absent(cd: Seq<CommanderDamage>, e: CommanderDamage) -> Seq<CommanderDamage> {
    if has_entry(cd, e.from_player_id, e.to_player_id, e.commander_number) {
        cd
    } else {
        cd.push(e)
    }
}

/// The entries after player `a` enabled a partner: for each other seat `b`
/// in order, slot-2 entries `a -> b` and `b -> a` where missing.
pub open spec fn partner_entries(
    cd: Seq<CommanderDamage>,
    gid: u128,
    ps: Seq<PlayerView>,
    a: u128,
    now: i64,
) -> Seq<CommanderDamage>
    decreases ps.len(),
{
    if ps.len() == 0 {
        cd
    } else {
        let prev = partner_entries(cd, gid, ps.drop_last(), a, now);
        let b = ps.last().id;
        if b == a {
            prev
        } else {
            add_if_absent(add_if_absent(prev, zero_entry(gid, a, b, 2, now)), zero_entry(gid, b, a, 2, now))
        }
    }
}

/// Whether an entry is a slot-2 entry naming player `a`.
pub open spec fn partner_entry_of(e: CommanderDamage, a: u128) -> bool {
    e.commander_number == 2 && references(e, a)
}

/// A record after player `a` switched a partner on or off.
pub open spec fn record_partnered(r: RecordView, a: u128, enable: bool, now: i64) -> RecordView {
    RecordView {
        game: r.game,
        players: r.players,
        life_changes: r.life_changes,
        damage: if enable {
            partner_entries(r.damage, r.game.id, r.players, a, now)
        } else {
            r.damage.filter(|e: CommanderDamage| !partner_entry_of(e, a))
        },
    }
}

/// The outcome of switching a partner, before anything is written.
pub open spec fn partner_check(v: Seq<RecordView>, gid: u128, pid: u128) -> Option<ApiError> {
    let g = game_idx(v, gid);
    if g < 0 {
        Some(ApiError::GameNotFound)
    } else if !has_player(v[g].players, pid) {
        Some(ApiError::Invalid(InvalidInput::PlayerNotInGame))
    } else {
        None
    }
}

/// What player `pid` switching a partner on or off in game `gid` does.
pub open spec fn partner_effect(
    before: Seq<RecordView>,
    after: Seq<RecordView>,
    r: Result<(), ApiError>,
    gid: u128,
    pid: u128,
    enable: bool,
    now: i64,
) -> bool {
    match partner_check(before, gid, pid) {
        Some(e) => r == Err::<(), ApiError>(e) && after == before,
        None => {
            let g = game_idx(before, gid);
            &&& r is Ok
            &&& after == before.update(g, record_partnered(before[g], pid, enable, now))
        },
    }
}

/// Appending a valid entry whose key is missing keeps a record well formed;
/// entries already there stay where they were.
pub proof fn lemma_add_if_absent(r: RecordView, e: CommanderDamage)
    requires
        r.wf(),
        entry_ok(e, r.game.id, r.players),
    ensures
        (RecordView { damage: add_if_absent(r.damage, e), ..r }).wf(),
        has_entry(add_if_absent(r.damage, e), e.from_player_id, e.to_player_id, e.commander_number),
        add_if_absent(r.damage, e).subrange(0, r.damage.len() as int) == r.damage,
        add_if_absent(r.damage, e).len() >= r.damage.len(),
{
    let cd = r.damage;
    let nd = add_if_absent(cd, e);
    assert(nd.subrange(0, cd.len() as int) =~= cd);
    if !has_entry(cd, e.from_player_id, e.to_player_id, e.commander_number) {
        assert(same_key(nd[cd.len() as int], e.from_player_id, e.to_player_id, e.commander_number));
        assert forall|k1: int, k2: int|
            0 <= k1 < nd.len() && 0 <= k2 < nd.len() && k1 != k2 implies !same_key(
            #[trigger] nd[k1],
            nd[k2].from_player_id,
            nd[k2].to_player_id,
            #[trigger] nd[k2].commander_number,
        ) by {
            if k1 < cd.len() && k2 < cd.len() {
                assert(!same_key(cd[k1], cd[k2].from_player_id, cd[k2].to_player_id, cd[k2].commander_number));
            } else if k1 < cd.len() {
                assert(!same_key(cd[k1], e.from_player_id, e.to_player_id, e.commander_number));
            } else {
                assert(!same_key(cd[k2], e.from_player_id, e.to_player_id, e.commander_number));
            }
        }
        assert forall|j: int| 0 <= j < nd.len() implies entry_ok(#[trigger] nd[j], r.game.id, r.players) by {
            if j < cd.len() {
                assert(entry_ok(cd[j], r.game.id, r.players));
            }
        }
        assert forall|i: int, j: int|
            0 <= i < r.players.len() && 0 <= j < r.players.len() && i != j implies has_entry(
            nd,
            (#[trigger] r.players[i]).id,
            (#[trigger] r.players[j]).id,
            1,
        ) by {
            let c = choose|c: int|
                0 <= c < cd.len() && same_key(#[trigger] cd[c], r.players[i].id, r.players[j].id, 1);
            assert(same_key(nd[c], r.players[i].id, r.players[j].id, 1));
        }
    }
}

impl GameRecord {
    /// Appends a zero slot entry for key (`from`, `to`, `slot`) unless one exists.
    pub fn ensure_entry(&mut self, from: u128, to: u128, slot: i32, now: i64)
        requires
            old(self)@.wf(),
            entry_ok(zero_entry(old(self)@.game.id, from, to, slot, now), old(self)@.game.id, old(self)@.players),
        ensures
            final(self)@ == (RecordView {
                damage: add_if_absent(old(self)@.damage, zero_entry(old(self)@.game.id, from, to, slot, now)),
                ..old(self)@
            }),
            final(self)@.wf(),
            has_entry(final(self)@.damage, from, to, slot),
            final(self)@.damage.subrange(0, old(self)@.damage.len() as int) == old(self)@.damage,
            final(self)@.damage.len() >= old(self)@.damage.len(),
    {
        let ghost v = self@;
        let gid = self.game.id;
        proof {
            lemma_add_if_absent(v, zero_entry(gid, from, to, slot, now));
        }
        if self.entry_of(from, to, slot).is_none() {
            self.commander_damage.push(
                CommanderDamage {
                    game_id: gid,
                    from_player_id: from,
                    to_player_id: to,
                    commander_number: slot,
                    damage: 0,
                    created_at: now,
                    updated_at: now,
                },
            );
        }
        assert(self@.players == v.players);
    }

    /// Gives player `a` slot-2 entries in both directions against every other seat.
    pub fn add_partner_entries(&mut self, a: u128, now: i64)
        requires
            old(self)@.wf(),
            has_player(old(self)@.players, a),
        ensures
            final(self)@ == record_partnered(old(self)@, a, true, now),
            final(self)@.wf(),
    {
        let ghost v = self@;
        let gid = self.game.id;
        let n = self.players.len();
        let mut i: usize = 0;
        while i < n
            invariant
                i <= n,
                n == v.players.len(),
                gid == v.game.id,
                has_player(v.players, a),
                self@.wf(),
                self@ == (RecordView { damage: self@.damage, ..v }),
                self@.damage == partner_entries(v.damage, gid, v.players.subrange(0, i as int), a, now),
            decreases n - i,
        {
            assert(v.players[i as int] == self.players@[i as int]@);
            let b = self.players[i].id;
            let ghost before = self@.damage;
            if b != a {
                proof {
                    assert(v.players[i as int].id == b);
                    assert(has_player(v.players, b));
                }
                self.ensure_entry(a, b, 2, now);
                self.ensure_entry(b, a, 2, now);
            }
            proof {
                let pre = v.players.subrange(0, i + 1);
                assert(pre.drop_last() =~= v.players.subrange(0, i as int));
                assert(pre.last() == v.players[i as int]);
            }
            i = i + 1;
        }
        assert(v.players.subrange(0, n as int) =~= v.players);
    }

    /// Drops every slot-2 entry that names player `a`.
    pub fn remove_partner_entries(&mut self, a: u128)
        requires
            old(self)@.wf(),
        ensures
            final(self)@ == record_partnered(old(self)@, a, false, 0),
            final(self)@.wf(),
    {
        let ghost v = self@;
        let ghost pred = |e: CommanderDamage| !partner_entry_of(e, a);
        let mut kept: Vec<CommanderDamage> = Vec::new();
        let mut j: usize = 0;
        while j < self.commander_damage.len()
            invariant
                j <= self.commander_damage.len(),
                v == self@,
                pred == (|e: CommanderDamage| !partner_entry_of(e, a)),
                kept@ == self.commander_damage@.subrange(0, j as int).filter(pred),
            decreases self.commander_damage.len() - j,
        {
            let e = self.commander_damage[j];
            proof {
                assert(self.commander_damage@.subrange(0, j + 1) =~= self.commander_damage@.subrange(
                    0,
                    j as int,
                ).push(e));
                self.commander_damage@.subrange(0, j as int).lemma_filter_push(e, pred);
            }
            if !(e.commander_number == 2 && (e.from_player_id == a || e.to_player_id == a)) {
                kept.push(e);
            }
            j = j + 1;
        }
        assert(self.commander_damage@.subrange(0, j as int) =~= self.commander_damage@);
        self.commander_damage = kept;
        proof {
            let cd = v.damage;
            let nd = self@.damage;
            assert(nd == cd.filter(pred));
            lemma_filter_keys(cd, pred);
            assert forall|m: int| 0 <= m < nd.len() implies entry_ok(#[trigger] nd[m], v.game.id, v.players) by {
                assert(cd.contains(nd[m]));
                let c = choose|c: int| 0 <= c < cd.len() && cd[c] == nd[m];
                assert(entry_ok(cd[c], v.game.id, v.players));
            }
            assert forall|i: int, k: int|
                0 <= i < v.players.len() && 0 <= k < v.players.len() && i != k implies has_entry(
                nd,
                (#[trigger] v.players[i]).id,
                (#[trigger] v.players[k]).id,
                1,
            ) by {
                let c = choose|c: int|
                    0 <= c < cd.len() && same_key(#[trigger] cd[c], v.players[i].id, v.players[k].id, 1);
                cd.lemma_filter_contains(pred, c);
                assert(nd.contains(cd[c]));
                let d = choose|d: int| 0 <= d < nd.len() && nd[d] == cd[c];
                assert(same_key(nd[d], v.players[i].id, v.players[k].id, 1));
            }
        }
    }
}

/// Switches a partner commander for player `player_id` of game `game_id` on
/// (slot-2 entries in both directions against every other seat, kept where
/// they exist) or off (every slot-2 entry naming the player goes); see
/// `partner_check` for when it fails.
pub fn toggle_partner_at(
    pool: &mut GameRepository,
    game_id: u128,
    player_id: u128,
    enable_partner: bool,
    now: i64,
) -> (r: Result<(), ApiError>)
    requires
        old(pool).wf(),
    ensures
        final(pool).wf(),
        partner_effect(old(pool)@, final(pool)@, r, game_id, player_id, enable_partner, now),
{
    let g = match pool.find_game(game_id) {
        None => return Err(ApiError::GameNotFound),
        Some(g) => g,
    };
    let ghost v = pool@;
    assert(v[g as int] == pool.games@[g as int]@);
    if pool.games[g].index_of_player(player_id).is_none() {
        return Err(ApiError::Invalid(InvalidInput::PlayerNotInGame));
    }
    if enable_partner {
        pool.games[g].add_partner_entries(player_id, now);
    } else {
        pool.games[g].remove_partner_entries(player_id);
    }
    proof {
        let nr = record_partnered(v[g as int], player_id, enable_partner, now);
        assert(pool@ =~= v.update(g as int, nr));
        lemma_repo_update(v, g as int, nr);
    }
    Ok(())
}

/// Switches a partner commander on or off, stamped with the current time.
pub fn toggle_partner(
    pool: &mut GameRepository,
    game_id: u128,
    player_id: u128,
    enable_partner: bool,
) -> (r: Result<(), ApiError>)
    requires
        old(pool).wf(),
    ensures
        final(pool).wf(),
        exists|now: i64|
            partner_effect(old(pool)@, final(pool)@, r, game_id, player_id, enable_partner, now),
{
    let now = now_millis();
    toggle_partner_at(pool, game_id, player_id, enable_partner, now)
}


// ---------------------------------------------------------------------------
// Queries
// ---------------------------------------------------------------------------

/// The users of a list of seats, in seat order.
pub open spec fn seat_users(ps: Seq<PlayerView>) -> Seq<Seq<char>> {
    ps.map_values(|p: PlayerView| p.user)
}

/// The users a list of `UserInfo` names, in order.
pub open spec fn user_infos(us: Seq<UserInfo>) -> Seq<Seq<char>> {
    us.map_values(|u: UserInfo| u.clerk_user_id@)
}

/// Which games a listing keeps.
pub enum GameFilter {
    /// Every game.
    All,
    /// Active games where the user is seated.
    SeatedActive(String),
    /// Finished games where the user is seated.
    SeatedFinished(String),
    /// Active games where the user is not seated.
    OpenTo(String),
}

impl GameFilter {
    pub open spec fn keeps(self, r: RecordView) -> bool {
        match self {
            GameFilter::All => true,
            GameFilter::SeatedActive(u) => r.game.status == GameStatus::Active && seat_idx(
                r.players,
                u@,
            ) >= 0,
            GameFilter::SeatedFinished(u) => r.game.status == GameStatus::Finished && seat_idx(
                r.players,
                u@,
            ) >= 0,
            GameFilter::OpenTo(u) => r.game.status == GameStatus::Active && seat_idx(r.players, u@)
                < 0,
        }
    }

    pub fn keeps_record(&self, rec: &GameRecord) -> (r: bool)
        requires
            rec@.wf(),
        ensures
            r == self.keeps(rec@),
    {
        match self {
            GameFilter::All => true,
            GameFilter::SeatedActive(u) => rec.game.status == GameStatus::Active && rec.seat_of(
                u,
            ).is_some(),
            GameFilter::SeatedFinished(u) => rec.game.status == GameStatus::Finished
                && rec.seat_of(u).is_some(),
            GameFilter::OpenTo(u) => rec.game.status == GameStatus::Active && rec.seat_of(
                u,
            ).is_none(),
        }
    }
}

/// The indices of the games `f` keeps, most recently created first.
pub open spec fn selected(v: Seq<RecordView>, f: GameFilter) -> Seq<int>
    decreases v.len(),
{
    if v.len() == 0 {
        Seq::empty()
    } else {
        let rest = selected(v.drop_last(), f);
        if f.keeps(v.last()) {
            seq![v.len() - 1].add(rest)
        } else {
            rest
        }
    }
}

/// Every index `selected` gives is a valid index.
pub proof fn lemma_selected_range(v: Seq<RecordView>, f: GameFilter)
    ensures
        forall|i: int| 0 <= i < selected(v, f).len() ==> 0 <= #[trigger] selected(v, f)[i] < v.len(),
    decreases v.len(),
{
    if v.len() > 0 {
        let rest = selected(v.drop_last(), f);
        lemma_selected_range(v.drop_last(), f);
        assert forall|i: int| 0 <= i < selected(v, f).len() implies 0 <= #[trigger] selected(
            v,
            f,
        )[i] < v.len() by {
            if f.keeps(v.last()) {
                if i > 0 {
                    assert(selected(v, f)[i] == rest[i - 1]);
                }
            } else {
                assert(selected(v, f)[i] == rest[i]);
            }
        }
    }
}

/// Whether `r` lists, in order, the games of `v` at `idx` with their users.
pub open spec fn lists_games(r: Seq<GameWithUsers>, v: Seq<RecordView>, idx: Seq<int>) -> bool {
    &&& r.len() == idx.len()
    &&& forall|i: int|
        0 <= i < r.len() ==> (#[trigger] r[i]).game@ == v[idx[i]].game && user_infos(r[i].users@)
            == seat_users(v[idx[i]].players)
}

impl GameRecord {
    /// The users seated at this game, by position.
    pub fn users(&self) -> (r: Vec<UserInfo>)
        ensures
            user_infos(r@) == seat_users(self@.players),
    {
        let mut r: Vec<UserInfo> = Vec::new();
        let mut i: usize = 0;
        while i < self.players.len()
            invariant
                i <= self.players.len(),
                user_infos(r@) == seat_users(self@.players).subrange(0, i as int),
            decreases self.players.len() - i,
        {
            let ghost prev = r@;
            r.push(UserInfo { clerk_user_id: self.players[i].clerk_user_id.clone() });
            assert(self@.players[i as int] == self.players@[i as int]@);
            assert(user_infos(r@) =~= user_infos(prev).push(self@.players[i as int].user));
            assert(user_infos(r@) =~= seat_users(self@.players).subrange(0, i + 1));
            i = i + 1;
        }
        assert(user_infos(r@) =~= seat_users(self@.players));
        r
    }

    /// The game together with its users.
    pub fn with_users(&self) -> (r: GameWithUsers)
        ensures
            r.game@ == self@.game,
            user_infos(r.users@) == seat_users(self@.players),
    {
        GameWithUsers { game: self.game.clone(), users: self.users() }
    }
}

/// The indices of the games `f` keeps, most recently created first.
pub fn select_games(pool: &GameRepository, f: &GameFilter) -> (r: Vec<usize>)
    requires
        pool.wf(),
    ensures
        r@.len() == selected(pool@, *f).len(),
        forall|i: int| 0 <= i < r@.len() ==> r@[i] as int == #[trigger] selected(pool@, *f)[i],
{
    let mut r: Vec<usize> = Vec::new();
    let mut g: usize = 0;
    while g < pool.games.len()
        invariant
            g <= pool.games.len(),
            pool.wf(),
            r@.len() == selected(pool@.subrange(0, g as int), *f).len(),
            forall|i: int|
                0 <= i < r@.len() ==> r@[i] as int == #[trigger] selected(
                    pool@.subrange(0, g as int),
                    *f,
                )[i],
        decreases pool.games.len() - g,
    {
        assert(pool@[g as int] == pool.games@[g as int]@);
        let ghost prev = r@;
        let keep = f.keeps_record(&pool.games[g]);
        if keep {
            r.insert(0, g);
        }
        proof {
            let sub = pool@.subrange(0, g + 1);
            assert(sub.drop_last() =~= pool@.subrange(0, g as int));
            assert(sub.last() == pool@[g as int]);
        }
        g = g + 1;
    }
    assert(pool@.subrange(0, g as int) =~= pool@);
    r
}

/// The games at `idx`, in order, with their users.
pub fn games_with_users(pool: &GameRepository, idx: &Vec<usize>) -> (r: Vec<GameWithUsers>)
    requires
        forall|i: int| 0 <= i < idx@.len() ==> #[trigger] idx@[i] < pool@.len(),
    ensures
        lists_games(r@, pool@, idx@.map_values(|j: usize| j as int)),
{
    let ghost js = idx@.map_values(|j: usize| j as int);
    let mut r: Vec<GameWithUsers> = Vec::new();
    let mut i: usize = 0;
    while i < idx.len()
        invariant
            i <= idx.len(),
            js == idx@.map_values(|j: usize| j as int),
            forall|k: int| 0 <= k < idx@.len() ==> #[trigger] idx@[k] < pool@.len(),
            lists_games(r@, pool@, js.subrange(0, i as int)),
        decreases idx.len() - i,
    {
        let g = idx[i];
        assert(pool@[g as int] == pool.games@[g as int]@);
        r.push(pool.games[g].with_users());
        proof {
            let s = js.subrange(0, i + 1);
            assert forall|k: int| 0 <= k < r@.len() implies (#[trigger] r@[k]).game@ == pool@[s[k]].game
                && user_infos(r@[k].users@) == seat_users(pool@[s[k]].players) by {
                if k < i {
                    assert(s[k] == js.subrange(0, i as int)[k]);
                }
            }
        }
        i = i + 1;
    }
    assert(js.subrange(0, i as int) =~= js);
    r
}

/// The game with id `game_id`.
pub fn get_game_by_id(pool: &GameRepository, game_id: u128) -> (r: Result<Game, ApiError>)
    requires
        pool.wf(),
    ensures
        game_idx(pool@, game_id) < 0 ==> r == Err::<Game, ApiError>(ApiError::GameNotFound),
        game_idx(pool@, game_id) >= 0 ==> (r matches Ok(g) && g@ == pool@[game_idx(
            pool@,
            game_id,
        )].game),
{
    match pool.find_game(game_id) {
        None => Err(ApiError::GameNotFound),
        Some(g) => {
            assert(pool@[g as int] == pool.games@[g as int]@);
            Ok(pool.games[g].game.clone())
        },
    }
}

/// The players of game `game_id`, by position; none for an unknown game.
pub fn get_players_in_game(pool: &GameRepository, game_id: u128) -> (r: Vec<Player>)
    requires
        pool.wf(),
    ensures
        game_idx(pool@, game_id) < 0 ==> r@.len() == 0,
        game_idx(pool@, game_id) >= 0 ==> players_view(r@) == pool@[game_idx(
            pool@,
            game_id,
        )].players,
{
    match pool.find_game(game_id) {
        None => Vec::new(),
        Some(g) => {
            assert(pool@[g as int] == pool.games@[g as int]@);
            clone_players(&pool.games[g].players)
        },
    }
}

/// The last `limit` entries of a log, newest first; all of them when `limit`
/// is negative.
pub open spec fn recent(lc: Seq<LifeChange>, limit: i32) -> Seq<LifeChange> {
    let n = if limit < 0 || limit >= lc.len() {
        lc.len() as int
    } else {
        limit as int
    };
    Seq::new(n as nat, |i: int| lc[lc.len() - 1 - i])
}

/// The latest life changes of game `game_id`, newest first, at most `limit`
/// of them (all when `limit` is negative); none for an unknown game.
pub fn get_recent_life_changes(pool: &GameRepository, game_id: u128, limit: i32) -> (r: Vec<
    LifeChange,
>)
    requires
        pool.wf(),
    ensures
        game_idx(pool@, game_id) < 0 ==> r@.len() == 0,
        game_idx(pool@, game_id) >= 0 ==> r@ == recent(
            pool@[game_idx(pool@, game_id)].life_changes,
            limit,
        ),
{
    let g = match pool.find_game(game_id) {
        None => return Vec::new(),
        Some(g) => g,
    };
    assert(pool@[g as int] == pool.games@[g as int]@);
    let log = &pool.games[g].life_changes;
    let len = log.len();
    let n: usize = if limit < 0 || limit as usize >= len {
        len
    } else {
        limit as usize
    };
    let mut r: Vec<LifeChange> = Vec::new();
    let mut i: usize = 0;
    while i < n
        invariant
            n <= len == log@.len(),
            i <= n,
            r@ == recent(log@, limit).subrange(0, i as int),
            recent(log@, limit).len() == n,
        decreases n - i,
    {
        r.push(log[len - 1 - i]);
        assert(r@ =~= recent(log@, limit).subrange(0, i + 1));
        i = i + 1;
    }
    assert(r@ =~= recent(log@, limit));
    r
}

/// The commander-damage entries of game `game_id`, in the order they were
/// recorded; none for an unknown game.
pub fn get_commander_damage_for_game(pool: &GameRepository, game_id: u128) -> (r: Vec<
    CommanderDamage,
>)
    requires
        pool.wf(),
    ensures
        game_idx(pool@, game_id) < 0 ==> r@.len() == 0,
        game_idx(pool@, game_id) >= 0 ==> r@ == pool@[game_idx(pool@, game_id)].damage,
{
    match pool.find_game(game_id) {
        None => Vec::new(),
        Some(g) => {
            assert(pool@[g as int] == pool.games@[g as int]@);
            pool.games[g].commander_damage.clone()
        },
    }
}

/// How many life changes a snapshot carries.
pub const RECENT_CHANGES_IN_STATE: i32 = 20;

/// A snapshot of game `game_id`: the game, its players by position, its 20
/// latest life changes (newest first) and its commander-damage entries.
pub fn get_game_state(pool: &GameRepository, game_id: u128) -> (r: Result<GameState, ApiError>)
    requires
        pool.wf(),
    ensures
        game_idx(pool@, game_id) < 0 ==> r == Err::<GameState, ApiError>(ApiError::GameNotFound),
        game_idx(pool@, game_id) >= 0 ==> (r matches Ok(st) && {
            let rec = pool@[game_idx(pool@, game_id)];
            &&& st.game@ == rec.game
            &&& players_view(st.players@) == rec.players
            &&& st.recent_changes@ == recent(rec.life_changes, 20)
            &&& st.commander_damage@ == rec.damage
        }),
{
    let game = get_game_by_id(pool, game_id)?;
    let players = get_players_in_game(pool, game_id);
    let recent_changes = get_recent_life_changes(pool, game_id, RECENT_CHANGES_IN_STATE);
    let commander_damage = get_commander_damage_for_game(pool, game_id);
    Ok(GameState { game, players, recent_changes, commander_damage })
}

/// Whether a listing runs from the most recently created game to the oldest.
pub open spec fn newest_first(r: Seq<GameWithUsers>) -> bool {
    forall|i: int, j: int|
        0 <= i < j < r.len() ==> (#[trigger] r[i]).game.created_at >= (#[trigger] r[j]).game.created_at
}

/// Whether the indices of `s` strictly decrease.
pub open spec fn decreasing(s: Seq<int>) -> bool {
    forall|i: int, j: int| 0 <= i < j < s.len() ==> (#[trigger] s[i]) > (#[trigger] s[j])
}

pub proof fn lemma_selected_decreasing(v: Seq<RecordView>, f: GameFilter)
    ensures
        decreasing(selected(v, f)),
    decreases v.len(),
{
    if v.len() > 0 {
        let rest = selected(v.drop_last(), f);
        lemma_selected_decreasing(v.drop_last(), f);
        lemma_selected_range(v.drop_last(), f);
        if f.keeps(v.last()) {
            let s = selected(v, f);
            assert forall|i: int, j: int| 0 <= i < j < s.len() implies (#[trigger] s[i]) > (
            #[trigger] s[j]) by {
                assert(s[j] == rest[j - 1]);
                if i > 0 {
                    assert(s[i] == rest[i - 1]);
                }
            }
        }
    }
}

pub proof fn lemma_filter_decreasing(s: Seq<int>, pred: spec_fn(int) -> bool)
    requires
        decreasing(s),
    ensures
        decreasing(s.filter(pred)),
    decreases s.len(),
{
    broadcast use Seq::lemma_filter_contains_rev;

    reveal(Seq::filter);
    if s.len() > 0 {
        let d = s.drop_last();
        assert forall|i: int, j: int| 0 <= i < j < d.len() implies (#[trigger] d[i]) > (
        #[trigger] d[j]) by {
            assert(d[i] == s[i] && d[j] == s[j]);
        }
        lemma_filter_decreasing(d, pred);
        let fd = d.filter(pred);
        let f = s.filter(pred);
        if pred(s.last()) {
            assert forall|i: int, j: int| 0 <= i < j < f.len() implies (#[trigger] f[i]) > (
            #[trigger] f[j]) by {
                if j < fd.len() {
                    assert(f[i] == fd[i] && f[j] == fd[j]);
                } else {
                    assert(f[j] == s.last());
                    assert(f[i] == fd[i]);
                    assert(fd.contains(fd[i]));
                    d.lemma_filter_contains_rev(pred, fd[i]);
                    assert(d.contains(fd[i]));
                    let k = choose|k: int| 0 <= k < d.len() && d[k] == fd[i];
                    assert(s[k] > s[s.len() - 1]);
                }
            }
        } else {
            assert(f == fd);
        }
    }
}

/// Listing the games at decreasing indices lists them newest first.
pub proof fn lemma_listed_newest_first(r: Seq<GameWithUsers>, v: Seq<RecordView>, idx: Seq<int>)
    requires
        repo_wf(v),
        lists_games(r, v, idx),
        decreasing(idx),
        forall|i: int| 0 <= i < idx.len() ==> 0 <= #[trigger] idx[i] < v.len(),
    ensures
        newest_first(r),
{
    assert forall|i: int, j: int| 0 <= i < j < r.len() implies (#[trigger] r[i]).game.created_at >= (
    #[trigger] r[j]).game.created_at by {
        assert(idx[i] > idx[j]);
        assert(v[idx[j]].game.created_at <= v[idx[i]].game.created_at);
    }
}

/// Every game with its users, most recently created first.
pub fn get_all_games(pool: &GameRepository) -> (r: Vec<GameWithUsers>)
    requires
        pool.wf(),
    ensures
        lists_games(r@, pool@, selected(pool@, GameFilter::All)),
        newest_first(r@),
{
    let f = GameFilter::All;
    let idx = select_games(pool, &f);
    proof {
        lemma_selected_range(pool@, f);
        assert forall|i: int| 0 <= i < idx@.len() implies #[trigger] idx@[i] < pool@.len() by {
            assert(idx@[i] as int == selected(pool@, f)[i]);
        }
    }
    let r = games_with_users(pool, &idx);
    assert(idx@.map_values(|j: usize| j as int) =~= selected(pool@, f));
    proof {
        lemma_selected_decreasing(pool@, f);
        lemma_selected_range(pool@, f);
        lemma_listed_newest_first(r@, pool@, selected(pool@, f));
    }
    r
}

/// The active games where `clerk_user_id` is seated, with their users, most
/// recently created first.
pub fn get_user_games(pool: &GameRepository, clerk_user_id: &str) -> (r: Vec<GameWithUsers>)
    requires
        pool.wf(),
    ensures
        exists|u: String|
            u@ == clerk_user_id@ && lists_games(
                r@,
                pool@,
                selected(pool@, GameFilter::SeatedActive(u)),
            ),
        newest_first(r@),
{
    let f = GameFilter::SeatedActive(clerk_user_id.to_owned());
    let idx = select_games(pool, &f);
    proof {
        lemma_selected_range(pool@, f);
        assert forall|i: int| 0 <= i < idx@.len() implies #[trigger] idx@[i] < pool@.len() by {
            assert(idx@[i] as int == selected(pool@, f)[i]);
        }
    }
    let r = games_with_users(pool, &idx);
    assert(idx@.map_values(|j: usize| j as int) =~= selected(pool@, f));
    proof {
        lemma_selected_decreasing(pool@, f);
        lemma_selected_range(pool@, f);
        lemma_listed_newest_first(r@, pool@, selected(pool@, f));
    }
    r
}

/// How many candidate games the open-games listing looks at.
pub const AVAILABLE_GAMES_LIMIT: usize = 50;

/// The open-games listing: of the 50 most recent active games where the user
/// is not seated, those with a free seat.
pub open spec fn available(v: Seq<RecordView>, f: GameFilter) -> Seq<int> {
    let c = selected(v, f);
    let first = c.subrange(0, if c.len() > 50 { 50 } else { c.len() as int });
    first.filter(|g: int| v[g].players.len() < 8)
}

/// Active games that `clerk_user_id` could join: of the 50 most recently
/// created active games where the user is not seated, those not full, with
/// their users.
pub fn get_available_games(pool: &GameRepository, clerk_user_id: &str) -> (r: Vec<GameWithUsers>)
    requires
        pool.wf(),
    ensures
        exists|u: String|
            u@ == clerk_user_id@ && lists_games(r@, pool@, available(pool@, GameFilter::OpenTo(u))),
        newest_first(r@),
{
    let f = GameFilter::OpenTo(clerk_user_id.to_owned());
    let cand = select_games(pool, &f);
    proof {
        lemma_selected_range(pool@, f);
    }
    let ghost c = selected(pool@, f);
    let ghost first = c.subrange(0, if c.len() > 50 { 50 } else { c.len() as int });
    let ghost pred = |g: int| pool@[g].players.len() < 8;
    let m: usize = if cand.len() > AVAILABLE_GAMES_LIMIT {
        AVAILABLE_GAMES_LIMIT
    } else {
        cand.len()
    };
    let mut idx: Vec<usize> = Vec::new();
    let mut i: usize = 0;
    while i < m
        invariant
            m <= cand@.len(),
            m == first.len(),
            i <= m,
            first == c.subrange(0, m as int),
            c.len() == cand@.len(),
            forall|k: int| 0 <= k < cand@.len() ==> cand@[k] as int == #[trigger] c[k],
            forall|k: int| 0 <= k < c.len() ==> 0 <= #[trigger] c[k] < pool@.len(),
            pred == (|g: int| pool@[g].players.len() < 8),
            idx@.map_values(|j: usize| j as int) == first.subrange(0, i as int).filter(pred),
            forall|k: int| 0 <= k < idx@.len() ==> #[trigger] idx@[k] < pool@.len(),
        decreases m - i,
    {
        let g = cand[i];
        assert(c[i as int] == g as int);
        assert(pool@[g as int] == pool.games@[g as int]@);
        let ghost prev = idx@;
        proof {
            assert(first.subrange(0, i + 1) =~= first.subrange(0, i as int).push(g as int));
            first.subrange(0, i as int).lemma_filter_push(g as int, pred);
        }
        if pool.games[g].players.len() < MAX_PLAYERS_PER_GAME {
            idx.push(g);
            assert(idx@.map_values(|j: usize| j as int) =~= prev.map_values(|j: usize| j as int).push(
                g as int,
            ));
        }
        i = i + 1;
    }
    assert(first.subrange(0, m as int) =~= first);
    let r = games_with_users(pool, &idx);
    proof {
        let js = idx@.map_values(|j: usize| j as int);
        lemma_selected_decreasing(pool@, f);
        assert(decreasing(first)) by {
            assert forall|i: int, j: int| 0 <= i < j < first.len() implies (#[trigger] first[i]) > (
            #[trigger] first[j]) by {
                assert(first[i] == c[i] && first[j] == c[j]);
            }
        }
        lemma_filter_decreasing(first, pred);
        assert forall|i: int| 0 <= i < js.len() implies 0 <= #[trigger] js[i] < pool@.len() by {
            assert(js[i] == idx@[i] as int);
        }
        lemma_listed_newest_first(r@, pool@, js);
    }
    r
}


// ---------------------------------------------------------------------------
// Elimination
// ---------------------------------------------------------------------------

/// A seat marked eliminated.
pub open spec fn eliminated(p: PlayerView) -> PlayerView {
    PlayerView {
        id: p.id,
        game_id: p.game_id,
        user: p.user,
        life: p.life,
        position: p.position,
        eliminated: true,
    }
}

/// A record after the player in seat `k` was eliminated.
pub open spec fn record_eliminated(r: RecordView, k: int) -> RecordView {
    RecordView {
        game: r.game,
        players: r.players.update(k, eliminated(r.players[k])),
        life_changes: r.life_changes,
        damage: r.damage,
    }
}

/// What eliminating player `pid` does.
pub open spec fn eliminate_effect(
    before: Seq<RecordView>,
    after: Seq<RecordView>,
    r: Result<(), ApiError>,
    pid: u128,
) -> bool {
    let g = player_game(before, pid);
    if g < 0 {
        r == Err::<(), ApiError>(ApiError::PlayerNotFound) && after == before
    } else {
        &&& r is Ok
        &&& after == before.update(
            g,
            record_eliminated(before[g], player_idx(before[g].players, pid)),
        )
    }
}

/// Eliminating a seat keeps a record well formed and its seats.
pub proof fn lemma_eliminated_wf(r: RecordView, k: int)
    requires
        r.wf(),
        0 <= k < r.players.len(),
    ensures
        record_eliminated(r, k).wf(),
        forall|q: u128|
            #[trigger] has_player(record_eliminated(r, k).players, q) == has_player(r.players, q),
{
    let ps = record_eliminated(r, k).players;
    assert forall|i: int| 0 <= i < ps.len() implies (#[trigger] ps[i]).id == r.players[i].id
        && ps[i].user == r.players[i].user && ps[i].position == r.players[i].position
        && ps[i].game_id == r.players[i].game_id by {}
    assert forall|q: u128| #[trigger] has_player(ps, q) == has_player(r.players, q) by {
        if has_player(ps, q) {
            let i = choose|i: int| 0 <= i < ps.len() && (#[trigger] ps[i]).id == q;
            assert(r.players[i].id == q);
        }
        if has_player(r.players, q) {
            let i = choose|i: int| 0 <= i < r.players.len() && (#[trigger] r.players[i]).id == q;
            assert(ps[i].id == q);
        }
    }
    let cd = r.damage;
    assert forall|k2: int| 0 <= k2 < cd.len() implies entry_ok(#[trigger] cd[k2], r.game.id, ps) by {
        assert(entry_ok(cd[k2], r.game.id, r.players));
        assert(has_player(ps, cd[k2].from_player_id) == has_player(r.players, cd[k2].from_player_id));
        assert(has_player(ps, cd[k2].to_player_id) == has_player(r.players, cd[k2].to_player_id));
    }
    assert forall|i: int, j: int|
        0 <= i < ps.len() && 0 <= j < ps.len() && i != j implies has_entry(
        cd,
        (#[trigger] ps[i]).id,
        (#[trigger] ps[j]).id,
        1,
    ) by {
        assert(has_entry(cd, r.players[i].id, r.players[j].id, 1));
    }
}

/// Marks player `player_id` eliminated.
pub fn eliminate_player(pool: &mut GameRepository, player_id: u128) -> (r: Result<(), ApiError>)
    requires
        old(pool).wf(),
    ensures
        final(pool).wf(),
        eliminate_effect(old(pool)@, final(pool)@, r, player_id),
{
    let (g, k) = match pool.locate_player(player_id) {
        None => return Err(ApiError::PlayerNotFound),
        Some(loc) => loc,
    };
    let ghost v = pool@;
    assert(v[g as int] == pool.games@[g as int]@);
    assert(v[g as int].players[k as int] == pool.games@[g as int].players@[k as int]@);
    pool.games[g].players[k].is_eliminated = true;
    proof {
        let nr = record_eliminated(v[g as int], k as int);
        assert(pool.games@[g as int]@.players =~= nr.players);
        assert(pool@ =~= v.update(g as int, nr));
        lemma_eliminated_wf(v[g as int], k as int);
        lemma_repo_update(v, g as int, nr);
    }
    Ok(())
}

/// How many games are active.
pub open spec fn active_count(v: Seq<RecordView>) -> nat
    decreases v.len(),
{
    if v.len() == 0 {
        0
    } else {
        active_count(v.drop_last()) + if v.last().game.status == GameStatus::Active {
            1nat
        } else {
            0nat
        }
    }
}

/// The number of active games.
pub fn count_active_games(pool: &GameRepository) -> (r: usize)
    ensures
        r == active_count(pool@),
{
    let mut n: usize = 0;
    let mut g: usize = 0;
    while g < pool.games.len()
        invariant
            g <= pool.games.len(),
            n == active_count(pool@.subrange(0, g as int)),
            n <= g,
        decreases pool.games.len() - g,
    {
        assert(pool@[g as int] == pool.games@[g as int]@);
        proof {
            let sub = pool@.subrange(0, g + 1);
            assert(sub.drop_last() =~= pool@.subrange(0, g as int));
        }
        if pool.games[g].game.status == GameStatus::Active {
            n = n + 1;
        }
        g = g + 1;
    }
    assert(pool@.subrange(0, g as int) =~= pool@);
    n
}


/// Whether `h` lists, in order, the games of `v` at `idx`, each with its
/// players and the player with the highest life total (the last of equals).
pub open spec fn history_of(h: GameHistory, v: Seq<RecordView>, idx: Seq<int>) -> bool {
    &&& h.games@.len() == idx.len()
    &&& forall|i: int|
        0 <= i < idx.len() ==> {
            let e = #[trigger] h.games@[i];
            let rec = v[idx[i]];
            &&& e.game@ == rec.game
            &&& players_view(e.players@) == rec.players
            &&& highest_life_idx(rec.players) < 0 ==> e.winner is None
            &&& highest_life_idx(rec.players) >= 0 ==> (e.winner matches Some(w) && w@
                == rec.players[highest_life_idx(rec.players)])
        }
}

/// The finished games where `clerk_user_id` is seated, most recently created
/// first, each with its players and the player with the highest life total.
pub fn get_user_game_history(pool: &GameRepository, clerk_user_id: &str) -> (r: GameHistory)
    requires
        pool.wf(),
    ensures
        exists|u: String|
            u@ == clerk_user_id@ && #[trigger] history_of(
                r,
                pool@,
                selected(pool@, GameFilter::SeatedFinished(u)),
            ),
{
    let f = GameFilter::SeatedFinished(clerk_user_id.to_owned());
    let idx = select_games(pool, &f);
    let ghost sel = selected(pool@, f);
    proof {
        lemma_selected_range(pool@, f);
    }
    let mut games: Vec<GameWithPlayers> = Vec::new();
    let mut i: usize = 0;
    while i < idx.len()
        invariant
            i <= idx.len(),
            sel == selected(pool@, f),
            idx@.len() == sel.len(),
            forall|k: int| 0 <= k < idx@.len() ==> idx@[k] as int == #[trigger] sel[k],
            forall|k: int| 0 <= k < sel.len() ==> 0 <= #[trigger] sel[k] < pool@.len(),
            games@.len() == i,
            forall|k: int|
                0 <= k < i ==> {
                    let e = #[trigger] games@[k];
                    let rec = pool@[sel[k]];
                    &&& e.game@ == rec.game
                    &&& players_view(e.players@) == rec.players
                    &&& highest_life_idx(rec.players) < 0 ==> e.winner is None
                    &&& highest_life_idx(rec.players) >= 0 ==> (e.winner matches Some(w) && w@
                        == rec.players[highest_life_idx(rec.players)])
                },
        decreases idx.len() - i,
    {
        let g = idx[i];
        assert(sel[i as int] == g as int);
        assert(pool@[g as int] == pool.games@[g as int]@);
        let players = clone_players(&pool.games[g].players);
        let winner = resolve_winner(&players, WinnerPolicy::HighestLife, None);
        games.push(
            GameWithPlayers { game: pool.games[g].game.clone(), players: players, winner: winner },
        );
        i = i + 1;
    }
    let r = GameHistory { games };
    assert(history_of(r, pool@, sel));
    r
}


/// A player seated at game `g` is found there.
pub proof fn lemma_player_game(v: Seq<RecordView>, g: int, pid: u128)
    requires
        repo_wf(v),
        0 <= g < v.len(),
        has_player(v[g].players, pid),
    ensures
        player_game(v, pid) == g,
        0 <= player_idx(v[g].players, pid) < v[g].players.len(),
        v[g].players[player_idx(v[g].players, pid)].id == pid,
{
    assert(player_id_used(v, pid));
    let c = choose|c: int| 0 <= c < v.len() && has_player(#[trigger] v[c].players, pid);
    if c != g {
        assert(!has_player(v[c].players, pid));
    }
    lemma_player_idx_range(v[g].players, pid);
}

} // verus!
