use vstd::prelude::*;

use crate::database::{
    add_if_absent, damage_effect, game_idx, has_entry, join_effect, leave_effect,
    lemma_game_idx, lemma_player_game, lemma_player_idx, lemma_seat_idx, life_effect,
    partner_effect, partner_entries, partner_entry_of, player_game, player_id_used, player_idx,
    repo_wf, same_key, seat_idx, zero_entry, RecordView,
};
use crate::errors::{ApiError, ConflictKind, InvalidInput};
use crate::models::{CommanderDamage, GameStatus, LifeChange, Player, PlayerView};

verus! {

/// The positions the seats of `ps` hold.
pub open spec fn positions(ps: Seq<PlayerView>) -> Set<int> {
    Set::new(|x: int| exists|i: int| 0 <= i < ps.len() && (#[trigger] ps[i]).position == x)
}

/// The set 1..=n.
pub open spec fn one_to(n: int) -> Set<int> {
    Set::new(|x: int| 1 <= x <= n)
}

/// In every game of a well-formed store, the positions are exactly 1..=n for
/// n seated players, so any number of joins (and leaves) in any order leaves
/// them dense.
pub proof fn positions_are_dense(v: Seq<RecordView>, g: int)
    requires
        repo_wf(v),
        0 <= g < v.len(),
    ensures
        positions(v[g].players) == one_to(v[g].players.len() as int),
{
    assert(v[g].wf());
    let ps = v[g].players;
    assert forall|x: int| positions(ps).contains(x) <==> one_to(ps.len() as int).contains(x) by {
        if 1 <= x <= ps.len() {
            assert(ps[x - 1].position == x);
        }
    }
    assert(positions(ps) =~= one_to(ps.len() as int));
}

/// Whether user `user` may join game `gid`: the game is active, has a free
/// seat, and the user is not seated there yet.
pub open spec fn may_join(v: Seq<RecordView>, gid: u128, user: Seq<char>) -> bool {
    let g = game_idx(v, gid);
    &&& g >= 0
    &&& v[g].game.status == GameStatus::Active
    &&& v[g].players.len() < 8
    &&& seat_idx(v[g].players, user) < 0
}

/// A user who may join a game, joining under a player id no game uses (as
/// `join_game` always draws), succeeds: the seat is appended at position
/// n + 1 where n players sat before, the other seats stay as they were, and
/// the positions are then exactly 1..=n + 1. Applied join after join, the
/// positions stay dense for any number of joins.
pub proof fn join_takes_next_position(
    before: Seq<RecordView>,
    after: Seq<RecordView>,
    r: Result<Player, ApiError>,
    gid: u128,
    user: Seq<char>,
    pid: u128,
    now: i64,
)
    requires
        repo_wf(before),
        repo_wf(after),
        join_effect(before, after, r, gid, user, pid, now),
        may_join(before, gid, user),
        !player_id_used(before, pid),
    ensures
        r matches Ok(p) && p.position == before[game_idx(before, gid)].players.len() + 1,
        ({
            let g = game_idx(before, gid);
            &&& 0 <= g < after.len()
            &&& after[g].players.len() == before[g].players.len() + 1
            &&& after[g].players.subrange(0, before[g].players.len() as int) == before[g].players
            &&& after[g].players.last().position == before[g].players.len() + 1
            &&& after[g].players.last().user == user
            &&& positions(after[g].players) == one_to(before[g].players.len() + 1 as int)
        }),
{
    let g = game_idx(before, gid);
    assert(after[g].players.subrange(0, before[g].players.len() as int) =~= before[g].players);
    positions_are_dense(after, g);
}

/// A leave removes exactly the leaving user's seat: the remaining players
/// keep their relative order and again hold positions 1..=n - 1.
pub proof fn leave_keeps_order(
    before: Seq<RecordView>,
    after: Seq<RecordView>,
    r: Result<(), ApiError>,
    gid: u128,
    user: Seq<char>,
)
    requires
        repo_wf(before),
        repo_wf(after),
        leave_effect(before, after, r, gid, user),
        r is Ok,
    ensures
        ({
            let g = game_idx(before, gid);
            let k = seat_idx(before[g].players, user);
            &&& 0 <= g < after.len()
            &&& 0 <= k < before[g].players.len()
            &&& after[g].players.map_values(|p: PlayerView| p.id) == before[g].players.map_values(
                |p: PlayerView| p.id,
            ).remove(k)
            &&& positions(after[g].players) == one_to(before[g].players.len() - 1)
        }),
{
    let g = game_idx(before, gid);
    let k = seat_idx(before[g].players, user);
    assert(after[g].players.map_values(|p: PlayerView| p.id) =~= before[g].players.map_values(
        |p: PlayerView| p.id,
    ).remove(k));
    positions_are_dense(after, g);
}

/// Joining a finished game fails with `Invalid`.
pub proof fn join_finished_game_is_invalid(
    before: Seq<RecordView>,
    after: Seq<RecordView>,
    r: Result<Player, ApiError>,
    gid: u128,
    user: Seq<char>,
    pid: u128,
    now: i64,
)
    requires
        join_effect(before, after, r, gid, user, pid, now),
        game_idx(before, gid) >= 0,
        before[game_idx(before, gid)].game.status == GameStatus::Finished,
    ensures
        r == Err::<Player, ApiError>(ApiError::Invalid(InvalidInput::GameFinished)),
        after == before,
{
}

/// Joining an active game that already seats 8 players, as a user not
/// seated there, fails with `Capacity`.
pub proof fn join_full_game_is_refused(
    before: Seq<RecordView>,
    after: Seq<RecordView>,
    r: Result<Player, ApiError>,
    gid: u128,
    user: Seq<char>,
    pid: u128,
    now: i64,
)
    requires
        join_effect(before, after, r, gid, user, pid, now),
        game_idx(before, gid) >= 0,
        before[game_idx(before, gid)].game.status == GameStatus::Active,
        before[game_idx(before, gid)].players.len() == 8,
        seat_idx(before[game_idx(before, gid)].players, user) < 0,
    ensures
        r == Err::<Player, ApiError>(ApiError::Capacity),
        after == before,
{
}

/// After a user joined a game, the same user joining it again fails with
/// `Conflict`, whatever player id the second attempt draws.
pub proof fn join_twice_conflicts(
    v0: Seq<RecordView>,
    v1: Seq<RecordView>,
    v2: Seq<RecordView>,
    r1: Result<Player, ApiError>,
    r2: Result<Player, ApiError>,
    gid: u128,
    user: Seq<char>,
    pid1: u128,
    pid2: u128,
    t1: i64,
    t2: i64,
)
    requires
        repo_wf(v0),
        repo_wf(v1),
        join_effect(v0, v1, r1, gid, user, pid1, t1),
        r1 is Ok,
        join_effect(v1, v2, r2, gid, user, pid2, t2),
    ensures
        r2 == Err::<Player, ApiError>(ApiError::Conflict(ConflictKind::AlreadySeated)),
        v2 == v1,
{
    let g = game_idx(v0, gid);
    lemma_game_idx(v1, gid, g);
    let ps = v1[g].players;
    let n = v0[g].players.len() as int;
    assert(ps[n].user == user);
    lemma_seat_idx(ps, user, n);
}

/// The life total a store holds for player `pid`.
pub open spec fn life_of(v: Seq<RecordView>, pid: u128) -> int {
    let g = player_game(v, pid);
    v[g].players[player_idx(v[g].players, pid)].life as int
}

/// Changing a player's life by `delta` and then by `-delta` restores the
/// starting total and logs two changes whose amounts sum to zero.
pub proof fn life_change_round_trip(
    v0: Seq<RecordView>,
    v1: Seq<RecordView>,
    v2: Seq<RecordView>,
    r1: Result<(Player, LifeChange), ApiError>,
    r2: Result<(Player, LifeChange), ApiError>,
    pid: u128,
    delta: i32,
    id1: u128,
    id2: u128,
    t1: i64,
    t2: i64,
)
    requires
        repo_wf(v0),
        repo_wf(v1),
        repo_wf(v2),
        life_effect(v0, v1, r1, pid, delta, id1, t1),
        r1 is Ok,
        life_effect(v1, v2, r2, pid, (-delta) as i32, id2, t2),
        delta != i32::MIN,
    ensures
        r2 is Ok,
        life_of(v2, pid) == life_of(v0, pid),
        ({
            let g = player_game(v0, pid);
            let log = v2[g].life_changes;
            &&& log.len() == v0[g].life_changes.len() + 2
            &&& log[log.len() - 2].change_amount + log[log.len() - 1].change_amount == 0
            &&& log[log.len() - 2].player_id == pid && log[log.len() - 1].player_id == pid
        }),
{
    let g = player_game(v0, pid);
    let k = player_idx(v0[g].players, pid);
    assert(0 <= g);
    assert(v1[g].players[k].id == pid);
    lemma_player_game(v1, g, pid);
    lemma_player_idx(v1[g].players, pid, k);
    assert(v2[g].players[k].id == pid);
    lemma_player_game(v2, g, pid);
    lemma_player_idx(v2[g].players, pid, k);
}


/// Whether `cd` holds an entry for (`from`, `to`, `slot`) with no damage.
pub open spec fn has_zero_entry(cd: Seq<CommanderDamage>, from: u128, to: u128, slot: i32) -> bool {
    exists|k: int| 0 <= k < cd.len() && same_key(#[trigger] cd[k], from, to, slot) && cd[k].damage == 0
}

/// A join by a user who may join, under an unused player id, succeeds; the
/// new player and every other player of the game then have slot-1 entries
/// in both directions with no damage, and every ordered pair of distinct
/// players has a slot-1 entry.
pub proof fn join_creates_slot_one_entries(
    before: Seq<RecordView>,
    after: Seq<RecordView>,
    r: Result<Player, ApiError>,
    gid: u128,
    user: Seq<char>,
    pid: u128,
    now: i64,
)
    requires
        repo_wf(before),
        repo_wf(after),
        join_effect(before, after, r, gid, user, pid, now),
        may_join(before, gid, user),
        !player_id_used(before, pid),
    ensures
        r is Ok,
        ({
            let g = game_idx(before, gid);
            let ps = after[g].players;
            let cd = after[g].damage;
            &&& forall|j: int|
                0 <= j < before[g].players.len() ==> has_zero_entry(cd, pid, #[trigger] ps[j].id, 1)
                    && has_zero_entry(cd, ps[j].id, pid, 1)
            &&& forall|i: int, j: int|
                0 <= i < ps.len() && 0 <= j < ps.len() && i != j ==> has_entry(
                    cd,
                    #[trigger] ps[i].id,
                    #[trigger] ps[j].id,
                    1,
                )
        }),
{
    let g = game_idx(before, gid);
    let ps = after[g].players;
    let cd = after[g].damage;
    let m = before[g].damage.len() as int;
    assert(after[g].wf());
    assert forall|j: int| 0 <= j < before[g].players.len() implies has_zero_entry(
        cd,
        pid,
        #[trigger] ps[j].id,
        1,
    ) && has_zero_entry(cd, ps[j].id, pid, 1) by {
        assert(ps[j] == before[g].players[j]);
        assert(same_key(cd[m + 2 * j], pid, ps[j].id, 1) && cd[m + 2 * j].damage == 0);
        assert(same_key(cd[m + 2 * j + 1], ps[j].id, pid, 1) && cd[m + 2 * j + 1].damage == 0);
    }
}

/// An entry present before `add_if_absent` is present after, and so is the added key.
pub proof fn lemma_add_if_absent_has(cd: Seq<CommanderDamage>, e: CommanderDamage, from: u128, to: u128, slot: i32)
    ensures
        has_entry(cd, from, to, slot) ==> has_entry(add_if_absent(cd, e), from, to, slot),
        has_entry(add_if_absent(cd, e), e.from_player_id, e.to_player_id, e.commander_number),
{
    let n = add_if_absent(cd, e);
    if has_entry(cd, from, to, slot) {
        let k = choose|k: int| 0 <= k < cd.len() && same_key(#[trigger] cd[k], from, to, slot);
        assert(n[k] == cd[k]);
    }
    if !has_entry(cd, e.from_player_id, e.to_player_id, e.commander_number) {
        assert(same_key(n[cd.len() as int], e.from_player_id, e.to_player_id, e.commander_number));
    }
}

/// After enabling a partner for `a`, every seat of `ps` other than `a` has
/// slot-2 entries with `a` in both directions.
pub proof fn lemma_partner_entries_cover(
    cd: Seq<CommanderDamage>,
    gid: u128,
    ps: Seq<PlayerView>,
    a: u128,
    now: i64,
    j: int,
)
    requires
        0 <= j < ps.len(),
        ps[j].id != a,
    ensures
        has_entry(partner_entries(cd, gid, ps, a, now), a, ps[j].id, 2),
        has_entry(partner_entries(cd, gid, ps, a, now), ps[j].id, a, 2),
    decreases ps.len(),
{
    let prev = partner_entries(cd, gid, ps.drop_last(), a, now);
    let b = ps.last().id;
    let e1 = zero_entry(gid, a, b, 2, now);
    let e2 = zero_entry(gid, b, a, 2, now);
    if j == ps.len() - 1 {
        lemma_add_if_absent_has(prev, e1, a, b, 2);
        lemma_add_if_absent_has(add_if_absent(prev, e1), e2, a, b, 2);
    } else {
        assert(ps.drop_last()[j] == ps[j]);
        lemma_partner_entries_cover(cd, gid, ps.drop_last(), a, now, j);
        if b != a {
            let q = ps[j].id;
            lemma_add_if_absent_has(prev, e1, a, q, 2);
            lemma_add_if_absent_has(add_if_absent(prev, e1), e2, a, q, 2);
            lemma_add_if_absent_has(prev, e1, q, a, 2);
            lemma_add_if_absent_has(add_if_absent(prev, e1), e2, q, a, 2);
        }
    }
}

/// After a player switches a partner on, slot-2 entries exist in both
/// directions between that player and every other player of the game.
pub proof fn partner_on_covers_every_pair(
    before: Seq<RecordView>,
    after: Seq<RecordView>,
    r: Result<(), ApiError>,
    gid: u128,
    a: u128,
    now: i64,
)
    requires
        partner_effect(before, after, r, gid, a, true, now),
        r is Ok,
    ensures
        ({
            let g = game_idx(before, gid);
            let ps = after[g].players;
            forall|j: int|
                0 <= j < ps.len() && (#[trigger] ps[j]).id != a ==> has_entry(after[g].damage, a, ps[j].id, 2)
                    && has_entry(after[g].damage, ps[j].id, a, 2)
        }),
{
    let g = game_idx(before, gid);
    let ps = after[g].players;
    assert forall|j: int| 0 <= j < ps.len() && (#[trigger] ps[j]).id != a implies has_entry(
        after[g].damage,
        a,
        ps[j].id,
        2,
    ) && has_entry(after[g].damage, ps[j].id, a, 2) by {
        lemma_partner_entries_cover(before[g].damage, before[g].game.id, before[g].players, a, now, j);
    }
}

/// After a player switches a partner off, no slot-2 entry names that player.
pub proof fn partner_off_clears_slot_two(
    before: Seq<RecordView>,
    after: Seq<RecordView>,
    r: Result<(), ApiError>,
    gid: u128,
    a: u128,
    now: i64,
)
    requires
        partner_effect(before, after, r, gid, a, false, now),
        r is Ok,
    ensures
        ({
            let cd = after[game_idx(before, gid)].damage;
            forall|k: int| 0 <= k < cd.len() ==> !partner_entry_of(#[trigger] cd[k], a)
        }),
{
    let g = game_idx(before, gid);
    let pred = |e: CommanderDamage| !partner_entry_of(e, a);
    let cd = after[g].damage;
    assert(cd == before[g].damage.filter(pred));
    assert forall|k: int| 0 <= k < cd.len() implies !partner_entry_of(#[trigger] cd[k], a) by {
        before[g].damage.lemma_filter_pred(pred, k);
    }
}

/// Setting a commander-damage total below 0 or above 999 fails with
/// `Invalid`, and so does any setting where source and target are the same
/// player.
pub proof fn damage_refusals_are_invalid(
    before: Seq<RecordView>,
    after: Seq<RecordView>,
    r: Result<CommanderDamage, ApiError>,
    gid: u128,
    from: u128,
    to: u128,
    slot: i32,
    damage: i32,
    now: i64,
)
    requires
        damage_effect(before, after, r, gid, from, to, slot, damage, now),
    ensures
        (damage < 0 || damage > 999) ==> r == Err::<CommanderDamage, ApiError>(
            ApiError::Invalid(InvalidInput::DamageOutOfRange),
        ),
        from == to ==> (r matches Err(ApiError::Invalid(_))),
        (r is Err ==> after == before),
{
}

} // verus!
