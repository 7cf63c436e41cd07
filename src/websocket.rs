use vstd::prelude::*;

use crate::database::{
    self, damage_effect, end_effect, game_idx, has_player, join_effect, leave_effect,
    life_effect, partner_effect, player_idx, recent, seat_idx, RecordView,
};
use crate::errors::ApiError;
use crate::handlers::{
    self, active_check, current_damage, life_announced, life_request_check, policy_effect, publish,
};
use crate::policy::{winner_is, WinnerPolicy};
use crate::models::{players_view, LifeChange, Player, WebSocketMessage, WebSocketRequest};
use crate::state::{channels_ensured, listens_to, rooms_ensured, AppState};
use tokio::sync::broadcast::Receiver;

verus! {

/// Whether a unit result and a valued result agree on success and on the error.
pub open spec fn same_outcome<T>(r: Result<(), ApiError>, full: Result<T, ApiError>) -> bool {
    match full {
        Ok(_) => r is Ok,
        Err(e) => r == Err::<(), ApiError>(e),
    }
}

// ---------------------------------------------------------------------------
// What each request does to the store
// ---------------------------------------------------------------------------

pub open spec fn life_outcome(
    policy: crate::policy::EliminationPolicy,
    before: Seq<RecordView>,
    after: Seq<RecordView>,
    r: Result<(), ApiError>,
    gid: u128,
    pid: u128,
    delta: i32,
) -> bool {
    match life_request_check(before, gid, pid, delta) {
        Some(e) => r == Err::<(), ApiError>(e) && after == before,
        None => {
            &&& r is Ok
            &&& exists|
                mid: Seq<RecordView>,
                res: Result<(Player, LifeChange), ApiError>,
                change_id: u128,
                t1: i64,
                t2: i64,
            |
                {
                    &&& #[trigger] life_effect(before, mid, res, pid, delta, change_id, t1)
                    &&& res is Ok
                    &&& #[trigger] policy_effect(policy, mid, after, gid, pid, t2)
                }
        },
    }
}

pub open spec fn join_outcome(
    before: Seq<RecordView>,
    after: Seq<RecordView>,
    r: Result<(), ApiError>,
    gid: u128,
    user: Seq<char>,
) -> bool {
    exists|full: Result<Player, ApiError>, pid: u128, now: i64|
        !database::player_id_used(before, pid) && #[trigger] join_effect(
            before,
            after,
            full,
            gid,
            user,
            pid,
            now,
        ) && same_outcome(r, full)
}

/// Leaving by player id: the player must sit at the game.
pub open spec fn leave_outcome(
    before: Seq<RecordView>,
    after: Seq<RecordView>,
    r: Result<(), ApiError>,
    gid: u128,
    pid: u128,
) -> bool {
    let g = game_idx(before, gid);
    if g < 0 || !has_player(before[g].players, pid) {
        r == Err::<(), ApiError>(ApiError::PlayerNotFound) && after == before
    } else {
        leave_effect(before, after, r, gid, before[g].players[player_idx(before[g].players, pid)].user)
    }
}

pub open spec fn end_outcome(
    before: Seq<RecordView>,
    after: Seq<RecordView>,
    r: Result<(), ApiError>,
    gid: u128,
) -> bool {
    exists|full: Result<crate::models::Game, ApiError>, now: i64|
        #[trigger] end_effect(before, after, full, gid, now) && same_outcome(r, full)
}

pub open spec fn set_damage_outcome(
    before: Seq<RecordView>,
    after: Seq<RecordView>,
    r: Result<(), ApiError>,
    gid: u128,
    from: u128,
    to: u128,
    slot: i32,
    damage: i32,
) -> bool {
    match active_check(before, gid) {
        Some(e) => r == Err::<(), ApiError>(e) && after == before,
        None => exists|full: Result<crate::models::CommanderDamage, ApiError>, now: i64|
            #[trigger] damage_effect(before, after, full, gid, from, to, slot, damage, now)
                && same_outcome(r, full),
    }
}

pub open spec fn change_damage_outcome(
    before: Seq<RecordView>,
    after: Seq<RecordView>,
    r: Result<(), ApiError>,
    gid: u128,
    from: u128,
    to: u128,
    slot: i32,
    amount: i32,
) -> bool {
    if amount < -50 || amount > 50 {
        r == Err::<(), ApiError>(
            ApiError::Invalid(crate::errors::InvalidInput::DamageChangeTooLarge),
        ) && after == before
    } else {
        set_damage_outcome(
            before,
            after,
            r,
            gid,
            from,
            to,
            slot,
            (current_damage(before, gid, from, to, slot) + amount) as i32,
        )
    }
}

pub open spec fn partner_outcome(
    before: Seq<RecordView>,
    after: Seq<RecordView>,
    r: Result<(), ApiError>,
    gid: u128,
    pid: u128,
    enable: bool,
) -> bool {
    match active_check(before, gid) {
        Some(e) => r == Err::<(), ApiError>(e) && after == before,
        None => exists|now: i64| #[trigger] partner_effect(before, after, r, gid, pid, enable, now),
    }
}

/// What handling `request` on a connection to game `gid` does to the store.
pub open spec fn request_outcome(
    request: WebSocketRequest,
    policy: crate::policy::EliminationPolicy,
    before: Seq<RecordView>,
    after: Seq<RecordView>,
    r: Result<(), ApiError>,
    gid: u128,
) -> bool {
    match request {
        WebSocketRequest::UpdateLife { player_id, change_amount } => life_outcome(
            policy,
            before,
            after,
            r,
            gid,
            player_id,
            change_amount,
        ),
        WebSocketRequest::JoinGame { clerk_user_id } => join_outcome(
            before,
            after,
            r,
            gid,
            clerk_user_id@,
        ),
        WebSocketRequest::LeaveGame { player_id } => leave_outcome(before, after, r, gid, player_id),
        WebSocketRequest::GetGameState => after == before && (r is Err <==> game_idx(before, gid)
            < 0) && (r is Err ==> r == Err::<(), ApiError>(ApiError::GameNotFound)),
        WebSocketRequest::EndGame => end_outcome(before, after, r, gid),
        WebSocketRequest::SetCommanderDamage {
            from_player_id,
            to_player_id,
            commander_number,
            new_damage,
        } => set_damage_outcome(
            before,
            after,
            r,
            gid,
            from_player_id,
            to_player_id,
            commander_number,
            new_damage,
        ),
        WebSocketRequest::UpdateCommanderDamage {
            from_player_id,
            to_player_id,
            commander_number,
            damage_amount,
        } => change_damage_outcome(
            before,
            after,
            r,
            gid,
            from_player_id,
            to_player_id,
            commander_number,
            damage_amount,
        ),
        WebSocketRequest::TogglePartner { player_id, enable_partner } => partner_outcome(
            before,
            after,
            r,
            gid,
            player_id,
            enable_partner,
        ),
    }
}

// ---------------------------------------------------------------------------
// What each request announces
// ---------------------------------------------------------------------------

/// On success the log gains `entry`; on failure it is unchanged.
pub open spec fn announces(
    before: Seq<(u128, WebSocketMessage)>,
    after: Seq<(u128, WebSocketMessage)>,
    r: Result<(), ApiError>,
    entry: (u128, WebSocketMessage),
) -> bool {
    if r is Ok {
        after == before.push(entry)
    } else {
        after == before
    }
}

/// On success the log gains a `PlayerJoined` for the seat the join added.
pub open spec fn join_announced(
    before: Seq<(u128, WebSocketMessage)>,
    after: Seq<(u128, WebSocketMessage)>,
    r: Result<(), ApiError>,
    gid: u128,
    db_before: Seq<RecordView>,
    db_after: Seq<RecordView>,
) -> bool {
    if r is Ok {
        exists|p: Player|
            after == #[trigger] before.push(
                (gid, WebSocketMessage::PlayerJoined { game_id: gid, player: p }),
            ) && p@ == db_after[game_idx(db_before, gid)].players.last()
    } else {
        after == before
    }
}

/// On success the log gains the snapshot of game `gid` in `db`.
pub open spec fn snapshot_announced(
    before: Seq<(u128, WebSocketMessage)>,
    after: Seq<(u128, WebSocketMessage)>,
    r: Result<(), ApiError>,
    gid: u128,
    db: Seq<RecordView>,
) -> bool {
    if r is Ok {
        exists|m: WebSocketMessage| after == #[trigger] before.push((gid, m)) && is_snapshot(m, db, gid)
    } else {
        after == before
    }
}

/// On success the log gains a `GameEnded` naming the winner by `policy`.
pub open spec fn end_announced(
    before: Seq<(u128, WebSocketMessage)>,
    after: Seq<(u128, WebSocketMessage)>,
    r: Result<(), ApiError>,
    gid: u128,
    db_before: Seq<RecordView>,
    db_after: Seq<RecordView>,
    policy: WinnerPolicy,
) -> bool {
    if r is Ok {
        exists|w: Option<Player>|
            after == #[trigger] before.push(
                (gid, WebSocketMessage::GameEnded { game_id: gid, winner: w }),
            ) && winner_is(w, db_after[game_idx(db_before, gid)].players, policy, None)
    } else {
        after == before
    }
}

/// On success the log gains the `LifeUpdate` (and a `GameEnded` if the
/// change ended the game).
pub open spec fn life_update_announced(
    before: Seq<(u128, WebSocketMessage)>,
    after: Seq<(u128, WebSocketMessage)>,
    r: Result<(), ApiError>,
    gid: u128,
    pid: u128,
    delta: i32,
) -> bool {
    if r is Ok {
        exists|new_life: i32| #[trigger] life_announced(before, after, gid, pid, new_life, delta)
    } else {
        after == before
    }
}

/// The `CommanderDamageUpdate` of a change of key (`from`, `to`, `slot`)
/// to `new_damage` by `amount`.
pub open spec fn damage_message(
    gid: u128,
    from: u128,
    to: u128,
    slot: i32,
    new_damage: int,
    amount: int,
) -> (u128, WebSocketMessage) {
    (
        gid,
        WebSocketMessage::CommanderDamageUpdate {
            game_id: gid,
            from_player_id: from,
            to_player_id: to,
            commander_number: slot,
            new_damage: new_damage as i32,
            damage_amount: amount as i32,
        },
    )
}

/// What handling `request` on a connection to game `gid` announces.
pub open spec fn request_announced(
    request: WebSocketRequest,
    policy: WinnerPolicy,
    db_before: Seq<RecordView>,
    db_after: Seq<RecordView>,
    before: Seq<(u128, WebSocketMessage)>,
    after: Seq<(u128, WebSocketMessage)>,
    r: Result<(), ApiError>,
    gid: u128,
) -> bool {
    match request {
        WebSocketRequest::UpdateLife { player_id, change_amount } => life_update_announced(
            before,
            after,
            r,
            gid,
            player_id,
            change_amount,
        ),
        WebSocketRequest::JoinGame { .. } => join_announced(
            before,
            after,
            r,
            gid,
            db_before,
            db_after,
        ),
        WebSocketRequest::LeaveGame { player_id } => announces(
            before,
            after,
            r,
            (gid, WebSocketMessage::PlayerLeft { game_id: gid, player_id }),
        ),
        WebSocketRequest::GetGameState => snapshot_announced(before, after, r, gid, db_before),
        WebSocketRequest::EndGame => end_announced(
            before,
            after,
            r,
            gid,
            db_before,
            db_after,
            policy,
        ),
        WebSocketRequest::SetCommanderDamage {
            from_player_id,
            to_player_id,
            commander_number,
            new_damage,
        } => announces(
            before,
            after,
            r,
            damage_message(
                gid,
                from_player_id,
                to_player_id,
                commander_number,
                new_damage as int,
                new_damage - current_damage(
                    db_before,
                    gid,
                    from_player_id,
                    to_player_id,
                    commander_number,
                ),
            ),
        ),
        WebSocketRequest::UpdateCommanderDamage {
            from_player_id,
            to_player_id,
            commander_number,
            damage_amount,
        } => announces(
            before,
            after,
            r,
            damage_message(
                gid,
                from_player_id,
                to_player_id,
                commander_number,
                current_damage(db_before, gid, from_player_id, to_player_id, commander_number)
                    + damage_amount,
                damage_amount as int,
            ),
        ),
        WebSocketRequest::TogglePartner { player_id, enable_partner } => announces(
            before,
            after,
            r,
            (
                gid,
                WebSocketMessage::PartnerToggled {
                    game_id: gid,
                    player_id,
                    has_partner: enable_partner,
                },
            ),
        ),
    }
}

// ---------------------------------------------------------------------------
// Handlers of streaming requests
// ---------------------------------------------------------------------------

/// Announces that `player` joined game `game_id`.
pub fn broadcast_player_joined(state: &mut AppState, game_id: u128, player: Player)
    ensures
        final(state).rooms() == rooms_ensured(old(state).rooms(), game_id),
        channels_ensured(old(state).channels(), final(state).channels(), game_id),
        final(state).published() == old(state).published().push(
            (game_id, WebSocketMessage::PlayerJoined { game_id, player }),
        ),
        final(state).db == old(state).db,
        final(state).rules == old(state).rules,
{
    publish(state, game_id, WebSocketMessage::PlayerJoined { game_id, player });
}

pub fn handle_life_update(player_id: u128, change_amount: i32, game_id: u128, state: &mut AppState) -> (r:
    Result<(), ApiError>)
    requires
        old(state).db.wf(),
    ensures
        final(state).db.wf(),
        final(state).rules == old(state).rules,
        life_outcome(
            old(state).rules.elimination,
            old(state).db@,
            final(state).db@,
            r,
            game_id,
            player_id,
            change_amount,
        ),
        life_update_announced(
            old(state).published(),
            final(state).published(),
            r,
            game_id,
            player_id,
            change_amount,
        ),
{
    match handlers::apply_life_change(state, game_id, player_id, change_amount) {
        Ok(_) => Ok(()),
        Err(e) => Err(e),
    }
}

pub fn handle_join_game(clerk_user_id: &str, game_id: u128, state: &mut AppState) -> (r: Result<
    (),
    ApiError,
>)
    requires
        old(state).db.wf(),
    ensures
        final(state).db.wf(),
        final(state).rules == old(state).rules,
        join_outcome(old(state).db@, final(state).db@, r, game_id, clerk_user_id@),
        r is Ok ==> final(state).rooms() == rooms_ensured(old(state).rooms(), game_id),
        r is Err ==> final(state).rooms() == old(state).rooms(),
        r is Ok ==> channels_ensured(old(state).channels(), final(state).channels(), game_id),
        r is Err ==> final(state).channels() == old(state).channels(),
        join_announced(
            old(state).published(),
            final(state).published(),
            r,
            game_id,
            old(state).db@,
            final(state).db@,
        ),
{
    let ghost v = state.db@;
    let joined = database::join_game(&mut state.db, game_id, clerk_user_id);
    let ghost w = state.db@;
    let ghost (pid, now) = choose|pid: u128, now: i64|
        !database::player_id_used(v, pid) && join_effect(v, w, joined, game_id, clerk_user_id@, pid, now);
    match joined {
        Ok(player) => {
            broadcast_player_joined(state, game_id, player.clone());
            assert(join_effect(v, state.db@, Ok::<Player, ApiError>(player), game_id, clerk_user_id@, pid, now));
            Ok(())
        },
        Err(e) => {
            assert(join_effect(v, state.db@, Err::<Player, ApiError>(e), game_id, clerk_user_id@, pid, now));
            Err(e)
        },
    }
}

pub fn handle_leave_game(player_id: u128, game_id: u128, state: &mut AppState) -> (r: Result<
    (),
    ApiError,
>)
    requires
        old(state).db.wf(),
    ensures
        final(state).db.wf(),
        final(state).rules == old(state).rules,
        leave_outcome(old(state).db@, final(state).db@, r, game_id, player_id),
        announces(
            old(state).published(),
            final(state).published(),
            r,
            (game_id, WebSocketMessage::PlayerLeft { game_id, player_id }),
        ),
{
    let ghost v = state.db@;
    let g = match state.db.find_game(game_id) {
        None => return Err(ApiError::PlayerNotFound),
        Some(g) => g,
    };
    assert(v[g as int] == state.db.games@[g as int]@);
    let k = match state.db.games[g].index_of_player(player_id) {
        None => return Err(ApiError::PlayerNotFound),
        Some(k) => k,
    };
    let user = state.db.games[g].players[k].clerk_user_id.clone();
    assert(user@ == v[g as int].players[k as int].user);
    handlers::leave_as(state, game_id, user.as_str())
}

pub fn handle_get_game_state(game_id: u128, state: &mut AppState) -> (r: Result<(), ApiError>)
    requires
        old(state).db.wf(),
    ensures
        final(state).db == old(state).db,
        final(state).rules == old(state).rules,
        r is Err <==> game_idx(old(state).db@, game_id) < 0,
        r is Err ==> r == Err::<(), ApiError>(ApiError::GameNotFound),
        snapshot_announced(
            old(state).published(),
            final(state).published(),
            r,
            game_id,
            old(state).db@,
        ),
{
    match database::get_game_state(&state.db, game_id) {
        Ok(game_state) => {
            publish(state, game_id, WebSocketMessage::GameStarted { game_state });
            Ok(())
        },
        Err(e) => Err(e),
    }
}

pub fn handle_end_game(game_id: u128, state: &mut AppState) -> (r: Result<(), ApiError>)
    requires
        old(state).db.wf(),
    ensures
        final(state).db.wf(),
        final(state).rules == old(state).rules,
        end_outcome(old(state).db@, final(state).db@, r, game_id),
        end_announced(
            old(state).published(),
            final(state).published(),
            r,
            game_id,
            old(state).db@,
            final(state).db@,
            old(state).rules.winner,
        ),
{
    let ghost v = state.db@;
    let ended = handlers::end_game(state, game_id, None);
    let ghost w = state.db@;
    let ghost now = choose|now: i64| end_effect(v, w, ended, game_id, now);
    assert(end_effect(v, w, ended, game_id, now) && same_outcome(
        match ended {
            Ok(_) => Ok::<(), ApiError>(()),
            Err(e) => Err::<(), ApiError>(e),
        },
        ended,
    ));
    match ended {
        Ok(_) => Ok(()),
        Err(e) => Err(e),
    }
}

pub fn handle_set_commander_damage(
    from_player_id: u128,
    to_player_id: u128,
    commander_number: i32,
    new_damage: i32,
    game_id: u128,
    state: &mut AppState,
) -> (r: Result<(), ApiError>)
    requires
        old(state).db.wf(),
    ensures
        final(state).db.wf(),
        final(state).rules == old(state).rules,
        set_damage_outcome(
            old(state).db@,
            final(state).db@,
            r,
            game_id,
            from_player_id,
            to_player_id,
            commander_number,
            new_damage,
        ),
        announces(
            old(state).published(),
            final(state).published(),
            r,
            damage_message(
                game_id,
                from_player_id,
                to_player_id,
                commander_number,
                new_damage as int,
                new_damage - current_damage(
                    old(state).db@,
                    game_id,
                    from_player_id,
                    to_player_id,
                    commander_number,
                ),
            ),
        ),
{
    let ghost v = state.db@;
    let set = handlers::set_commander_damage(
        state,
        game_id,
        from_player_id,
        to_player_id,
        commander_number,
        new_damage,
    );
    let r = match set {
        Ok(_) => Ok(()),
        Err(e) => Err(e),
    };
    proof {
        if active_check(v, game_id) is None {
            let now = choose|now: i64|
                damage_effect(v, state.db@, set, game_id, from_player_id, to_player_id, commander_number, new_damage, now);
            assert(damage_effect(v, state.db@, set, game_id, from_player_id, to_player_id, commander_number, new_damage, now) && same_outcome(r, set));
        }
    }
    r
}

pub fn handle_update_commander_damage(
    from_player_id: u128,
    to_player_id: u128,
    commander_number: i32,
    damage_amount: i32,
    game_id: u128,
    state: &mut AppState,
) -> (r: Result<(), ApiError>)
    requires
        old(state).db.wf(),
    ensures
        final(state).db.wf(),
        final(state).rules == old(state).rules,
        change_damage_outcome(
            old(state).db@,
            final(state).db@,
            r,
            game_id,
            from_player_id,
            to_player_id,
            commander_number,
            damage_amount,
        ),
        announces(
            old(state).published(),
            final(state).published(),
            r,
            damage_message(
                game_id,
                from_player_id,
                to_player_id,
                commander_number,
                current_damage(old(state).db@, game_id, from_player_id, to_player_id, commander_number)
                    + damage_amount,
                damage_amount as int,
            ),
        ),
{
    let ghost v = state.db@;
    let set = handlers::change_commander_damage(
        state,
        game_id,
        from_player_id,
        to_player_id,
        commander_number,
        damage_amount,
    );
    let r = match set {
        Ok(_) => Ok(()),
        Err(e) => Err(e),
    };
    proof {
        if -50 <= damage_amount <= 50 && active_check(v, game_id) is None {
            let d = (current_damage(v, game_id, from_player_id, to_player_id, commander_number)
                + damage_amount) as i32;
            let now = choose|now: i64|
                damage_effect(v, state.db@, set, game_id, from_player_id, to_player_id, commander_number, d, now);
            assert(damage_effect(v, state.db@, set, game_id, from_player_id, to_player_id, commander_number, d, now) && same_outcome(r, set));
        }
    }
    r
}

pub fn handle_toggle_partner(
    player_id: u128,
    enable_partner: bool,
    game_id: u128,
    state: &mut AppState,
) -> (r: Result<(), ApiError>)
    requires
        old(state).db.wf(),
    ensures
        final(state).db.wf(),
        final(state).rules == old(state).rules,
        partner_outcome(old(state).db@, final(state).db@, r, game_id, player_id, enable_partner),
        announces(
            old(state).published(),
            final(state).published(),
            r,
            (
                game_id,
                WebSocketMessage::PartnerToggled {
                    game_id,
                    player_id,
                    has_partner: enable_partner,
                },
            ),
        ),
{
    handlers::set_partner(state, game_id, player_id, enable_partner)
}

/// Carries out one request a client sent over its connection to game
/// `game_id`. A request that fails changes nothing; the error goes back to
/// that client only.
pub fn handle_websocket_message(request: &WebSocketRequest, game_id: u128, state: &mut AppState) -> (r:
    Result<(), ApiError>)
    requires
        old(state).db.wf(),
    ensures
        final(state).db.wf(),
        final(state).rules == old(state).rules,
        request_outcome(
            *request,
            old(state).rules.elimination,
            old(state).db@,
            final(state).db@,
            r,
            game_id,
        ),
        request_announced(
            *request,
            old(state).rules.winner,
            old(state).db@,
            final(state).db@,
            old(state).published(),
            final(state).published(),
            r,
            game_id,
        ),
{
    match request {
        WebSocketRequest::UpdateLife { player_id, change_amount } => handle_life_update(
            *player_id,
            *change_amount,
            game_id,
            state,
        ),
        WebSocketRequest::JoinGame { clerk_user_id } => handle_join_game(
            clerk_user_id.as_str(),
            game_id,
            state,
        ),
        WebSocketRequest::LeaveGame { player_id } => handle_leave_game(*player_id, game_id, state),
        WebSocketRequest::GetGameState => handle_get_game_state(game_id, state),
        WebSocketRequest::EndGame => handle_end_game(game_id, state),
        WebSocketRequest::SetCommanderDamage {
            from_player_id,
            to_player_id,
            commander_number,
            new_damage,
        } => handle_set_commander_damage(
            *from_player_id,
            *to_player_id,
            *commander_number,
            *new_damage,
            game_id,
            state,
        ),
        WebSocketRequest::UpdateCommanderDamage {
            from_player_id,
            to_player_id,
            commander_number,
            damage_amount,
        } => handle_update_commander_damage(
            *from_player_id,
            *to_player_id,
            *commander_number,
            *damage_amount,
            game_id,
            state,
        ),
        WebSocketRequest::TogglePartner { player_id, enable_partner } => handle_toggle_partner(
            *player_id,
            *enable_partner,
            game_id,
            state,
        ),
    }
}

// ---------------------------------------------------------------------------
// Attaching a connection
// ---------------------------------------------------------------------------

/// Fails unless game `game_id` exists and is active.
pub fn verify_game(state: &AppState, game_id: u128) -> (r: Result<(), ApiError>)
    requires
        state.db.wf(),
    ensures
        active_check(state.db@, game_id) is Some ==> r == Err::<(), ApiError>(
            active_check(state.db@, game_id)->0,
        ),
        active_check(state.db@, game_id) is None ==> r is Ok,
{
    match handlers::require_active(&state.db, game_id) {
        Ok(_) => Ok(()),
        Err(e) => Err(e),
    }
}

/// Seats `clerk_user_id` at game `game_id` unless already seated, so that
/// opening a connection doubles as joining.
pub fn add_user_to_game(state: &mut AppState, game_id: u128, clerk_user_id: &str) -> (r: Result<
    (),
    ApiError,
>)
    requires
        old(state).db.wf(),
    ensures
        final(state).db.wf(),
        final(state).rules == old(state).rules,
        game_idx(old(state).db@, game_id) >= 0 && seat_idx(
            old(state).db@[game_idx(old(state).db@, game_id)].players,
            clerk_user_id@,
        ) >= 0 ==> r is Ok && final(state).db == old(state).db,
        !(game_idx(old(state).db@, game_id) >= 0 && seat_idx(
            old(state).db@[game_idx(old(state).db@, game_id)].players,
            clerk_user_id@,
        ) >= 0) ==> join_outcome(old(state).db@, final(state).db@, r, game_id, clerk_user_id@)
            && join_announced(
            old(state).published(),
            final(state).published(),
            r,
            game_id,
            old(state).db@,
            final(state).db@,
        ),
        game_idx(old(state).db@, game_id) >= 0 && seat_idx(
            old(state).db@[game_idx(old(state).db@, game_id)].players,
            clerk_user_id@,
        ) >= 0 ==> final(state).published() == old(state).published() && final(state).channels()
            == old(state).channels() && final(state).rooms() == old(state).rooms(),
        !(game_idx(old(state).db@, game_id) >= 0 && seat_idx(
            old(state).db@[game_idx(old(state).db@, game_id)].players,
            clerk_user_id@,
        ) >= 0) && r is Ok ==> channels_ensured(
            old(state).channels(),
            final(state).channels(),
            game_id,
        ),
        r is Err ==> final(state).channels() == old(state).channels() && final(state).rooms()
            == old(state).rooms(),
{
    match state.db.find_game(game_id) {
        Some(g) => {
            assert(state.db@[g as int] == state.db.games@[g as int]@);
            if state.db.games[g].seat_of(&clerk_user_id.to_owned()).is_some() {
                return Ok(());
            }
        },
        None => {},
    }
    handle_join_game(clerk_user_id, game_id, state)
}

/// What a connection needs to start streaming: its subscription and the
/// snapshot it sends first.
pub struct SessionStart {
    pub receiver: Receiver<WebSocketMessage>,
    pub initial: WebSocketMessage,
}

/// Whether `m` is the snapshot of game `gid` in store `v`.
pub open spec fn is_snapshot(m: WebSocketMessage, v: Seq<RecordView>, gid: u128) -> bool {
    let g = game_idx(v, gid);
    m matches WebSocketMessage::GameStarted { game_state } && {
        &&& game_state.game@ == v[g].game
        &&& players_view(game_state.players@) == v[g].players
        &&& game_state.recent_changes@ == recent(v[g].life_changes, 20)
        &&& game_state.commander_damage@ == v[g].damage
    }
}

/// Verifies the game, seats the user if needed, subscribes to the game's
/// room and takes the snapshot to send first.
pub fn open_session(state: &mut AppState, game_id: u128, clerk_user_id: &str) -> (r: Result<
    SessionStart,
    ApiError,
>)
    requires
        old(state).db.wf(),
    ensures
        final(state).db.wf(),
        final(state).rules == old(state).rules,
        active_check(old(state).db@, game_id) is Some ==> (r matches Err(e) && e == active_check(
            old(state).db@,
            game_id,
        )->0) && final(state).db == old(state).db && final(state).rooms() == old(state).rooms()
            && final(state).channels() == old(state).channels() && final(state).published()
            == old(state).published(),
        active_check(old(state).db@, game_id) is None && seat_idx(
            old(state).db@[game_idx(old(state).db@, game_id)].players,
            clerk_user_id@,
        ) >= 0 ==> r is Ok && final(state).db == old(state).db && final(state).published()
            == old(state).published(),
        active_check(old(state).db@, game_id) is None && seat_idx(
            old(state).db@[game_idx(old(state).db@, game_id)].players,
            clerk_user_id@,
        ) < 0 ==> exists|full: Result<Player, ApiError>, pid: u128, now: i64|
            #[trigger] join_effect(
                old(state).db@,
                final(state).db@,
                full,
                game_id,
                clerk_user_id@,
                pid,
                now,
            ) && (r is Ok <==> full is Ok),
        active_check(old(state).db@, game_id) is None && seat_idx(
            old(state).db@[game_idx(old(state).db@, game_id)].players,
            clerk_user_id@,
        ) < 0 && r is Ok ==> exists|p: Player|
            final(state).published() == #[trigger] old(state).published().push(
                (game_id, WebSocketMessage::PlayerJoined { game_id, player: p }),
            ) && p@ == final(state).db@[game_idx(old(state).db@, game_id)].players.last(),
        r is Err ==> final(state).rooms() == old(state).rooms() && final(state).channels() == old(
            state,
        ).channels() && final(state).published() == old(state).published(),
        r matches Ok(s) ==> listens_to(s.receiver) == final(state).channels()[game_id]
            && channels_ensured(old(state).channels(), final(state).channels(), game_id),
        r matches Ok(s) ==> {
            let v = final(state).db@;
            let g = game_idx(v, game_id);
            &&& 0 <= g < v.len()
            &&& seat_idx(v[g].players, clerk_user_id@) >= 0
            &&& is_snapshot(s.initial, v, game_id)
            &&& final(state).rooms().contains_key(game_id)
        },
{
    match verify_game(state, game_id) {
        Ok(()) => {},
        Err(e) => return Err(e),
    }
    let ghost v = state.db@;
    match add_user_to_game(state, game_id, clerk_user_id) {
        Ok(()) => {},
        Err(e) => return Err(e),
    }
    let ghost w = state.db@;
    proof {
        let g = game_idx(v, game_id);
        if seat_idx(v[g].players, clerk_user_id@) >= 0 {
            assert(w == v);
        } else {
            let (full, pid, now) = choose|full: Result<Player, ApiError>, pid: u128, now: i64|
                #[trigger] join_effect(v, w, full, game_id, clerk_user_id@, pid, now)
                    && same_outcome(Ok::<(), ApiError>(()), full);
            let n = v[g].players.len() as int;
            assert(w[g].players[n].user == clerk_user_id@);
            database::lemma_game_idx(w, game_id, g);
            database::lemma_seat_idx(w[g].players, clerk_user_id@, n);
        }
        database::lemma_game_idx(w, game_id, g);
    }
    let receiver = state.get_game_receiver(game_id);
    match send_initial_game_state(state, game_id) {
        Ok(initial) => Ok(SessionStart { receiver, initial }),
        Err(e) => Err(e),
    }
}

/// The snapshot a connection to game `game_id` is sent first.
pub fn send_initial_game_state(state: &AppState, game_id: u128) -> (r: Result<
    WebSocketMessage,
    ApiError,
>)
    requires
        state.db.wf(),
    ensures
        game_idx(state.db@, game_id) < 0 ==> r == Err::<WebSocketMessage, ApiError>(
            ApiError::GameNotFound,
        ),
        game_idx(state.db@, game_id) >= 0 ==> (r matches Ok(m) && is_snapshot(m, state.db@, game_id)),
{
    match database::get_game_state(&state.db, game_id) {
        Ok(game_state) => Ok(WebSocketMessage::GameStarted { game_state }),
        Err(e) => Err(e),
    }
}

// ---------------------------------------------------------------------------
// The life of a connection
// ---------------------------------------------------------------------------

/// Where a connection is.
#[derive(PartialEq, Eq, Structural, Clone, Copy, Debug)]
pub enum SessionState {
    Connecting,
    /// Checking that the game exists and is active.
    Verifying,
    /// Seating the user if needed and subscribing to the room.
    Attaching,
    /// Reader, writer and relay are running.
    Streaming,
    /// Torn down, waiting for the last task to stop.
    Closing,
    Closed,
}

/// One of the three units that run while a connection streams.
#[derive(PartialEq, Eq, Structural, Clone, Copy, Debug)]
pub enum SessionTask {
    Reader,
    Writer,
    Relay,
}

/// What happened to a connection.
#[derive(PartialEq, Eq, Structural, Clone, Copy, Debug)]
pub enum SessionEvent {
    Opened,
    Verified,
    Attached,
    /// A step before streaming failed, or the first frame could not be sent.
    Failed,
    /// One of the three units stopped, for whatever reason.
    TaskEnded(SessionTask),
    /// The teardown finished.
    CleanedUp,
}

/// What a connection is to do next.
#[derive(PartialEq, Eq, Structural, Clone, Copy, Debug)]
pub enum SessionAction {
    VerifyGame,
    Attach,
    /// Send the snapshot, then start reader, writer and relay.
    StartStreaming,
    /// Send an error frame to this client only, then close.
    ReportAndClose,
    /// Stop the remaining units and detach from the room's bookkeeping.
    TearDown,
    Nothing,
}

/// The lifecycle of one connection.
#[derive(Debug)]
pub struct SessionConnection {
    pub game_id: u128,
    pub clerk_user_id: String,
    pub state: SessionState,
}

/// The state and action that follow `event` in state `s`.
pub open spec fn transition(s: SessionState, event: SessionEvent) -> (SessionState, SessionAction) {
    match (s, event) {
        (SessionState::Connecting, SessionEvent::Opened) => (
            SessionState::Verifying,
            SessionAction::VerifyGame,
        ),
        (SessionState::Verifying, SessionEvent::Verified) => (
            SessionState::Attaching,
            SessionAction::Attach,
        ),
        (SessionState::Attaching, SessionEvent::Attached) => (
            SessionState::Streaming,
            SessionAction::StartStreaming,
        ),
        (SessionState::Verifying, SessionEvent::Failed) => (
            SessionState::Closed,
            SessionAction::ReportAndClose,
        ),
        (SessionState::Attaching, SessionEvent::Failed) => (
            SessionState::Closed,
            SessionAction::ReportAndClose,
        ),
        (SessionState::Streaming, SessionEvent::Failed) => (
            SessionState::Closing,
            SessionAction::TearDown,
        ),
        (SessionState::Streaming, SessionEvent::TaskEnded(_)) => (
            SessionState::Closing,
            SessionAction::TearDown,
        ),
        (SessionState::Closing, SessionEvent::CleanedUp) => (
            SessionState::Closed,
            SessionAction::Nothing,
        ),
        _ => (s, SessionAction::Nothing),
    }
}

/// How many teardowns a run of `events` from state `s` performs.
pub open spec fn teardowns(s: SessionState, events: Seq<SessionEvent>) -> nat
    decreases events.len(),
{
    if events.len() == 0 {
        0
    } else {
        let (n, a) = transition(s, events[0]);
        (if a == SessionAction::TearDown {
            1nat
        } else {
            0nat
        }) + teardowns(n, events.drop_first())
    }
}

/// Whether some event of `events` is a unit stopping.
pub open spec fn some_task_ends(events: Seq<SessionEvent>) -> bool {
    exists|i: int| 0 <= i < events.len() && events[i] is TaskEnded
}

/// From `Closing` or `Closed`, no run tears down again.
pub proof fn lemma_no_second_teardown(s: SessionState, events: Seq<SessionEvent>)
    requires
        s == SessionState::Closing || s == SessionState::Closed,
    ensures
        teardowns(s, events) == 0,
    decreases events.len(),
{
    if events.len() > 0 {
        lemma_no_second_teardown(transition(s, events[0]).0, events.drop_first());
    }
}

/// However the three units of a streaming connection stop, and in whatever
/// order, the connection is torn down exactly once.
pub proof fn lemma_teardown_exactly_once(events: Seq<SessionEvent>)
    requires
        some_task_ends(events),
    ensures
        teardowns(SessionState::Streaming, events) == 1,
    decreases events.len(),
{
    let (n, a) = transition(SessionState::Streaming, events[0]);
    if a == SessionAction::TearDown {
        lemma_no_second_teardown(n, events.drop_first());
    } else {
        assert(n == SessionState::Streaming);
        assert(!(events[0] is TaskEnded));
        let i = choose|i: int| 0 <= i < events.len() && events[i] is TaskEnded;
        assert(events.drop_first()[i - 1] == events[i]);
        lemma_teardown_exactly_once(events.drop_first());
    }
}

impl SessionConnection {
    /// A connection of `clerk_user_id` to game `game_id`, not opened yet.
    pub fn new(game_id: u128, clerk_user_id: String) -> (r: SessionConnection)
        ensures
            r.game_id == game_id,
            r.clerk_user_id@ == clerk_user_id@,
            r.state == SessionState::Connecting,
    {
        SessionConnection { game_id, clerk_user_id, state: SessionState::Connecting }
    }

    /// Moves the connection on by `event` and says what to do next.
    pub fn on_event(&mut self, event: SessionEvent) -> (r: SessionAction)
        ensures
            (final(self).state, r) == transition(old(self).state, event),
            final(self).game_id == old(self).game_id,
            final(self).clerk_user_id == old(self).clerk_user_id,
    {
        let (next, action) = match (self.state, event) {
            (SessionState::Connecting, SessionEvent::Opened) => (
                SessionState::Verifying,
                SessionAction::VerifyGame,
            ),
            (SessionState::Verifying, SessionEvent::Verified) => (
                SessionState::Attaching,
                SessionAction::Attach,
            ),
            (SessionState::Attaching, SessionEvent::Attached) => (
                SessionState::Streaming,
                SessionAction::StartStreaming,
            ),
            (SessionState::Verifying, SessionEvent::Failed)
            | (SessionState::Attaching, SessionEvent::Failed) => (
                SessionState::Closed,
                SessionAction::ReportAndClose,
            ),
            (SessionState::Streaming, SessionEvent::Failed)
            | (SessionState::Streaming, SessionEvent::TaskEnded(_)) => (
                SessionState::Closing,
                SessionAction::TearDown,
            ),
            (SessionState::Closing, SessionEvent::CleanedUp) => (
                SessionState::Closed,
                SessionAction::Nothing,
            ),
            _ => (self.state, SessionAction::Nothing),
        };
        self.state = next;
        action
    }
}

} // verus!
