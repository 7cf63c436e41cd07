use vstd::prelude::*;

use crate::auth::AuthenticatedUser;
use crate::database::{
    self, available, create_effect, damage_effect, end_effect, entry_idx, game_idx, has_player,
    history_of, join_effect, newest_first, seat_idx, leave_effect, life_check, life_effect, lists_games,
    partner_effect, player_idx, recent, record_eliminated, record_ended, selected, GameFilter,
    GameRepository, RecordView,
};
use crate::errors::{ApiError, InvalidInput};
use crate::models::{
    players_view, CommanderDamage, CreateGameRequest, Game, GameHistory, GameState, GameStatus,
    GameWithUsers, LifeChange, Player, TogglePartnerRequest,
    UpdateCommanderDamageRequest, UpdateLifeRequest, WebSocketMessage, DEFAULT_STARTING_LIFE,
};
use crate::policy::{
    auto_ends, eliminates, resolve_winner, winner_is, should_eliminate, should_end, standing_count,
    EliminationPolicy,
};
use crate::state::{channels_ensured, rooms_ensured, AppState};

verus! {

// ---------------------------------------------------------------------------
// Text checks
// ---------------------------------------------------------------------------

/// Whether `c` has the Unicode White_Space property, as `char::is_whitespace`
/// reports it: tab through carriage return, space, next line, no-break
/// space, ogham space mark, the spaces from en quad to hair space, line and
/// paragraph separators, narrow no-break space, medium mathematical space
/// and ideographic space.
pub open spec fn white_space(c: char) -> bool {
    let x = c as u32;
    ||| 0x9 <= x <= 0xd
    ||| x == 0x20
    ||| x == 0x85
    ||| x == 0xa0
    ||| x == 0x1680
    ||| 0x2000 <= x <= 0x200a
    ||| x == 0x2028
    ||| x == 0x2029
    ||| x == 0x202f
    ||| x == 0x205f
    ||| x == 0x3000
}

/// Whether `c` has the Unicode White_Space property.
pub fn is_white(c: char) -> (r: bool)
    ensures
        r == white_space(c),
{
    let x = c as u32;
    (0x9 <= x && x <= 0xd) || x == 0x20 || x == 0x85 || x == 0xa0 || x == 0x1680 || (0x2000 <= x
        && x <= 0x200a) || x == 0x2028 || x == 0x2029 || x == 0x202f || x == 0x205f || x == 0x3000
}

/// Whether every character of `s` is white space (so the empty string is blank).
pub open spec fn blank(s: Seq<char>) -> bool {
    forall|i: int| 0 <= i < s.len() ==> white_space(#[trigger] s[i])
}

/// Whether `s` is empty once white space is trimmed off.
pub fn is_blank(s: &str) -> (r: bool)
    ensures
        r == blank(s@),
{
    let n = s.unicode_len();
    let mut i: usize = 0;
    while i < n
        invariant
            n == s@.len(),
            i <= n,
            forall|j: int| 0 <= j < i ==> white_space(#[trigger] s@[j]),
        decreases n - i,
    {
        if !is_white(s.get_char(i)) {
            return false;
        }
        i = i + 1;
    }
    true
}

/// Longest game name, in characters.
pub const MAX_GAME_NAME_CHARS: usize = 100;

/// Largest life change one request may make, either way.
pub const MAX_LIFE_CHANGE: i32 = 100;

/// Largest commander-damage change one request may make, either way.
pub const MAX_DAMAGE_CHANGE: i32 = 50;

// ---------------------------------------------------------------------------
// Publishing
// ---------------------------------------------------------------------------

/// Publishes `message` to the room of `game_id`, creating the room if needed.
/// Delivery is best effort: a room nobody listens to drops it.
pub fn publish(state: &mut AppState, game_id: u128, message: WebSocketMessage)
    ensures
        final(state).rooms() == rooms_ensured(old(state).rooms(), game_id),
        final(state).db == old(state).db,
        final(state).rules == old(state).rules,
        channels_ensured(old(state).channels(), final(state).channels(), game_id),
        final(state).published() == old(state).published().push((game_id, message)),
{
    state.get_or_create_game_room(game_id);
    let _ = state.broadcast_to_game(game_id, message);
}

/// What a life change announces: one `LifeUpdate`, and a `GameEnded` after
/// it when the change ended the game.
pub open spec fn life_announced(
    before: Seq<(u128, WebSocketMessage)>,
    after: Seq<(u128, WebSocketMessage)>,
    game_id: u128,
    player_id: u128,
    new_life: i32,
    change_amount: i32,
) -> bool {
    &&& before.len() + 1 <= after.len() <= before.len() + 2
    &&& after.subrange(0, before.len() + 1 as int) == before.push(
        (game_id, WebSocketMessage::LifeUpdate { game_id, player_id, new_life, change_amount }),
    )
    &&& after.len() == before.len() + 2 ==> after.last().0 == game_id && after.last().1 is GameEnded
}

/// The id of the player `user` at game `game_id`, who is about to leave.
pub open spec fn left_player(v: Seq<RecordView>, game_id: u128, user: Seq<char>) -> u128 {
    let g = game_idx(v, game_id);
    v[g].players[seat_idx(v[g].players, user)].id
}

// ---------------------------------------------------------------------------
// Games
// ---------------------------------------------------------------------------

/// The life total a create request asks for: the given one, or 20.
pub open spec fn requested_life(l: Option<i32>) -> i32 {
    match l {
        Some(x) => x,
        None => 20,
    }
}

/// Creates the game a client asked for, with the caller seated as player #1,
/// and opens its room. A blank name or one over 100 characters is refused.
pub fn create_game(state: &mut AppState, auth: &AuthenticatedUser, request: &CreateGameRequest) -> (r:
    Result<Game, ApiError>)
    requires
        old(state).db.wf(),
    ensures
        final(state).db.wf(),
        final(state).rules == old(state).rules,
        blank(request.name@) ==> r == Err::<Game, ApiError>(
            ApiError::Invalid(InvalidInput::EmptyGameName),
        ),
        !blank(request.name@) && request.name@.len() > 100 ==> r == Err::<Game, ApiError>(
            ApiError::Invalid(InvalidInput::GameNameTooLong),
        ),
        r is Err ==> final(state).rooms() == old(state).rooms(),
        (blank(request.name@) || request.name@.len() > 100) ==> final(state).db@ == old(state).db@,
        !blank(request.name@) && request.name@.len() <= 100 ==> exists|gid: u128, pid: u128, now: i64|
            game_idx(old(state).db@, gid) < 0 && !database::player_id_used(old(state).db@, pid)
                && #[trigger] create_effect(
                old(state).db@,
                final(state).db@,
                r,
                request.name@,
                requested_life(request.starting_life),
                auth.clerk_user_id@,
                gid,
                pid,
                now,
            ),
        r matches Ok(g) ==> final(state).rooms() == rooms_ensured(old(state).rooms(), g.id),
        final(state).published() == old(state).published(),
        r matches Ok(g) ==> channels_ensured(old(state).channels(), final(state).channels(), g.id),
        r is Err ==> final(state).channels() == old(state).channels(),
{
    if is_blank(request.name.as_str()) {
        return Err(ApiError::Invalid(InvalidInput::EmptyGameName));
    }
    if request.name.as_str().unicode_len() > MAX_GAME_NAME_CHARS {
        return Err(ApiError::Invalid(InvalidInput::GameNameTooLong));
    }
    let starting_life = match request.starting_life {
        Some(l) => l,
        None => DEFAULT_STARTING_LIFE,
    };
    let ghost v = state.db@;
    let created = database::create_game(
        &mut state.db,
        request.name.as_str(),
        starting_life,
        auth.clerk_user_id.as_str(),
    );
    let ghost w = state.db@;
    assert(starting_life == requested_life(request.starting_life));
    let ghost (gid, pid, now) = choose|gid: u128, pid: u128, now: i64|
        game_idx(v, gid) < 0 && !database::player_id_used(v, pid) && create_effect(v, w, created, request.name@, starting_life, auth.clerk_user_id@, gid, pid, now);
    match created {
        Ok(game) => {
            state.get_or_create_game_room(game.id);
            assert(create_effect(v, state.db@, Ok::<Game, ApiError>(game), request.name@, starting_life, auth.clerk_user_id@, gid, pid, now));
            Ok(game)
        },
        Err(e) => Err(e),
    }
}

/// Seats the caller at game `game_id` and announces the new player.
pub fn join_game(state: &mut AppState, game_id: u128, auth: &AuthenticatedUser) -> (r: Result<
    Player,
    ApiError,
>)
    requires
        old(state).db.wf(),
    ensures
        final(state).db.wf(),
        final(state).rules == old(state).rules,
        exists|pid: u128, now: i64|
            !database::player_id_used(old(state).db@, pid) && #[trigger] join_effect(
                old(state).db@,
                final(state).db@,
                r,
                game_id,
                auth.clerk_user_id@,
                pid,
                now,
            ),
        r is Ok ==> final(state).rooms() == rooms_ensured(old(state).rooms(), game_id),
        r is Err ==> final(state).rooms() == old(state).rooms(),
        r matches Ok(p) ==> final(state).published() == old(state).published().push(
            (game_id, WebSocketMessage::PlayerJoined { game_id, player: p }),
        ),
        r is Ok ==> channels_ensured(old(state).channels(), final(state).channels(), game_id),
        r is Err ==> final(state).published() == old(state).published() && final(state).channels()
            == old(state).channels(),
{
    let ghost v = state.db@;
    let joined = database::join_game(&mut state.db, game_id, auth.clerk_user_id.as_str());
    let ghost w = state.db@;
    let ghost (pid, now) = choose|pid: u128, now: i64|
        !database::player_id_used(v, pid) && join_effect(v, w, joined, game_id, auth.clerk_user_id@, pid, now);
    match joined {
        Ok(player) => {
            crate::websocket::broadcast_player_joined(state, game_id, player.clone());
            assert(join_effect(v, state.db@, Ok::<Player, ApiError>(player), game_id, auth.clerk_user_id@, pid, now));
            Ok(player)
        },
        Err(e) => Err(e),
    }
}

/// Removes `clerk_user_id` from game `game_id` and announces it.
pub fn leave_as(state: &mut AppState, game_id: u128, clerk_user_id: &str) -> (r: Result<
    (),
    ApiError,
>)
    requires
        old(state).db.wf(),
    ensures
        final(state).db.wf(),
        final(state).rules == old(state).rules,
        leave_effect(old(state).db@, final(state).db@, r, game_id, clerk_user_id@),
        r is Ok ==> final(state).rooms() == rooms_ensured(old(state).rooms(), game_id),
        r is Err ==> final(state).rooms() == old(state).rooms(),
        r is Ok ==> final(state).published() == old(state).published().push(
            (
                game_id,
                WebSocketMessage::PlayerLeft {
                    game_id,
                    player_id: left_player(old(state).db@, game_id, clerk_user_id@),
                },
            ),
        ),
        r is Ok ==> channels_ensured(old(state).channels(), final(state).channels(), game_id),
        r is Err ==> final(state).published() == old(state).published() && final(state).channels()
            == old(state).channels(),
{
    let ghost v = state.db@;
    let mut player_id: u128 = 0;
    match state.db.find_game(game_id) {
        Some(g) => {
            let user = clerk_user_id.to_owned();
            assert(v[g as int] == state.db.games@[g as int]@);
            match state.db.games[g].seat_of(&user) {
                Some(k) => {
                    player_id = state.db.games[g].players[k].id;
                },
                None => {},
            }
        },
        None => {},
    }
    database::leave_game(&mut state.db, game_id, clerk_user_id)?;
    publish(state, game_id, WebSocketMessage::PlayerLeft { game_id, player_id });
    Ok(())
}

/// Removes the caller from game `game_id` and announces it.
pub fn leave_game(state: &mut AppState, game_id: u128, auth: &AuthenticatedUser) -> (r: Result<
    (),
    ApiError,
>)
    requires
        old(state).db.wf(),
    ensures
        final(state).db.wf(),
        final(state).rules == old(state).rules,
        leave_effect(old(state).db@, final(state).db@, r, game_id, auth.clerk_user_id@),
        r is Ok ==> final(state).rooms() == rooms_ensured(old(state).rooms(), game_id),
        r is Err ==> final(state).rooms() == old(state).rooms(),
        r is Ok ==> final(state).published() == old(state).published().push(
            (
                game_id,
                WebSocketMessage::PlayerLeft {
                    game_id,
                    player_id: left_player(old(state).db@, game_id, auth.clerk_user_id@),
                },
            ),
        ),
        r is Ok ==> channels_ensured(old(state).channels(), final(state).channels(), game_id),
        r is Err ==> final(state).published() == old(state).published() && final(state).channels()
            == old(state).channels(),
{
    leave_as(state, game_id, auth.clerk_user_id.as_str())
}

/// The game with id `game_id`.
pub fn get_game(state: &AppState, game_id: u128) -> (r: Result<Game, ApiError>)
    requires
        state.db.wf(),
    ensures
        game_idx(state.db@, game_id) < 0 ==> r == Err::<Game, ApiError>(ApiError::GameNotFound),
        game_idx(state.db@, game_id) >= 0 ==> (r matches Ok(g) && g@ == state.db@[game_idx(
            state.db@,
            game_id,
        )].game),
{
    database::get_game_by_id(&state.db, game_id)
}

/// The number of active games.
pub fn get_stats(state: &AppState) -> (r: usize)
    ensures
        r == database::active_count(state.db@),
{
    database::count_active_games(&state.db)
}

/// Whether game `game_id` exists and is active, as an error when it is not.
pub open spec fn active_check(v: Seq<RecordView>, game_id: u128) -> Option<ApiError> {
    let g = game_idx(v, game_id);
    if g < 0 {
        Some(ApiError::GameNotFound)
    } else if v[g].game.status != GameStatus::Active {
        Some(ApiError::NotActive)
    } else {
        None
    }
}

/// Fails unless game `game_id` exists and is active.
pub fn require_active(pool: &GameRepository, game_id: u128) -> (r: Result<usize, ApiError>)
    requires
        pool.wf(),
    ensures
        active_check(pool@, game_id) is Some ==> r == Err::<usize, ApiError>(
            active_check(pool@, game_id)->0,
        ),
        active_check(pool@, game_id) is None ==> r is Ok,
        r matches Ok(g) ==> g as int == game_idx(pool@, game_id) && g < pool@.len(),
{
    match pool.find_game(game_id) {
        None => Err(ApiError::GameNotFound),
        Some(g) => {
            assert(pool@[g as int] == pool.games@[g as int]@);
            if pool.games[g].game.status != GameStatus::Active {
                Err(ApiError::NotActive)
            } else {
                Ok(g)
            }
        },
    }
}

// ---------------------------------------------------------------------------
// Life totals
// ---------------------------------------------------------------------------

/// The store after the elimination policy ran on player `pid` of game `gid`,
/// whose life just changed: under `AtZeroLife` a player at 0 or below is
/// eliminated, and the game ends at `now` once at most one player stands.
pub open spec fn policy_effect(
    policy: EliminationPolicy,
    mid: Seq<RecordView>,
    after: Seq<RecordView>,
    gid: u128,
    pid: u128,
    now: i64,
) -> bool {
    let g = game_idx(mid, gid);
    let k = player_idx(mid[g].players, pid);
    let p = mid[g].players[k];
    if eliminates(policy, p.life, p.eliminated) {
        let m2 = mid.update(g, record_eliminated(mid[g], k));
        if auto_ends(policy, standing_count(m2[g].players)) {
            after == m2.update(g, record_ended(m2[g], now))
        } else {
            after == m2
        }
    } else {
        after == mid
    }
}

/// The outcome of a life-change request, before anything is written.
pub open spec fn life_request_check(v: Seq<RecordView>, game_id: u128, pid: u128, delta: i32) -> Option<
    ApiError,
> {
    if delta < -100 || delta > 100 {
        Some(ApiError::Invalid(InvalidInput::LifeChangeTooLarge))
    } else if active_check(v, game_id) is Some {
        active_check(v, game_id)
    } else if !has_player(v[game_idx(v, game_id)].players, pid) {
        Some(ApiError::PlayerNotFound)
    } else {
        life_check(v, pid, delta)
    }
}

/// Changes the life of player `player_id` of game `game_id` by
/// `change_amount` (at most 100 either way), announces the new total and
/// applies the elimination policy. The result is the player as stored after.
pub fn apply_life_change(
    state: &mut AppState,
    game_id: u128,
    player_id: u128,
    change_amount: i32,
) -> (r: Result<Player, ApiError>)
    requires
        old(state).db.wf(),
    ensures
        final(state).db.wf(),
        final(state).rules == old(state).rules,
        life_request_check(old(state).db@, game_id, player_id, change_amount) is Some ==> (r
            == Err::<Player, ApiError>(
            life_request_check(old(state).db@, game_id, player_id, change_amount)->0,
        ) && final(state).db@ == old(state).db@ && final(state).rooms() == old(state).rooms()),
        life_request_check(old(state).db@, game_id, player_id, change_amount) is None ==> {
            let g = game_idx(old(state).db@, game_id);
            let k = player_idx(old(state).db@[g].players, player_id);
            &&& r matches Ok(p) && p@ == final(state).db@[g].players[k]
            &&& final(state).rooms() == rooms_ensured(old(state).rooms(), game_id)
            &&& exists|
                mid: Seq<RecordView>,
                res: Result<(Player, LifeChange), ApiError>,
                change_id: u128,
                t1: i64,
                t2: i64,
            |
                {
                    &&& #[trigger] life_effect(
                        old(state).db@,
                        mid,
                        res,
                        player_id,
                        change_amount,
                        change_id,
                        t1,
                    )
                    &&& res is Ok
                    &&& #[trigger] policy_effect(
                        old(state).rules.elimination,
                        mid,
                        final(state).db@,
                        game_id,
                        player_id,
                        t2,
                    )
                }
        },
        life_request_check(old(state).db@, game_id, player_id, change_amount) is Some ==> final(state).published()
            == old(state).published() && final(state).channels() == old(state).channels(),
        r matches Ok(p) ==> life_announced(
            old(state).published(),
            final(state).published(),
            game_id,
            player_id,
            p.current_life,
            change_amount,
        ),
        r is Ok ==> channels_ensured(old(state).channels(), final(state).channels(), game_id),
{
    if change_amount < -MAX_LIFE_CHANGE || change_amount > MAX_LIFE_CHANGE {
        return Err(ApiError::Invalid(InvalidInput::LifeChangeTooLarge));
    }
    let ghost v = state.db@;
    let g = match require_active(&state.db, game_id) {
        Ok(g) => g,
        Err(e) => return Err(e),
    };
    assert(v[g as int] == state.db.games@[g as int]@);
    assert(active_check(v, game_id) is None);
    assert(g as int == game_idx(v, game_id));
    if state.db.games[g].index_of_player(player_id).is_none() {
        assert(!has_player(v[game_idx(v, game_id)].players, player_id));
        assert(life_request_check(v, game_id, player_id, change_amount) == Some(ApiError::PlayerNotFound));
        return Err(ApiError::PlayerNotFound);
    }
    proof {
        database::lemma_player_game(v, g as int, player_id);
    }
    let ghost k = player_idx(v[g as int].players, player_id);
    let upd = database::update_player_life(&mut state.db, player_id, change_amount);
    let ghost mid = state.db@;
    let ghost (cid, t1) = choose|cid: u128, t1: i64|
        life_effect(v, mid, upd, player_id, change_amount, cid, t1);
    let player = match upd {
        Ok((p, _)) => p,
        Err(e) => return Err(e),
    };
    proof {
        database::lemma_life_wf(v[g as int], k, change_amount, cid, t1);
        assert(mid[g as int].players[k].id == player_id);
        assert(has_player(mid[g as int].players, player_id));
        database::lemma_player_game(mid, g as int, player_id);
        database::lemma_player_idx(mid[g as int].players, player_id, k);
        database::lemma_game_idx(mid, game_id, g as int);
    }
    let mut current = player;
    let ghost pub0 = state.published();
    publish(
        state,
        game_id,
        WebSocketMessage::LifeUpdate {
            game_id,
            player_id,
            new_life: current.current_life,
            change_amount,
        },
    );
    let ghost mut t2: i64 = 0;
    if should_eliminate(state.rules.elimination, &current) {
        let _ = database::eliminate_player(&mut state.db, player_id);
        current.is_eliminated = true;
        let ghost m2 = state.db@;
        proof {
            database::lemma_eliminated_wf(mid[g as int], k);
            database::lemma_game_idx(m2, game_id, g as int);
        }
        let players = database::get_players_in_game(&state.db, game_id);
        if should_end(state.rules.elimination, &players) {
            let ended = database::end_game(&mut state.db, game_id);
            proof {
                t2 = choose|t: i64| end_effect(m2, state.db@, ended, game_id, t);
            }
            let winner = resolve_winner(&players, state.rules.winner, None);
            publish(state, game_id, WebSocketMessage::GameEnded { game_id, winner });
        }
    }
    assert(policy_effect(state.rules.elimination, mid, state.db@, game_id, player_id, t2));
    assert(life_effect(v, mid, upd, player_id, change_amount, cid, t1));
    assert(state.published().subrange(0, pub0.len() + 1 as int) =~= pub0.push(
        (
            game_id,
            WebSocketMessage::LifeUpdate {
                game_id,
                player_id,
                new_life: current.current_life,
                change_amount,
            },
        ),
    ));
    Ok(current)
}


/// Changes a player's life total as a request/response caller asked.
pub fn update_life(state: &mut AppState, game_id: u128, request: &UpdateLifeRequest) -> (r: Result<
    Player,
    ApiError,
>)
    requires
        old(state).db.wf(),
    ensures
        final(state).db.wf(),
        final(state).rules == old(state).rules,
        life_request_check(old(state).db@, game_id, request.player_id, request.change_amount) is Some
            ==> (r == Err::<Player, ApiError>(
            life_request_check(old(state).db@, game_id, request.player_id, request.change_amount)->0,
        ) && final(state).db@ == old(state).db@ && final(state).rooms() == old(state).rooms()),
        life_request_check(old(state).db@, game_id, request.player_id, request.change_amount) is None
            ==> {
            let g = game_idx(old(state).db@, game_id);
            let k = player_idx(old(state).db@[g].players, request.player_id);
            &&& r matches Ok(p) && p@ == final(state).db@[g].players[k]
            &&& final(state).rooms() == rooms_ensured(old(state).rooms(), game_id)
            &&& exists|
                mid: Seq<RecordView>,
                res: Result<(Player, LifeChange), ApiError>,
                change_id: u128,
                t1: i64,
                t2: i64,
            |
                {
                    &&& #[trigger] life_effect(
                        old(state).db@,
                        mid,
                        res,
                        request.player_id,
                        request.change_amount,
                        change_id,
                        t1,
                    )
                    &&& res is Ok
                    &&& #[trigger] policy_effect(
                        old(state).rules.elimination,
                        mid,
                        final(state).db@,
                        game_id,
                        request.player_id,
                        t2,
                    )
                }
        },
        life_request_check(old(state).db@, game_id, request.player_id, request.change_amount) is Some ==> final(state).published()
            == old(state).published() && final(state).channels() == old(state).channels(),
        r matches Ok(p) ==> life_announced(
            old(state).published(),
            final(state).published(),
            game_id,
            request.player_id,
            p.current_life,
            request.change_amount,
        ),
        r is Ok ==> channels_ensured(old(state).channels(), final(state).channels(), game_id),
{
    apply_life_change(state, game_id, request.player_id, request.change_amount)
}

/// Ends game `game_id`, picks the winner by the winner strategy in force
/// (`winner` is the player a caller names, for the strategy that asks for
/// one) and announces the end. Tearing the room down is left to the caller,
/// after a grace delay.
pub fn end_game(state: &mut AppState, game_id: u128, winner: Option<u128>) -> (r: Result<
    Game,
    ApiError,
>)
    requires
        old(state).db.wf(),
    ensures
        final(state).db.wf(),
        final(state).rules == old(state).rules,
        exists|now: i64| end_effect(old(state).db@, final(state).db@, r, game_id, now),
        r is Ok ==> final(state).rooms() == rooms_ensured(old(state).rooms(), game_id),
        r is Err ==> final(state).rooms() == old(state).rooms(),
        r is Ok ==> channels_ensured(old(state).channels(), final(state).channels(), game_id),
        r is Ok ==> exists|w: Option<Player>|
            final(state).published() == old(state).published().push(
                (game_id, WebSocketMessage::GameEnded { game_id, winner: w }),
            ) && #[trigger] winner_is(
                w,
                final(state).db@[game_idx(old(state).db@, game_id)].players,
                old(state).rules.winner,
                winner,
            ),
        r is Err ==> final(state).published() == old(state).published() && final(state).channels()
            == old(state).channels(),
{
    let ghost v = state.db@;
    let ended = database::end_game(&mut state.db, game_id);
    let ghost w = state.db@;
    let ghost now = choose|now: i64| end_effect(v, w, ended, game_id, now);
    match ended {
        Ok(game) => {
            proof {
                database::lemma_game_idx(w, game_id, game_idx(v, game_id));
            }
            let players = database::get_players_in_game(&state.db, game_id);
            let chosen = resolve_winner(&players, state.rules.winner, winner);
            let ghost announced = chosen;
            publish(state, game_id, WebSocketMessage::GameEnded { game_id, winner: chosen });
            assert(end_effect(v, state.db@, Ok::<Game, ApiError>(game), game_id, now));
            assert(winner_is(announced, state.db@[game_idx(v, game_id)].players, state.rules.winner, winner));
            Ok(game)
        },
        Err(e) => Err(e),
    }
}

// ---------------------------------------------------------------------------
// Commander damage and partners
// ---------------------------------------------------------------------------

/// The damage total stored for a key, or 0 when there is no entry.
pub open spec fn current_damage(v: Seq<RecordView>, gid: u128, from: u128, to: u128, slot: i32) -> int {
    let g = game_idx(v, gid);
    if g < 0 {
        0
    } else {
        let k = entry_idx(v[g].damage, from, to, slot);
        if k < 0 {
            0
        } else {
            v[g].damage[k].damage as int
        }
    }
}

/// The damage total stored for a key of game `g`, or 0.
fn damage_of(pool: &GameRepository, g: usize, from: u128, to: u128, slot: i32) -> (r: i32)
    requires
        pool.wf(),
        g < pool@.len(),
        game_idx(pool@, pool@[g as int].game.id) == g,
    ensures
        r == current_damage(pool@, pool@[g as int].game.id, from, to, slot),
        0 <= r <= 999,
{
    assert(pool@[g as int] == pool.games@[g as int]@);
    assert(pool@[g as int].wf());
    match pool.games[g].entry_of(from, to, slot) {
        Some(k) => {
            assert(database::entry_ok(pool@[g as int].damage[k as int], pool@[g as int].game.id, pool@[g as int].players));
            pool.games[g].commander_damage[k].damage
        },
        None => 0,
    }
}

/// Sets a commander-damage total in an active game and announces the change.
pub fn set_commander_damage(
    state: &mut AppState,
    game_id: u128,
    from_player_id: u128,
    to_player_id: u128,
    commander_number: i32,
    new_damage: i32,
) -> (r: Result<CommanderDamage, ApiError>)
    requires
        old(state).db.wf(),
    ensures
        final(state).db.wf(),
        final(state).rules == old(state).rules,
        active_check(old(state).db@, game_id) is Some ==> (r == Err::<CommanderDamage, ApiError>(
            active_check(old(state).db@, game_id)->0,
        ) && final(state).db@ == old(state).db@),
        active_check(old(state).db@, game_id) is None ==> exists|now: i64|
            #[trigger] damage_effect(
                old(state).db@,
                final(state).db@,
                r,
                game_id,
                from_player_id,
                to_player_id,
                commander_number,
                new_damage,
                now,
            ),
        r is Ok ==> final(state).rooms() == rooms_ensured(old(state).rooms(), game_id),
        r is Err ==> final(state).rooms() == old(state).rooms(),
        r is Ok ==> final(state).published() == old(state).published().push(
            (
                game_id,
                WebSocketMessage::CommanderDamageUpdate {
                    game_id,
                    from_player_id: from_player_id,
                    to_player_id: to_player_id,
                    commander_number: commander_number,
                    new_damage: new_damage,
                    damage_amount: (new_damage - current_damage(old(state).db@, game_id, from_player_id, to_player_id, commander_number)) as i32,
                },
            ),
        ),
        r is Ok ==> channels_ensured(old(state).channels(), final(state).channels(), game_id),
        r is Err ==> final(state).published() == old(state).published() && final(state).channels()
            == old(state).channels(),
{
    let ghost v = state.db@;
    let g = match require_active(&state.db, game_id) {
        Ok(g) => g,
        Err(e) => return Err(e),
    };
    proof {
        database::lemma_game_idx(v, v[g as int].game.id, g as int);
    }
    let previous = damage_of(&state.db, g, from_player_id, to_player_id, commander_number);
    let set = database::update_commander_damage(
        &mut state.db,
        game_id,
        from_player_id,
        to_player_id,
        commander_number,
        new_damage,
    );
    let ghost w = state.db@;
    let ghost now = choose|now: i64|
        damage_effect(v, w, set, game_id, from_player_id, to_player_id, commander_number, new_damage, now);
    match set {
        Ok(entry) => {
            publish(
                state,
                game_id,
                WebSocketMessage::CommanderDamageUpdate {
                    game_id,
                    from_player_id,
                    to_player_id,
                    commander_number,
                    new_damage,
                    damage_amount: new_damage - previous,
                },
            );
            assert(damage_effect(v, state.db@, Ok::<CommanderDamage, ApiError>(entry), game_id, from_player_id, to_player_id, commander_number, new_damage, now));
            Ok(entry)
        },
        Err(e) => Err(e),
    }
}

/// Changes a commander-damage total by `damage_amount` (at most 50 either
/// way) in an active game and announces the change; a missing entry counts
/// as 0.
pub fn change_commander_damage(
    state: &mut AppState,
    game_id: u128,
    from_player_id: u128,
    to_player_id: u128,
    commander_number: i32,
    damage_amount: i32,
) -> (r: Result<CommanderDamage, ApiError>)
    requires
        old(state).db.wf(),
    ensures
        final(state).db.wf(),
        final(state).rules == old(state).rules,
        (damage_amount < -50 || damage_amount > 50) ==> (r == Err::<CommanderDamage, ApiError>(
            ApiError::Invalid(InvalidInput::DamageChangeTooLarge),
        ) && final(state).db@ == old(state).db@),
        -50 <= damage_amount <= 50 && active_check(old(state).db@, game_id) is Some ==> (r
            == Err::<CommanderDamage, ApiError>(active_check(old(state).db@, game_id)->0)
            && final(state).db@ == old(state).db@),
        -50 <= damage_amount <= 50 && active_check(old(state).db@, game_id) is None ==> exists|
            now: i64,
        |
            #[trigger] damage_effect(
                old(state).db@,
                final(state).db@,
                r,
                game_id,
                from_player_id,
                to_player_id,
                commander_number,
                (current_damage(
                    old(state).db@,
                    game_id,
                    from_player_id,
                    to_player_id,
                    commander_number,
                ) + damage_amount) as i32,
                now,
            ),
        r is Ok ==> final(state).rooms() == rooms_ensured(old(state).rooms(), game_id),
        r is Err ==> final(state).rooms() == old(state).rooms(),
        r is Ok ==> final(state).published() == old(state).published().push(
            (
                game_id,
                WebSocketMessage::CommanderDamageUpdate {
                    game_id,
                    from_player_id: from_player_id,
                    to_player_id: to_player_id,
                    commander_number: commander_number,
                    new_damage: (current_damage(old(state).db@, game_id, from_player_id, to_player_id, commander_number) + damage_amount) as i32,
                    damage_amount: damage_amount,
                },
            ),
        ),
        r is Ok ==> channels_ensured(old(state).channels(), final(state).channels(), game_id),
        r is Err ==> final(state).published() == old(state).published() && final(state).channels()
            == old(state).channels(),
{
    if damage_amount < -MAX_DAMAGE_CHANGE || damage_amount > MAX_DAMAGE_CHANGE {
        return Err(ApiError::Invalid(InvalidInput::DamageChangeTooLarge));
    }
    let ghost v = state.db@;
    let g = match require_active(&state.db, game_id) {
        Ok(g) => g,
        Err(e) => return Err(e),
    };
    proof {
        database::lemma_game_idx(v, v[g as int].game.id, g as int);
    }
    let current = damage_of(&state.db, g, from_player_id, to_player_id, commander_number);
    let new_damage = current + damage_amount;
    let set = database::update_commander_damage(
        &mut state.db,
        game_id,
        from_player_id,
        to_player_id,
        commander_number,
        new_damage,
    );
    let ghost w = state.db@;
    let ghost now = choose|now: i64|
        damage_effect(v, w, set, game_id, from_player_id, to_player_id, commander_number, new_damage, now);
    match set {
        Ok(entry) => {
            publish(
                state,
                game_id,
                WebSocketMessage::CommanderDamageUpdate {
                    game_id,
                    from_player_id,
                    to_player_id,
                    commander_number,
                    new_damage,
                    damage_amount,
                },
            );
            assert(damage_effect(v, state.db@, Ok::<CommanderDamage, ApiError>(entry), game_id, from_player_id, to_player_id, commander_number, new_damage, now));
            Ok(entry)
        },
        Err(e) => Err(e),
    }
}

/// Changes a commander-damage total as a request/response caller asked.
pub fn update_commander_damage(
    state: &mut AppState,
    game_id: u128,
    request: &UpdateCommanderDamageRequest,
) -> (r: Result<CommanderDamage, ApiError>)
    requires
        old(state).db.wf(),
    ensures
        final(state).db.wf(),
        final(state).rules == old(state).rules,
        (request.damage_amount < -50 || request.damage_amount > 50) ==> (r == Err::<
            CommanderDamage,
            ApiError,
        >(ApiError::Invalid(InvalidInput::DamageChangeTooLarge)) && final(state).db@ == old(state).db@),
        -50 <= request.damage_amount <= 50 && active_check(old(state).db@, game_id) is Some ==> (r
            == Err::<CommanderDamage, ApiError>(active_check(old(state).db@, game_id)->0)
            && final(state).db@ == old(state).db@),
        -50 <= request.damage_amount <= 50 && active_check(old(state).db@, game_id) is None
            ==> exists|now: i64|
            #[trigger] damage_effect(
                old(state).db@,
                final(state).db@,
                r,
                game_id,
                request.from_player_id,
                request.to_player_id,
                request.commander_number,
                (current_damage(
                    old(state).db@,
                    game_id,
                    request.from_player_id,
                    request.to_player_id,
                    request.commander_number,
                ) + request.damage_amount) as i32,
                now,
            ),
        r is Ok ==> final(state).rooms() == rooms_ensured(old(state).rooms(), game_id),
        r is Err ==> final(state).rooms() == old(state).rooms(),
        r is Ok ==> final(state).published() == old(state).published().push(
            (
                game_id,
                WebSocketMessage::CommanderDamageUpdate {
                    game_id,
                    from_player_id: request.from_player_id,
                    to_player_id: request.to_player_id,
                    commander_number: request.commander_number,
                    new_damage: (current_damage(old(state).db@, game_id, request.from_player_id, request.to_player_id, request.commander_number) + request.damage_amount) as i32,
                    damage_amount: request.damage_amount,
                },
            ),
        ),
        r is Ok ==> channels_ensured(old(state).channels(), final(state).channels(), game_id),
        r is Err ==> final(state).published() == old(state).published() && final(state).channels()
            == old(state).channels(),
{
    change_commander_damage(
        state,
        game_id,
        request.from_player_id,
        request.to_player_id,
        request.commander_number,
        request.damage_amount,
    )
}

/// Switches a partner commander on or off for a player of an active game and
/// announces it.
pub fn set_partner(state: &mut AppState, game_id: u128, player_id: u128, enable_partner: bool) -> (r:
    Result<(), ApiError>)
    requires
        old(state).db.wf(),
    ensures
        final(state).db.wf(),
        final(state).rules == old(state).rules,
        active_check(old(state).db@, game_id) is Some ==> (r == Err::<(), ApiError>(
            active_check(old(state).db@, game_id)->0,
        ) && final(state).db@ == old(state).db@),
        active_check(old(state).db@, game_id) is None ==> exists|now: i64|
            partner_effect(
                old(state).db@,
                final(state).db@,
                r,
                game_id,
                player_id,
                enable_partner,
                now,
            ),
        r is Ok ==> final(state).rooms() == rooms_ensured(old(state).rooms(), game_id),
        r is Err ==> final(state).rooms() == old(state).rooms(),
        r is Ok ==> final(state).published() == old(state).published().push(
            (game_id, WebSocketMessage::PartnerToggled { game_id, player_id, has_partner: enable_partner }),
        ),
        r is Ok ==> channels_ensured(old(state).channels(), final(state).channels(), game_id),
        r is Err ==> final(state).published() == old(state).published() && final(state).channels()
            == old(state).channels(),
{
    let ghost v = state.db@;
    match require_active(&state.db, game_id) {
        Ok(_) => {},
        Err(e) => return Err(e),
    }
    let toggled = database::toggle_partner(&mut state.db, game_id, player_id, enable_partner);
    let ghost w = state.db@;
    let ghost now = choose|now: i64| partner_effect(v, w, toggled, game_id, player_id, enable_partner, now);
    match toggled {
        Ok(()) => {
            publish(
                state,
                game_id,
                WebSocketMessage::PartnerToggled { game_id, player_id, has_partner: enable_partner },
            );
            assert(partner_effect(v, state.db@, Ok::<(), ApiError>(()), game_id, player_id, enable_partner, now));
            Ok(())
        },
        Err(e) => Err(e),
    }
}

/// Switches a partner commander as a request/response caller asked; the
/// player of the path and of the request must agree.
pub fn toggle_partner(
    state: &mut AppState,
    game_id: u128,
    player_id: u128,
    request: &TogglePartnerRequest,
) -> (r: Result<(), ApiError>)
    requires
        old(state).db.wf(),
    ensures
        final(state).db.wf(),
        final(state).rules == old(state).rules,
        active_check(old(state).db@, game_id) is Some ==> (r == Err::<(), ApiError>(
            active_check(old(state).db@, game_id)->0,
        ) && final(state).db@ == old(state).db@),
        active_check(old(state).db@, game_id) is None && player_id != request.player_id ==> (r
            == Err::<(), ApiError>(ApiError::Invalid(InvalidInput::PlayerMismatch)) && final(state).db@ == old(state).db@),
        active_check(old(state).db@, game_id) is None && player_id == request.player_id ==> exists|
            now: i64,
        |
            partner_effect(
                old(state).db@,
                final(state).db@,
                r,
                game_id,
                player_id,
                request.enable_partner,
                now,
            ),
        r is Ok ==> final(state).rooms() == rooms_ensured(old(state).rooms(), game_id),
        r is Err ==> final(state).rooms() == old(state).rooms(),
        r is Ok ==> final(state).published() == old(state).published().push(
            (game_id, WebSocketMessage::PartnerToggled { game_id, player_id, has_partner: request.enable_partner }),
        ),
        r is Ok ==> channels_ensured(old(state).channels(), final(state).channels(), game_id),
        r is Err ==> final(state).published() == old(state).published() && final(state).channels()
            == old(state).channels(),
{
    match require_active(&state.db, game_id) {
        Ok(_) => {},
        Err(e) => return Err(e),
    }
    if player_id != request.player_id {
        return Err(ApiError::Invalid(InvalidInput::PlayerMismatch));
    }
    set_partner(state, game_id, player_id, request.enable_partner)
}

// ---------------------------------------------------------------------------
// Reads
// ---------------------------------------------------------------------------

/// A snapshot of game `game_id`; see `database::get_game_state`.
pub fn get_game_state(state: &AppState, game_id: u128) -> (r: Result<GameState, ApiError>)
    requires
        state.db.wf(),
    ensures
        game_idx(state.db@, game_id) < 0 ==> r == Err::<GameState, ApiError>(
            ApiError::GameNotFound,
        ),
        game_idx(state.db@, game_id) >= 0 ==> (r matches Ok(st) && {
            let rec = state.db@[game_idx(state.db@, game_id)];
            &&& st.game@ == rec.game
            &&& players_view(st.players@) == rec.players
            &&& st.recent_changes@ == recent(rec.life_changes, 20)
            &&& st.commander_damage@ == rec.damage
        }),
{
    database::get_game_state(&state.db, game_id)
}

/// How many life changes the log endpoint returns.
pub const LIFE_CHANGES_PAGE: i32 = 50;

/// The 50 latest life changes of game `game_id`, newest first.
pub fn get_recent_life_changes(state: &AppState, game_id: u128) -> (r: Vec<LifeChange>)
    requires
        state.db.wf(),
    ensures
        game_idx(state.db@, game_id) < 0 ==> r@.len() == 0,
        game_idx(state.db@, game_id) >= 0 ==> r@ == recent(
            state.db@[game_idx(state.db@, game_id)].life_changes,
            50,
        ),
{
    database::get_recent_life_changes(&state.db, game_id, LIFE_CHANGES_PAGE)
}

/// Every game with its users, most recently created first.
pub fn get_all_games(state: &AppState) -> (r: Vec<GameWithUsers>)
    requires
        state.db.wf(),
    ensures
        lists_games(r@, state.db@, selected(state.db@, GameFilter::All)),
        newest_first(r@),
{
    database::get_all_games(&state.db)
}

/// The caller's active games; see `database::get_user_games`.
pub fn get_user_games(state: &AppState, auth: &AuthenticatedUser) -> (r: Vec<GameWithUsers>)
    requires
        state.db.wf(),
    ensures
        exists|u: String|
            u@ == auth.clerk_user_id@ && lists_games(
                r@,
                state.db@,
                selected(state.db@, GameFilter::SeatedActive(u)),
            ),
        newest_first(r@),
{
    database::get_user_games(&state.db, auth.clerk_user_id.as_str())
}

/// The games the caller could join; see `database::get_available_games`.
pub fn get_available_games(state: &AppState, auth: &AuthenticatedUser) -> (r: Vec<GameWithUsers>)
    requires
        state.db.wf(),
    ensures
        exists|u: String|
            u@ == auth.clerk_user_id@ && lists_games(
                r@,
                state.db@,
                available(state.db@, GameFilter::OpenTo(u)),
            ),
        newest_first(r@),
{
    database::get_available_games(&state.db, auth.clerk_user_id.as_str())
}

/// The caller's finished games; see `database::get_user_game_history`.
pub fn get_user_history(state: &AppState, auth: &AuthenticatedUser) -> (r: GameHistory)
    requires
        state.db.wf(),
    ensures
        exists|u: String|
            u@ == auth.clerk_user_id@ && #[trigger] history_of(
                r,
                state.db@,
                selected(state.db@, GameFilter::SeatedFinished(u)),
            ),
{
    database::get_user_game_history(&state.db, auth.clerk_user_id.as_str())
}

} // verus!
