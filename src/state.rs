use vstd::prelude::*;

use crate::database::GameRepository;
use crate::models::WebSocketMessage;
use crate::policy::{EliminationPolicy, GameRules, WinnerPolicy};
use dashmap::DashMap;
use tokio::sync::broadcast::error::SendError;
use tokio::sync::broadcast::{Receiver, Sender};

verus! {

// ---------------------------------------------------------------------------
// Outside types and calls
// ---------------------------------------------------------------------------

#[verifier::external_type_specification]
#[verifier::external_body]
#[verifier::reject_recursive_types(K)]
#[verifier::reject_recursive_types(V)]
#[verifier::reject_recursive_types(S)]
pub struct ExDashMap<K, V, S>(dashmap::DashMap<K, V, S>);

#[verifier::external_type_specification]
#[verifier::external_body]
#[verifier::reject_recursive_types(T)]
pub struct ExSender<T>(tokio::sync::broadcast::Sender<T>);

#[verifier::external_type_specification]
#[verifier::external_body]
#[verifier::reject_recursive_types(T)]
pub struct ExReceiver<T>(tokio::sync::broadcast::Receiver<T>);

#[verifier::external_type_specification]
#[verifier::external_body]
#[verifier::reject_recursive_types(T)]
pub struct ExSendError<T>(tokio::sync::broadcast::error::SendError<T>);

/// Relies on tokio's `broadcast::Sender::new`, which panics on a capacity of
/// zero or above `usize::MAX >> 1`.
pub assume_specification<T>[ tokio::sync::broadcast::Sender::<T>::new ](capacity: usize) -> Sender<T>
    requires
        0 < capacity <= usize::MAX / 2,
;

/// Relies on tokio's `broadcast::Sender::send`: it fails when no receiver is
/// subscribed, and otherwise reports how many receivers the value went to.
pub assume_specification<T>[ tokio::sync::broadcast::Sender::<T>::send ](
    s: &Sender<T>,
    value: T,
) -> (r: Result<usize, SendError<T>>)
    ensures
        r matches Ok(n) ==> n > 0,
;

/// The broadcast channel a sender feeds. A sender's clones feed the same one.
pub uninterp spec fn channel_of(s: Sender<WebSocketMessage>) -> int;

/// The broadcast channel a receiver listens to.
pub uninterp spec fn listens_to(r: Receiver<WebSocketMessage>) -> int;

/// Relies on tokio's `broadcast::Sender::subscribe`: a receiver on the
/// sender's own channel, of every value sent from now on.
#[verifier::external_body]
fn subscribe_to(s: &Sender<WebSocketMessage>) -> (r: Receiver<WebSocketMessage>)
    ensures
        listens_to(r) == channel_of(*s),
{
    s.subscribe()
}

/// The connected users of each room, by game id.
pub uninterp spec fn rooms_of(m: DashMap<u128, GameRoom>) -> Map<u128, Seq<Seq<char>>>;

/// The channel of each room's sender, by game id.
pub uninterp spec fn room_channels(m: DashMap<u128, GameRoom>) -> Map<u128, int>;

/// Relies on dashmap's `DashMap::new`: an empty map.
#[verifier::external_body]
fn new_rooms() -> (r: DashMap<u128, GameRoom>)
    ensures
        rooms_of(r).dom().is_empty(),
        room_channels(r).dom().is_empty(),
{
    DashMap::new()
}

/// Relies on dashmap's `DashMap::contains_key`.
#[verifier::external_body]
fn rooms_contain(m: &DashMap<u128, GameRoom>, game_id: u128) -> (r: bool)
    ensures
        r == rooms_of(*m).contains_key(game_id),
        r == room_channels(*m).contains_key(game_id),
{
    m.contains_key(&game_id)
}

/// Relies on dashmap's `DashMap::insert`: the key now maps to the room,
/// replacing any earlier one.
#[verifier::external_body]
fn rooms_insert(m: &mut DashMap<u128, GameRoom>, game_id: u128, room: GameRoom)
    ensures
        rooms_of(*final(m)) == rooms_of(*old(m)).insert(game_id, room.users()),
        room_channels(*final(m)) == room_channels(*old(m)).insert(game_id, channel_of(room.sender)),
{
    m.insert(game_id, room);
}

/// Relies on dashmap's `DashMap::remove`: the key is gone, and its room, if
/// there was one, is handed back.
#[verifier::external_body]
fn rooms_remove(m: &mut DashMap<u128, GameRoom>, game_id: u128) -> (r: Option<GameRoom>)
    ensures
        rooms_of(*final(m)) == rooms_of(*old(m)).remove(game_id),
        r is Some <==> rooms_of(*old(m)).contains_key(game_id),
        r is Some <==> room_channels(*old(m)).contains_key(game_id),
        r matches Some(room) ==> room.users() == rooms_of(*old(m))[game_id],
        room_channels(*final(m)) == room_channels(*old(m)).remove(game_id),
        r matches Some(room) ==> channel_of(room.sender) == room_channels(*old(m))[game_id],
{
    m.remove(&game_id).map(|(_, room)| room)
}

/// Relies on dashmap's `DashMap::get` and tokio's `Sender::clone`: a handle
/// on the room's own channel, when the room exists.
#[verifier::external_body]
fn room_sender(m: &DashMap<u128, GameRoom>, game_id: u128) -> (r: Option<Sender<WebSocketMessage>>)
    ensures
        r is Some <==> rooms_of(*m).contains_key(game_id),
        r matches Some(s) ==> channel_of(s) == room_channels(*m)[game_id],
{
    m.get(&game_id).map(|room| room.sender.clone())
}

// ---------------------------------------------------------------------------
// Rooms
// ---------------------------------------------------------------------------

/// Messages a room buffers for a slow subscriber before it starts to lag.
pub const ROOM_CAPACITY: usize = 100;

/// One attached client.
#[derive(Debug)]
pub struct UserConnection {
    pub clerk_user_id: String,
}

/// The broadcast room of one game: its fan-out channel and the users
/// currently attached to it.
pub struct GameRoom {
    pub sender: Sender<WebSocketMessage>,
    pub connected_users: Vec<UserConnection>,
}

impl GameRoom {
    pub open spec fn users(&self) -> Seq<Seq<char>> {
        self.connected_users@.map_values(|c: UserConnection| c.clerk_user_id@)
    }

    /// A room with a fresh channel and nobody attached.
    pub fn new() -> (r: GameRoom)
        ensures
            r.users() == Seq::<Seq<char>>::empty(),
    {
        let r = GameRoom { sender: Sender::new(ROOM_CAPACITY), connected_users: Vec::new() };
        assert(r.users() =~= Seq::<Seq<char>>::empty());
        r
    }
}

/// Why a message could not be published.
#[derive(PartialEq, Eq, Structural, Clone, Copy, Debug)]
pub enum PublishError {
    /// The game has no room: nobody created or joined it.
    NoRoom,
    /// The room exists but nobody is subscribed to it.
    NoSubscribers,
}

/// The shared state of the service: the game store, the room registry and
/// the strategies in force.
pub struct AppState {
    pub db: GameRepository,
    pub game_rooms: DashMap<u128, GameRoom>,
    pub rules: GameRules,
    /// Every message handed to a room's channel, with its game id, in order.
    pub published: Ghost<Seq<(u128, WebSocketMessage)>>,
}

/// `users` with `u` appended unless it is already there.
pub open spec fn with_user(users: Seq<Seq<char>>, u: Seq<char>) -> Seq<Seq<char>> {
    if users.contains(u) {
        users
    } else {
        users.push(u)
    }
}

/// Whether `after` is `before` after a get-or-create of the channel of
/// `game_id`: an existing channel is kept, and only a missing one is added.
pub open spec fn channels_ensured(
    before: Map<u128, int>,
    after: Map<u128, int>,
    game_id: u128,
) -> bool {
    if before.contains_key(game_id) {
        after == before
    } else {
        after.contains_key(game_id) && after == before.insert(game_id, after[game_id])
    }
}

/// The room map after a get-or-create of the room of `game_id`.
pub open spec fn rooms_ensured(rooms: Map<u128, Seq<Seq<char>>>, game_id: u128) -> Map<
    u128,
    Seq<Seq<char>>,
> {
    if rooms.contains_key(game_id) {
        rooms
    } else {
        rooms.insert(game_id, Seq::empty())
    }
}

impl AppState {
    /// The connected users of each room.
    pub open spec fn rooms(&self) -> Map<u128, Seq<Seq<char>>> {
        rooms_of(self.game_rooms)
    }

    /// The channel of each room.
    pub open spec fn channels(&self) -> Map<u128, int> {
        room_channels(self.game_rooms)
    }

    /// Every message handed to a room's channel so far, with its game id.
    pub open spec fn published(&self) -> Seq<(u128, WebSocketMessage)> {
        self.published@
    }

    /// A service over `db` with no rooms, explicit game ending and the
    /// highest life total winning.
    pub fn new(db: GameRepository) -> (r: AppState)
        ensures
            r.db@ == db@,
            r.rooms().dom().is_empty(),
            r.channels().dom().is_empty(),
            r.published().len() == 0,
            r.rules.elimination == EliminationPolicy::Manual,
            r.rules.winner == WinnerPolicy::HighestLife,
    {
        AppState {
            db,
            game_rooms: new_rooms(),
            rules: GameRules::manual(),
            published: Ghost(Seq::empty()),
        }
    }

    /// A service over `db` with no rooms and the given strategies.
    pub fn with_rules(db: GameRepository, rules: GameRules) -> (r: AppState)
        ensures
            r.db@ == db@,
            r.rooms().dom().is_empty(),
            r.channels().dom().is_empty(),
            r.published().len() == 0,
            r.rules == rules,
    {
        AppState { db, game_rooms: new_rooms(), rules, published: Ghost(Seq::empty()) }
    }

    /// Creates the room of `game_id` unless it exists; one game never has
    /// two rooms.
    pub fn get_or_create_game_room(&mut self, game_id: u128)
        ensures
            final(self).rooms() == rooms_ensured(old(self).rooms(), game_id),
            channels_ensured(old(self).channels(), final(self).channels(), game_id),
            final(self).published() == old(self).published(),
            final(self).db == old(self).db,
            final(self).rules == old(self).rules,
    {
        if !rooms_contain(&self.game_rooms, game_id) {
            rooms_insert(&mut self.game_rooms, game_id, GameRoom::new());
        }
    }

    /// Attaches `clerk_user_id` to the room of `game_id`, creating the room
    /// if needed.
    pub fn add_user_to_game(&mut self, game_id: u128, clerk_user_id: String)
        ensures
            final(self).rooms() == rooms_ensured(old(self).rooms(), game_id).insert(
                game_id,
                with_user(rooms_ensured(old(self).rooms(), game_id)[game_id], clerk_user_id@),
            ),
            channels_ensured(old(self).channels(), final(self).channels(), game_id),
            final(self).published() == old(self).published(),
            final(self).db == old(self).db,
            final(self).rules == old(self).rules,
    {
        self.get_or_create_game_room(game_id);
        let ghost before = self.rooms();
        let ghost chans = self.channels();
        let mut room = match rooms_remove(&mut self.game_rooms, game_id) {
            Some(room) => room,
            None => {
                assert(false);
                GameRoom::new()
            },
        };
        let mut present = false;
        let mut i: usize = 0;
        while i < room.connected_users.len()
            invariant
                i <= room.connected_users.len(),
                present == exists|j: int| 0 <= j < i && room.users()[j] == clerk_user_id@,
            decreases room.connected_users.len() - i,
        {
            assert(room.users()[i as int] == room.connected_users@[i as int].clerk_user_id@);
            if room.connected_users[i].clerk_user_id == clerk_user_id {
                present = true;
            }
            i = i + 1;
        }
        assert(present == room.users().contains(clerk_user_id@));
        let ghost old_users = room.users();
        if !present {
            room.connected_users.push(UserConnection { clerk_user_id });
            assert(room.users() =~= old_users.push(clerk_user_id@));
        }
        rooms_insert(&mut self.game_rooms, game_id, room);
        assert(self.rooms() =~= before.insert(game_id, with_user(before[game_id], clerk_user_id@)));
        assert(self.channels() =~= chans);
    }

    /// Detaches `clerk_user_id` from the room of `game_id`. The room stays,
    /// even when nobody is left in it.
    pub fn remove_user_from_game(&mut self, game_id: u128, clerk_user_id: &str)
        ensures
            !old(self).rooms().contains_key(game_id) ==> final(self).rooms() == old(self).rooms(),
            old(self).rooms().contains_key(game_id) ==> final(self).rooms() == old(
                self,
            ).rooms().insert(
                game_id,
                old(self).rooms()[game_id].filter(|u: Seq<char>| u != clerk_user_id@),
            ),
            final(self).channels() == old(self).channels(),
            final(self).published() == old(self).published(),
            final(self).db == old(self).db,
            final(self).rules == old(self).rules,
    {
        let ghost before = self.rooms();
        let ghost chans = self.channels();
        let room = match rooms_remove(&mut self.game_rooms, game_id) {
            Some(room) => room,
            None => {
                assert(self.channels() =~= chans);
                return;
            },
        };
        let user = clerk_user_id.to_owned();
        let ghost pred = |u: Seq<char>| u != clerk_user_id@;
        let mut kept: Vec<UserConnection> = Vec::new();
        let mut i: usize = 0;
        while i < room.connected_users.len()
            invariant
                i <= room.connected_users.len(),
                user@ == clerk_user_id@,
                pred == (|u: Seq<char>| u != clerk_user_id@),
                kept@.map_values(|c: UserConnection| c.clerk_user_id@) == room.users().subrange(
                    0,
                    i as int,
                ).filter(pred),
            decreases room.connected_users.len() - i,
        {
            let ghost prev = kept@;
            let name = &room.connected_users[i].clerk_user_id;
            assert(room.users()[i as int] == name@);
            proof {
                assert(room.users().subrange(0, i + 1) =~= room.users().subrange(0, i as int).push(
                    name@,
                ));
                room.users().subrange(0, i as int).lemma_filter_push(name@, pred);
            }
            if *name != user {
                kept.push(UserConnection { clerk_user_id: name.clone() });
                assert(kept@.map_values(|c: UserConnection| c.clerk_user_id@) =~= prev.map_values(
                    |c: UserConnection| c.clerk_user_id@,
                ).push(name@));
            }
            i = i + 1;
        }
        assert(room.users().subrange(0, i as int) =~= room.users());
        let room = GameRoom { sender: room.sender, connected_users: kept };
        rooms_insert(&mut self.game_rooms, game_id, room);
        assert(self.channels() =~= chans);
    }

    /// Hands `message` to the channel of the room of `game_id`, which sends it
    /// to every receiver subscribed to it, and says how many it reached. Slow
    /// receivers may miss it; the sender never waits. Without a room, nothing
    /// is sent.
    pub fn broadcast_to_game(&mut self, game_id: u128, message: WebSocketMessage) -> (r: Result<
        usize,
        PublishError,
    >)
        ensures
            r == Err::<usize, PublishError>(PublishError::NoRoom) <==> !old(
                self,
            ).rooms().contains_key(game_id),
            r matches Ok(n) ==> n > 0,
            old(self).rooms().contains_key(game_id) ==> final(self).published() == old(
                self,
            ).published().push((game_id, message)),
            !old(self).rooms().contains_key(game_id) ==> final(self).published() == old(
                self,
            ).published(),
            final(self).rooms() == old(self).rooms(),
            final(self).channels() == old(self).channels(),
            final(self).db == old(self).db,
            final(self).rules == old(self).rules,
    {
        match room_sender(&self.game_rooms, game_id) {
            None => Err(PublishError::NoRoom),
            Some(sender) => {
                // `sender` feeds the room's own channel; the message goes there.
                self.published = Ghost(self.published@.push((game_id, message)));
                match sender.send(message) {
                    Ok(n) => Ok(n),
                    Err(_) => Err(PublishError::NoSubscribers),
                }
            },
        }
    }

    /// The users attached to the room of `game_id`; none when it has no room.
    pub fn get_connected_users_in_game(&mut self, game_id: u128) -> (r: Vec<UserConnection>)
        ensures
            final(self).rooms() == old(self).rooms(),
            final(self).channels() == old(self).channels(),
            final(self).published() == old(self).published(),
            final(self).db == old(self).db,
            final(self).rules == old(self).rules,
            !old(self).rooms().contains_key(game_id) ==> r@.len() == 0,
            old(self).rooms().contains_key(game_id) ==> r@.map_values(
                |c: UserConnection| c.clerk_user_id@,
            ) == old(self).rooms()[game_id],
    {
        let ghost before = self.rooms();
        let ghost chans = self.channels();
        let room = match rooms_remove(&mut self.game_rooms, game_id) {
            Some(room) => room,
            None => {
                assert(self.channels() =~= chans);
                return Vec::new();
            },
        };
        let mut r: Vec<UserConnection> = Vec::new();
        let mut i: usize = 0;
        while i < room.connected_users.len()
            invariant
                i <= room.connected_users.len(),
                r@.map_values(|c: UserConnection| c.clerk_user_id@) == room.users().subrange(
                    0,
                    i as int,
                ),
            decreases room.connected_users.len() - i,
        {
            let ghost prev = r@;
            let name = room.connected_users[i].clerk_user_id.clone();
            assert(room.users()[i as int] == name@);
            r.push(UserConnection { clerk_user_id: name });
            assert(r@.map_values(|c: UserConnection| c.clerk_user_id@) =~= prev.map_values(
                |c: UserConnection| c.clerk_user_id@,
            ).push(room.users()[i as int]));
            assert(r@.map_values(|c: UserConnection| c.clerk_user_id@) =~= room.users().subrange(
                0,
                i + 1,
            ));
            i = i + 1;
        }
        assert(room.users().subrange(0, i as int) =~= room.users());
        rooms_insert(&mut self.game_rooms, game_id, room);
        assert(self.rooms() =~= before);
        assert(self.channels() =~= chans);
        r
    }

    /// Whether `clerk_user_id` is attached to the room of `game_id`.
    pub fn is_user_connected_to_game(&mut self, game_id: u128, clerk_user_id: &str) -> (r: bool)
        ensures
            final(self).rooms() == old(self).rooms(),
            final(self).channels() == old(self).channels(),
            final(self).published() == old(self).published(),
            final(self).db == old(self).db,
            final(self).rules == old(self).rules,
            r == (old(self).rooms().contains_key(game_id) && old(self).rooms()[game_id].contains(
                clerk_user_id@,
            )),
    {
        let users = self.get_connected_users_in_game(game_id);
        let user = clerk_user_id.to_owned();
        let ghost names = users@.map_values(|c: UserConnection| c.clerk_user_id@);
        let mut i: usize = 0;
        while i < users.len()
            invariant
                i <= users.len(),
                names == users@.map_values(|c: UserConnection| c.clerk_user_id@),
                user@ == clerk_user_id@,
                forall|j: int| 0 <= j < i ==> names[j] != clerk_user_id@,
                self.rooms() == old(self).rooms(),
                self.channels() == old(self).channels(),
                self.published() == old(self).published(),
                self.db == old(self).db,
                self.rules == old(self).rules,
                old(self).rooms().contains_key(game_id) ==> names == old(self).rooms()[game_id],
                !old(self).rooms().contains_key(game_id) ==> users@.len() == 0,
            decreases users.len() - i,
        {
            assert(names[i as int] == users@[i as int].clerk_user_id@);
            if users[i].clerk_user_id == user {
                assert(names[i as int] == clerk_user_id@);
                return true;
            }
            i = i + 1;
        }
        false
    }

    /// A receiver of every message published to the room of `game_id` from
    /// now on, creating the room if needed.
    pub fn get_game_receiver(&mut self, game_id: u128) -> (r: Receiver<WebSocketMessage>)
        ensures
            final(self).rooms() == rooms_ensured(old(self).rooms(), game_id),
            channels_ensured(old(self).channels(), final(self).channels(), game_id),
            listens_to(r) == final(self).channels()[game_id],
            final(self).published() == old(self).published(),
            final(self).db == old(self).db,
            final(self).rules == old(self).rules,
    {
        self.get_or_create_game_room(game_id);
        let sender = match room_sender(&self.game_rooms, game_id) {
            Some(sender) => sender,
            None => {
                assert(false);
                GameRoom::new().sender
            },
        };
        subscribe_to(&sender)
    }

    /// Removes the room of `game_id`. Its receivers see the channel close once
    /// the last handle on it is gone, and treat that as a final disconnect.
    pub fn cleanup_game_room(&mut self, game_id: u128)
        ensures
            final(self).rooms() == old(self).rooms().remove(game_id),
            final(self).channels() == old(self).channels().remove(game_id),
            final(self).published() == old(self).published(),
            final(self).db == old(self).db,
            final(self).rules == old(self).rules,
    {
        let _ = rooms_remove(&mut self.game_rooms, game_id);
    }
}

} // verus!
