use vstd::prelude::*;

verus! {

/// Life total a new game starts with when the creator names none.
pub const DEFAULT_STARTING_LIFE: i32 = 20;

/// Most players that can sit at one game.
pub const MAX_PLAYERS_PER_GAME: usize = 8;

/// Largest starting life total a game accepts.
pub const MAX_STARTING_LIFE: i32 = 999;

/// Largest cumulative commander damage one entry may hold.
pub const MAX_COMMANDER_DAMAGE: i32 = 999;

#[derive(PartialEq, Eq, Structural, Clone, Copy, Debug)]
pub enum GameStatus {
    Active,
    Finished,
}

impl GameStatus {
    /// The status as it is written on the wire: `"active"` or `"finished"`.
    pub fn as_str(&self) -> (r: &'static str)
        ensures
            *self == GameStatus::Active ==> r@ == "active"@,
            *self == GameStatus::Finished ==> r@ == "finished"@,
    {
        match self {
            GameStatus::Active => "active",
            GameStatus::Finished => "finished",
        }
    }
}

/// A game session. Times are milliseconds since the Unix epoch.
#[derive(Debug)]
pub struct Game {
    pub id: u128,
    pub name: String,
    pub status: GameStatus,
    pub starting_life: i32,
    pub created_at: i64,
    pub finished_at: Option<i64>,
}

impl Clone for Game {
    fn clone(&self) -> (r: Game)
        ensures
            r == *self,
    {
        Game {
            id: self.id,
            name: self.name.clone(),
            status: self.status,
            starting_life: self.starting_life,
            created_at: self.created_at,
            finished_at: self.finished_at,
        }
    }
}

/// What a game holds, as plain values.
pub struct GameView {
    pub id: u128,
    pub name: Seq<char>,
    pub status: GameStatus,
    pub starting_life: i32,
    pub created_at: i64,
    pub finished_at: Option<i64>,
}

impl View for Game {
    type V = GameView;

    open spec fn view(&self) -> GameView {
        GameView {
            id: self.id,
            name: self.name@,
            status: self.status,
            starting_life: self.starting_life,
            created_at: self.created_at,
            finished_at: self.finished_at,
        }
    }
}

/// What a seat holds, as plain values.
pub struct PlayerView {
    pub id: u128,
    pub game_id: u128,
    pub user: Seq<char>,
    pub life: i32,
    pub position: i32,
    pub eliminated: bool,
}

impl View for Player {
    type V = PlayerView;

    open spec fn view(&self) -> PlayerView {
        PlayerView {
            id: self.id,
            game_id: self.game_id,
            user: self.clerk_user_id@,
            life: self.current_life,
            position: self.position,
            eliminated: self.is_eliminated,
        }
    }
}

/// The plain values of a list of players.
pub open spec fn players_view(v: Seq<Player>) -> Seq<PlayerView> {
    v.map_values(|p: Player| p@)
}

/// A seat at a game, held by one external user.
#[derive(Debug)]
pub struct Player {
    pub id: u128,
    pub game_id: u128,
    pub clerk_user_id: String,
    pub current_life: i32,
    pub position: i32,
    pub is_eliminated: bool,
}

impl Clone for Player {
    fn clone(&self) -> (r: Player)
        ensures
            r == *self,
    {
        Player {
            id: self.id,
            game_id: self.game_id,
            clerk_user_id: self.clerk_user_id.clone(),
            current_life: self.current_life,
            position: self.position,
            is_eliminated: self.is_eliminated,
        }
    }
}

/// One entry of the append-only audit log of life changes.
#[derive(Debug, Clone, Copy, PartialEq, Eq, Structural)]
pub struct LifeChange {
    pub id: u128,
    pub game_id: u128,
    pub player_id: u128,
    pub change_amount: i32,
    pub new_life_total: i32,
    pub created_at: i64,
}

/// Damage dealt by one player's commander (slot 1 or 2) to another player,
/// keyed by game, source, target and slot.
#[derive(Debug, Clone, Copy, PartialEq, Eq, Structural)]
pub struct CommanderDamage {
    pub game_id: u128,
    pub from_player_id: u128,
    pub to_player_id: u128,
    pub commander_number: i32,
    pub damage: i32,
    pub created_at: i64,
    pub updated_at: i64,
}

/// A snapshot of one game: the game, its players by position, its latest
/// life changes (newest first) and its commander-damage entries.
#[derive(Debug)]
pub struct GameState {
    pub game: Game,
    pub players: Vec<Player>,
    pub recent_changes: Vec<LifeChange>,
    pub commander_damage: Vec<CommanderDamage>,
}

impl Clone for GameState {
    fn clone(&self) -> (r: GameState)
        ensures
            r.game == self.game,
            r.players@ == self.players@,
            r.recent_changes@ == self.recent_changes@,
            r.commander_damage@ == self.commander_damage@,
    {
        GameState {
            game: self.game.clone(),
            players: clone_players(&self.players),
            recent_changes: self.recent_changes.clone(),
            commander_damage: self.commander_damage.clone(),
        }
    }
}

/// Copies a list of players, element by element.
pub fn clone_players(v: &Vec<Player>) -> (r: Vec<Player>)
    ensures
        r@ == v@,
{
    let mut r: Vec<Player> = Vec::new();
    let mut i: usize = 0;
    while i < v.len()
        invariant
            i <= v.len(),
            r@ == v@.subrange(0, i as int),
        decreases v.len() - i,
    {
        r.push(v[i].clone());
        i = i + 1;
    }
    assert(r@ =~= v@);
    r
}

/// A user's identifier as the identity layer gives it.
#[derive(Debug)]
pub struct UserInfo {
    pub clerk_user_id: String,
}

/// A game together with the players that sit at it.
#[derive(Debug)]
pub struct GameWithPlayers {
    pub game: Game,
    pub players: Vec<Player>,
    pub winner: Option<Player>,
}

/// All finished games of one user.
#[derive(Debug)]
pub struct GameHistory {
    pub games: Vec<GameWithPlayers>,
}

/// A game together with the users seated at it, by position.
#[derive(Debug)]
pub struct GameWithUsers {
    pub game: Game,
    pub users: Vec<UserInfo>,
}

/// What ending a game decided.
#[derive(Debug)]
pub struct GameEndResult {
    pub winner: Option<Player>,
}

#[derive(Debug)]
pub struct CreateGameRequest {
    pub name: String,
    pub starting_life: Option<i32>,
    pub clerk_user_id: String,
}

#[derive(Debug)]
pub struct JoinGameRequest {
    pub clerk_user_id: String,
}

#[derive(Debug)]
pub struct UpdateLifeRequest {
    pub player_id: u128,
    pub change_amount: i32,
}

#[derive(Debug)]
pub struct UpdateCommanderDamageRequest {
    pub from_player_id: u128,
    pub to_player_id: u128,
    pub commander_number: i32,
    pub damage_amount: i32,
}

#[derive(Debug)]
pub struct TogglePartnerRequest {
    pub player_id: u128,
    pub enable_partner: bool,
}

/// Events fanned out to every connection attached to a game.
#[derive(Debug)]
pub enum WebSocketMessage {
    LifeUpdate { game_id: u128, player_id: u128, new_life: i32, change_amount: i32 },
    PlayerJoined { game_id: u128, player: Player },
    PlayerLeft { game_id: u128, player_id: u128 },
    GameStarted { game_state: GameState },
    GameEnded { game_id: u128, winner: Option<Player> },
    CommanderDamageUpdate {
        game_id: u128,
        from_player_id: u128,
        to_player_id: u128,
        commander_number: i32,
        new_damage: i32,
        damage_amount: i32,
    },
    PartnerToggled { game_id: u128, player_id: u128, has_partner: bool },
    Error { message: String },
}

impl Clone for WebSocketMessage {
    fn clone(&self) -> (r: WebSocketMessage) {
        match self {
            WebSocketMessage::LifeUpdate { game_id, player_id, new_life, change_amount } =>
                WebSocketMessage::LifeUpdate {
                game_id: *game_id,
                player_id: *player_id,
                new_life: *new_life,
                change_amount: *change_amount,
            },
            WebSocketMessage::PlayerJoined { game_id, player } => WebSocketMessage::PlayerJoined {
                game_id: *game_id,
                player: player.clone(),
            },
            WebSocketMessage::PlayerLeft { game_id, player_id } => WebSocketMessage::PlayerLeft {
                game_id: *game_id,
                player_id: *player_id,
            },
            WebSocketMessage::GameStarted { game_state } => WebSocketMessage::GameStarted {
                game_state: game_state.clone(),
            },
            WebSocketMessage::GameEnded { game_id, winner } => WebSocketMessage::GameEnded {
                game_id: *game_id,
                winner: match winner {
                    Some(w) => Some(w.clone()),
                    None => None,
                },
            },
            WebSocketMessage::CommanderDamageUpdate {
                game_id,
                from_player_id,
                to_player_id,
                commander_number,
                new_damage,
                damage_amount,
            } => WebSocketMessage::CommanderDamageUpdate {
                game_id: *game_id,
                from_player_id: *from_player_id,
                to_player_id: *to_player_id,
                commander_number: *commander_number,
                new_damage: *new_damage,
                damage_amount: *damage_amount,
            },
            WebSocketMessage::PartnerToggled { game_id, player_id, has_partner } =>
                WebSocketMessage::PartnerToggled {
                game_id: *game_id,
                player_id: *player_id,
                has_partner: *has_partner,
            },
            WebSocketMessage::Error { message } => WebSocketMessage::Error {
                message: message.clone(),
            },
        }
    }
}

/// Actions a connected client may ask for over its streaming connection.
#[derive(Debug)]
pub enum WebSocketRequest {
    UpdateLife { player_id: u128, change_amount: i32 },
    JoinGame { clerk_user_id: String },
    LeaveGame { player_id: u128 },
    GetGameState,
    EndGame,
    SetCommanderDamage {
        from_player_id: u128,
        to_player_id: u128,
        commander_number: i32,
        new_damage: i32,
    },
    UpdateCommanderDamage {
        from_player_id: u128,
        to_player_id: u128,
        commander_number: i32,
        damage_amount: i32,
    },
    TogglePartner { player_id: u128, enable_partner: bool },
}

} // verus!
