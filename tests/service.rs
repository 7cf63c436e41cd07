use conclave_api::auth::{bearer_token, AuthenticatedUser};
use conclave_api::clerk::{
    extract_token_from_header, user_from_claims, user_from_subject, validation_mode, ClerkClaims,
    ClerkUser, ValidationMode,
};
use conclave_api::database::{get_commander_damage_for_game, get_players_in_game, GameRepository};
use conclave_api::errors::{ApiError, InvalidInput};
use conclave_api::handlers::{
    create_game, end_game, get_stats, is_blank, is_white, join_game, leave_game, toggle_partner,
    update_commander_damage, update_life,
};
use conclave_api::models::{
    CreateGameRequest, GameStatus, TogglePartnerRequest, UpdateCommanderDamageRequest,
    UpdateLifeRequest, WebSocketMessage, WebSocketRequest,
};
use conclave_api::policy::{resolve_winner, EliminationPolicy, GameRules, WinnerPolicy};
use conclave_api::state::{AppState, PublishError};
use conclave_api::websocket::{
    handle_websocket_message, open_session, SessionAction, SessionConnection, SessionEvent,
    SessionState, SessionTask,
};

fn caller(id: &str) -> AuthenticatedUser {
    AuthenticatedUser::from_user(ClerkUser::minimal(id.to_string()))
}

fn request(name: &str, life: Option<i32>) -> CreateGameRequest {
    CreateGameRequest { name: name.to_string(), starting_life: life, clerk_user_id: String::new() }
}

fn new_game(state: &mut AppState, name: &str, creator: &str) -> u128 {
    create_game(state, &caller(creator), &request(name, None)).unwrap().id
}

fn player_id(state: &AppState, game_id: u128, user: &str) -> u128 {
    get_players_in_game(&state.db, game_id).iter().find(|p| p.clerk_user_id == user).unwrap().id
}

#[test]
fn create_game_checks_the_name_and_defaults_life() {
    let mut state = AppState::new(GameRepository::new());
    let a = caller("a");
    assert!(matches!(
        create_game(&mut state, &a, &request("   ", None)),
        Err(ApiError::Invalid(InvalidInput::EmptyGameName))
    ));
    assert!(matches!(
        create_game(&mut state, &a, &request("", None)),
        Err(ApiError::Invalid(InvalidInput::EmptyGameName))
    ));
    let long = "x".repeat(101);
    assert!(matches!(
        create_game(&mut state, &a, &request(&long, None)),
        Err(ApiError::Invalid(InvalidInput::GameNameTooLong))
    ));
    let exactly = "é".repeat(100);
    assert!(create_game(&mut state, &a, &request(&exactly, None)).is_ok());
    let g = create_game(&mut state, &a, &request("Friday", None)).unwrap();
    assert_eq!(g.starting_life, 20);
    assert!(state.is_user_connected_to_game(g.id, "a") == false);
    assert_eq!(state.get_connected_users_in_game(g.id).len(), 0);
    assert!(matches!(
        create_game(&mut state, &a, &request("Other", Some(0))),
        Err(ApiError::Invalid(InvalidInput::StartingLifeOutOfRange))
    ));
    assert_eq!(get_stats(&state), 2);
}

#[test]
fn blank_text_is_white_space_only() {
    assert!(is_blank(""));
    assert!(is_blank(" \t\n\u{3000}"));
    assert!(!is_blank(" a "));
}

#[test]
fn room_registry_tracks_users_and_channels() {
    let mut state = AppState::new(GameRepository::new());
    assert!(matches!(
        state.broadcast_to_game(5, WebSocketMessage::PlayerLeft { game_id: 5, player_id: 1 }),
        Err(PublishError::NoRoom)
    ));
    state.get_or_create_game_room(5);
    assert!(matches!(
        state.broadcast_to_game(5, WebSocketMessage::PlayerLeft { game_id: 5, player_id: 1 }),
        Err(PublishError::NoSubscribers)
    ));
    let mut rx1 = state.get_game_receiver(5);
    let mut rx2 = state.get_game_receiver(5);
    let sent = state.broadcast_to_game(5, WebSocketMessage::PlayerLeft { game_id: 5, player_id: 9 });
    assert!(matches!(sent, Ok(2)));
    assert!(matches!(rx1.try_recv(), Ok(WebSocketMessage::PlayerLeft { player_id: 9, .. })));
    assert!(matches!(rx2.try_recv(), Ok(WebSocketMessage::PlayerLeft { player_id: 9, .. })));

    state.add_user_to_game(5, "u".to_string());
    state.add_user_to_game(5, "u".to_string());
    state.add_user_to_game(5, "v".to_string());
    let users: Vec<String> =
        state.get_connected_users_in_game(5).into_iter().map(|c| c.clerk_user_id).collect();
    assert_eq!(users, vec!["u".to_string(), "v".to_string()]);
    state.remove_user_from_game(5, "u");
    assert!(!state.is_user_connected_to_game(5, "u"));
    assert!(state.is_user_connected_to_game(5, "v"));
    state.remove_user_from_game(5, "v");
    // an empty room stays until it is torn down
    assert!(matches!(
        state.broadcast_to_game(5, WebSocketMessage::PlayerLeft { game_id: 5, player_id: 1 }),
        Ok(2)
    ));
    state.cleanup_game_room(5);
    assert!(matches!(
        state.broadcast_to_game(5, WebSocketMessage::PlayerLeft { game_id: 5, player_id: 1 }),
        Err(PublishError::NoRoom)
    ));
    drop(state);
    let _ = rx1.try_recv();
    assert!(rx1.try_recv().is_err());
}

#[test]
fn join_and_leave_are_announced() {
    let mut state = AppState::new(GameRepository::new());
    let gid = new_game(&mut state, "Room", "a");
    let mut rx = state.get_game_receiver(gid);
    let p = join_game(&mut state, gid, &caller("b")).unwrap();
    assert_eq!(p.position, 2);
    match rx.try_recv() {
        Ok(WebSocketMessage::PlayerJoined { game_id, player }) => {
            assert_eq!(game_id, gid);
            assert_eq!(player.clerk_user_id, "b");
        }
        other => panic!("unexpected {other:?}"),
    }
    leave_game(&mut state, gid, &caller("b")).unwrap();
    assert!(matches!(rx.try_recv(), Ok(WebSocketMessage::PlayerLeft { player_id, .. }) if player_id == p.id));
    assert!(matches!(leave_game(&mut state, gid, &caller("b")), Err(ApiError::PlayerNotFound)));
}

#[test]
fn life_requests_are_bounded_and_need_an_active_game() {
    let mut state = AppState::new(GameRepository::new());
    let gid = new_game(&mut state, "Bounds", "a");
    let a = player_id(&state, gid, "a");
    let too_big = UpdateLifeRequest { player_id: a, change_amount: 101 };
    assert!(matches!(
        update_life(&mut state, gid, &too_big),
        Err(ApiError::Invalid(InvalidInput::LifeChangeTooLarge))
    ));
    let ok = UpdateLifeRequest { player_id: a, change_amount: -100 };
    assert_eq!(update_life(&mut state, gid, &ok).unwrap().current_life, -80);
    assert!(matches!(
        update_life(&mut state, gid, &UpdateLifeRequest { player_id: 77, change_amount: 1 }),
        Err(ApiError::PlayerNotFound)
    ));
    assert!(matches!(update_life(&mut state, 3, &ok), Err(ApiError::GameNotFound)));
    end_game(&mut state, gid, None).unwrap();
    assert!(matches!(update_life(&mut state, gid, &ok), Err(ApiError::NotActive)));
}

#[test]
fn manual_policy_never_eliminates() {
    let mut state = AppState::new(GameRepository::new());
    let gid = new_game(&mut state, "Manual", "a");
    join_game(&mut state, gid, &caller("b")).unwrap();
    let a = player_id(&state, gid, "a");
    let p = update_life(&mut state, gid, &UpdateLifeRequest { player_id: a, change_amount: -20 }).unwrap();
    assert_eq!(p.current_life, 0);
    assert!(!p.is_eliminated);
    assert_eq!(conclave_api::database::get_game_by_id(&state.db, gid).unwrap().status, GameStatus::Active);
}

#[test]
fn zero_life_policy_eliminates_and_ends_the_game() {
    let rules = GameRules { elimination: EliminationPolicy::AtZeroLife, winner: WinnerPolicy::FirstStanding };
    let mut state = AppState::with_rules(GameRepository::new(), rules);
    let gid = new_game(&mut state, "Auto", "a");
    join_game(&mut state, gid, &caller("b")).unwrap();
    join_game(&mut state, gid, &caller("c")).unwrap();
    let mut rx = state.get_game_receiver(gid);
    let a = player_id(&state, gid, "a");
    let b = player_id(&state, gid, "b");
    let p = update_life(&mut state, gid, &UpdateLifeRequest { player_id: a, change_amount: -20 }).unwrap();
    assert!(p.is_eliminated);
    assert_eq!(conclave_api::database::get_game_by_id(&state.db, gid).unwrap().status, GameStatus::Active);
    update_life(&mut state, gid, &UpdateLifeRequest { player_id: b, change_amount: -25 }).unwrap();
    let game = conclave_api::database::get_game_by_id(&state.db, gid).unwrap();
    assert_eq!(game.status, GameStatus::Finished);
    let mut ended = None;
    while let Ok(m) = rx.try_recv() {
        if let WebSocketMessage::GameEnded { winner, .. } = m {
            ended = Some(winner);
        }
    }
    assert_eq!(ended.unwrap().unwrap().clerk_user_id, "c");
}

#[test]
fn ending_names_a_winner_by_strategy() {
    let rules = GameRules { elimination: EliminationPolicy::Manual, winner: WinnerPolicy::Named };
    let mut state = AppState::with_rules(GameRepository::new(), rules);
    let gid = new_game(&mut state, "Named", "a");
    join_game(&mut state, gid, &caller("b")).unwrap();
    let b = player_id(&state, gid, "b");
    let mut rx = state.get_game_receiver(gid);
    let g = end_game(&mut state, gid, Some(b)).unwrap();
    assert_eq!(g.status, GameStatus::Finished);
    match rx.try_recv() {
        Ok(WebSocketMessage::GameEnded { winner: Some(w), .. }) => assert_eq!(w.id, b),
        other => panic!("unexpected {other:?}"),
    }
    assert!(matches!(end_game(&mut state, 1, None), Err(ApiError::GameNotFound)));
}

#[test]
fn winner_strategies() {
    let mut state = AppState::new(GameRepository::new());
    let gid = new_game(&mut state, "Win", "a");
    join_game(&mut state, gid, &caller("b")).unwrap();
    join_game(&mut state, gid, &caller("c")).unwrap();
    let mut players = get_players_in_game(&state.db, gid);
    players[0].current_life = 30;
    players[1].current_life = 10;
    players[2].current_life = 30;
    players[0].is_eliminated = true;
    let high = resolve_winner(&players, WinnerPolicy::HighestLife, None).unwrap();
    assert_eq!(high.clerk_user_id, "c");
    let first = resolve_winner(&players, WinnerPolicy::FirstStanding, None).unwrap();
    assert_eq!(first.clerk_user_id, "b");
    assert!(resolve_winner(&players, WinnerPolicy::Named, None).is_none());
    assert!(resolve_winner(&players, WinnerPolicy::Named, Some(1)).is_none());
    assert!(resolve_winner(&Vec::new(), WinnerPolicy::HighestLife, None).is_none());
}

#[test]
fn commander_damage_requests_add_to_the_total() {
    let mut state = AppState::new(GameRepository::new());
    let gid = new_game(&mut state, "Cmd", "a");
    join_game(&mut state, gid, &caller("b")).unwrap();
    let a = player_id(&state, gid, "a");
    let b = player_id(&state, gid, "b");
    let req = |amount| UpdateCommanderDamageRequest {
        from_player_id: a,
        to_player_id: b,
        commander_number: 1,
        damage_amount: amount,
    };
    assert_eq!(update_commander_damage(&mut state, gid, &req(7)).unwrap().damage, 7);
    assert_eq!(update_commander_damage(&mut state, gid, &req(5)).unwrap().damage, 12);
    assert!(matches!(
        update_commander_damage(&mut state, gid, &req(-13)),
        Err(ApiError::Invalid(InvalidInput::DamageOutOfRange))
    ));
    assert!(matches!(
        update_commander_damage(&mut state, gid, &req(51)),
        Err(ApiError::Invalid(InvalidInput::DamageChangeTooLarge))
    ));
    let cd = get_commander_damage_for_game(&state.db, gid);
    assert_eq!(cd.iter().find(|e| e.from_player_id == a).unwrap().damage, 12);
}

#[test]
fn partner_requests_must_name_the_same_player() {
    let mut state = AppState::new(GameRepository::new());
    let gid = new_game(&mut state, "Pair", "a");
    join_game(&mut state, gid, &caller("b")).unwrap();
    let a = player_id(&state, gid, "a");
    let mismatch = TogglePartnerRequest { player_id: a + 1, enable_partner: true };
    assert!(matches!(
        toggle_partner(&mut state, gid, a, &mismatch),
        Err(ApiError::Invalid(InvalidInput::PlayerMismatch))
    ));
    let on = TogglePartnerRequest { player_id: a, enable_partner: true };
    toggle_partner(&mut state, gid, a, &on).unwrap();
    assert_eq!(get_commander_damage_for_game(&state.db, gid).len(), 4);
}

#[test]
fn streaming_requests_dispatch() {
    let mut state = AppState::new(GameRepository::new());
    let gid = new_game(&mut state, "Stream", "a");
    let start = open_session(&mut state, gid, "b").unwrap();
    assert!(matches!(start.initial, WebSocketMessage::GameStarted { .. }));
    assert_eq!(get_players_in_game(&state.db, gid).len(), 2);
    let again = open_session(&mut state, gid, "b").unwrap();
    assert!(matches!(again.initial, WebSocketMessage::GameStarted { ref game_state } if game_state.players.len() == 2));
    let mut rx = start.receiver;
    let b = player_id(&state, gid, "b");

    handle_websocket_message(&WebSocketRequest::UpdateLife { player_id: b, change_amount: -3 }, gid, &mut state).unwrap();
    assert!(matches!(rx.try_recv(), Ok(WebSocketMessage::LifeUpdate { new_life: 17, change_amount: -3, .. })));

    let a = player_id(&state, gid, "a");
    handle_websocket_message(
        &WebSocketRequest::SetCommanderDamage { from_player_id: a, to_player_id: b, commander_number: 1, new_damage: 4 },
        gid,
        &mut state,
    )
    .unwrap();
    assert!(matches!(rx.try_recv(), Ok(WebSocketMessage::CommanderDamageUpdate { new_damage: 4, damage_amount: 4, .. })));
    handle_websocket_message(
        &WebSocketRequest::UpdateCommanderDamage { from_player_id: a, to_player_id: b, commander_number: 1, damage_amount: 2 },
        gid,
        &mut state,
    )
    .unwrap();
    assert!(matches!(rx.try_recv(), Ok(WebSocketMessage::CommanderDamageUpdate { new_damage: 6, damage_amount: 2, .. })));
    handle_websocket_message(&WebSocketRequest::TogglePartner { player_id: a, enable_partner: true }, gid, &mut state).unwrap();
    assert!(matches!(rx.try_recv(), Ok(WebSocketMessage::PartnerToggled { has_partner: true, .. })));
    handle_websocket_message(&WebSocketRequest::JoinGame { clerk_user_id: "c".to_string() }, gid, &mut state).unwrap();
    assert!(matches!(rx.try_recv(), Ok(WebSocketMessage::PlayerJoined { .. })));
    handle_websocket_message(&WebSocketRequest::GetGameState, gid, &mut state).unwrap();
    assert!(matches!(rx.try_recv(), Ok(WebSocketMessage::GameStarted { .. })));
    assert!(matches!(
        handle_websocket_message(&WebSocketRequest::LeaveGame { player_id: 4 }, gid, &mut state),
        Err(ApiError::PlayerNotFound)
    ));
    handle_websocket_message(&WebSocketRequest::LeaveGame { player_id: b }, gid, &mut state).unwrap();
    assert!(matches!(rx.try_recv(), Ok(WebSocketMessage::PlayerLeft { .. })));
    handle_websocket_message(&WebSocketRequest::EndGame, gid, &mut state).unwrap();
    assert!(matches!(rx.try_recv(), Ok(WebSocketMessage::GameEnded { .. })));
    assert!(matches!(open_session(&mut state, gid, "d"), Err(ApiError::NotActive)));
    assert!(matches!(open_session(&mut state, 1, "d"), Err(ApiError::GameNotFound)));
}

#[test]
fn a_connection_tears_down_once() {
    let mut conn = SessionConnection::new(1, "u".to_string());
    assert_eq!(conn.on_event(SessionEvent::Opened), SessionAction::VerifyGame);
    assert_eq!(conn.on_event(SessionEvent::Verified), SessionAction::Attach);
    assert_eq!(conn.on_event(SessionEvent::Attached), SessionAction::StartStreaming);
    assert_eq!(conn.state, SessionState::Streaming);
    assert_eq!(conn.on_event(SessionEvent::TaskEnded(SessionTask::Relay)), SessionAction::TearDown);
    assert_eq!(conn.on_event(SessionEvent::TaskEnded(SessionTask::Reader)), SessionAction::Nothing);
    assert_eq!(conn.on_event(SessionEvent::TaskEnded(SessionTask::Writer)), SessionAction::Nothing);
    assert_eq!(conn.on_event(SessionEvent::CleanedUp), SessionAction::Nothing);
    assert_eq!(conn.state, SessionState::Closed);
    assert_eq!(conn.on_event(SessionEvent::Failed), SessionAction::Nothing);

    let mut failing = SessionConnection::new(1, "u".to_string());
    failing.on_event(SessionEvent::Opened);
    assert_eq!(failing.on_event(SessionEvent::Failed), SessionAction::ReportAndClose);
    assert_eq!(failing.state, SessionState::Closed);
}

#[test]
fn display_names() {
    let mut u = ClerkUser::minimal("user_0123456789".to_string());
    assert_eq!(u.display_name(), "User user_012");
    u.id = "short".to_string();
    assert_eq!(u.display_name(), "User short");
    u.username = Some(String::new());
    assert_eq!(u.display_name(), "User short");
    u.username = Some("nick".to_string());
    assert_eq!(u.display_name(), "nick");
    u.last_name = Some("Lovelace".to_string());
    assert_eq!(u.display_name(), "Lovelace");
    u.first_name = Some("Ada".to_string());
    assert_eq!(u.display_name(), "Ada Lovelace");
    u.last_name = None;
    assert_eq!(u.display_name(), "Ada");
}

#[test]
fn bearer_tokens() {
    assert_eq!(extract_token_from_header("Bearer abc.def"), Some("abc.def"));
    assert_eq!(extract_token_from_header("Bearer "), Some(""));
    assert_eq!(extract_token_from_header("bearer abc"), None);
    assert_eq!(extract_token_from_header("Basic abc"), None);
    assert_eq!(extract_token_from_header("Bear"), None);
    assert_eq!(bearer_token(Some("Bearer t")).unwrap(), "t");
    assert_eq!(bearer_token(None).unwrap_err().0, "Missing Authorization header");
    assert_eq!(bearer_token(Some("Token t")).unwrap_err().0, "Invalid Authorization header format");
}

fn claims() -> ClerkClaims {
    ClerkClaims {
        sub: "user_sub".to_string(),
        exp: 0,
        iat: 0,
        iss: None,
        azp: None,
        id: None,
        username: None,
        first_name: None,
        last_name: None,
        image_url: None,
        image: None,
    }
}

#[test]
fn users_from_claims() {
    let c = claims();
    assert!(user_from_claims(&c).is_none());
    assert_eq!(user_from_subject(&c).id, "user_sub");
    let mut c = claims();
    c.image = Some("pic".to_string());
    c.id = Some("user_id".to_string());
    let u = user_from_claims(&c).unwrap();
    assert_eq!(u.id, "user_id");
    assert_eq!(u.image_url.as_deref(), Some("pic"));
    let mut c = claims();
    c.first_name = Some("Ada".to_string());
    let u = user_from_claims(&c).unwrap();
    assert_eq!(u.id, "user_sub");
    assert_eq!(u.display_name(), "Ada");
}

#[test]
fn error_texts_and_codes() {
    assert_eq!(ApiError::GameNotFound.status_code(), 404);
    assert_eq!(ApiError::Capacity.status_code(), 400);
    assert_eq!(ApiError::Internal.status_code(), 500);
    assert_eq!(ApiError::Internal.message(), "Internal server error");
    assert_eq!(
        ApiError::Invalid(InvalidInput::SelfDamage).message(),
        "Invalid request: Players cannot deal commander damage to themselves"
    );
    assert_eq!(GameStatus::Finished.as_str(), "finished");
}

#[test]
fn identity_configuration_modes() {
    assert_eq!(validation_mode(true, true), Some(ValidationMode::Strict));
    assert_eq!(validation_mode(false, false), Some(ValidationMode::Development));
    assert_eq!(validation_mode(true, false), None);
    assert_eq!(validation_mode(false, true), None);
}

#[test]
fn white_space_matches_std() {
    for c in ('\0'..='\u{3100}').chain(['\u{feff}', '\u{180e}', '\u{10ffff}']) {
        assert_eq!(is_white(c), c.is_whitespace(), "{:?}", c);
    }
}
