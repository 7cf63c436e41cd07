use conclave_api::database::{
    create_game, end_game, get_all_games, get_available_games, get_commander_damage_for_game,
    get_game_by_id, get_game_state, get_players_in_game, get_recent_life_changes,
    get_user_game_history, get_user_games, join_game, leave_game, toggle_partner,
    update_commander_damage, update_player_life, GameRepository,
};
use conclave_api::errors::{ApiError, ConflictKind, InvalidInput};
use conclave_api::models::{CommanderDamage, GameStatus, Player};

fn store_with_game(name: &str, life: i32, creator: &str) -> (GameRepository, u128) {
    let mut db = GameRepository::new();
    let game = create_game(&mut db, name, life, creator).expect("game is created");
    (db, game.id)
}

fn seat(db: &GameRepository, game_id: u128, user: &str) -> Player {
    get_players_in_game(db, game_id)
        .into_iter()
        .find(|p| p.clerk_user_id == user)
        .expect("user is seated")
}

fn entry(cd: &[CommanderDamage], from: u128, to: u128, slot: i32) -> Option<CommanderDamage> {
    cd.iter()
        .copied()
        .find(|e| e.from_player_id == from && e.to_player_id == to && e.commander_number == slot)
}

#[test]
fn pod_scenario_create_join_leave() {
    let (mut db, gid) = store_with_game("Pod1", 40, "U1");
    let game = get_game_by_id(&db, gid).unwrap();
    assert_eq!(game.status, GameStatus::Active);
    assert_eq!(game.starting_life, 40);
    assert_eq!(game.name, "Pod1");
    let u1 = seat(&db, gid, "U1");
    assert_eq!(u1.position, 1);
    assert_eq!(u1.current_life, 40);

    let p2 = join_game(&mut db, gid, "U2").unwrap();
    let p3 = join_game(&mut db, gid, "U3").unwrap();
    assert_eq!(p2.position, 2);
    assert_eq!(p3.position, 3);

    leave_game(&mut db, gid, "U1").unwrap();
    assert_eq!(seat(&db, gid, "U2").position, 1);
    assert_eq!(seat(&db, gid, "U3").position, 2);
    let cd = get_commander_damage_for_game(&db, gid);
    assert!(cd.iter().all(|e| e.from_player_id != u1.id && e.to_player_id != u1.id));
    assert_eq!(cd.len(), 2);
}

#[test]
fn sequential_joins_give_dense_positions() {
    let (mut db, gid) = store_with_game("Dense", 20, "u0");
    for i in 1..8 {
        let p = join_game(&mut db, gid, &format!("u{i}")).unwrap();
        assert_eq!(p.position, i + 1);
    }
    let positions: Vec<i32> = get_players_in_game(&db, gid).iter().map(|p| p.position).collect();
    assert_eq!(positions, (1..=8).collect::<Vec<i32>>());

    leave_game(&mut db, gid, "u3").unwrap();
    let players = get_players_in_game(&db, gid);
    let users: Vec<&str> = players.iter().map(|p| p.clerk_user_id.as_str()).collect();
    assert_eq!(users, vec!["u0", "u1", "u2", "u4", "u5", "u6", "u7"]);
    let positions: Vec<i32> = players.iter().map(|p| p.position).collect();
    assert_eq!(positions, (1..=7).collect::<Vec<i32>>());
}

#[test]
fn join_refusals() {
    let (mut db, gid) = store_with_game("Full", 20, "u0");
    for i in 1..8 {
        join_game(&mut db, gid, &format!("u{i}")).unwrap();
    }
    assert!(matches!(join_game(&mut db, gid, "u8"), Err(ApiError::Capacity)));
    assert!(matches!(
        join_game(&mut db, gid, "u1"),
        Err(ApiError::Conflict(ConflictKind::AlreadySeated))
    ));
    assert!(matches!(join_game(&mut db, 12345, "u1"), Err(ApiError::GameNotFound)));

    let (mut db, gid) = store_with_game("Done", 20, "a");
    end_game(&mut db, gid).unwrap();
    assert!(matches!(
        join_game(&mut db, gid, "b"),
        Err(ApiError::Invalid(InvalidInput::GameFinished))
    ));
}

#[test]
fn joining_twice_conflicts() {
    let (mut db, gid) = store_with_game("Twice", 20, "a");
    join_game(&mut db, gid, "b").unwrap();
    assert!(matches!(
        join_game(&mut db, gid, "b"),
        Err(ApiError::Conflict(ConflictKind::AlreadySeated))
    ));
    assert_eq!(get_players_in_game(&db, gid).len(), 2);
}

#[test]
fn life_change_and_its_reverse_cancel() {
    let (mut db, gid) = store_with_game("Life", 40, "a");
    let p = seat(&db, gid, "a");
    let (after_up, up) = update_player_life(&mut db, p.id, 5).unwrap();
    assert_eq!(after_up.current_life, 45);
    assert_eq!(up.new_life_total, 45);
    let (after_down, down) = update_player_life(&mut db, p.id, -5).unwrap();
    assert_eq!(after_down.current_life, 40);
    assert_eq!(up.change_amount + down.change_amount, 0);
    let log = get_recent_life_changes(&db, gid, 10);
    assert_eq!(log.len(), 2);
    assert_eq!(log[0].change_amount, -5);
    assert_eq!(log[1].change_amount, 5);
    assert_ne!(up.id, down.id);
}

#[test]
fn life_update_errors() {
    let (mut db, gid) = store_with_game("Edge", 20, "a");
    assert!(matches!(update_player_life(&mut db, 99, 1), Err(ApiError::PlayerNotFound)));
    let p = seat(&db, gid, "a");
    assert!(matches!(
        update_player_life(&mut db, p.id, i32::MAX),
        Err(ApiError::Invalid(InvalidInput::LifeOutOfRange))
    ));
    assert_eq!(seat(&db, gid, "a").current_life, 20);
}

#[test]
fn recent_life_changes_are_newest_first_and_limited() {
    let (mut db, gid) = store_with_game("Log", 20, "a");
    let p = seat(&db, gid, "a");
    for d in 1..=4 {
        update_player_life(&mut db, p.id, d).unwrap();
    }
    let two: Vec<i32> = get_recent_life_changes(&db, gid, 2).iter().map(|c| c.change_amount).collect();
    assert_eq!(two, vec![4, 3]);
    let all: Vec<i32> = get_recent_life_changes(&db, gid, -1).iter().map(|c| c.change_amount).collect();
    assert_eq!(all, vec![4, 3, 2, 1]);
    assert_eq!(get_recent_life_changes(&db, 7, 5).len(), 0);
}

#[test]
fn join_creates_slot_one_entries_both_ways() {
    let (mut db, gid) = store_with_game("Matrix", 40, "a");
    join_game(&mut db, gid, "b").unwrap();
    join_game(&mut db, gid, "c").unwrap();
    let players = get_players_in_game(&db, gid);
    let cd = get_commander_damage_for_game(&db, gid);
    assert_eq!(cd.len(), 6);
    for x in &players {
        for y in &players {
            if x.id != y.id {
                let e = entry(&cd, x.id, y.id, 1).expect("slot-1 entry");
                assert_eq!(e.damage, 0);
                assert!(entry(&cd, x.id, y.id, 2).is_none());
            }
        }
    }
}

#[test]
fn partner_toggle_adds_and_removes_slot_two() {
    let (mut db, gid) = store_with_game("Partner", 40, "a");
    join_game(&mut db, gid, "b").unwrap();
    join_game(&mut db, gid, "c").unwrap();
    let a = seat(&db, gid, "a");
    toggle_partner(&mut db, gid, a.id, true).unwrap();
    toggle_partner(&mut db, gid, a.id, true).unwrap();
    let cd = get_commander_damage_for_game(&db, gid);
    assert_eq!(cd.len(), 10);
    for other in get_players_in_game(&db, gid).iter().filter(|p| p.id != a.id) {
        assert!(entry(&cd, a.id, other.id, 2).is_some());
        assert!(entry(&cd, other.id, a.id, 2).is_some());
    }
    toggle_partner(&mut db, gid, a.id, false).unwrap();
    let cd = get_commander_damage_for_game(&db, gid);
    assert!(cd
        .iter()
        .all(|e| !(e.commander_number == 2 && (e.from_player_id == a.id || e.to_player_id == a.id))));
    assert_eq!(cd.len(), 6);
    assert!(matches!(
        toggle_partner(&mut db, gid, 4242, true),
        Err(ApiError::Invalid(InvalidInput::PlayerNotInGame))
    ));
    assert!(matches!(toggle_partner(&mut db, 1, a.id, true), Err(ApiError::GameNotFound)));
}

#[test]
fn commander_damage_refusals() {
    let (mut db, gid) = store_with_game("Damage", 40, "a");
    let b = join_game(&mut db, gid, "b").unwrap();
    let a = seat(&db, gid, "a");
    assert!(matches!(
        update_commander_damage(&mut db, gid, a.id, b.id, 1, -1),
        Err(ApiError::Invalid(InvalidInput::DamageOutOfRange))
    ));
    assert!(matches!(
        update_commander_damage(&mut db, gid, a.id, b.id, 1, 1000),
        Err(ApiError::Invalid(InvalidInput::DamageOutOfRange))
    ));
    assert!(matches!(
        update_commander_damage(&mut db, gid, a.id, a.id, 1, 5),
        Err(ApiError::Invalid(InvalidInput::SelfDamage))
    ));
    assert!(matches!(
        update_commander_damage(&mut db, gid, a.id, b.id, 3, 5),
        Err(ApiError::Invalid(InvalidInput::CommanderNumber))
    ));
    assert!(matches!(
        update_commander_damage(&mut db, gid, a.id, 777, 1, 5),
        Err(ApiError::Invalid(InvalidInput::PlayerNotInGame))
    ));
    assert!(matches!(
        update_commander_damage(&mut db, 555, a.id, b.id, 1, 5),
        Err(ApiError::GameNotFound)
    ));
}

#[test]
fn commander_damage_upserts() {
    let (mut db, gid) = store_with_game("Upsert", 40, "a");
    let b = join_game(&mut db, gid, "b").unwrap();
    let a = seat(&db, gid, "a");
    let e = update_commander_damage(&mut db, gid, a.id, b.id, 1, 7).unwrap();
    assert_eq!(e.damage, 7);
    let e = update_commander_damage(&mut db, gid, a.id, b.id, 1, 999).unwrap();
    assert_eq!(e.damage, 999);
    let cd = get_commander_damage_for_game(&db, gid);
    assert_eq!(cd.len(), 2);
    assert_eq!(entry(&cd, a.id, b.id, 1).unwrap().damage, 999);
    let e = update_commander_damage(&mut db, gid, a.id, b.id, 2, 3).unwrap();
    assert_eq!(e.commander_number, 2);
    assert_eq!(get_commander_damage_for_game(&db, gid).len(), 3);
}

#[test]
fn create_game_refusals() {
    let mut db = GameRepository::new();
    assert!(matches!(
        create_game(&mut db, "Zero", 0, "a"),
        Err(ApiError::Invalid(InvalidInput::StartingLifeOutOfRange))
    ));
    assert!(matches!(
        create_game(&mut db, "Big", 1000, "a"),
        Err(ApiError::Invalid(InvalidInput::StartingLifeOutOfRange))
    ));
    let g = create_game(&mut db, "Same", 999, "a").unwrap();
    // a taken name is reported before an out-of-range life total
    assert!(matches!(
        create_game(&mut db, "Same", 0, "b"),
        Err(ApiError::Conflict(ConflictKind::GameNameTaken))
    ));
    assert!(matches!(
        create_game(&mut db, "Same", 20, "b"),
        Err(ApiError::Conflict(ConflictKind::GameNameTaken))
    ));
    end_game(&mut db, g.id).unwrap();
    assert!(create_game(&mut db, "Same", 1, "b").is_ok());
}

#[test]
fn created_games_get_distinct_ids_and_a_clock_time() {
    let mut db = GameRepository::new();
    let g1 = create_game(&mut db, "One", 20, "a").unwrap();
    let g2 = create_game(&mut db, "Two", 20, "a").unwrap();
    assert_ne!(g1.id, g2.id);
    assert_ne!(g1.id, 0);
    // 2020-01-01 in milliseconds since the epoch
    assert!(g1.created_at > 1_577_836_800_000);
    assert!(g1.finished_at.is_none());
    let p1 = seat(&db, g1.id, "a");
    let p2 = seat(&db, g2.id, "a");
    assert_ne!(p1.id, p2.id);
}

#[test]
fn leave_refusals() {
    let (mut db, gid) = store_with_game("Leave", 20, "a");
    assert!(matches!(leave_game(&mut db, gid, "zz"), Err(ApiError::PlayerNotFound)));
    assert!(matches!(leave_game(&mut db, 3, "a"), Err(ApiError::GameNotFound)));
    end_game(&mut db, gid).unwrap();
    assert!(matches!(leave_game(&mut db, gid, "a"), Err(ApiError::GameNotFound)));
}

#[test]
fn ending_a_game_stamps_it() {
    let (mut db, gid) = store_with_game("End", 20, "a");
    let g = end_game(&mut db, gid).unwrap();
    assert_eq!(g.status, GameStatus::Finished);
    assert!(g.finished_at.is_some());
    assert!(matches!(end_game(&mut db, 9, ), Err(ApiError::GameNotFound)));
}

#[test]
fn snapshot_holds_everything() {
    let (mut db, gid) = store_with_game("Snap", 20, "a");
    join_game(&mut db, gid, "b").unwrap();
    let st = get_game_state(&db, gid).unwrap();
    assert_eq!(st.players.len(), 2);
    assert_eq!(st.commander_damage.len(), 2);
    assert_eq!(st.recent_changes.len(), 0);
    assert!(matches!(get_game_state(&db, 1), Err(ApiError::GameNotFound)));
}

#[test]
fn listings_by_user() {
    let mut db = GameRepository::new();
    let g1 = create_game(&mut db, "G1", 20, "me").unwrap();
    let g2 = create_game(&mut db, "G2", 20, "other").unwrap();
    let g3 = create_game(&mut db, "G3", 20, "other").unwrap();
    for i in 1..8 {
        join_game(&mut db, g3.id, &format!("x{i}")).unwrap();
    }
    let mine: Vec<u128> = get_user_games(&db, "me").iter().map(|g| g.game.id).collect();
    assert_eq!(mine, vec![g1.id]);
    let open: Vec<u128> = get_available_games(&db, "me").iter().map(|g| g.game.id).collect();
    assert_eq!(open, vec![g2.id]);
    let all: Vec<u128> = get_all_games(&db).iter().map(|g| g.game.id).collect();
    assert_eq!(all, vec![g3.id, g2.id, g1.id]);
    let users: Vec<String> =
        get_all_games(&db)[0].users.iter().map(|u| u.clerk_user_id.clone()).collect();
    assert_eq!(users[0], "other");
    assert_eq!(users.len(), 8);
}

#[test]
fn history_names_the_highest_life_total() {
    let (mut db, gid) = store_with_game("Hist", 20, "a");
    let b = join_game(&mut db, gid, "b").unwrap();
    let c = join_game(&mut db, gid, "c").unwrap();
    update_player_life(&mut db, b.id, 5).unwrap();
    update_player_life(&mut db, c.id, 5).unwrap();
    end_game(&mut db, gid).unwrap();
    let h = get_user_game_history(&db, "a");
    assert_eq!(h.games.len(), 1);
    assert_eq!(h.games[0].players.len(), 3);
    // of two equal totals, the later seat wins
    assert_eq!(h.games[0].winner.as_ref().unwrap().id, c.id);
    assert_eq!(get_user_game_history(&db, "nobody").games.len(), 0);
}
