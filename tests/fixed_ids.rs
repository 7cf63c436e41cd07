use conclave_api::database::{
    create_game_with_ids, end_game_at, join_game_with_id, toggle_partner_at,
    update_commander_damage_at, update_player_life_with_id, GameRepository,
};
use conclave_api::errors::ApiError;
use conclave_api::models::GameStatus;

#[test]
fn fixed_ids_and_times_are_used_as_given() {
    let mut db = GameRepository::new();
    let g = create_game_with_ids(&mut db, "Fixed", 30, "a", 10, 100, 1_000).unwrap();
    assert_eq!(g.id, 10);
    assert_eq!(g.created_at, 1_000);
    assert_eq!(db.games[0].players[0].id, 100);
    let p = join_game_with_id(&mut db, 10, "b", 101, 2_000).unwrap();
    assert_eq!(p.id, 101);
    assert_eq!(p.current_life, 30);
    let cd = &db.games[0].commander_damage;
    assert_eq!(cd.len(), 2);
    assert_eq!((cd[0].from_player_id, cd[0].to_player_id, cd[0].created_at), (101, 100, 2_000));
    assert_eq!((cd[1].from_player_id, cd[1].to_player_id, cd[1].updated_at), (100, 101, 2_000));

    let (_, change) = update_player_life_with_id(&mut db, 101, -4, 555, 3_000).unwrap();
    assert_eq!((change.id, change.created_at, change.new_life_total), (555, 3_000, 26));

    let e = update_commander_damage_at(&mut db, 10, 100, 101, 1, 9, 4_000).unwrap();
    assert_eq!((e.damage, e.created_at, e.updated_at), (9, 2_000, 4_000));

    toggle_partner_at(&mut db, 10, 100, true, 5_000).unwrap();
    assert_eq!(db.games[0].commander_damage.len(), 4);
    assert!(db.games[0].commander_damage[2..].iter().all(|e| e.created_at == 5_000 && e.damage == 0));

    let ended = end_game_at(&mut db, 10, 6_000).unwrap();
    assert_eq!(ended.status, GameStatus::Finished);
    assert_eq!(ended.finished_at, Some(6_000));
}

#[test]
fn identifier_collisions_are_internal_errors() {
    let mut db = GameRepository::new();
    create_game_with_ids(&mut db, "One", 20, "a", 1, 11, 0).unwrap();
    assert!(matches!(
        create_game_with_ids(&mut db, "Two", 20, "b", 1, 12, 0),
        Err(ApiError::Internal)
    ));
    assert!(matches!(
        create_game_with_ids(&mut db, "Two", 20, "b", 2, 11, 0),
        Err(ApiError::Internal)
    ));
    create_game_with_ids(&mut db, "Two", 20, "b", 2, 12, 0).unwrap();
    assert!(matches!(join_game_with_id(&mut db, 2, "c", 11, 0), Err(ApiError::Internal)));
    assert_eq!(db.games[1].players.len(), 1);
    join_game_with_id(&mut db, 2, "c", 13, 0).unwrap();
    assert_eq!(db.games[1].players.len(), 2);
}

#[test]
fn drawn_ids_never_collide_with_stored_ones() {
    let mut db = GameRepository::new();
    // fill the store with the smallest ids, which the fallback tries first
    create_game_with_ids(&mut db, "Low", 20, "a", 0, 0, 0).unwrap();
    join_game_with_id(&mut db, 0, "b", 1, 0).unwrap();
    let p = conclave_api::database::join_game(&mut db, 0, "c").unwrap();
    assert!(p.id != 0 && p.id != 1);
    assert_eq!(db.unused_player_id(), if p.id == 2 { 3 } else { 2 });
    assert_eq!(db.unused_game_id(), 1);
    assert!(!matches!(conclave_api::database::create_game(&mut db, "High", 20, "d"), Err(ApiError::Internal)));
}

#[test]
fn listings_follow_creation_time() {
    let mut db = GameRepository::new();
    create_game_with_ids(&mut db, "Later", 20, "a", 1, 11, 500).unwrap();
    create_game_with_ids(&mut db, "Earlier", 20, "b", 2, 12, 100).unwrap();
    create_game_with_ids(&mut db, "Same", 20, "c", 3, 13, 500).unwrap();
    let times: Vec<i64> = conclave_api::database::get_all_games(&db).iter().map(|g| g.game.created_at).collect();
    assert_eq!(times, vec![500, 500, 100]);
    let ids: Vec<u128> = conclave_api::database::get_all_games(&db).iter().map(|g| g.game.id).collect();
    assert_eq!(ids, vec![3, 1, 2]);
}
