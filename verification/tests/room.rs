use tetris_battle::record::GameRecord;
use tetris_battle::room::{
    code_from_picks, open_room, valid_player_name, winner_slot, PlayerInfo, Room, RoomError,
    RoomState, SlotResult,
};

fn waiting_room() -> Room {
    Room {
        code: "ABC234".to_string(),
        player1: None,
        player2: None,
        state: RoomState::Waiting,
        created_at: "2026-03-22T00:00:00+00:00".to_string(),
        p1_lines: 0,
        p2_lines: 0,
        global_level: 1,
    }
}

const ALPHABET: &str = "ABCDEFGHJKLMNPQRSTUVWXYZ23456789";

#[test]
fn names_are_trimmed_and_limited_to_twenty_bytes() {
    assert_eq!(valid_player_name("  Ana \n"), Some("Ana".to_string()));
    assert_eq!(valid_player_name(""), None);
    assert_eq!(valid_player_name(" \t "), None);
    assert_eq!(valid_player_name("abcdefghijklmnopqrst"), Some("abcdefghijklmnopqrst".to_string()));
    assert_eq!(valid_player_name("abcdefghijklmnopqrstu"), None);
    // ten two-byte characters fit, eleven do not
    assert_eq!(valid_player_name("ññññññññññ"), Some("ññññññññññ".to_string()));
    assert_eq!(valid_player_name("ñññññññññññ"), None);
    assert_eq!(valid_player_name("\u{3000}Bo\u{a0}"), Some("Bo".to_string()));
}

#[test]
fn open_room_makes_a_waiting_room_with_a_fresh_code() {
    let room = open_room(" Ana ").ok().unwrap();
    assert_eq!(room.code.len(), 6);
    assert!(room.code.chars().all(|c| ALPHABET.contains(c)));
    assert!(room.player1.is_none());
    assert!(room.player2.is_none());
    assert_eq!(room.state, RoomState::Waiting);
    assert_eq!(room.global_level, 1);
    assert_eq!(room.p1_lines, 0);
    assert!(!room.created_at.is_empty());
    let response = room.creation_response();
    assert_eq!(response.code, room.code);
    assert_eq!(response.slot, 1);
}

#[test]
fn open_room_refuses_a_bad_name() {
    assert!(matches!(open_room("   "), Err(RoomError::InvalidName)));
    assert!(matches!(open_room("a name that is far too long"), Err(RoomError::InvalidName)));
}

#[test]
fn slots_are_given_in_order_then_the_room_is_full() {
    let mut room = waiting_room();
    assert_eq!(room.assign_slot("Ana".to_string()), SlotResult::Joined(1));
    assert_eq!(room.assign_slot("Bo".to_string()), SlotResult::Joined(2));
    assert_eq!(room.assign_slot("Cy".to_string()), SlotResult::Full);
    assert_eq!(room.player1.as_ref().unwrap().name, "Ana");
    assert_eq!(room.player1.as_ref().unwrap().slot, 1);
    assert_eq!(room.player2.as_ref().unwrap().name, "Bo");
    assert_eq!(room.player2.as_ref().unwrap().slot, 2);
}

#[test]
fn a_freed_first_seat_is_taken_first() {
    let mut room = waiting_room();
    room.player2 = Some(PlayerInfo { name: "Bo".to_string(), slot: 2 });
    assert_eq!(room.assign_slot("Ana".to_string()), SlotResult::Joined(1));
}

#[test]
fn the_game_starts_once_when_both_are_seated() {
    let mut room = waiting_room();
    room.assign_slot("Ana".to_string());
    assert!(room.try_start().is_none());
    assert_eq!(room.state, RoomState::Waiting);
    room.assign_slot("Bo".to_string());
    assert_eq!(room.try_start(), Some(("Ana".to_string(), "Bo".to_string())));
    assert_eq!(room.state, RoomState::Playing);
    assert!(room.try_start().is_none());
    assert_eq!(room.state, RoomState::Playing);
}

#[test]
fn the_winner_is_the_other_slot() {
    assert_eq!(winner_slot(1), 2);
    assert_eq!(winner_slot(2), 1);
    assert_eq!(winner_slot(0), 1);
    // the report is read as a byte
    assert_eq!(winner_slot(257), 2);
}

#[test]
fn game_result_names_the_winner_and_fills_the_record() {
    let mut room = waiting_room();
    room.assign_slot("Ana".to_string());
    room.assign_slot("Bo".to_string());
    let g = room.game_result(1, "T".to_string());
    assert_eq!(g.winner_slot, 2);
    assert_eq!(g.winner_name, "Bo");
    assert_eq!(g.record.room_code, "ABC234");
    assert_eq!(g.record.player1_name, "Ana");
    assert_eq!(g.record.player2_name, "Bo");
    assert_eq!(g.record.winner_name, Some("Bo".to_string()));
    assert_eq!(g.record.started_at, "T");
    assert_eq!(g.record.ended_at, Some("T".to_string()));
    assert_eq!(g.record.duration_secs, None);
}

#[test]
fn an_empty_seat_has_an_empty_name() {
    let mut room = waiting_room();
    room.assign_slot("Ana".to_string());
    let g = room.game_result(1, "T".to_string());
    assert_eq!(g.winner_name, "");
    assert_eq!(g.record.player2_name, "");
}

#[test]
fn conclude_finishes_the_room() {
    let mut room = waiting_room();
    room.assign_slot("Ana".to_string());
    room.assign_slot("Bo".to_string());
    room.try_start();
    let g = room.conclude(2);
    assert_eq!(room.state, RoomState::Finished);
    assert_eq!(g.winner_slot, 1);
    assert_eq!(g.winner_name, "Ana");
    assert_eq!(g.record.ended_at.as_deref(), Some(g.record.started_at.as_str()));
    assert!(!g.record.started_at.is_empty());
}

#[test]
fn summary_shows_code_state_and_names() {
    let mut room = waiting_room();
    room.assign_slot("Ana".to_string());
    let s = room.summary();
    assert_eq!(s.code, "ABC234");
    assert_eq!(s.state, RoomState::Waiting);
    assert_eq!(s.player1, Some("Ana".to_string()));
    assert_eq!(s.player2, None);
}

#[test]
fn a_new_record_starts_now_without_result() {
    let r = GameRecord::new("ABC234".to_string(), "Ana".to_string(), "Bo".to_string());
    assert_eq!(r.room_code, "ABC234");
    assert_eq!(r.player1_name, "Ana");
    assert_eq!(r.player2_name, "Bo");
    assert!(r.winner_name.is_none());
    assert!(r.ended_at.is_none());
    assert!(r.duration_secs.is_none());
    assert!(r.started_at.contains('T'));
    let s = GameRecord::starting("X".to_string(), "a".to_string(), "b".to_string(), "S".to_string());
    assert_eq!(s.started_at, "S");
}

#[test]
fn a_seated_player_reconnects_to_their_slot() {
    let mut room = waiting_room();
    room.assign_slot("Ana".to_string());
    room.assign_slot("Bo".to_string());
    room.try_start();
    assert_eq!(room.assign_slot("Ana".to_string()), SlotResult::Reconnected(1));
    assert_eq!(room.assign_slot("Bo".to_string()), SlotResult::Reconnected(2));
    assert_eq!(room.assign_slot("Cy".to_string()), SlotResult::Full);
    assert_eq!(room.player1.as_ref().unwrap().name, "Ana");
    assert_eq!(room.player2.as_ref().unwrap().name, "Bo");
    assert_eq!(room.resume(), Some(("Ana".to_string(), "Bo".to_string())));
}

#[test]
fn two_players_with_one_name_take_both_seats() {
    let mut room = waiting_room();
    assert_eq!(room.assign_slot("Player".to_string()), SlotResult::Joined(1));
    assert_eq!(room.assign_slot("Player".to_string()), SlotResult::Joined(2));
    assert_eq!(room.player2.as_ref().unwrap().name, "Player");
    assert_eq!(room.player2.as_ref().unwrap().slot, 2);
    assert_eq!(room.try_start(), Some(("Player".to_string(), "Player".to_string())));
    assert_eq!(room.assign_slot("Player".to_string()), SlotResult::Reconnected(1));
}

#[test]
fn code_from_picks_spells_the_alphabet() {
    assert_eq!(code_from_picks(&vec![0, 1, 2, 31, 8, 24]), "ABC9J2");
    assert_eq!(code_from_picks(&vec![7, 8, 12, 13, 23, 30]), "HJNPZ8");
}

#[test]
fn a_waiting_room_keeps_its_code_and_time() {
    let room = Room::waiting("XYZ234".to_string(), "2026-03-22T10:00:00+00:00".to_string());
    assert_eq!(room.code, "XYZ234");
    assert_eq!(room.created_at, "2026-03-22T10:00:00+00:00");
    assert_eq!(room.state, RoomState::Waiting);
    assert!(room.player1.is_none() && room.player2.is_none());
    assert_eq!((room.p1_lines, room.p2_lines, room.global_level), (0, 0, 1));
}
