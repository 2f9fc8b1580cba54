use tetris_battle::relay::{join_step, relay_step, FirstFrame, Incoming, JoinStep, RelayStep};

#[test]
fn a_join_message_joins_with_its_raw_name() {
    let step = join_step(FirstFrame::Message("join".to_string(), "  Ana ".to_string()));
    assert_eq!(step, JoinStep::Join("  Ana ".to_string()));
}

#[test]
fn another_first_message_is_refused() {
    assert_eq!(
        join_step(FirstFrame::Message("move".to_string(), "Ana".to_string())),
        JoinStep::Refuse
    );
    assert_eq!(
        join_step(FirstFrame::Message("Join".to_string(), "Ana".to_string())),
        JoinStep::Refuse
    );
    assert_eq!(join_step(FirstFrame::Unreadable), JoinStep::Refuse);
}

#[test]
fn a_connection_without_text_is_left() {
    assert_eq!(join_step(FirstFrame::NotText), JoinStep::Leave);
}

#[test]
fn frames_are_forwarded_with_the_sender_slot() {
    assert_eq!(
        relay_step(2, Incoming::Tagged("board".to_string())),
        RelayStep::Forward { from_slot: 2, concludes: false }
    );
    assert_eq!(
        relay_step(1, Incoming::Tagged(String::new())),
        RelayStep::Forward { from_slot: 1, concludes: false }
    );
}

#[test]
fn a_game_over_frame_concludes_before_it_is_forwarded() {
    assert_eq!(
        relay_step(1, Incoming::Tagged("game_over".to_string())),
        RelayStep::Forward { from_slot: 1, concludes: true }
    );
    assert_eq!(
        relay_step(2, Incoming::Tagged("game_over ".to_string())),
        RelayStep::Forward { from_slot: 2, concludes: false }
    );
}

#[test]
fn unreadable_and_non_text_frames_are_skipped() {
    assert_eq!(relay_step(1, Incoming::Unparsed), RelayStep::Skip);
    assert_eq!(relay_step(1, Incoming::Other), RelayStep::Skip);
}

#[test]
fn closing_tells_the_room_who_left() {
    assert_eq!(relay_step(2, Incoming::Closed), RelayStep::Disconnect { slot: 2 });
}

#[test]
fn json_that_cannot_be_tagged_ends_the_relay() {
    assert_eq!(relay_step(1, Incoming::Untaggable), RelayStep::Abort);
}
