use netsync::mirror::transform_update_if_changed;
use netsync::mirror::Mirror;
use netsync::protocol::ClientMessage;
use netsync::protocol::ServerMessage;
use netsync::protocol::Vec2Bits;

fn at(x: f32, y: f32) -> Vec2Bits {
    Vec2Bits { x: x.to_bits(), y: y.to_bits() }
}

#[test]
fn mirror_creates_and_moves_a_remote_player() {
    let mut m = Mirror::new();
    m.apply(&ServerMessage::PlayerJoined {
        id: 2,
        username: String::from("Bob"),
        position: at(0.0, 0.0),
    });
    assert_eq!(m.player_count(), 1);
    assert_eq!(m.player_username(2).unwrap(), "Bob");
    assert_eq!(m.player_transform(2), Some((at(0.0, 0.0), 0)));

    m.apply(&ServerMessage::PlayerTransformUpdate {
        id: 2,
        position: at(5.0, 0.0),
        rotation: 1.5f32.to_bits(),
    });
    assert_eq!(m.player_transform(2), Some((at(5.0, 0.0), 1.5f32.to_bits())));
    assert_eq!(m.player_username(2).unwrap(), "Bob");
}

#[test]
fn mirror_removes_a_player_on_departure() {
    let mut m = Mirror::new();
    m.apply(&ServerMessage::PlayerJoined {
        id: 2,
        username: String::from("Bob"),
        position: at(0.0, 0.0),
    });
    m.apply(&ServerMessage::PlayerLeft { id: 2 });
    assert_eq!(m.player_count(), 0);
    assert_eq!(m.player_transform(2), None);

    // A transform for the departed player is dropped, not reinserted.
    m.apply(&ServerMessage::PlayerTransformUpdate {
        id: 2,
        position: at(9.0, 9.0),
        rotation: 0,
    });
    assert_eq!(m.player_count(), 0);
    assert_eq!(m.player_transform(2), None);
}

#[test]
fn mirror_transform_for_unknown_player_is_dropped() {
    let mut m = Mirror::new();
    m.apply(&ServerMessage::PlayerTransformUpdate {
        id: 5,
        position: at(1.0, 1.0),
        rotation: 0,
    });
    assert_eq!(m.player_count(), 0);
}

#[test]
fn mirror_tracks_orcs() {
    let mut m = Mirror::new();
    m.apply(&ServerMessage::SpawnOrc {
        id: 42,
        position: at(5.0, 0.0),
        direction: 0.5f32.to_bits(),
    });
    assert_eq!(m.orc_count(), 1);
    assert_eq!(m.orc_transform(42), Some((at(5.0, 0.0), 0.5f32.to_bits())));

    m.apply(&ServerMessage::OrcTransformUpdate {
        id: 42,
        position: at(6.0, 1.0),
        rotation: 0.25f32.to_bits(),
    });
    assert_eq!(m.orc_transform(42), Some((at(6.0, 1.0), 0.25f32.to_bits())));

    // A transform for an unknown orc is dropped.
    m.apply(&ServerMessage::OrcTransformUpdate { id: 7, position: at(0.0, 0.0), rotation: 0 });
    assert_eq!(m.orc_count(), 1);
    assert_eq!(m.orc_transform(7), None);
}

#[test]
fn mirror_ignores_chat_traffic() {
    let mut m = Mirror::new();
    m.apply(&ServerMessage::PlayerJoined {
        id: 2,
        username: String::from("Bob"),
        position: at(0.0, 0.0),
    });
    m.apply(&ServerMessage::ChatMessage { author: 2, content: String::from("hi") });
    assert_eq!(m.player_count(), 1);
    assert_eq!(m.orc_count(), 0);
}

#[test]
fn mirror_rejoining_player_is_replaced_not_duplicated() {
    let mut m = Mirror::new();
    m.apply(&ServerMessage::PlayerJoined {
        id: 2,
        username: String::from("Bob"),
        position: at(0.0, 0.0),
    });
    m.apply(&ServerMessage::PlayerJoined {
        id: 2,
        username: String::from("Bobby"),
        position: at(1.0, 1.0),
    });
    assert_eq!(m.player_count(), 1);
    assert_eq!(m.player_username(2).unwrap(), "Bobby");
    assert_eq!(m.player_transform(2), Some((at(1.0, 1.0), 0)));
}

#[test]
fn idle_player_sends_no_transform_update() {
    let p = at(5.0, 0.0);
    assert!(transform_update_if_changed(p, 7, p, 7).is_none());
}

#[test]
fn moved_player_sends_exactly_its_new_transform() {
    let last = at(0.0, 0.0);
    let now = at(5.0, 0.0);
    match transform_update_if_changed(last, 0, now, 0) {
        Some(ClientMessage::PlayerTransformUpdate { position, rotation }) => {
            assert_eq!(position, now);
            assert_eq!(rotation, 0);
        }
        _ => panic!("expected a transform update"),
    }
    // A pure rotation change is a change too.
    assert!(transform_update_if_changed(last, 0, last, 1).is_some());
}
