use netsync::engine::fan_out_targets;
use netsync::engine::recipients;
use netsync::engine::Directive;
use netsync::handshake::encode_user_data;
use netsync::orcs::on_shoot;
use netsync::orcs::on_shoot_with_fresh_id;
use netsync::orcs::OrcTable;
use netsync::protocol::ServerMessage;
use netsync::protocol::UserData;
use netsync::protocol::Vec2Bits;
use netsync::roster::Roster;

fn auth_buf(name: &str) -> Vec<u8> {
    encode_user_data(&UserData { username: String::from(name) }).unwrap()
}

fn pos(x: f32, y: f32) -> Vec2Bits {
    Vec2Bits { x: x.to_bits(), y: y.to_bits() }
}

#[test]
fn scenario_two_clients() {
    let mut roster = Roster::new();

    // Alice (id 1) connects; the roster was empty, so nothing reaches anyone.
    let out = roster.on_connect(1, &auth_buf("Alice"));
    assert_eq!(out.len(), 1);
    let ids = roster.client_ids();
    assert_eq!(ids, vec![1]);
    match &out[0] {
        Directive::FanOut { message: ServerMessage::PlayerJoined { id, username, position }, except } => {
            assert_eq!(*id, 1);
            assert_eq!(username, "Alice");
            assert_eq!(*position, pos(0.0, 0.0));
            assert_eq!(*except, Some(1));
            assert_eq!(fan_out_targets(&out[0], &ids), Vec::<u64>::new());
        }
        _ => panic!("expected the join announcement"),
    }

    // Bob (id 2) connects: Alice is told about Bob, Bob is told about Alice,
    // and Bob is never told about himself.
    let out = roster.on_connect(2, &auth_buf("Bob"));
    assert_eq!(out.len(), 2);
    let ids = roster.client_ids();
    assert_eq!(ids, vec![1, 2]);
    match &out[0] {
        Directive::FanOut { message: ServerMessage::PlayerJoined { id, username, position }, except } => {
            assert_eq!(*id, 2);
            assert_eq!(username, "Bob");
            assert_eq!(*position, pos(0.0, 0.0));
            assert_eq!(*except, Some(2));
            assert_eq!(fan_out_targets(&out[0], &ids), vec![1]);
        }
        _ => panic!("expected the join announcement"),
    }
    match &out[1] {
        Directive::Unicast { to, message: ServerMessage::PlayerJoined { id, username, position } } => {
            assert_eq!(*to, 2);
            assert_eq!(*id, 1);
            assert_eq!(username, "Alice");
            assert_eq!(*position, pos(0.0, 0.0));
        }
        _ => panic!("expected the replay unicast to Bob"),
    }

    // Alice reports a transform: Bob receives it, Alice does not.
    let out = roster.on_transform_update(1, pos(5.0, 0.0), 0.0f32.to_bits());
    assert_eq!(out.len(), 1);
    match &out[0] {
        Directive::FanOut {
            message: ServerMessage::PlayerTransformUpdate { id, position, rotation },
            except,
        } => {
            assert_eq!(*id, 1);
            assert_eq!(*position, pos(5.0, 0.0));
            assert_eq!(*rotation, 0.0f32.to_bits());
            assert_eq!(*except, Some(1));
            assert_eq!(fan_out_targets(&out[0], &roster.client_ids()), vec![2]);
        }
        _ => panic!("expected the relayed transform"),
    }
    assert_eq!(roster.lookup(1), Some((pos(5.0, 0.0), 0.0f32.to_bits())));

    // Alice disconnects: Bob is told she left.
    let out = roster.on_disconnect(1);
    assert_eq!(out.len(), 1);
    let ids = roster.client_ids();
    assert_eq!(ids, vec![2]);
    match &out[0] {
        Directive::FanOut { message: ServerMessage::PlayerLeft { id }, except } => {
            assert_eq!(*id, 1);
            assert_eq!(*except, None);
            assert_eq!(fan_out_targets(&out[0], &ids), vec![2]);
        }
        _ => panic!("expected the departure announcement"),
    }
}

#[test]
fn transform_update_from_unknown_id_is_dropped() {
    let mut roster = Roster::new();
    let out = roster.on_transform_update(9, pos(1.0, 1.0), 0);
    assert!(out.is_empty());
    assert!(!roster.contains(9));
    assert_eq!(roster.len(), 0);
}

#[test]
fn transform_update_after_disconnect_is_dropped() {
    let mut roster = Roster::new();
    roster.on_connect(1, &auth_buf("Alice"));
    roster.on_connect(2, &auth_buf("Bob"));
    roster.on_disconnect(1);
    let out = roster.on_transform_update(1, pos(3.0, 3.0), 0);
    assert!(out.is_empty());
    assert!(!roster.contains(1));
    assert_eq!(roster.client_ids(), vec![2]);
}

#[test]
fn malformed_user_data_rejects_the_handshake() {
    let mut roster = Roster::new();
    let mut buf = auth_buf("Alice");
    buf[8] = 0xff;  // no longer valid UTF-8
    let out = roster.on_connect(1, &buf);
    assert!(out.is_empty());
    assert!(!roster.contains(1));
}

#[test]
fn username_is_trimmed_at_connect_time() {
    let mut roster = Roster::new();
    let out = roster.on_connect(1, &auth_buf("  Alice \n"));
    assert_eq!(out.len(), 1);
    match &out[0] {
        Directive::FanOut { message: ServerMessage::PlayerJoined { username, .. }, .. } => {
            assert_eq!(username, "Alice");
        }
        _ => panic!("expected the join announcement"),
    }
    // The stored record carries the trimmed name too: a later join replays it.
    let out = roster.on_connect(2, &auth_buf("Bob"));
    match &out[1] {
        Directive::Unicast { message: ServerMessage::PlayerJoined { username, .. }, .. } => {
            assert_eq!(username, "Alice");
        }
        _ => panic!("expected the replay unicast"),
    }
}

#[test]
fn duplicate_connect_is_ignored() {
    let mut roster = Roster::new();
    roster.on_connect(1, &auth_buf("Alice"));
    let out = roster.on_connect(1, &auth_buf("Imposter"));
    assert!(out.is_empty());
    assert_eq!(roster.len(), 1);
    assert_eq!(roster.client_ids(), vec![1]);
}

#[test]
fn shoot_spawns_an_orc_at_the_shooter() {
    let mut roster = Roster::new();
    let mut orcs = OrcTable::new();
    roster.on_connect(1, &auth_buf("Alice"));
    roster.on_connect(2, &auth_buf("Bob"));
    roster.on_transform_update(1, pos(5.0, 0.0), 0);

    let out = on_shoot(&roster, &mut orcs, 1, 0.5f32.to_bits(), 42);
    assert_eq!(out.len(), 1);
    assert_eq!(orcs.len(), 1);
    match &out[0] {
        Directive::FanOut { message: ServerMessage::SpawnOrc { id, position, direction }, except } => {
            assert_eq!(*id, 42);
            assert_eq!(*position, pos(5.0, 0.0));
            assert_eq!(*direction, 0.5f32.to_bits());
            // The shooter is included: the announcement reaches everyone.
            assert_eq!(*except, None);
            assert_eq!(fan_out_targets(&out[0], &roster.client_ids()), vec![1, 2]);
        }
        _ => panic!("expected the spawn announcement"),
    }
    assert_eq!(orcs.lookup(42), Some((pos(5.0, 0.0), 0.5f32.to_bits())));
}

#[test]
fn shoot_from_unknown_client_is_dropped() {
    let roster = Roster::new();
    let mut orcs = OrcTable::new();
    let out = on_shoot(&roster, &mut orcs, 7, 0, 42);
    assert!(out.is_empty());
    assert_eq!(orcs.len(), 0);
}

#[test]
fn shoot_under_a_live_id_is_dropped() {
    let mut roster = Roster::new();
    let mut orcs = OrcTable::new();
    roster.on_connect(1, &auth_buf("Alice"));
    on_shoot(&roster, &mut orcs, 1, 0, 42);
    let out = on_shoot(&roster, &mut orcs, 1, 0, 42);
    assert!(out.is_empty());
    assert_eq!(orcs.len(), 1);
}

#[test]
fn shoot_with_fresh_id_spawns_one_orc() {
    let mut roster = Roster::new();
    let mut orcs = OrcTable::new();
    roster.on_connect(1, &auth_buf("Alice"));
    let out = on_shoot_with_fresh_id(&roster, &mut orcs, 1, 0);
    // A random id collides with the empty table with probability zero only
    // in theory; either way the contract holds, and here the table was
    // empty, so the orc spawns.
    assert_eq!(orcs.len(), 1);
    assert_eq!(out.len(), 1);
}

#[test]
fn orc_movement_is_broadcast_only_when_changed() {
    let mut roster = Roster::new();
    let mut orcs = OrcTable::new();
    roster.on_connect(1, &auth_buf("Alice"));
    on_shoot(&roster, &mut orcs, 1, 0, 42);

    let out = orcs.on_orc_transform(42, pos(1.0, 0.0), 0);
    assert_eq!(out.len(), 1);
    match &out[0] {
        Directive::FanOut {
            message: ServerMessage::OrcTransformUpdate { id, position, rotation },
            except,
        } => {
            assert_eq!(*id, 42);
            assert_eq!(*position, pos(1.0, 0.0));
            assert_eq!(*rotation, 0);
            assert_eq!(*except, None);
        }
        _ => panic!("expected the orc transform announcement"),
    }

    // The same transform again: no traffic.
    let out = orcs.on_orc_transform(42, pos(1.0, 0.0), 0);
    assert!(out.is_empty());

    // An unknown orc: no traffic.
    let out = orcs.on_orc_transform(7, pos(1.0, 0.0), 0);
    assert!(out.is_empty());
}

#[test]
fn roster_holds_exactly_the_still_connected_ids() {
    let mut roster = Roster::new();
    roster.on_connect(1, &auth_buf("a"));
    roster.on_connect(2, &auth_buf("b"));
    roster.on_connect(3, &auth_buf("c"));
    roster.on_disconnect(2);
    roster.on_connect(4, &auth_buf("d"));
    roster.on_disconnect(2);  // already gone: no effect on the key set
    assert_eq!(roster.client_ids(), vec![1, 3, 4]);
    assert!(roster.contains(1));
    assert!(!roster.contains(2));
    assert!(roster.contains(3));
    assert!(roster.contains(4));
}

#[test]
fn recipients_exclude_exactly_the_named_client() {
    assert_eq!(recipients(&vec![1, 2, 3], Some(2)), vec![1, 3]);
    assert_eq!(recipients(&vec![1, 2, 3], None), vec![1, 2, 3]);
    assert_eq!(recipients(&vec![2], Some(2)), Vec::<u64>::new());
    assert_eq!(recipients(&Vec::new(), None), Vec::<u64>::new());
}

#[test]
fn unicast_targets_its_one_recipient() {
    let d = Directive::Unicast { to: 5, message: ServerMessage::PlayerLeft { id: 1 } };
    assert_eq!(fan_out_targets(&d, &vec![1, 2, 3]), vec![5]);
}
