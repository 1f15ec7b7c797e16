use mumble_rs::handshake::{Handshake, HandshakeError, Inbound, Phase, SyncStep};
use mumble_rs::model::{ChannelState, ClientInfo, UserState, Version};

fn channel(id: u32, name: &str) -> Inbound {
    Inbound::ChannelState(ChannelState { channel_id: id, parent: None, name: name.to_string() })
}

fn user(name: &str, channel_id: u32, session: u32, actor: u32) -> Inbound {
    Inbound::UserState(UserState { session, actor, name: name.to_string(), channel_id })
}

fn run(username: &str, burst: Vec<Inbound>) -> Result<ClientInfo, HandshakeError> {
    let mut hs = Handshake::new(username.to_string());
    hs.receive_version(Inbound::Other);
    for msg in burst {
        match hs.receive_sync(msg)? {
            SyncStep::Continue => {}
            SyncStep::Done => break,
        }
    }
    assert_eq!(hs.phase(), Phase::Synced);
    hs.finish()
}

fn member_names(info: &ClientInfo, id: u32) -> Vec<String> {
    info.channel_info[&id].users.iter().map(|u| u.name.clone()).collect()
}

#[test]
fn root_channel_with_two_users() {
    let info = run(
        "Alice",
        vec![channel(1, "Root"), user("Bob", 1, 7, 7), user("Alice", 1, 9, 9), Inbound::ServerSync],
    )
    .unwrap();
    assert_eq!(info.channel_info.len(), 1);
    assert_eq!(info.channel_info[&1].info.name, "Root");
    assert_eq!(member_names(&info, 1), vec!["Bob".to_string(), "Alice".to_string()]);
    assert_eq!(info.identity.session_id(), 9);
    assert_eq!(info.identity.actor_id(), 9);
    assert_eq!(info.username, "Alice");
}

#[test]
fn user_in_undescribed_channel_fails() {
    let r = run(
        "Alice",
        vec![channel(1, "Root"), user("Bob", 2, 7, 7), user("Alice", 1, 9, 9), Inbound::ServerSync],
    );
    assert_eq!(r.unwrap_err(), HandshakeError::Consistency(2));
}

#[test]
fn error_leaves_state_unchanged() {
    let mut hs = Handshake::new("Alice".to_string());
    hs.receive_version(Inbound::Other);
    assert_eq!(hs.receive_sync(channel(1, "Root")), Ok(SyncStep::Continue));
    assert_eq!(hs.receive_sync(user("Bob", 5, 7, 7)), Err(HandshakeError::Consistency(5)));
    assert_eq!(hs.channel_info().len(), 1);
    assert!(hs.channel_info()[&1].users.is_empty());
}

#[test]
fn own_user_never_reported_is_incomplete() {
    let r = run("Alice", vec![channel(1, "Root"), user("Bob", 1, 7, 7), Inbound::ServerSync]);
    assert_eq!(r.unwrap_err(), HandshakeError::Incomplete);
}

#[test]
fn empty_burst_is_incomplete() {
    assert_eq!(run("Alice", vec![Inbound::ServerSync]).unwrap_err(), HandshakeError::Incomplete);
}

#[test]
fn server_sync_ends_the_burst() {
    let mut hs = Handshake::new("Alice".to_string());
    hs.receive_version(Inbound::Other);
    assert_eq!(hs.phase(), Phase::Sync);
    assert_eq!(hs.receive_sync(channel(1, "Root")), Ok(SyncStep::Continue));
    assert_eq!(hs.receive_sync(user("Alice", 1, 3, 4)), Ok(SyncStep::Continue));
    assert_eq!(hs.receive_sync(Inbound::ServerSync), Ok(SyncStep::Done));
    assert_eq!(hs.phase(), Phase::Synced);
    // messages after the sentinel are never read by `run`
    let info = run(
        "Alice",
        vec![channel(1, "Root"), user("Alice", 1, 3, 4), Inbound::ServerSync, user("Bob", 9, 1, 1)],
    )
    .unwrap();
    assert_eq!(member_names(&info, 1), vec!["Alice".to_string()]);
    assert_eq!(info.identity.actor_id(), 4);
    assert_eq!(info.identity.session_id(), 3);
}

#[test]
fn unknown_messages_are_passed_over() {
    let info = run(
        "Alice",
        vec![
            Inbound::Other,
            channel(1, "Root"),
            Inbound::Other,
            user("Alice", 1, 9, 9),
            Inbound::Other,
            Inbound::ServerSync,
        ],
    )
    .unwrap();
    assert_eq!(info.channel_info.len(), 1);
    assert_eq!(member_names(&info, 1), vec!["Alice".to_string()]);
}

#[test]
fn members_follow_arrival_order_across_channels() {
    let info = run(
        "c",
        vec![
            channel(0, "Root"),
            channel(4, "Lobby"),
            user("a", 4, 1, 1),
            user("b", 0, 2, 2),
            user("c", 4, 3, 30),
            user("d", 4, 4, 4),
            Inbound::ServerSync,
        ],
    )
    .unwrap();
    assert_eq!(info.channel_info.len(), 2);
    assert_eq!(member_names(&info, 0), vec!["b".to_string()]);
    assert_eq!(member_names(&info, 4), vec!["a".to_string(), "c".to_string(), "d".to_string()]);
    assert_eq!(info.identity.actor_id(), 30);
    assert_eq!(info.identity.session_id(), 3);
}

#[test]
fn redescribed_channel_starts_empty() {
    let info = run(
        "a",
        vec![
            channel(1, "Root"),
            user("a", 1, 1, 1),
            channel(1, "Renamed"),
            user("b", 1, 2, 2),
            Inbound::ServerSync,
        ],
    )
    .unwrap();
    assert_eq!(info.channel_info[&1].info.name, "Renamed");
    assert_eq!(member_names(&info, 1), vec!["b".to_string()]);
    assert_eq!(info.identity.session_id(), 1);
}

#[test]
fn later_own_report_wins() {
    let info = run(
        "a",
        vec![channel(1, "Root"), user("a", 1, 1, 2), user("a", 1, 5, 6), Inbound::ServerSync],
    )
    .unwrap();
    assert_eq!(info.identity.session_id(), 5);
    assert_eq!(info.identity.actor_id(), 6);
}

#[test]
fn version_reply_is_kept() {
    let mut hs = Handshake::new("a".to_string());
    let v = Version {
        version: 66052,
        release: "1.2.4".to_string(),
        os: "Linux".to_string(),
        os_version: "5".to_string(),
    };
    hs.receive_version(Inbound::Version(v));
    assert_eq!(hs.phase(), Phase::Sync);
    assert_eq!(hs.server_info().as_ref().unwrap().version, 66052);
    hs.receive_sync(channel(1, "Root")).unwrap();
    hs.receive_sync(user("a", 1, 1, 1)).unwrap();
    assert_eq!(hs.receive_sync(Inbound::ServerSync), Ok(SyncStep::Done));
    let info = hs.finish().unwrap();
    assert_eq!(info.server_info.unwrap().release, "1.2.4");
}

#[test]
fn other_version_reply_is_passed_over() {
    let mut hs = Handshake::new("a".to_string());
    hs.receive_version(channel(1, "Root"));
    assert!(hs.server_info().is_none());
    assert!(hs.channel_info().is_empty());
}

#[test]
fn version_record_inside_burst_is_passed_over() {
    let v = Version {
        version: 1,
        release: "x".to_string(),
        os: "y".to_string(),
        os_version: "z".to_string(),
    };
    let info = run(
        "a",
        vec![channel(1, "Root"), Inbound::Version(v), user("a", 1, 2, 3), Inbound::ServerSync],
    )
    .unwrap();
    assert!(info.server_info.is_none());
    assert_eq!(member_names(&info, 1), vec!["a".to_string()]);
    assert_eq!(info.identity.actor_id(), 3);
}
