use haske_core::channel::{WebSocketManager, WebSocketReceiver};
use haske_core::CoreError;

#[test]
fn broadcast_and_two_receivers() {
    let mut manager = WebSocketManager::new();
    manager.create_channel("room1");
    assert_eq!(manager.broadcast("room1", b"ab"), Ok(2));
    let mut r = WebSocketReceiver::new("room1".to_string());
    assert_eq!(r.recv(&manager), Ok(Some(b"ab".to_vec())));
    assert_eq!(r.get_position(), 2);
    assert_eq!(manager.broadcast("room1", b"cd"), Ok(4));
    assert_eq!(r.recv(&manager), Ok(Some(b"cd".to_vec())));
    let mut late = WebSocketReceiver::new("room1".to_string());
    assert_eq!(late.recv(&manager), Ok(Some(b"abcd".to_vec())));
}

#[test]
fn recv_without_news_returns_none() {
    let mut manager = WebSocketManager::new();
    manager.create_channel("quiet");
    let mut r = WebSocketReceiver::new("quiet".to_string());
    assert_eq!(r.recv(&manager), Ok(None));
    manager.broadcast("quiet", b"x").unwrap();
    assert_eq!(r.recv(&manager), Ok(Some(b"x".to_vec())));
    assert_eq!(r.recv(&manager), Ok(None));
}

#[test]
fn removed_channel_fails_every_operation() {
    let mut manager = WebSocketManager::new();
    manager.create_channel("gone");
    manager.broadcast("gone", b"data").unwrap();
    manager.remove_channel("gone");
    assert_eq!(manager.broadcast("gone", b"x"), Err(CoreError::ChannelNotFound));
    assert_eq!(manager.get_message("gone"), Err(CoreError::ChannelNotFound));
    assert_eq!(manager.clear_channel("gone"), Err(CoreError::ChannelNotFound));
    let mut r = WebSocketReceiver::new("gone".to_string());
    assert_eq!(r.recv(&manager), Err(CoreError::ChannelNotFound));
}

#[test]
fn unknown_channel_fails() {
    let mut manager = WebSocketManager::new();
    assert_eq!(manager.broadcast("nope", b"x"), Err(CoreError::ChannelNotFound));
    assert_eq!(manager.get_message("nope"), Err(CoreError::ChannelNotFound));
}

#[test]
fn create_replaces_existing_channel() {
    let mut manager = WebSocketManager::new();
    manager.create_channel("c");
    manager.broadcast("c", b"old").unwrap();
    manager.create_channel("c");
    assert_eq!(manager.get_message("c"), Ok(Vec::new()));
}

#[test]
fn clear_keeps_channel_registered() {
    let mut manager = WebSocketManager::new();
    manager.create_channel("c");
    manager.broadcast("c", b"bytes").unwrap();
    assert_eq!(manager.clear_channel("c"), Ok(()));
    assert_eq!(manager.get_message("c"), Ok(Vec::new()));
    assert_eq!(manager.broadcast("c", b"zz"), Ok(2));
}

#[test]
fn clear_can_leave_cursor_beyond_buffer() {
    let mut manager = WebSocketManager::new();
    manager.create_channel("c");
    manager.broadcast("c", b"abcd").unwrap();
    let mut r = WebSocketReceiver::new("c".to_string());
    r.recv(&manager).unwrap();
    assert_eq!(r.get_position(), 4);
    manager.clear_channel("c").unwrap();
    assert_eq!(r.recv(&manager), Ok(None));
    assert_eq!(r.get_position(), 4);
    r.reset();
    assert_eq!(r.get_position(), 0);
    manager.broadcast("c", b"e").unwrap();
    assert_eq!(r.recv(&manager), Ok(Some(b"e".to_vec())));
}

#[test]
fn list_channels_snapshot() {
    let mut manager = WebSocketManager::new();
    manager.create_channel("a");
    manager.create_channel("b");
    manager.create_channel("a");
    let mut names = manager.list_channels();
    names.sort();
    assert_eq!(names, vec!["a".to_string(), "b".to_string()]);
    manager.remove_channel("a");
    assert_eq!(manager.list_channels(), vec!["b".to_string()]);
}
