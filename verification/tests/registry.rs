//! Session owner: the registry of live connections.

use chat::server::Server;
use chat::Config;
use chat::Display;

fn config() -> Config {
    Config {
        is_client: false,
        host: String::from("127.0.0.1"),
        port: 12345,
        display: Display::Binary,
    }
}

#[test]
fn connections_register_in_order() {
    let mut server = Server::new(config());
    server.handle_connect(1);
    server.handle_connect(2);
    server.handle_connect(3);
    assert_eq!(server.peers(), &vec![1, 2, 3]);
}

#[test]
fn close_removes_only_that_connection() {
    let mut server = Server::new(config());
    server.handle_connect(1);
    server.handle_connect(2);
    server.handle_connect(3);
    server.handle_close(2);
    assert_eq!(server.peers(), &vec![1, 3]);
}

#[test]
fn close_of_unknown_connection_changes_nothing() {
    let mut server = Server::new(config());
    server.handle_connect(1);
    server.handle_close(7);
    assert_eq!(server.peers(), &vec![1]);
}

#[test]
fn closed_connection_can_reconnect() {
    let mut server = Server::new(config());
    server.handle_connect(1);
    server.handle_connect(2);
    server.handle_close(1);
    server.handle_connect(1);
    assert_eq!(server.peers(), &vec![2, 1]);
}

#[test]
fn display_from_configuration_strings() {
    assert_eq!(Display::from("binary"), Display::Binary);
    assert_eq!(Display::from("utf8"), Display::Utf8);
    assert_eq!(Display::from("none"), Display::Quiet);
    assert_eq!(Display::from("anything else"), Display::Quiet);
    assert_eq!(Display::from(""), Display::Quiet);
}

#[test]
fn config_is_kept() {
    let server = Server::new(config());
    assert_eq!(server.config().port, 12345);
    assert!(!server.config().is_client);
    assert_eq!(server.config().display, Display::Binary);
}
