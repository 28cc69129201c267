use autobahn::config::{Config, LogLevel};
use autobahn::message::{AbstractMessage, MessageType, WireMessage};
use autobahn::router::Router;

#[test]
fn log_level_names() {
    assert_eq!(LogLevel::Debug.to_str(), "debug");
    assert_eq!(LogLevel::Info.to_str(), "info");
    assert_eq!(LogLevel::Warn.to_str(), "warn");
    assert_eq!(LogLevel::Error.to_str(), "error");
    assert_eq!(LogLevel::Off.to_str(), "off");
    assert_eq!(LogLevel::default(), LogLevel::Off);
}

#[test]
fn config_path_from_args() {
    let args = vec!["autobahn".to_string(), "--config".to_string(), "test_config.toml".to_string()];
    assert_eq!(Config::config_path(&args), "test_config.toml");
    let args = vec!["autobahn".to_string()];
    assert_eq!(Config::config_path(&args), "config.toml");
    let args = vec!["autobahn".to_string(), "--other".to_string(), "x".to_string()];
    assert_eq!(Config::config_path(&args), "config.toml");
}

#[test]
fn router_finds_handlers_by_kind() {
    let mut router: Router<u32> = Router::new();
    router.register_factory(MessageType::Publish, 7);
    let publish = AbstractMessage { message_type: 0 }.encode();
    let subscribe = AbstractMessage { message_type: 1 }.encode();
    assert_eq!(router.route(&publish).unwrap(), Some(&7));
    assert_eq!(router.route(&subscribe).unwrap(), None);
    assert!(router.route(b"bad").is_err());
    router.register_factory(MessageType::Publish, 8);
    assert_eq!(router.route(&publish).unwrap(), Some(&8));
}
