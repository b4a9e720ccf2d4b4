use ratatidy::config::{Config, DeleteMode, QBittorrentConfig};

#[test]
fn the_default_configuration_names_no_directories() {
    let config = Config::default();
    assert_eq!(config.download_dir, None);
    assert!(config.media_dirs.is_empty());
    assert_eq!(config.delete_mode, DeleteMode::Container);
    assert_eq!(config.trash_dir, None);
    assert!(!config.dry_run);
    assert_eq!(
        config.video_extensions,
        vec!["mkv".to_string(), "mp4".to_string(), "avi".to_string(), "mov".to_string()]
    );
    assert_eq!(config.qbittorrent.url, "http://localhost:8080");
    assert_eq!(config.qbittorrent.username, None);
    assert_eq!(config.qbittorrent.password, None);
    assert!(!config.qbittorrent.is_configured());
}

#[test]
fn the_torrent_service_is_configured_with_both_credentials() {
    let mut q = QBittorrentConfig {
        url: "http://localhost:8080".to_string(),
        username: Some("admin".to_string()),
        password: None,
    };
    assert!(!q.is_configured());
    q.password = Some("pw".to_string());
    assert!(q.is_configured());
    q.username = None;
    assert!(!q.is_configured());
}
