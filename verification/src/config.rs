//! What the user configures: the trees to compare and how to reach the torrent
//! service.

use vstd::prelude::*;

verus! {

/// Whether a deletion removes the containing folder or single files.
#[derive(Debug, Clone, Copy, PartialEq, Eq, Structural)]
pub enum DeleteMode {
    Container,
    File,
}

/// How to reach the torrent service.
#[derive(Debug, Clone)]
pub struct QBittorrentConfig {
    /// The address of the web interface.
    pub url: String,
    pub username: Option<String>,
    pub password: Option<String>,
}

impl QBittorrentConfig {
    /// Whether both a user name and a password are set.
    pub fn is_configured(&self) -> (configured: bool)
        ensures
            configured == (self.username is Some && self.password is Some),
    {
        self.username.is_some() && self.password.is_some()
    }
}

/// What the user configures.
#[derive(Debug, Clone)]
pub struct Config {
    /// The directory that torrents are downloaded to.
    pub download_dir: Option<String>,
    /// The directories that hold the media library.
    pub media_dirs: Vec<String>,
    pub delete_mode: DeleteMode,
    /// A directory to move files to in place of deleting them.
    pub trash_dir: Option<String>,
    /// Delete nothing.
    pub dry_run: bool,
    /// The extensions of the video files to scan.
    pub video_extensions: Vec<String>,
    pub qbittorrent: QBittorrentConfig,
}

impl Default for Config {
    /// No directories, deletion by container, the common video extensions, and a
    /// torrent service on this machine without credentials.
    fn default() -> (config: Self)
        ensures
            config.download_dir is None,
            config.media_dirs@.len() == 0,
            config.delete_mode == DeleteMode::Container,
            config.trash_dir is None,
            !config.dry_run,
            config.video_extensions.deep_view() == seq!["mkv"@, "mp4"@, "avi"@, "mov"@],
            config.qbittorrent.url@ == "http://localhost:8080"@,
            config.qbittorrent.username is None,
            config.qbittorrent.password is None,
    {
        let mut video_extensions: Vec<String> = Vec::new();
        video_extensions.push("mkv".to_owned());
        video_extensions.push("mp4".to_owned());
        video_extensions.push("avi".to_owned());
        video_extensions.push("mov".to_owned());
        assert(video_extensions.deep_view() =~= seq!["mkv"@, "mp4"@, "avi"@, "mov"@]);
        Config {
            download_dir: None,
            media_dirs: Vec::new(),
            delete_mode: DeleteMode::Container,
            trash_dir: None,
            dry_run: false,
            video_extensions,
            qbittorrent: QBittorrentConfig {
                url: "http://localhost:8080".to_owned(),
                username: None,
                password: None,
            },
        }
    }
}

} // verus!
