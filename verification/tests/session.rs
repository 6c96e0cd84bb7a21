use starsync::config::Config;
use starsync::memory::{MemDevice, MemPlaylist, MemSource, MemTrack};
use starsync::source::{PlaylistId, TrackId};
use starsync::sync::{SyncError, SyncManager, SyncValidator};

fn tiny_source() -> MemSource {
    MemSource {
        name: "Mem".to_string(),
        playlists: vec![MemPlaylist {
            name: "Chill".to_string(),
            id: PlaylistId::Number(1),
            tracks: vec![TrackId(1)],
        }],
        tracks: vec![(
            TrackId(1),
            MemTrack {
                name: "a".to_string(),
                path: "/m/a.mp3".to_string(),
                rating: None,
                rating_is_computed: false,
                size: 7,
            },
        )],
    }
}

fn blank_device() -> MemDevice {
    MemDevice {
        mount_point: "/mnt/sd".to_string(),
        inited: true,
        music: vec![],
        root_files: vec![],
        config: None,
        sync_info: None,
    }
}

#[test]
fn validator_reports_hostname_mismatch() {
    let si = starsync::sync::SyncInfo::with_fields(
        "otherbox".to_string(),
        "2024-01-01T00:00:00Z".to_string(),
        "/m".to_string(),
        vec![],
        vec![],
    );
    let v = SyncValidator::build_with_hostname(Some(&si), "thisbox".to_string());
    assert!(!v.is_valid());
    let (prev, cur) = v.last_sync_computer_mismatch.unwrap();
    assert_eq!(prev, "otherbox");
    assert_eq!(cur, "thisbox");

    let same = SyncValidator::build_with_hostname(Some(&si), "otherbox".to_string());
    assert!(same.is_valid());
    assert!(SyncValidator::build_with_hostname(None, "thisbox".to_string()).is_valid());
}

#[test]
fn refused_validator_stops_the_cycle() {
    let config = Config::with_fields("Mem".to_string(), false, false, vec!["Chill".to_string()]);
    let mut mgr = SyncManager::with_options(blank_device(), tiny_source(), config, None);
    let (mut status_tx, _status_rx) = starsync::sync::status::channel();
    let (vtx, _vrx) = std::sync::mpsc::channel();
    let (atx, arx) = std::sync::mpsc::channel();
    atx.send(SyncValidator {
        last_sync_computer_mismatch: Some(("a".to_string(), "b".to_string())),
    })
    .unwrap();
    let err = mgr.start_sync(&mut status_tx, vtx, arx).unwrap_err();
    assert!(matches!(err, SyncError::SanityChecks));
    // Nothing was written.
    assert!(mgr.device.sync_info.is_none());
}

#[test]
fn dropped_driver_counts_as_refusal() {
    let config = Config::with_fields("Mem".to_string(), false, false, vec!["Chill".to_string()]);
    let mut mgr = SyncManager::with_options(blank_device(), tiny_source(), config, None);
    let (mut status_tx, _status_rx) = starsync::sync::status::channel();
    let (vtx, _vrx) = std::sync::mpsc::channel();
    let (atx, arx) = std::sync::mpsc::channel::<SyncValidator>();
    drop(atx);
    let err = mgr.start_sync(&mut status_tx, vtx, arx).unwrap_err();
    assert!(matches!(err, SyncError::SanityChecks));
}

#[test]
fn duplicate_sanitized_playlist_names_warn() {
    let source = MemSource {
        name: "Mem".to_string(),
        playlists: vec![
            MemPlaylist {
                name: "a/b".to_string(),
                id: PlaylistId::Number(1),
                tracks: vec![TrackId(1)],
            },
            MemPlaylist {
                name: "a\\b".to_string(),
                id: PlaylistId::Number(2),
                tracks: vec![TrackId(1)],
            },
        ],
        tracks: vec![(
            TrackId(1),
            MemTrack {
                name: "a".to_string(),
                path: "/m/a.mp3".to_string(),
                rating: None,
                rating_is_computed: false,
                size: 7,
            },
        )],
    };
    let mut device = blank_device();
    let config = Config::with_fields(
        "Mem".to_string(),
        false,
        false,
        vec!["a/b".to_string(), "a\\b".to_string()],
    );
    let (mut status_tx, _status_rx) = starsync::sync::status::channel();
    let pushed =
        starsync::sync::push_playlists(&mut status_tx, &mut device, &source, &config, "/m");
    assert_eq!(status_tx.warnings_count(), 1);
    assert_eq!(pushed.len(), 1);
    assert_eq!(pushed[0].0, "ab.m3u");
    // The second write wins.
    assert_eq!(pushed[0].1 .0, PlaylistId::Number(2));
}

#[test]
fn init_writes_template_and_deinit_clears() {
    let mut device = MemDevice {
        mount_point: "/mnt/sd".to_string(),
        inited: false,
        music: vec![],
        root_files: vec![],
        config: None,
        sync_info: None,
    };
    let source = tiny_source();
    let path = starsync::init_device(&mut device, &source, "Mem").unwrap();
    assert_eq!(path, "/mnt/sd/StarSync/config/starsync.json");
    assert!(device.inited);
    let cfg = device.config.as_ref().unwrap();
    assert_eq!(cfg.source(), "Mem");
    assert!(cfg.include_ratings());
    assert!(!cfg.use_computed_ratings());
    assert_eq!(cfg.playlists(), &vec!["Chill".to_string()]);

    let again = starsync::init_device(&mut device, &source, "Mem");
    assert!(matches!(again, Err(starsync::InitError::AlreadyInited)));

    starsync::deinit_device(&mut device).unwrap();
    assert!(!device.inited);
    assert!(device.config.is_none());

    let missing = starsync::deinit_device(&mut device);
    assert!(matches!(missing, Err(starsync::DeinitError::NotInited)));
}

#[test]
fn status_channel_counts_warnings_and_delivers_in_order() {
    let (mut tx, rx) = starsync::sync::status::channel();
    tx.send_info("hello".to_string());
    tx.send_warning("careful".to_string());
    tx.send_warning("again".to_string());
    assert_eq!(tx.warnings_count(), 2);
    match rx.recv().unwrap() {
        starsync::sync::status::Message::Info(t) => assert_eq!(t, "hello"),
        other => panic!("unexpected message: {:?}", other),
    }
    match rx.recv().unwrap() {
        starsync::sync::status::Message::Warning(t) => assert_eq!(t, "careful"),
        other => panic!("unexpected message: {:?}", other),
    }
}

#[test]
fn local_disk_paths_follow_the_layout() {
    let disk = starsync::device::disk::LocalDevice { mount_point: "/mnt/sd".to_string() };
    assert_eq!(disk.name(), "path:///mnt/sd");
    assert_eq!(disk.starsync_folder_path(), "/mnt/sd/StarSync");
    assert_eq!(disk.config_folder_path(), "/mnt/sd/StarSync/config");
    assert_eq!(disk.music_folder_path(), "/mnt/sd/StarSync/music");
    assert_eq!(disk.config_display_path(), "/mnt/sd/StarSync/config/starsync.json");

    let windowsy = starsync::device::disk::LocalDevice { mount_point: "C:\\sd".to_string() };
    assert_eq!(windowsy.name(), "path://C:/sd");

    assert_eq!(starsync::device::disk::LocalFolder("/a/b".to_string()).path(), "/a/b");
    assert_eq!(starsync::device::disk::LocalFile("/a/b.mp3".to_string()).path(), "/a/b.mp3");
}
