use starsync::config::Config;
use starsync::memory::{MemDevice, MemPlaylist, MemSource, MemTrack};
use starsync::source::{PlaylistId, Rating, TrackId};
use starsync::sync::{SyncError, SyncInfo, SyncManager, SyncValidator};

fn mem_track(name: &str, path: &str, rating: Rating, size: u64) -> MemTrack {
    MemTrack {
        name: name.to_string(),
        path: path.to_string(),
        rating,
        rating_is_computed: false,
        size,
    }
}

fn inited_device(root_files: Vec<(&str, &str)>, music: Vec<&str>, si: Option<SyncInfo>) -> MemDevice {
    MemDevice {
        mount_point: "/mnt/sd".to_string(),
        inited: true,
        music: music.iter().map(|s| s.to_string()).collect(),
        root_files: root_files
            .iter()
            .map(|(n, c)| (n.to_string(), c.to_string()))
            .collect(),
        config: None,
        sync_info: si,
    }
}

fn run_cycle(mgr: &mut SyncManager<MemSource, MemDevice>) -> Result<usize, SyncError> {
    let (mut status_tx, _status_rx) = starsync::sync::status::channel();
    let (vtx, _vrx) = std::sync::mpsc::channel();
    let (atx, arx) = std::sync::mpsc::channel();
    atx.send(SyncValidator { last_sync_computer_mismatch: None })
        .unwrap();
    mgr.start_sync(&mut status_tx, vtx, arx)
}

fn root_file(mgr: &SyncManager<MemSource, MemDevice>, name: &str) -> Option<String> {
    mgr.device
        .root_files
        .iter()
        .find(|(n, _)| n == name)
        .map(|(_, c)| c.clone())
}

#[test]
fn first_sync_pushes_files_playlist_and_buckets() {
    let source = MemSource {
        name: "Mem".to_string(),
        playlists: vec![MemPlaylist {
            name: "Chill".to_string(),
            id: PlaylistId::Number(1),
            tracks: vec![TrackId(1), TrackId(2)],
        }],
        tracks: vec![
            (TrackId(1), mem_track("a", "/m/a.mp3", Some(3), 100)),
            (TrackId(2), mem_track("b", "/m/b.mp3", None, 50)),
        ],
    };
    let device = inited_device(vec![], vec![], None);
    let config = Config::with_fields("Mem".to_string(), true, false, vec!["Chill".to_string()]);
    let mut mgr = SyncManager::with_options(device, source, config, None);

    let warnings = run_cycle(&mut mgr).unwrap();
    assert_eq!(warnings, 0);

    let mut music = mgr.device.music.clone();
    music.sort();
    assert_eq!(music, vec!["a.mp3".to_string(), "b.mp3".to_string()]);

    assert_eq!(
        root_file(&mgr, "Chill.m3u"),
        Some("music/a.mp3\r\nmusic/b.mp3".to_string())
    );
    assert_eq!(
        root_file(&mgr, "Favourites - 3 stars.m3u"),
        Some("music/a.mp3".to_string())
    );
    for n in [1u8, 2, 4, 5] {
        assert_eq!(
            root_file(&mgr, &format!("Favourites - {} stars.m3u", n)),
            Some(String::new())
        );
    }

    let si = mgr.device.sync_info.as_ref().unwrap();
    assert_eq!(si.common_ancestor(), "/m");
    assert_eq!(si.id_for_relative_path("a.mp3"), Some(TrackId(1)));
    assert_eq!(si.rating_for_id(TrackId(1)), Some(3));
    let (pid, tracks) = si.playlist("Chill.m3u").unwrap();
    assert_eq!(*pid, PlaylistId::Number(1));
    assert_eq!(tracks, &vec![TrackId(1), TrackId(2)]);
}

fn s2_manifest() -> SyncInfo {
    SyncInfo::with_fields(
        "host".to_string(),
        "2024-01-01T00:00:00Z".to_string(),
        "/m".to_string(),
        vec![
            ("a.mp3".to_string(), (TrackId(1), None)),
            ("b.mp3".to_string(), (TrackId(2), None)),
            ("c.mp3".to_string(), (TrackId(3), None)),
        ],
        vec![(
            "Chill.m3u".to_string(),
            (PlaylistId::Number(1), vec![TrackId(1), TrackId(2), TrackId(3)]),
        )],
    )
}

#[test]
fn device_reorder_is_written_back_to_source() {
    let source = MemSource {
        name: "Mem".to_string(),
        playlists: vec![MemPlaylist {
            name: "Chill".to_string(),
            id: PlaylistId::Number(1),
            tracks: vec![TrackId(1), TrackId(2), TrackId(3)],
        }],
        tracks: vec![
            (TrackId(1), mem_track("a", "/m/a.mp3", None, 1)),
            (TrackId(2), mem_track("b", "/m/b.mp3", None, 1)),
            (TrackId(3), mem_track("c", "/m/c.mp3", None, 1)),
        ],
    };
    let device = inited_device(
        vec![("Chill.m3u", "music/b.mp3\r\nmusic/a.mp3\r\nmusic/c.mp3")],
        vec!["a.mp3", "b.mp3", "c.mp3"],
        Some(s2_manifest()),
    );
    let config = Config::with_fields("Mem".to_string(), false, false, vec!["Chill".to_string()]);
    let mut mgr = SyncManager::with_options(device, source, config, None);

    run_cycle(&mut mgr).unwrap();

    assert_eq!(
        mgr.source.playlists[0].tracks,
        vec![TrackId(2), TrackId(1), TrackId(3)]
    );
}

fn rating_manifest(rating: Rating) -> SyncInfo {
    SyncInfo::with_fields(
        "host".to_string(),
        "2024-01-01T00:00:00Z".to_string(),
        "/m".to_string(),
        vec![("a.mp3".to_string(), (TrackId(1), rating))],
        vec![],
    )
}

fn bucket_files(five_contains: &str) -> Vec<(String, String)> {
    (1..=5u8)
        .map(|n| {
            let name = format!("Favourites - {} stars.m3u", n);
            let content = if n == 5 { five_contains.to_string() } else { String::new() };
            (name, content)
        })
        .collect()
}

fn rating_scenario(source_rating: Rating) -> SyncManager<MemSource, MemDevice> {
    let source = MemSource {
        name: "Mem".to_string(),
        playlists: vec![MemPlaylist {
            name: "All".to_string(),
            id: PlaylistId::Number(1),
            tracks: vec![TrackId(1)],
        }],
        tracks: vec![(TrackId(1), mem_track("a", "/m/a.mp3", source_rating, 10))],
    };
    let device = MemDevice {
        mount_point: "/mnt/sd".to_string(),
        inited: true,
        music: vec!["a.mp3".to_string()],
        root_files: bucket_files("music/a.mp3"),
        config: None,
        sync_info: Some(rating_manifest(Some(3))),
    };
    let config = Config::with_fields("Mem".to_string(), true, false, vec!["All".to_string()]);
    SyncManager::with_options(device, source, config, None)
}

#[test]
fn rating_raised_on_device_is_written_back() {
    let mut mgr = rating_scenario(Some(3));
    run_cycle(&mut mgr).unwrap();
    assert_eq!(mgr.source.tracks[0].1.rating, Some(5));
    assert!(!mgr.source.tracks[0].1.rating_is_computed);
}

#[test]
fn two_sided_rating_conflict_lets_the_source_win() {
    let mut mgr = rating_scenario(Some(4));
    run_cycle(&mut mgr).unwrap();
    assert_eq!(mgr.source.tracks[0].1.rating, Some(4));
}

#[test]
fn missing_rating_bucket_aborts_only_the_rating_phase() {
    let mut mgr = rating_scenario(Some(3));
    // Drop one of the five buckets.
    mgr.device.root_files.retain(|(n, _)| n != "Favourites - 2 stars.m3u");
    let warnings = run_cycle(&mut mgr).unwrap();
    assert!(warnings >= 1);
    // The rating phase was aborted: the source still holds three stars.
    assert_eq!(mgr.source.tracks[0].1.rating, Some(3));
    // The cycle itself completed and wrote a fresh manifest.
    assert!(mgr.device.sync_info.is_some());
}

#[test]
fn duplicate_ratings_for_a_song_abort_the_rating_phase() {
    let mut mgr = rating_scenario(Some(3));
    for entry in mgr.device.root_files.iter_mut() {
        if entry.0 == "Favourites - 1 stars.m3u" {
            entry.1 = "music/a.mp3".to_string();
        }
    }
    let warnings = run_cycle(&mut mgr).unwrap();
    assert!(warnings >= 1);
    assert_eq!(mgr.source.tracks[0].1.rating, Some(3));
}

#[test]
fn track_out_of_every_bucket_clears_the_source_rating() {
    let mut mgr = rating_scenario(Some(3));
    // The device user took the track out of every rating bucket: it falls
    // into the implicit no-rating bucket, and the source rating is cleared.
    for entry in mgr.device.root_files.iter_mut() {
        if entry.0 == "Favourites - 5 stars.m3u" {
            entry.1 = String::new();
        }
    }
    let warnings = run_cycle(&mut mgr).unwrap();
    assert_eq!(warnings, 0);
    assert_eq!(mgr.source.tracks[0].1.rating, None);
}

#[test]
fn stale_playlist_file_is_removed_by_the_cycle() {
    let source = MemSource {
        name: "Mem".to_string(),
        playlists: vec![MemPlaylist {
            name: "Chill".to_string(),
            id: PlaylistId::Number(1),
            tracks: vec![TrackId(1)],
        }],
        tracks: vec![(TrackId(1), mem_track("a", "/m/a.mp3", None, 10))],
    };
    let device = inited_device(vec![("Old.m3u", "music/gone.mp3")], vec![], None);
    let config = Config::with_fields("Mem".to_string(), false, false, vec!["Chill".to_string()]);
    let mut mgr = SyncManager::with_options(device, source, config, None);
    let warnings = run_cycle(&mut mgr).unwrap();
    assert_eq!(warnings, 0);
    assert_eq!(root_file(&mgr, "Old.m3u"), None);
    assert!(root_file(&mgr, "Chill.m3u").is_some());
}

#[test]
fn case_differing_paths_count_as_the_same_file() {
    let source = MemSource {
        name: "Mem".to_string(),
        playlists: vec![MemPlaylist {
            name: "All".to_string(),
            id: PlaylistId::Number(1),
            tracks: vec![TrackId(1)],
        }],
        tracks: vec![(TrackId(1), mem_track("song", "/m/song.mp3", None, 10))],
    };
    let manifest = SyncInfo::with_fields(
        "host".to_string(),
        "2024-01-01T00:00:00Z".to_string(),
        "/m".to_string(),
        vec![("song.mp3".to_string(), (TrackId(1), None))],
        vec![],
    );
    let device = inited_device(vec![], vec!["Song.MP3"], Some(manifest));
    let config = Config::with_fields("Mem".to_string(), false, false, vec!["All".to_string()]);
    let mut mgr = SyncManager::with_options(device, source, config, None);

    let warnings = run_cycle(&mut mgr).unwrap();
    assert_eq!(warnings, 0);

    // No push and no delete: the device still holds its own casing, once.
    assert_eq!(mgr.device.music, vec!["Song.MP3".to_string()]);
    // The fresh manifest is keyed by the lowercase relative path.
    let si = mgr.device.sync_info.as_ref().unwrap();
    assert_eq!(si.id_for_relative_path("song.mp3"), Some(TrackId(1)));
}

#[test]
fn no_common_ancestor_is_fatal() {
    let source = MemSource {
        name: "Mem".to_string(),
        playlists: vec![MemPlaylist {
            name: "All".to_string(),
            id: PlaylistId::Number(1),
            tracks: vec![TrackId(1), TrackId(2)],
        }],
        tracks: vec![
            (TrackId(1), mem_track("a", "a.mp3", None, 1)),
            (TrackId(2), mem_track("b", "b.mp3", None, 1)),
        ],
    };
    let device = inited_device(vec![], vec![], None);
    let config = Config::with_fields("Mem".to_string(), false, false, vec!["All".to_string()]);
    let mut mgr = SyncManager::with_options(device, source, config, None);

    let err = run_cycle(&mut mgr).unwrap_err();
    assert!(matches!(err, SyncError::SongScanningFailed(_)));
}

#[test]
fn second_cycle_is_idempotent_up_to_timestamp() {
    let source = MemSource {
        name: "Mem".to_string(),
        playlists: vec![MemPlaylist {
            name: "Chill".to_string(),
            id: PlaylistId::Number(1),
            tracks: vec![TrackId(1), TrackId(2)],
        }],
        tracks: vec![
            (TrackId(1), mem_track("a", "/m/a.mp3", Some(3), 100)),
            (TrackId(2), mem_track("b", "/m/b.mp3", None, 50)),
        ],
    };
    let device = inited_device(vec![], vec![], None);
    let config = Config::with_fields("Mem".to_string(), true, false, vec!["Chill".to_string()]);
    let mut mgr = SyncManager::with_options(device, source, config, None);

    run_cycle(&mut mgr).unwrap();
    let first = mgr.device.sync_info.as_ref().unwrap().duplicate();

    let warnings = run_cycle(&mut mgr).unwrap();
    assert_eq!(warnings, 0);
    let second = mgr.device.sync_info.as_ref().unwrap();

    assert_eq!(second.common_ancestor(), first.common_ancestor());
    assert_eq!(second.song_data(), first.song_data());
    assert_eq!(second.playlists(), first.playlists());
    // The source was not touched by the second cycle.
    assert_eq!(mgr.source.playlists[0].tracks, vec![TrackId(1), TrackId(2)]);
    assert_eq!(mgr.source.tracks[0].1.rating, Some(3));
}

#[test]
fn shared_track_counts_its_size_once() {
    let source = MemSource {
        name: "Mem".to_string(),
        playlists: vec![
            MemPlaylist {
                name: "One".to_string(),
                id: PlaylistId::Number(1),
                tracks: vec![TrackId(1), TrackId(2)],
            },
            MemPlaylist {
                name: "Two".to_string(),
                id: PlaylistId::Number(2),
                tracks: vec![TrackId(1)],
            },
        ],
        tracks: vec![
            (TrackId(1), mem_track("a", "/m/a.mp3", None, 100)),
            (TrackId(2), mem_track("b", "/m/b.mp3", None, 50)),
        ],
    };
    let config = Config::with_fields(
        "Mem".to_string(),
        false,
        false,
        vec!["One".to_string(), "Two".to_string()],
    );
    let (mut status_tx, _status_rx) = starsync::sync::status::channel();
    let fs = starsync::sync::required_files(&mut status_tx, &source, &config).unwrap();
    assert_eq!(fs.total_size, 150);
    assert_eq!(fs.files_data.len(), 2);
    assert_eq!(fs.common_ancestor, "/m");
    assert_eq!(status_tx.warnings_count(), 0);
}

#[test]
fn missing_playlist_or_path_is_a_warning_not_fatal() {
    let source = MemSource {
        name: "Mem".to_string(),
        playlists: vec![MemPlaylist {
            name: "One".to_string(),
            id: PlaylistId::Number(1),
            tracks: vec![TrackId(1)],
        }],
        tracks: vec![(TrackId(1), mem_track("a", "/m/a.mp3", None, 100))],
    };
    let config = Config::with_fields(
        "Mem".to_string(),
        false,
        false,
        vec!["One".to_string(), "Ghost".to_string()],
    );
    let (mut status_tx, _status_rx) = starsync::sync::status::channel();
    let fs = starsync::sync::required_files(&mut status_tx, &source, &config).unwrap();
    assert_eq!(fs.files_data.len(), 1);
    assert_eq!(status_tx.warnings_count(), 1);
}
