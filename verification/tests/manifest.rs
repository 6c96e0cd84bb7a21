use starsync::source::{PlaylistId, TrackId};
use starsync::sync::SyncInfo;

fn manifest() -> SyncInfo {
    SyncInfo::with_fields(
        "host".to_string(),
        "2024-01-01T00:00:00Z".to_string(),
        "/m".to_string(),
        vec![
            ("a.mp3".to_string(), (TrackId(1), Some(3))),
            ("d/b.mp3".to_string(), (TrackId(2), None)),
        ],
        vec![(
            "Chill.m3u".to_string(),
            (PlaylistId::Number(7), vec![TrackId(1), TrackId(2)]),
        )],
    )
}

#[test]
fn id_lookup_is_case_insensitive() {
    let si = manifest();
    assert_eq!(si.id_for_relative_path("A.MP3"), Some(TrackId(1)));
    assert_eq!(si.id_for_relative_path("a.mp3"), Some(TrackId(1)));
    assert_eq!(si.id_for_relative_path("D/B.mp3"), Some(TrackId(2)));
    assert_eq!(si.id_for_relative_path("missing.mp3"), None);
}

#[test]
fn id_lookup_tolerates_music_segment() {
    let si = manifest();
    assert_eq!(si.id_for_relative_path("music/a.mp3"), Some(TrackId(1)));
    assert_eq!(si.id_for_relative_path("music/D/B.MP3"), Some(TrackId(2)));
}

#[test]
fn id_lookup_by_full_path_strips_ancestor() {
    let si = manifest();
    assert_eq!(si.id_for_full_path("/m/a.mp3"), Some(TrackId(1)));
    assert_eq!(si.id_for_full_path("/m/d/b.mp3"), Some(TrackId(2)));
    assert_eq!(si.id_for_full_path("/other/a.mp3"), None);
}

#[test]
fn rating_and_path_scans() {
    let si = manifest();
    assert_eq!(si.rating_for_id(TrackId(1)), Some(3));
    assert_eq!(si.rating_for_id(TrackId(2)), None);
    assert_eq!(si.rating_for_id(TrackId(9)), None);
    assert_eq!(si.path_for_id(TrackId(2)), Some("d/b.mp3".to_string()));
    assert_eq!(si.path_for_id(TrackId(9)), None);
}

#[test]
fn playlist_lookup() {
    let si = manifest();
    assert!(si.has_playlist_file_name("Chill.m3u"));
    assert!(!si.has_playlist_file_name("Other.m3u"));
    let (id, tracks) = si.playlist("Chill.m3u").unwrap();
    assert_eq!(*id, PlaylistId::Number(7));
    assert_eq!(tracks, &vec![TrackId(1), TrackId(2)]);
}

#[test]
fn manifest_fields_survive_duplicate() {
    let si = manifest();
    let copy = si.duplicate();
    assert_eq!(copy.hostname(), "host");
    assert_eq!(copy.timestamp(), "2024-01-01T00:00:00Z");
    assert_eq!(copy.common_ancestor(), "/m");
    assert_eq!(copy.id_for_relative_path("a.mp3"), Some(TrackId(1)));
    assert!(copy.has_playlist_file_name("Chill.m3u"));
}
