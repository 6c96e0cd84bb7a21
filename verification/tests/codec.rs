use starsync::device::m3u::M3u;
use starsync::numfmt::{parse_u64_dec, u64_to_dec};
use starsync::source::{create_m3u, Playlist, PlaylistId, Track, TrackId};
use starsync::sync::merge::three_way_merge;

fn track(name: &str, id: u64, path: &str, rating: Option<u8>, size: u64) -> Track {
    Track {
        name: name.to_string(),
        id: TrackId(id),
        path: Some(path.to_string()),
        rating,
        rating_is_computed: false,
        size: Some(size),
    }
}

#[test]
fn decimal_renders_exactly() {
    assert_eq!(u64_to_dec(0), "0");
    assert_eq!(u64_to_dec(7), "7");
    assert_eq!(u64_to_dec(1234567890), "1234567890");
    assert_eq!(u64_to_dec(u64::MAX), "18446744073709551615");
}

#[test]
fn decimal_parses_back() {
    assert_eq!(parse_u64_dec("0"), Some(0));
    assert_eq!(parse_u64_dec("42"), Some(42));
    assert_eq!(parse_u64_dec("18446744073709551615"), Some(u64::MAX));
    assert_eq!(parse_u64_dec("18446744073709551616"), None);
    assert_eq!(parse_u64_dec(""), None);
    assert_eq!(parse_u64_dec("12a"), None);
    assert_eq!(parse_u64_dec("-1"), None);
}

#[test]
fn m3u_renders_with_crlf_and_prefix() {
    let paths = vec!["a.mp3".to_string(), "sub/b.mp3".to_string()];
    let content = create_m3u(&paths, "music/").unwrap();
    assert_eq!(content, "music/a.mp3\r\nmusic/sub/b.mp3");
}

#[test]
fn m3u_converts_backslashes() {
    let paths = vec!["sub\\c.mp3".to_string()];
    let content = create_m3u(&paths, "music").unwrap();
    assert_eq!(content, "music/sub/c.mp3");
}

#[test]
fn m3u_parse_skips_urls_comments_and_blanks() {
    let text = "#EXTM3U\r\nmusic/a.mp3\r\nhttp://radio.example/stream\r\n\r\nmusic/b.mp3";
    let m3u = M3u::parse(text);
    assert_eq!(m3u.paths(), &vec!["music/a.mp3".to_string(), "music/b.mp3".to_string()]);
}

#[test]
fn m3u_parse_accepts_bare_newlines() {
    let m3u = M3u::parse("music/a.mp3\nmusic/b.mp3\n");
    assert_eq!(m3u.paths(), &vec!["music/a.mp3".to_string(), "music/b.mp3".to_string()]);
}

#[test]
fn m3u_write_read_round_trip() {
    let paths = vec!["a.mp3".to_string(), "d/e.mp3".to_string(), "f.mp3".to_string()];
    let content = create_m3u(&paths, "music/").unwrap();
    let m3u = M3u::parse(&content);
    let expected: Vec<String> = paths.iter().map(|p| format!("music/{}", p)).collect();
    assert_eq!(m3u.paths(), &expected);
}

#[test]
fn to_m3u_renders_relative_to_ancestor() {
    let playlist = Playlist {
        name: "Chill".to_string(),
        id: PlaylistId::Number(9),
        tracks: vec![track("a", 1, "/m/a.mp3", None, 10), track("b", 2, "/m/d/b.mp3", None, 10)],
    };
    let content = playlist.to_m3u("/m", "music/").unwrap();
    assert_eq!(content, "music/a.mp3\r\nmusic/d/b.mp3");
}

#[test]
fn to_m3u_rejects_stray_track() {
    let playlist = Playlist {
        name: "Chill".to_string(),
        id: PlaylistId::Number(9),
        tracks: vec![track("a", 1, "/elsewhere/a.mp3", None, 10)],
    };
    let err = playlist.to_m3u("/m", "music/").unwrap_err();
    assert_eq!(err, "Track 'a' is not a child of the common ancestor '/m'");
}

#[test]
fn suitable_filename_sanitizes() {
    let playlist = Playlist {
        name: "a/b".to_string(),
        id: PlaylistId::Number(1),
        tracks: vec![],
    };
    assert_eq!(playlist.suitable_filename(), "ab.m3u");
}

#[test]
fn merge_is_identity_when_device_unchanged() {
    let a = vec![TrackId(1), TrackId(2), TrackId(3)];
    let l = vec![TrackId(3), TrackId(1)];
    let m = three_way_merge(&a, &l, &a);
    assert_eq!(m, l);
}

#[test]
fn merge_is_identity_when_source_unchanged() {
    let a = vec![TrackId(1), TrackId(2), TrackId(3)];
    let d = vec![TrackId(2), TrackId(1), TrackId(3)];
    let m = three_way_merge(&a, &a, &d);
    assert_eq!(m, d);
}

#[test]
fn merge_combines_disjoint_edits() {
    // The source dropped the first track; the device appended one.
    let a = vec![TrackId(1), TrackId(2), TrackId(3)];
    let l = vec![TrackId(2), TrackId(3)];
    let d = vec![TrackId(1), TrackId(2), TrackId(3), TrackId(4)];
    let m = three_way_merge(&a, &l, &d);
    assert_eq!(m, vec![TrackId(2), TrackId(3), TrackId(4)]);
}

#[test]
fn merge_conflict_lets_the_source_win() {
    // Both sides replaced the same single track differently: a conflict.
    let a = vec![TrackId(1)];
    let l = vec![TrackId(2)];
    let d = vec![TrackId(3)];
    let m = three_way_merge(&a, &l, &d);
    assert_eq!(m, l);
}
