use starsync::sync::utils::{
    case_insensitive_difference, favorites_playlist_name, ActualPlaylistKind,
    RequestedPlaylistKind,
};

#[test]
fn test_classify_playlist() {
    assert_eq!(
        ActualPlaylistKind::classify("Favourites - 1 stars.m3u"),
        ActualPlaylistKind::Ratings(1)
    );
    assert_eq!(
        ActualPlaylistKind::classify("Favourites - 2 stars.m3u"),
        ActualPlaylistKind::Ratings(2)
    );
    assert_eq!(
        ActualPlaylistKind::classify("Favourites - 3 stars.m3u"),
        ActualPlaylistKind::Ratings(3)
    );
    assert_eq!(
        ActualPlaylistKind::classify("Favourites - 4 stars.m3u"),
        ActualPlaylistKind::Ratings(4)
    );
    assert_eq!(
        ActualPlaylistKind::classify("Favourites - 5 stars.m3u"),
        ActualPlaylistKind::Ratings(5)
    );
    assert_eq!(
        ActualPlaylistKind::classify("Favourites - 0 stars.m3u"),
        ActualPlaylistKind::Regular("Favourites - 0 stars.m3u".to_string())
    );
    assert_eq!(
        ActualPlaylistKind::classify("Favourites - 6 stars.m3u"),
        ActualPlaylistKind::Regular("Favourites - 6 stars.m3u".to_string())
    );
    assert_eq!(
        ActualPlaylistKind::classify("Favourites - 1 stars"),
        ActualPlaylistKind::Regular("Favourites - 1 stars".to_string())
    );
    assert_eq!(
        ActualPlaylistKind::classify("Favorites - 1 stars.m3u"),
        ActualPlaylistKind::Regular("Favorites - 1 stars.m3u".to_string())
    );
    assert_eq!(
        ActualPlaylistKind::classify("abc.m3u"),
        ActualPlaylistKind::Regular("abc.m3u".to_string())
    );

    assert_eq!(
        ActualPlaylistKind::classify(&favorites_playlist_name(3)),
        ActualPlaylistKind::Ratings(3)
    );

    assert!(ActualPlaylistKind::classify("abc.m3u").matches(RequestedPlaylistKind::Regular));
    assert!(ActualPlaylistKind::classify("Favourites - 4 stars.m3u")
        .matches(RequestedPlaylistKind::Ratings));
}

#[test]
fn test_case_insensitive_sets() {
    let left: Vec<String> = [
        "C:\\Users\\John\\File.DAT",
        "C:\\Users\\jack\\stuff.mp3",
        "left",
        "C:\\Users\\paul\\fancy.exe",
    ]
    .iter()
    .map(|item| item.to_string())
    .collect();

    let right: Vec<String> = [
        "right",
        "c:\\users\\john\\file.dat",
        "C:\\Users\\jack\\stuff.mp3",
        "C:\\Users\\PAUL\\Fancy.exe",
    ]
    .iter()
    .map(|item| item.to_string())
    .collect();

    let diff: Vec<String> = case_insensitive_difference(&left, &right);
    assert_eq!(diff.len(), 1);
    assert_eq!(diff.get(0), Some(&"left".to_string()));
}

#[test]
fn classify_leading_zero_is_regular() {
    assert_eq!(
        ActualPlaylistKind::classify("Favourites - 05 stars.m3u"),
        ActualPlaylistKind::Regular("Favourites - 05 stars.m3u".to_string())
    );
}

#[test]
fn favorites_names_round_trip_for_every_star() {
    for n in 1..=5u8 {
        let name = favorites_playlist_name(n);
        assert_eq!(ActualPlaylistKind::classify(&name), ActualPlaylistKind::Ratings(n));
        assert_eq!(ActualPlaylistKind::classify(&name).stars(), Some(n));
    }
}

#[test]
fn stars_of_regular_is_none() {
    assert_eq!(ActualPlaylistKind::classify("Chill.m3u").stars(), None);
}
