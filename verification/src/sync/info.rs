//! The sync-info manifest: the state persisted on the device at the end of
//! a cycle, read back at the next cycle as the three-way-merge ancestor.

use vstd::prelude::*;
use crate::source::{PlaylistId, PlaylistIdView, Rating, TrackId};
use crate::strutil::{lower_of, lowercase, strip_prefix_str};
use crate::assoc::{alookup, assoc_get};
use crate::utils::{current_hostname, now_rfc3339};

verus! {

/// The playlists recorded in a manifest: filename to (id, ordered tracks).
pub type PlaylistsSet = Vec<(String, (PlaylistId, Vec<TrackId>))>;

/// The mathematical value of a manifest.
pub ghost struct SyncInfoView {
    pub hostname: Seq<char>,
    pub timestamp: Seq<char>,
    pub common_ancestor: Seq<char>,
    pub song_data: Seq<(Seq<char>, (TrackId, Rating))>,
    pub playlists: Seq<(Seq<char>, (PlaylistIdView, Seq<TrackId>))>,
}

/// The view of stored song data.
pub open spec fn song_data_view(s: Seq<(String, (TrackId, Rating))>) -> Seq<
    (Seq<char>, (TrackId, Rating)),
> {
    s.map(|i: int, e: (String, (TrackId, Rating))| (e.0@, e.1))
}

/// The view of stored playlists.
pub open spec fn playlists_view(s: Seq<(String, (PlaylistId, Vec<TrackId>))>) -> Seq<
    (Seq<char>, (PlaylistIdView, Seq<TrackId>)),
> {
    s.map(|i: int, e: (String, (PlaylistId, Vec<TrackId>))| (e.0@, (e.1.0@, e.1.1@)))
}

/// The leading `music/` segment that device paths may carry.
pub open spec fn music_segment() -> Seq<char> {
    seq!['m', 'u', 's', 'i', 'c', '/']
}

/// A path normalised for manifest lookup: the leading `music/` segment
/// stripped if present, then lowercased.
pub open spec fn normalized_key(p: Seq<char>) -> Seq<char> {
    if music_segment().is_prefix_of(p) {
        lower_of(p.skip(6))
    } else {
        lower_of(p)
    }
}

/// What the manifest answers for a device-relative path.
pub open spec fn id_for_rel(si: SyncInfoView, p: Seq<char>) -> Option<TrackId> {
    match alookup(si.song_data, normalized_key(p)) {
        Some(e) => Some(e.0),
        None => None,
    }
}

/// A first-match scan of song data for a track's rating.
pub open spec fn rating_for_seq(s: Seq<(Seq<char>, (TrackId, Rating))>, needle: TrackId) -> Rating
    decreases s.len(),
{
    if s.len() == 0 {
        None
    } else if s[0].1.0 == needle {
        s[0].1.1
    } else {
        rating_for_seq(s.drop_first(), needle)
    }
}

/// The rating the manifest records for a track.
pub open spec fn rating_for(si: SyncInfoView, needle: TrackId) -> Rating {
    rating_for_seq(si.song_data, needle)
}

/// A first-match scan of song data for a track's path.
pub open spec fn path_for_seq(s: Seq<(Seq<char>, (TrackId, Rating))>, needle: TrackId) -> Option<
    Seq<char>,
>
    decreases s.len(),
{
    if s.len() == 0 {
        None
    } else if s[0].1.0 == needle {
        Some(s[0].0)
    } else {
        path_for_seq(s.drop_first(), needle)
    }
}

/// The path the manifest records for a track.
pub open spec fn path_for(si: SyncInfoView, needle: TrackId) -> Option<Seq<char>> {
    path_for_seq(si.song_data, needle)
}

/// Some info about a sync, usually retrieved from the device: the values
/// as they were at the end of the previous cycle.
pub struct SyncInfo {
    hostname: String,
    timestamp: String,
    common_ancestor: String,
    song_data: Vec<(String, (TrackId, Rating))>,
    playlists: PlaylistsSet,
}

impl View for SyncInfo {
    type V = SyncInfoView;

    closed spec fn view(&self) -> SyncInfoView {
        SyncInfoView {
            hostname: self.hostname@,
            timestamp: self.timestamp@,
            common_ancestor: self.common_ancestor@,
            song_data: song_data_view(self.song_data@),
            playlists: playlists_view(self.playlists@),
        }
    }
}

impl SyncInfo {
    /// A fresh manifest for this cycle: the given data, stamped with this
    /// machine's hostname and the current time (of which nothing is known).
    pub fn new(
        common_ancestor: String,
        song_data: Vec<(String, (TrackId, Rating))>,
        playlists: PlaylistsSet,
    ) -> (r: SyncInfo)
        ensures
            r@.common_ancestor == common_ancestor@,
            r@.song_data == song_data_view(song_data@),
            r@.playlists == playlists_view(playlists@),
    {
        let hostname = current_hostname();
        let timestamp = now_rfc3339();
        SyncInfo { hostname, timestamp, common_ancestor, song_data, playlists }
    }

    /// A manifest with every field given, as a reader of the stored file
    /// reconstructs it.
    pub fn with_fields(
        hostname: String,
        timestamp: String,
        common_ancestor: String,
        song_data: Vec<(String, (TrackId, Rating))>,
        playlists: PlaylistsSet,
    ) -> (r: SyncInfo)
        ensures
            r@ == (SyncInfoView {
                hostname: hostname@,
                timestamp: timestamp@,
                common_ancestor: common_ancestor@,
                song_data: song_data_view(song_data@),
                playlists: playlists_view(playlists@),
            }),
    {
        SyncInfo { hostname, timestamp, common_ancestor, song_data, playlists }
    }

    /// The stored playlists table.
    pub fn playlists(&self) -> (r: &PlaylistsSet)
        ensures
            playlists_view(r@) == self@.playlists,
    {
        &self.playlists
    }

    /// A copy with the same value.
    pub fn duplicate(&self) -> (r: SyncInfo)
        ensures
            r@ == self@,
    {
        let mut song_data: Vec<(String, (TrackId, Rating))> = Vec::new();
        let mut i: usize = 0;
        while i < self.song_data.len()
            invariant
                i <= self.song_data@.len(),
                song_data_view(song_data@) =~~= song_data_view(self.song_data@).subrange(
                    0,
                    i as int,
                ),
            decreases self.song_data@.len() - i,
        {
            let e = &self.song_data[i];
            song_data.push((e.0.clone(), e.1));
            proof {
                let m = song_data_view(self.song_data@);
                assert(m.subrange(0, i + 1) =~= m.subrange(0, i as int).push(m[i as int]));
            }
            i += 1;
        }
        proof {
            assert(song_data_view(song_data@) =~~= song_data_view(self.song_data@));
        }
        let mut playlists: PlaylistsSet = Vec::new();
        let mut j: usize = 0;
        while j < self.playlists.len()
            invariant
                j <= self.playlists@.len(),
                playlists_view(playlists@) =~~= playlists_view(self.playlists@).subrange(
                    0,
                    j as int,
                ),
            decreases self.playlists@.len() - j,
        {
            let e = &self.playlists[j];
            let mut ids: Vec<TrackId> = Vec::new();
            let mut t: usize = 0;
            while t < e.1.1.len()
                invariant
                    t <= e.1.1@.len(),
                    ids@ =~= e.1.1@.subrange(0, t as int),
                decreases e.1.1@.len() - t,
            {
                ids.push(e.1.1[t]);
                t += 1;
            }
            proof {
                assert(ids@ =~= e.1.1@);
            }
            playlists.push((e.0.clone(), (e.1.0.duplicate(), ids)));
            proof {
                let m = playlists_view(self.playlists@);
                assert(m.subrange(0, j + 1) =~= m.subrange(0, j as int).push(m[j as int]));
            }
            j += 1;
        }
        proof {
            assert(playlists_view(playlists@) =~~= playlists_view(self.playlists@));
        }
        SyncInfo {
            hostname: self.hostname.clone(),
            timestamp: self.timestamp.clone(),
            common_ancestor: self.common_ancestor.clone(),
            song_data,
            playlists,
        }
    }

    pub fn hostname(&self) -> (r: &str)
        ensures
            r@ == self@.hostname,
    {
        self.hostname.as_str()
    }

    pub fn timestamp(&self) -> (r: &str)
        ensures
            r@ == self@.timestamp,
    {
        self.timestamp.as_str()
    }

    pub fn common_ancestor(&self) -> (r: &str)
        ensures
            r@ == self@.common_ancestor,
    {
        self.common_ancestor.as_str()
    }

    /// The stored song data, for rebuilding or inspecting the manifest.
    pub fn song_data(&self) -> (r: &Vec<(String, (TrackId, Rating))>)
        ensures
            song_data_view(r@) == self@.song_data,
    {
        &self.song_data
    }

    /// The track recorded under a device-relative path. A leading `music/`
    /// segment is tolerated; the lookup is case-insensitive.
    pub fn id_for_relative_path(&self, relative_path: &str) -> (r: Option<TrackId>)
        ensures
            r == id_for_rel(self@, relative_path@),
    {
        let stripped = match strip_prefix_str(relative_path, "music/") {
            Some(rest) => rest,
            None => relative_path.to_owned(),
        };
        proof {
            reveal_strlit("music/");
            assert("music/"@ =~= music_segment());
            assert(stripped@ == if music_segment().is_prefix_of(relative_path@) {
                relative_path@.skip(6)
            } else {
                relative_path@
            });
        }
        let key = lowercase(stripped.as_str());
        let found = assoc_get(&self.song_data, key.as_str());
        proof {
            crate::assoc::lemma_alookup_index(self@.song_data, key@);
            match found {
                Some(e) => {
                    let i = choose|i: int|
                        0 <= i < self.song_data@.len() && (#[trigger] self.song_data@[i]).0@
                            == key@ && self.song_data@[i].1 == *e && (forall|j: int|
                            0 <= j < i ==> (#[trigger] self.song_data@[j]).0@ != key@);
                    lemma_alookup_first_match(self@.song_data, key@, i);
                },
                None => {
                    assert(forall|i: int|
                        0 <= i < self@.song_data.len() ==> (#[trigger] self@.song_data[i]).0
                            != key@);
                },
            }
        }
        match found {
            Some(e) => Some(e.0),
            None => None,
        }
    }

    /// The track recorded under an absolute path: the manifest's common
    /// ancestor is stripped first when it leads the path.
    pub fn id_for_full_path(&self, path: &str) -> (r: Option<TrackId>)
        ensures
            r == id_for_rel(
                self@,
                if crate::source::dir_prefix(self@.common_ancestor).is_prefix_of(path@) {
                    path@.skip(crate::source::dir_prefix(self@.common_ancestor).len() as int)
                } else {
                    path@
                },
            ),
    {
        let pre = crate::source::dir_prefix_exec(self.common_ancestor.as_str());
        let rel = match strip_prefix_str(path, pre.as_str()) {
            Some(rest) => rest,
            None => path.to_owned(),
        };
        self.id_for_relative_path(rel.as_str())
    }

    /// The rating recorded for a track, or absent when the track is not in
    /// the manifest.
    pub fn rating_for_id(&self, needle: TrackId) -> (r: Rating)
        ensures
            r == rating_for(self@, needle),
    {
        proof {
            assert(self@.song_data.skip(0) =~= self@.song_data);
        }
        let mut i: usize = 0;
        while i < self.song_data.len()
            invariant
                i <= self.song_data@.len(),
                rating_for(self@, needle) == rating_for_seq(self@.song_data.skip(i as int), needle),
            decreases self.song_data@.len() - i,
        {
            let entry = &self.song_data[i];
            proof {
                assert(self@.song_data.skip(i as int)[0] == self@.song_data[i as int]);
                assert(self@.song_data.skip(i as int).drop_first() =~= self@.song_data.skip(
                    i + 1,
                ));
            }
            if entry.1.0 == needle {
                return entry.1.1;
            }
            i += 1;
        }
        proof {
            assert(self@.song_data.skip(self.song_data@.len() as int) =~= Seq::empty());
        }
        None
    }

    /// The path recorded for a track.
    pub fn path_for_id(&self, id: TrackId) -> (r: Option<String>)
        ensures
            match r {
                Some(p) => path_for(self@, id) == Some(p@),
                None => path_for(self@, id) is None,
            },
    {
        proof {
            assert(self@.song_data.skip(0) =~= self@.song_data);
        }
        let mut i: usize = 0;
        while i < self.song_data.len()
            invariant
                i <= self.song_data@.len(),
                path_for(self@, id) == path_for_seq(self@.song_data.skip(i as int), id),
            decreases self.song_data@.len() - i,
        {
            let entry = &self.song_data[i];
            proof {
                assert(self@.song_data.skip(i as int)[0] == self@.song_data[i as int]);
                assert(self@.song_data.skip(i as int).drop_first() =~= self@.song_data.skip(
                    i + 1,
                ));
            }
            if entry.1.0 == id {
                return Some(entry.0.clone());
            }
            i += 1;
        }
        proof {
            assert(self@.song_data.skip(self.song_data@.len() as int) =~= Seq::empty());
        }
        None
    }

    /// The playlist the manifest knows under a filename.
    pub fn playlist(&self, name: &str) -> (r: Option<&(PlaylistId, Vec<TrackId>)>)
        ensures
            match r {
                Some(e) => alookup(self@.playlists, name@) == Some((e.0@, e.1@)),
                None => alookup(self@.playlists, name@) is None,
            },
    {
        let found = assoc_get(&self.playlists, name);
        proof {
            crate::assoc::lemma_alookup_index(self@.playlists, name@);
            if found is Some {
                let e = found.unwrap();
                let i = choose|i: int|
                    0 <= i < self.playlists@.len() && (#[trigger] self.playlists@[i]).0@ == name@
                        && self.playlists@[i].1 == *e && (forall|j: int|
                        0 <= j < i ==> (#[trigger] self.playlists@[j]).0@ != name@);
                lemma_plookup_first_match(self@.playlists, name@, i);
                assert(self@.playlists[i] == (name@, (e.0@, e.1@)));
            } else {
                assert(forall|i: int|
                    0 <= i < self@.playlists.len() ==> (#[trigger] self@.playlists[i]).0 != name@);
            }
        }
        found
    }

    /// Whether the manifest knows a playlist under this filename.
    pub fn has_playlist_file_name(&self, needle: &str) -> (r: bool)
        ensures
            r == (alookup(self@.playlists, needle@) is Some),
    {
        self.playlist(needle).is_some()
    }
}



/// When an entry's key matches and no earlier key does, the lookup finds
/// exactly that entry.
proof fn lemma_alookup_first_match(
    s: Seq<(Seq<char>, (TrackId, Rating))>,
    k: Seq<char>,
    i: int,
)
    requires
        0 <= i < s.len(),
        s[i].0 == k,
        forall|j: int| 0 <= j < i ==> (#[trigger] s[j]).0 != k,
    ensures
        alookup(s, k) == Some(s[i].1),
    decreases i,
{
    if i > 0 {
        lemma_alookup_first_match(s.drop_first(), k, i - 1);
        assert(s.drop_first()[i - 1] == s[i]);
    }
}

/// The same, for the playlists table.
proof fn lemma_plookup_first_match(
    s: Seq<(Seq<char>, (PlaylistIdView, Seq<TrackId>))>,
    k: Seq<char>,
    i: int,
)
    requires
        0 <= i < s.len(),
        s[i].0 == k,
        forall|j: int| 0 <= j < i ==> (#[trigger] s[j]).0 != k,
    ensures
        alookup(s, k) == Some(s[i].1),
    decreases i,
{
    if i > 0 {
        lemma_plookup_first_match(s.drop_first(), k, i - 1);
        assert(s.drop_first()[i - 1] == s[i]);
    }
}

} // verus!
