//! In-memory adapters: a source and a device held entirely in memory.
//! They are the model implementations of the adapter contracts, and what
//! the test suite drives whole sync cycles against.

use vstd::prelude::*;
use crate::assoc::{
    amap, lemma_amap_alookup, lemma_amap_dom, lemma_amap_push_fresh, lemma_amap_update_first,
    lemma_amap_without_key, without_key,
};
use crate::config::Config;
use crate::device::{Device, DeviceView, File, Folder};
use crate::source::{
    playlist_consistent, playlist_matches, snapshot_ids, with_rating, Playlist, PlaylistId,
    PlaylistView, Rating, Source, SourceView, Track, TrackId, TrackView,
};
use crate::strutil::{concat_str, str_eq};
use crate::sync::info::SyncInfo;

verus! {

broadcast use {vstd::map::group_map_axioms, vstd::set::group_set_axioms};

/// The stored state of one track in an in-memory source.
pub struct MemTrack {
    pub name: String,
    pub path: String,
    pub rating: Rating,
    pub rating_is_computed: bool,
    pub size: u64,
}

/// One playlist of an in-memory source.
pub struct MemPlaylist {
    pub name: String,
    pub id: PlaylistId,
    pub tracks: Vec<TrackId>,
}

/// A music library held in memory.
pub struct MemSource {
    pub name: String,
    pub playlists: Vec<MemPlaylist>,
    pub tracks: Vec<(TrackId, MemTrack)>,
}

/// The library state one stored track stands for.
pub open spec fn mem_track_view(id: TrackId, t: MemTrack) -> TrackView {
    TrackView {
        name: t.name@,
        id,
        path: t.path@,
        rating: t.rating,
        rating_is_computed: t.rating_is_computed,
        size: t.size,
    }
}

/// The track table as a map, first entry winning.
pub open spec fn mem_tracks_view(s: Seq<(TrackId, MemTrack)>) -> Seq<(TrackId, TrackView)> {
    s.map(|i: int, e: (TrackId, MemTrack)| (e.0, mem_track_view(e.0, e.1)))
}

/// The playlist table as playlist states, in order.
pub open spec fn mem_playlists_view(s: Seq<MemPlaylist>) -> Seq<PlaylistView> {
    s.map(|i: int, p: MemPlaylist| PlaylistView { name: p.name@, id: p.id@, tracks: p.tracks@ })
}

impl MemSource {
    /// Build the snapshot of the playlist at an index; `None` when it
    /// names a track the library does not hold.
    fn snapshot_at(&self, at: usize) -> (r: Option<Playlist>)
        requires
            at < self@.playlists.len(),
        ensures
            r matches Some(p) ==> playlist_matches(p, self@.playlists[at as int], self@.tracks),
    {
        let ghost pv = self@.playlists[at as int];
        let mp = &self.playlists[at];
        let mut tracks: Vec<Track> = Vec::new();
        let mut i: usize = 0;
        while i < mp.tracks.len()
            invariant
                i <= mp.tracks@.len(),
                pv == self@.playlists[at as int],
                at < self.playlists@.len(),
                mp == self.playlists@[at as int],
                pv.tracks == mp.tracks@,
                tracks@.len() == i,
                forall|k: int|
                    0 <= k < i ==> (#[trigger] tracks@[k]).id == mp.tracks@[k]
                        && self@.tracks.dom().contains(mp.tracks@[k]) && tracks@[k].consistent_with(
                        self@.tracks[mp.tracks@[k]],
                    ),
            decreases mp.tracks@.len() - i,
        {
            let id = mp.tracks[i];
            match self.track_by_id(id) {
                None => {
                    return None;
                },
                Some(t) => {
                    tracks.push(t);
                },
            }
            i += 1;
        }
        proof {
            assert(snapshot_ids(tracks@) =~= pv.tracks);
        }
        Some(Playlist { name: mp.name.clone(), id: mp.id.duplicate(), tracks })
    }
}

impl Source for MemSource {
    open spec fn view(&self) -> SourceView {
        SourceView {
            name: self.name@,
            playlists: mem_playlists_view(self.playlists@),
            tracks: amap(mem_tracks_view(self.tracks@)),
        }
    }

    fn name(&self) -> (r: String) {
        self.name.clone()
    }

    fn playlists(&self) -> (r: Result<Vec<Playlist>, String>) {
        let mut out: Vec<Playlist> = Vec::new();
        let mut i: usize = 0;
        while i < self.playlists.len()
            invariant
                i <= self.playlists@.len(),
                forall|k: int|
                    0 <= k < out@.len() ==> playlist_consistent(
                        #[trigger] out@[k],
                        self.view(),
                    ),
            decreases self.playlists@.len() - i,
        {
            match self.snapshot_at(i) {
                None => {
                    return Err("a playlist names an unknown track".to_owned());
                },
                Some(p) => {
                    proof {
                        assert(playlist_matches(p, self.view().playlists[i as int], self.view().tracks));
                    }
                    out.push(p);
                },
            }
            i += 1;
        }
        Ok(out)
    }

    fn playlist_by_name(&self, name: &str) -> (r: Option<Playlist>) {
        let mut i: usize = 0;
        while i < self.playlists.len()
            invariant
                i <= self.playlists@.len(),
            decreases self.playlists@.len() - i,
        {
            if str_eq(self.playlists[i].name.as_str(), name) {
                let got = self.snapshot_at(i);
                proof {
                    if got is Some {
                        assert(playlist_matches(
                            got.unwrap(),
                            self.view().playlists[i as int],
                            self.view().tracks,
                        ));
                    }
                }
                return got;
            }
            i += 1;
        }
        None
    }

    fn playlist_by_id(&self, id: &PlaylistId) -> (r: Option<Playlist>) {
        let mut i: usize = 0;
        while i < self.playlists.len()
            invariant
                i <= self.playlists@.len(),
            decreases self.playlists@.len() - i,
        {
            if self.playlists[i].id == *id {
                let got = self.snapshot_at(i);
                proof {
                    if got is Some {
                        assert(playlist_matches(
                            got.unwrap(),
                            self.view().playlists[i as int],
                            self.view().tracks,
                        ));
                    }
                }
                return got;
            }
            i += 1;
        }
        None
    }

    fn track_by_id(&self, id: TrackId) -> (r: Option<Track>) {
        let ghost tv = mem_tracks_view(self.tracks@);
        let mut i: usize = 0;
        while i < self.tracks.len()
            invariant
                i <= self.tracks@.len(),
                tv == mem_tracks_view(self.tracks@),
                forall|k: int| 0 <= k < i ==> (#[trigger] self.tracks@[k]).0 != id,
            decreases self.tracks@.len() - i,
        {
            if self.tracks[i].0 == id {
                let t = &self.tracks[i].1;
                proof {
                    assert(forall|k: int| 0 <= k < i ==> (#[trigger] tv[k]).0 != id);
                    assert(tv[i as int].0 == id);
                    crate::assoc::lemma_alookup_first_hit(tv, id, i as int);
                    lemma_amap_alookup(tv, id);
                }
                return Some(
                    Track {
                        name: t.name.clone(),
                        id,
                        path: Some(t.path.clone()),
                        rating: t.rating,
                        rating_is_computed: t.rating_is_computed,
                        size: Some(t.size),
                    },
                );
            }
            i += 1;
        }
        None
    }

    fn set_rating(&mut self, id: TrackId, new_rating: Rating) -> (r: Result<(), String>) {
        let ghost tv0 = mem_tracks_view(old(self).tracks@);
        let mut i: usize = 0;
        while i < self.tracks.len()
            invariant
                i <= self.tracks@.len(),
                self == old(self),
                tv0 == mem_tracks_view(self.tracks@),
                forall|k: int| 0 <= k < i ==> (#[trigger] self.tracks@[k]).0 != id,
            decreases self.tracks@.len() - i,
        {
            if self.tracks[i].0 == id {
                let name = self.tracks[i].1.name.clone();
                let path = self.tracks[i].1.path.clone();
                let size = self.tracks[i].1.size;
                let updated = MemTrack {
                    name,
                    path,
                    rating: new_rating,
                    rating_is_computed: false,
                    size,
                };
                proof {
                    assert(forall|k: int| 0 <= k < i ==> (#[trigger] tv0[k]).0 != id);
                    assert(tv0[i as int].0 == id);
                    crate::assoc::lemma_alookup_first_hit(tv0, id, i as int);
                    lemma_amap_alookup(tv0, id);
                }
                self.tracks.set(i, (id, updated));
                proof {
                    let tv1 = mem_tracks_view(self.tracks@);
                    assert(tv1 =~= tv0.update(
                        i as int,
                        (id, with_rating(amap(tv0)[id], new_rating)),
                    ));
                    lemma_amap_update_first(
                        tv0,
                        i as int,
                        id,
                        with_rating(amap(tv0)[id], new_rating),
                    );
                    assert(mem_playlists_view(self.playlists@) == mem_playlists_view(
                        old(self).playlists@,
                    ));
                }
                return Ok(());
            }
            i += 1;
        }
        Err("no such track".to_owned())
    }

    fn change_contents_to(&mut self, id: &PlaylistId, new_content: &Vec<TrackId>) -> (r: Result<
        (),
        String,
    >) {
        let ghost pv0 = mem_playlists_view(old(self).playlists@);
        let mut i: usize = 0;
        while i < self.playlists.len()
            invariant
                i <= self.playlists@.len(),
                self.name == old(self).name,
                self.tracks == old(self).tracks,
                self.playlists@.len() == old(self).playlists@.len(),
                pv0 == mem_playlists_view(old(self).playlists@),
                forall|k: int|
                    0 <= k < pv0.len() ==> {
                        let b = #[trigger] pv0[k];
                        let a = mem_playlists_view(self.playlists@)[k];
                        a.name == b.name && a.id == b.id && (b.id != id@ ==> a.tracks
                            == b.tracks)
                    },
                forall|k: int|
                    0 <= k < i && (#[trigger] pv0[k]).id == id@ ==> mem_playlists_view(
                        self.playlists@,
                    )[k].tracks == new_content@,
            decreases self.playlists@.len() - i,
        {
            let ghost pv_cur = mem_playlists_view(self.playlists@);
            if self.playlists[i].id == *id {
                let name = self.playlists[i].name.clone();
                let pid = self.playlists[i].id.duplicate();
                let ids = crate::sync::clone_ids(new_content);
                self.playlists.set(i, MemPlaylist { name, id: pid, tracks: ids });
                proof {
                    let pv1 = mem_playlists_view(self.playlists@);
                    assert(forall|k: int|
                        0 <= k < pv1.len() && k != i ==> #[trigger] pv1[k] == pv_cur[k]);
                    assert(pv1[i as int].name == pv_cur[i as int].name);
                    assert(pv1[i as int].id == pv_cur[i as int].id);
                    assert(pv1[i as int].tracks == new_content@);
                }
            }
            i += 1;
        }
        proof {
            assert(mem_playlists_view(self.playlists@).len() == pv0.len());
        }
        Ok(())
    }
}

/// A device held in memory: the layout flag, the music files as relative
/// paths, the root files with their contents, and the stored documents.
pub struct MemDevice {
    pub mount_point: String,
    pub inited: bool,
    pub music: Vec<String>,
    pub root_files: Vec<(String, String)>,
    pub config: Option<Config>,
    pub sync_info: Option<SyncInfo>,
}

/// The root-files table as a map over views.
pub open spec fn mem_root_view(s: Seq<(String, String)>) -> Seq<(Seq<char>, Seq<char>)> {
    s.map(|i: int, e: (String, String)| (e.0@, e.1@))
}

impl MemDevice {
    /// A fresh, uninitialised device at a mount point.
    pub fn new(mount_point: String) -> (r: MemDevice)
        ensures
            r.view() == DeviceView::empty(),
            r.mount_point@ == mount_point@,
    {
        let r = MemDevice {
            mount_point,
            inited: false,
            music: Vec::new(),
            root_files: Vec::new(),
            config: None,
            sync_info: None,
        };
        proof {
            assert(r.view().music =~= Set::<Seq<char>>::empty()) by {
                if exists|p: Seq<char>| r.view().music.contains(p) {
                    let p = choose|p: Seq<char>| r.view().music.contains(p);
                    assert(r.music.deep_view().contains(p));
                }
            }
            assert(r.view().root_files =~= Map::<Seq<char>, Seq<char>>::empty());
        }
        r
    }

    /// The path of the layout root on this device.
    pub fn starsync_path(&self) -> (r: String)
        ensures
            r@ == self.mount_point@ + "/StarSync"@,
    {
        concat_str(self.mount_point.as_str(), "/StarSync")
    }

    /// The path of the music folder on this device.
    pub fn music_path(&self) -> (r: String)
        ensures
            r@ == self.mount_point@ + "/StarSync"@ + "/music"@,
    {
        concat_str(self.starsync_path().as_str(), "/music")
    }

    /// List relative names as files under a root path.
    fn listing(root: &str, names: &Vec<String>) -> (r: Folder)
        requires
            root@.len() == 0 || root@.last() != '/',
        ensures
            r.path@ == root@,
            r.rooted(),
            r.rel_file_paths().to_set() =~= names.deep_view().to_set(),
    {
        let mut files: Vec<File> = Vec::new();
        let pre = crate::source::dir_prefix_exec(root);
        let mut i: usize = 0;
        while i < names.len()
            invariant
                i <= names@.len(),
                pre@ == crate::source::dir_prefix(root@),
                files@.len() == i,
                forall|k: int|
                    0 <= k < i ==> (#[trigger] files@[k]).path@ == pre@ + names.deep_view()[k],
            decreases names@.len() - i,
        {
            files.push(File { path: concat_str(pre.as_str(), names[i].as_str()) });
            proof {
                assert(names.deep_view()[i as int] == names@[i as int]@);
            }
            i += 1;
        }
        let folder = Folder { path: root.to_owned(), files };
        proof {
            let dp = crate::source::dir_prefix(root@);
            assert(folder.rooted()) by {
                assert forall|k: int|
                    0 <= k < folder.files@.len() implies dp.is_prefix_of(
                    (#[trigger] folder.files@[k]).path@,
                ) by {
                    assert(folder.files@[k].path@ == dp + names.deep_view()[k]);
                    assert(dp =~= (dp + names.deep_view()[k]).subrange(0, dp.len() as int));
                }
            }
            assert(folder.rel_file_paths().to_set() =~= names.deep_view().to_set()) by {
                assert forall|p: Seq<char>|
                    folder.rel_file_paths().to_set().contains(p)
                        == names.deep_view().to_set().contains(p) by {
                    if folder.rel_file_paths().contains(p) {
                        let k = choose|k: int|
                            0 <= k < folder.rel_file_paths().len()
                                && folder.rel_file_paths()[k] == p;
                        assert((dp + names.deep_view()[k]).skip(dp.len() as int)
                            =~= names.deep_view()[k]);
                        assert(names.deep_view()[k] == p);
                        assert(names.deep_view().contains(p));
                    }
                    if names.deep_view().contains(p) {
                        let k = choose|k: int|
                            0 <= k < names.deep_view().len() && names.deep_view()[k] == p;
                        assert(folder.rel_file_paths()[k] =~= (dp + p).skip(dp.len() as int));
                        assert((dp + p).skip(dp.len() as int) =~= p);
                        assert(folder.rel_file_paths().contains(p));
                    }
                }
            }
        }
        folder
    }
}

impl Device for MemDevice {
    open spec fn view(&self) -> DeviceView {
        DeviceView {
            inited: self.inited,
            music: self.music.deep_view().to_set(),
            root_files: amap(mem_root_view(self.root_files@)),
            config: match self.config {
                Some(c) => Some(c@),
                None => None,
            },
            sync_info: match self.sync_info {
                Some(si) => Some(si@),
                None => None,
            },
        }
    }

    fn name(&self) -> (r: String) {
        concat_str("path://", self.mount_point.as_str())
    }

    fn is_inited(&self) -> (r: bool) {
        self.inited
    }

    fn starsync_folder(&self) -> (r: Option<Folder>) {
        if !self.inited {
            return None;
        }
        let root = self.starsync_path();
        let mut names: Vec<String> = Vec::new();
        let mut i: usize = 0;
        while i < self.root_files.len()
            invariant
                i <= self.root_files@.len(),
                names@.len() == i,
                names.deep_view() =~~= crate::assoc::akeys(
                    mem_root_view(self.root_files@),
                ).subrange(0, i as int),
            decreases self.root_files@.len() - i,
        {
            names.push(self.root_files[i].0.clone());
            proof {
                let ks = crate::assoc::akeys(mem_root_view(self.root_files@));
                assert(names.deep_view()[i as int] == names@[i as int]@);
                assert(ks.subrange(0, i + 1) =~= ks.subrange(0, i as int).push(ks[i as int]));
                assert(names.deep_view() =~~= ks.subrange(0, i + 1));
            }
            i += 1;
        }
        proof {
            reveal_strlit("/StarSync");
            assert(root@.last() != '/');
            lemma_amap_dom(mem_root_view(self.root_files@));
            assert(names.deep_view().to_set() =~= crate::assoc::akeys(
                mem_root_view(self.root_files@),
            ).to_set()) by {
                assert(names.deep_view() =~~= crate::assoc::akeys(
                    mem_root_view(self.root_files@),
                ));
            }
        }
        let folder = MemDevice::listing(root.as_str(), &names);
        Some(folder)
    }

    fn music_folder(&self) -> (r: Option<Folder>) {
        if !self.inited {
            return None;
        }
        let root = self.music_path();
        proof {
            reveal_strlit("/music");
            assert(root@.last() != '/');
        }
        let folder = MemDevice::listing(root.as_str(), &self.music);
        Some(folder)
    }

    fn create_folders(&mut self) -> (r: Result<(), String>) {
        self.inited = true;
        self.music = Vec::new();
        self.root_files = Vec::new();
        self.config = None;
        self.sync_info = None;
        proof {
            assert(self.view().music =~= Set::<Seq<char>>::empty()) by {
                if exists|p: Seq<char>| self.view().music.contains(p) {
                    let p = choose|p: Seq<char>| self.view().music.contains(p);
                    assert(self.music.deep_view().contains(p));
                }
            }
            assert(self.view().root_files =~= Map::<Seq<char>, Seq<char>>::empty());
            assert(self.view() == DeviceView::fresh());
        }
        Ok(())
    }

    fn remove_folders(&mut self) -> (r: Result<(), String>) {
        self.inited = false;
        self.music = Vec::new();
        self.root_files = Vec::new();
        self.config = None;
        self.sync_info = None;
        proof {
            assert(self.view().music =~= Set::<Seq<char>>::empty()) by {
                if exists|p: Seq<char>| self.view().music.contains(p) {
                    let p = choose|p: Seq<char>| self.view().music.contains(p);
                    assert(self.music.deep_view().contains(p));
                }
            }
            assert(self.view().root_files =~= Map::<Seq<char>, Seq<char>>::empty());
            assert(self.view() == DeviceView::empty());
        }
        Ok(())
    }

    fn push_music_file(&mut self, local_absolute_path: &str, device_relative_path: &str) -> (r:
        Result<(), String>) {
        let ghost before = self.music.deep_view();
        let mut present = false;
        let mut i: usize = 0;
        while i < self.music.len()
            invariant
                i <= self.music@.len(),
                self == old(self),
                present == exists|k: int|
                    0 <= k < i && (#[trigger] self.music.deep_view()[k]) == device_relative_path@,
            decreases self.music@.len() - i,
        {
            if str_eq(self.music[i].as_str(), device_relative_path) {
                proof {
                    assert(self.music.deep_view()[i as int] == self.music@[i as int]@);
                }
                present = true;
            }
            proof {
                assert(self.music.deep_view()[i as int] == self.music@[i as int]@);
            }
            i += 1;
        }
        if !present {
            self.music.push(device_relative_path.to_owned());
            proof {
                assert(self.music.deep_view() =~~= before.push(device_relative_path@));
                lemma_push_to_set_str(before, device_relative_path@);
                assert(self.view() == (DeviceView {
                    music: old(self).view().music.insert(device_relative_path@),
                    ..old(self).view()
                }));
            }
        } else {
            proof {
                let k = choose|k: int|
                    0 <= k < before.len() && (#[trigger] before[k]) == device_relative_path@;
                assert(before.contains(device_relative_path@));
                assert(before.to_set().contains(device_relative_path@));
                assert(before.to_set() =~= before.to_set().insert(device_relative_path@));
                assert(self.view() == (DeviceView {
                    music: old(self).view().music.insert(device_relative_path@),
                    ..old(self).view()
                }));
            }
        }
        Ok(())
    }

    fn delete_music_file(&mut self, device_relative_path: &str) -> (r: Result<(), String>) {
        let ghost before = self.music.deep_view();
        let mut kept: Vec<String> = Vec::new();
        let mut i: usize = 0;
        while i < self.music.len()
            invariant
                i <= self.music@.len(),
                self == old(self),
                before == self.music.deep_view(),
                forall|k: int|
                    0 <= k < kept@.len() ==> (#[trigger] kept.deep_view()[k])
                        != device_relative_path@ && before.contains(kept.deep_view()[k]),
                forall|p: Seq<char>|
                    #[trigger] before.subrange(0, i as int).contains(p) && p
                        != device_relative_path@ ==> kept.deep_view().contains(p),
            decreases self.music@.len() - i,
        {
            proof {
                assert(self.music.deep_view()[i as int] == self.music@[i as int]@);
            }
            let ghost kept_before = kept.deep_view();
            if !str_eq(self.music[i].as_str(), device_relative_path) {
                kept.push(self.music[i].clone());
                proof {
                    assert(kept.deep_view() =~~= kept_before.push(before[i as int]));
                    assert(before.contains(before[i as int]));
                }
            }
            proof {
                assert forall|p: Seq<char>|
                    #[trigger] before.subrange(0, i + 1).contains(p) && p
                        != device_relative_path@ implies kept.deep_view().contains(p) by {
                    let k = choose|k: int|
                        0 <= k < i + 1 && #[trigger] before.subrange(0, i + 1)[k] == p;
                    if k < i {
                        assert(before.subrange(0, i as int)[k] == p);
                        assert(before.subrange(0, i as int).contains(p));
                        assert(kept_before.contains(p));
                        let m = choose|m: int|
                            0 <= m < kept_before.len() && kept_before[m] == p;
                        assert(kept.deep_view()[m] == p);
                    } else {
                        assert(before[i as int] == p);
                        assert(kept.deep_view().last() == p);
                    }
                }
            }
            i += 1;
        }
        self.music = kept;
        proof {
            assert(before.subrange(0, before.len() as int) =~= before);
            assert(self.music.deep_view().to_set() =~= before.to_set().remove(
                device_relative_path@,
            )) by {
                assert forall|p: Seq<char>|
                    self.music.deep_view().to_set().contains(p) == (before.to_set().contains(p)
                        && p != device_relative_path@) by {
                    if self.music.deep_view().contains(p) {
                        let k = choose|k: int|
                            0 <= k < self.music.deep_view().len() && self.music.deep_view()[k]
                                == p;
                    }
                }
            }
            assert(self.view() == (DeviceView {
                music: old(self).view().music.remove(device_relative_path@),
                ..old(self).view()
            }));
        }
        Ok(())
    }

    fn push_playlist(&mut self, content: &str, playlist_name: &str) -> (r: Result<(), String>) {
        let ghost before = mem_root_view(self.root_files@);
        let mut kept: Vec<(String, String)> = Vec::new();
        let mut i: usize = 0;
        while i < self.root_files.len()
            invariant
                i <= self.root_files@.len(),
                self == old(self),
                before == mem_root_view(self.root_files@),
                mem_root_view(kept@) =~~= without_key(before.subrange(0, i as int), playlist_name@),
            decreases self.root_files@.len() - i,
        {
            let ghost kept_before = mem_root_view(kept@);
            proof {
                lemma_without_key_push(before.subrange(0, i as int), before[i as int], playlist_name@);
                assert(before.subrange(0, i + 1) =~= before.subrange(0, i as int).push(
                    before[i as int],
                ));
            }
            if !str_eq(self.root_files[i].0.as_str(), playlist_name) {
                let e = &self.root_files[i];
                kept.push((e.0.clone(), e.1.clone()));
                proof {
                    assert(mem_root_view(kept@) =~~= kept_before.push(before[i as int]));
                }
            }
            i += 1;
        }
        kept.push((playlist_name.to_owned(), content.to_owned()));
        self.root_files = kept;
        proof {
            assert(before.subrange(0, before.len() as int) =~= before);
            let wk = without_key(before, playlist_name@);
            lemma_amap_without_key(before, playlist_name@);
            assert(mem_root_view(self.root_files@) =~= wk.push((playlist_name@, content@)));
            lemma_amap_push_fresh(wk, playlist_name@, content@);
            assert(amap(mem_root_view(self.root_files@)) =~= amap(before).insert(
                playlist_name@,
                content@,
            ));
            assert(self.view() == (DeviceView {
                root_files: old(self).view().root_files.insert(playlist_name@, content@),
                ..old(self).view()
            }));
        }
        Ok(())
    }

    fn read_root_file(&self, file_name: &str) -> (r: Result<String, String>) {
        let ghost rv = mem_root_view(self.root_files@);
        let mut i: usize = 0;
        while i < self.root_files.len()
            invariant
                i <= self.root_files@.len(),
                rv == mem_root_view(self.root_files@),
                forall|k: int| 0 <= k < i ==> (#[trigger] rv[k]).0 != file_name@,
            decreases self.root_files@.len() - i,
        {
            if str_eq(self.root_files[i].0.as_str(), file_name) {
                proof {
                    assert(rv[i as int].0 == file_name@);
                    crate::assoc::lemma_alookup_first_hit(rv, file_name@, i as int);
                    lemma_amap_alookup(rv, file_name@);
                }
                return Ok(self.root_files[i].1.clone());
            }
            proof {
                assert(rv[i as int].0 == self.root_files@[i as int].0@);
            }
            i += 1;
        }
        Err("no such file".to_owned())
    }

    fn delete_root_file(&mut self, file_name: &str) -> (r: Result<(), String>) {
        let ghost before = mem_root_view(self.root_files@);
        let mut kept: Vec<(String, String)> = Vec::new();
        let mut i: usize = 0;
        while i < self.root_files.len()
            invariant
                i <= self.root_files@.len(),
                self == old(self),
                before == mem_root_view(self.root_files@),
                mem_root_view(kept@) =~~= without_key(before.subrange(0, i as int), file_name@),
            decreases self.root_files@.len() - i,
        {
            let ghost kept_before = mem_root_view(kept@);
            proof {
                lemma_without_key_push(before.subrange(0, i as int), before[i as int], file_name@);
                assert(before.subrange(0, i + 1) =~= before.subrange(0, i as int).push(
                    before[i as int],
                ));
            }
            if !str_eq(self.root_files[i].0.as_str(), file_name) {
                let e = &self.root_files[i];
                kept.push((e.0.clone(), e.1.clone()));
                proof {
                    assert(mem_root_view(kept@) =~~= kept_before.push(before[i as int]));
                }
            }
            i += 1;
        }
        self.root_files = kept;
        proof {
            assert(before.subrange(0, before.len() as int) =~= before);
            lemma_amap_without_key(before, file_name@);
            assert(self.view() == (DeviceView {
                root_files: old(self).view().root_files.remove(file_name@),
                ..old(self).view()
            }));
        }
        Ok(())
    }

    fn config_display_path(&self) -> (r: String) {
        let mut r = self.starsync_path();
        r.append("/config/starsync.json");
        r
    }

    fn config(&self) -> (r: Option<Config>) {
        match &self.config {
            None => None,
            Some(c) => Some(c.duplicate()),
        }
    }

    fn push_config(&mut self, config: &Config) -> (r: Result<(), String>) {
        self.config = Some(config.duplicate());
        proof {
            assert(self.view() == (DeviceView { config: Some(config@), ..old(self).view() }));
        }
        Ok(())
    }

    fn previous_sync_infos(&self) -> (r: Option<SyncInfo>) {
        match &self.sync_info {
            None => None,
            Some(si) => Some(si.duplicate()),
        }
    }

    fn push_sync_infos(&mut self, sync_infos: &SyncInfo) -> (r: Result<(), String>) {
        self.sync_info = Some(sync_infos.duplicate());
        proof {
            assert(self.view() == (DeviceView {
                sync_info: Some(sync_infos@),
                ..old(self).view()
            }));
        }
        Ok(())
    }
}

/// Pushing a path inserts it into the path set.
proof fn lemma_push_to_set_str(s: Seq<Seq<char>>, x: Seq<char>)
    ensures
        s.push(x).to_set() =~= s.to_set().insert(x),
{
    assert forall|a: Seq<char>|
        #![trigger s.push(x).to_set().contains(a)]
        s.push(x).to_set().contains(a) == (s.to_set().contains(a) || a == x) by {
        if s.push(x).contains(a) {
            let k = choose|k: int| 0 <= k < s.push(x).len() && s.push(x)[k] == a;
            if k < s.len() {
                assert(s[k] == a);
                assert(s.contains(a));
            }
        }
        if s.contains(a) {
            let k = choose|k: int| 0 <= k < s.len() && s[k] == a;
            assert(s.push(x)[k] == a);
            assert(s.push(x).contains(a));
        }
        if a == x {
            assert(s.push(x)[s.len() as int] == a);
            assert(s.push(x).contains(a));
        }
    }
}

/// How the key filter treats one more entry.
proof fn lemma_without_key_push(s: Seq<(Seq<char>, Seq<char>)>, e: (Seq<char>, Seq<char>), k: Seq<char>)
    ensures
        e.0 == k ==> without_key(s.push(e), k) =~= without_key(s, k),
        e.0 != k ==> without_key(s.push(e), k) =~= without_key(s, k).push(e),
    decreases s.len(),
{
    if s.len() == 0 {
        assert(s.push(e).drop_first() =~= Seq::<(Seq<char>, Seq<char>)>::empty());
        assert(s.push(e)[0] == e);
        assert(without_key(Seq::<(Seq<char>, Seq<char>)>::empty(), k) =~= Seq::<(
            Seq<char>,
            Seq<char>,
        )>::empty());
        if e.0 != k {
            assert(without_key(s.push(e), k) =~= seq![e]);
            assert(without_key(s, k).push(e) =~= seq![e]);
        }
    } else {
        lemma_without_key_push(s.drop_first(), e, k);
        assert(s.push(e).drop_first() =~= s.drop_first().push(e));
        assert(s.push(e)[0] == s[0]);
        if s[0].0 == k {
            assert(without_key(s.push(e), k) =~= without_key(s.drop_first().push(e), k));
        } else {
            assert(without_key(s.push(e), k) =~= seq![s[0]] + without_key(
                s.drop_first().push(e),
                k,
            ));
            if e.0 != k {
                assert(seq![s[0]] + without_key(s.drop_first(), k).push(e) =~= (seq![s[0]]
                    + without_key(s.drop_first(), k)).push(e));
            }
        }
    }
}

} // verus!
