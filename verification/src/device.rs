//! Devices: the portable endpoint side of a sync. The device adapter
//! contract, and the folder listings the engine scans.

pub mod disk;
pub mod m3u;

use vstd::prelude::*;
use crate::config::{Config, ConfigView};
use crate::sync::info::{SyncInfo, SyncInfoView};

verus! {

/// The name of the sync layout's root folder on a device.
pub fn folder_name() -> (r: &'static str)
    ensures
        r@ == "StarSync"@,
{
    "StarSync"
}

/// The name of the music folder inside the layout.
pub fn music_folder_name() -> (r: &'static str)
    ensures
        r@ == "music"@,
{
    "music"
}

/// The name of the config folder inside the layout.
pub fn config_folder_name() -> (r: &'static str)
    ensures
        r@ == "config"@,
{
    "config"
}

/// The file name of the stored configuration.
pub fn config_file() -> (r: &'static str)
    ensures
        r@ == "starsync.json"@,
{
    "starsync.json"
}

/// The file name of the stored manifest.
pub fn sync_info_file() -> (r: &'static str)
    ensures
        r@ == "sync-info.json"@,
{
    "sync-info.json"
}

/// A file in a device listing: its full path on the device.
pub struct File {
    pub path: String,
}

/// A folder listing: the folder's path, and every file that lies under it,
/// those of nested folders included, each with its full path.
pub struct Folder {
    pub path: String,
    pub files: Vec<File>,
}

impl Folder {
    /// The full paths of the listed files.
    pub open spec fn file_paths(self) -> Seq<Seq<char>> {
        self.files@.map(|i: int, f: File| f.path@)
    }

    /// Every listed file lies under the folder's path.
    pub open spec fn rooted(self) -> bool {
        forall|i: int|
            0 <= i < self.files@.len() ==> crate::source::dir_prefix(
                self.path@,
            ).is_prefix_of((#[trigger] self.files@[i]).path@)
    }

    /// The listed paths, relative to the folder.
    pub open spec fn rel_file_paths(self) -> Seq<Seq<char>> {
        self.files@.map(
            |i: int, f: File| f.path@.skip(crate::source::dir_prefix(self.path@).len() as int),
        )
    }
}

/// The state of a device, as the engine models it: whether the layout
/// exists, the music files (paths relative to the music folder), the files
/// at the layout's root (playlists), and the two stored documents.
pub ghost struct DeviceView {
    pub inited: bool,
    pub music: Set<Seq<char>>,
    pub root_files: Map<Seq<char>, Seq<char>>,
    pub config: Option<ConfigView>,
    pub sync_info: Option<SyncInfoView>,
}

impl DeviceView {
    /// The state of a device without the layout.
    pub open spec fn empty() -> DeviceView {
        DeviceView {
            inited: false,
            music: Set::empty(),
            root_files: Map::empty(),
            config: None,
            sync_info: None,
        }
    }

    /// The state right after the layout was created.
    pub open spec fn fresh() -> DeviceView {
        DeviceView { inited: true, ..DeviceView::empty() }
    }
}

/// The uniform capability surface over a portable endpoint that the sync
/// engine consumes. Backends implement it; the in-memory device in this
/// crate is the verified model implementation.
pub trait Device: Sized {
    /// The current state of the device. An unverified backend may leave
    /// the default, of which nothing is known.
    open spec fn view(&self) -> DeviceView {
        DeviceView::empty()
    }

    /// The device display name: unique and routable (scheme-prefixed).
    fn name(&self) -> (r: String);

    /// Whether this device has the sync layout.
    fn is_inited(&self) -> (r: bool)
        ensures
            r ==> self.view().inited,
    ;

    /// The layout's root folder: its files are the playlist files. `None`
    /// when the device is not initialised or cannot be read.
    fn starsync_folder(&self) -> (r: Option<Folder>)
        ensures
            r matches Some(f) ==> self.view().inited && f.rooted()
                && f.rel_file_paths().to_set() =~= self.view().root_files.dom(),
    ;

    /// The music folder listing, files of nested folders included.
    fn music_folder(&self) -> (r: Option<Folder>)
        ensures
            r matches Some(f) ==> self.view().inited && f.rooted()
                && f.rel_file_paths().to_set() =~= self.view().music,
    ;

    /// Create the layout `StarSync/{music,config}`. On success the device
    /// holds a fresh, empty layout.
    fn create_folders(&mut self) -> (r: Result<(), String>)
        ensures
            r matches Ok(u) ==> final(self).view() == DeviceView::fresh(),
            r is Err ==> final(self).view() == old(self).view(),
    ;

    /// Remove the layout and everything under it.
    fn remove_folders(&mut self) -> (r: Result<(), String>)
        ensures
            r matches Ok(u) ==> final(self).view() == DeviceView::empty(),
            r is Err ==> final(self).view() == old(self).view(),
    ;

    /// Copy a local file onto the device under the music folder, creating
    /// intermediate directories and overwriting an existing target.
    fn push_music_file(&mut self, local_absolute_path: &str, device_relative_path: &str) -> (r:
        Result<(), String>)
        ensures
            r matches Ok(u) ==> final(self).view() == (DeviceView {
                music: old(self).view().music.insert(device_relative_path@),
                ..old(self).view()
            }),
            r is Err ==> final(self).view() == old(self).view() || final(self).view()
                == (DeviceView {
                music: old(self).view().music.insert(device_relative_path@),
                ..old(self).view()
            }),
    ;

    /// Delete a music file, named relative to the music folder.
    fn delete_music_file(&mut self, device_relative_path: &str) -> (r: Result<(), String>)
        ensures
            r matches Ok(u) ==> final(self).view() == (DeviceView {
                music: old(self).view().music.remove(device_relative_path@),
                ..old(self).view()
            }),
            r is Err ==> final(self).view() == old(self).view(),
    ;

    /// Write a playlist file at the layout's root.
    fn push_playlist(&mut self, content: &str, playlist_name: &str) -> (r: Result<(), String>)
        ensures
            r matches Ok(u) ==> final(self).view() == (DeviceView {
                root_files: old(self).view().root_files.insert(playlist_name@, content@),
                ..old(self).view()
            }),
            r is Err ==> final(self).view() == old(self).view(),
    ;

    /// Read a file at the layout's root.
    fn read_root_file(&self, file_name: &str) -> (r: Result<String, String>)
        ensures
            r matches Ok(c) ==> self.view().root_files.contains_key(file_name@) && c@
                == self.view().root_files[file_name@],
    ;

    /// Delete a file at the layout's root.
    fn delete_root_file(&mut self, file_name: &str) -> (r: Result<(), String>)
        ensures
            r matches Ok(u) ==> final(self).view() == (DeviceView {
                root_files: old(self).view().root_files.remove(file_name@),
                ..old(self).view()
            }),
            r is Err ==> final(self).view() == old(self).view(),
    ;

    /// A human hint where the config file lives.
    fn config_display_path(&self) -> (r: String);

    /// The stored configuration, when present and readable.
    fn config(&self) -> (r: Option<Config>)
        ensures
            r matches Some(c) ==> self.view().config == Some(c@),
    ;

    /// Store the configuration.
    fn push_config(&mut self, config: &Config) -> (r: Result<(), String>)
        ensures
            r matches Ok(u) ==> final(self).view() == (DeviceView {
                config: Some(config@),
                ..old(self).view()
            }),
            r is Err ==> final(self).view() == old(self).view(),
    ;

    /// The manifest of the previous cycle, when present and readable.
    fn previous_sync_infos(&self) -> (r: Option<SyncInfo>)
        ensures
            r matches Some(si) ==> self.view().sync_info == Some(si@),
    ;

    /// Store the manifest; the last write of a cycle.
    fn push_sync_infos(&mut self, sync_infos: &SyncInfo) -> (r: Result<(), String>)
        ensures
            r matches Ok(u) ==> final(self).view() == (DeviceView {
                sync_info: Some(sync_infos@),
                ..old(self).view()
            }),
            r is Err ==> final(self).view() == old(self).view(),
    ;
}

} // verus!
