//! Local disks (especially removable drives) as devices: the layout's
//! path arithmetic, verified. The filesystem access itself lives with the
//! backend that mounts these paths.

use vstd::prelude::*;
use crate::source::{joined_path, joined_path_exec, slashified, slashify};

verus! {

/// A local disk, identified by its mount point.
pub struct LocalDevice {
    pub mount_point: String,
}

impl LocalDevice {
    /// The routable name of this device.
    pub fn name(&self) -> (r: String)
        ensures
            r@ == "path://"@ + slashified(self.mount_point@),
    {
        crate::strutil::concat_str("path://", slashify(self.mount_point.as_str()).as_str())
    }

    /// Where the sync layout's root lives on this disk.
    pub fn starsync_folder_path(&self) -> (r: String)
        ensures
            r@ == joined_path(self.mount_point@, "StarSync"@),
    {
        joined_path_exec(self.mount_point.as_str(), crate::device::folder_name())
    }

    /// Where the layout's config folder lives on this disk.
    pub fn config_folder_path(&self) -> (r: String)
        ensures
            r@ == joined_path(joined_path(self.mount_point@, "StarSync"@), "config"@),
    {
        joined_path_exec(
            self.starsync_folder_path().as_str(),
            crate::device::config_folder_name(),
        )
    }

    /// Where the layout's music folder lives on this disk.
    pub fn music_folder_path(&self) -> (r: String)
        ensures
            r@ == joined_path(joined_path(self.mount_point@, "StarSync"@), "music"@),
    {
        joined_path_exec(
            self.starsync_folder_path().as_str(),
            crate::device::music_folder_name(),
        )
    }

    /// A human hint where the config file lives.
    pub fn config_display_path(&self) -> (r: String)
        ensures
            r@ == joined_path(
                joined_path(joined_path(self.mount_point@, "StarSync"@), "config"@),
                "starsync.json"@,
            ),
    {
        joined_path_exec(self.config_folder_path().as_str(), crate::device::config_file())
    }
}

/// A folder on a local disk, by its path.
pub struct LocalFolder(pub String);

impl LocalFolder {
    /// The folder's path.
    pub fn path(&self) -> (r: &str)
        ensures
            r@ == self.0@,
    {
        self.0.as_str()
    }
}

/// A file on a local disk, by its path.
pub struct LocalFile(pub String);

impl LocalFile {
    /// The file's path.
    pub fn path(&self) -> (r: &str)
        ensures
            r@ == self.0@,
    {
        self.0.as_str()
    }
}

} // verus!
