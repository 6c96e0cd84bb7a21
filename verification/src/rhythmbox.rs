//! The decision logic of a Rhythmbox-backed source. The bus calls
//! themselves live outside the library; what is here is the pure part:
//! object-path parsing and rendering, and the step function that decides
//! how to edit a playlist that offers no reorder primitive.

use vstd::prelude::*;
use crate::numfmt::{dec_of, u64_to_dec};
use crate::source::{Rating, TrackId};
use crate::strutil::concat_str;

verus! {

/// A playlist as the bus exposes it: a display name, and a per-session
/// numeric address that is not valid across restarts.
pub struct RhythmboxPlaylist {
    pub name: String,
    /// A memory address; not valid again after the player restarts.
    pub temp_address: u64,
}

impl RhythmboxPlaylist {
    /// The object path of this playlist for the current session.
    pub fn runtime_dbus_path(&self) -> (r: String)
        ensures
            r@ == "/org/gnome/UPnP/MediaServer2/Playlists/"@ + dec_of(self.temp_address as nat),
    {
        let digits = u64_to_dec(self.temp_address);
        concat_str("/org/gnome/UPnP/MediaServer2/Playlists/", digits.as_str())
    }
}

/// A library entry as the bus exposes it: identity, display name, the
/// URL-encoded file path used to address it, and its rating.
pub struct RhythmboxEntry {
    pub display_name: String,
    pub entry_id: TrackId,
    pub encoded_file_path: String,
    pub rating: Rating,
}

impl RhythmboxEntry {
    /// The persistent id of this entry.
    pub fn persistent_id(&self) -> (r: TrackId)
        ensures
            r == self.entry_id,
    {
        self.entry_id
    }

    /// The URL-encoded file path that addresses this entry on the bus.
    pub fn encoded_file_path(&self) -> (r: &str)
        ensures
            r@ == self.encoded_file_path@,
    {
        self.encoded_file_path.as_str()
    }
}

/// One step of reshaping a playlist that only supports appending and
/// removing by file: what to do given the entry currently found at the
/// position under reconciliation.
pub enum EditAction {
    /// The entry at the position is already the required one: move on.
    KeepAndAdvance,
    /// Remove this file from the playlist and look at the position again.
    Remove(String),
    /// The playlist ran out of entries: append the required track.
    Add(TrackId),
    /// Both the required list and the playlist are exhausted: done.
    Finished,
}

/// Decide one reconciliation step while required tracks remain: keep a
/// matching entry, remove a mismatching one, or append the required track
/// at the end. Driving this to completion, then trimming the leftover
/// tail, makes the playlist equal the required order -- add and remove
/// are the only primitives the bus offers.
pub fn change_contents_to_inner(
    required_id: Option<TrackId>,
    current: &Option<RhythmboxEntry>,
) -> (r: EditAction)
    ensures
        match r {
            EditAction::KeepAndAdvance => current matches Some(e) && required_id matches Some(
                id,
            ) && e.entry_id == id,
            EditAction::Remove(url) => current matches Some(e) && (required_id matches Some(id)
                ==> e.entry_id != id) && url@ == e.encoded_file_path@,
            EditAction::Add(id) => current is None && required_id == Some(id),
            EditAction::Finished => current is None && required_id is None,
        },
{
    match (required_id, current) {
        (Some(id), Some(entry)) => {
            if entry.persistent_id() == id {
                // Both lists match up to this position; proceed to the
                // next required track.
                EditAction::KeepAndAdvance
            } else {
                // Remove the non-matching entry; maybe the next one fits.
                EditAction::Remove(entry.encoded_file_path.clone())
            }
        },
        (Some(id), None) => {
            // The playlist has no more entries: append the required track.
            EditAction::Add(id)
        },
        (None, Some(entry)) => {
            // The required list is exhausted: every leftover entry goes.
            EditAction::Remove(entry.encoded_file_path.clone())
        },
        (None, None) => EditAction::Finished,
    }
}

} // verus!
