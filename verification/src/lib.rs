//! StarSync: synchronize a music library (a source) with a portable device.
//!
//! The crate is organised leaves-first: identity types and adapter traits,
//! the M3U codec, the sync-info manifest, the playlist classifier, and on
//! top of them the reverse-sync and forward-sync engines driven by a
//! per-cycle orchestrator.

pub mod assoc;
pub mod config;
pub mod device;
pub mod lines;
pub mod memory;
pub mod numfmt;
pub mod rhythmbox;
pub mod source;
pub mod sync;
pub mod utils;
pub mod strutil;

use vstd::prelude::*;
use crate::config::Config;
use crate::device::{Device, DeviceView};
use crate::source::Source;

verus! {

/// Why initialising a device failed.
#[derive(Debug)]
pub enum InitError {
    /// The named source is not available.
    SourceNotFound(String),
    /// The named device is not available.
    DeviceNotFound(String),
    /// The device looks initialised already; de-initialise it first.
    AlreadyInited,
    /// The device cannot be written.
    WriteError,
}

/// Why de-initialising a device failed.
#[derive(Debug)]
pub enum DeinitError {
    /// The named device is not available.
    DeviceNotFound(String),
    /// The device was not initialised.
    NotInited,
    /// The device cannot be written.
    WriteError,
}

/// Initialise a device for a source: create the layout, store a template
/// configuration selecting every playlist of the source, and return where
/// the configuration lives.
pub fn init_device<S: Source, D: Device>(device: &mut D, source: &S, source_name: &str) -> (r:
    Result<String, InitError>)
    ensures
        r matches Ok(path) ==> final(device).view().inited && (final(device).view().config
            matches Some(c) && c.source == source_name@ && c.include_ratings == true
            && c.use_computed_ratings == false && (exists|ps: Seq<crate::source::Playlist>|
            #![trigger crate::source::playlist_names(ps)]
            (forall|i: int|
                0 <= i < ps.len() ==> crate::source::playlist_consistent(ps[i], source.view()))
                && c.playlists == crate::source::playlist_names(ps))),
        r matches Err(e) ==> (e is SourceNotFound || e is AlreadyInited ==> final(device).view()
            == old(device).view()),
        r matches Err(e) ==> (e is AlreadyInited ==> old(device).view().inited),
        r matches Err(e) ==> (e is WriteError ==> final(device).view() == old(device).view()
            || final(device).view() == DeviceView::fresh()),
{
    // Get a template config file.
    let all_playlists = match source.playlists() {
        Err(e) => {
            return Err(InitError::SourceNotFound(source_name.to_owned()));
        },
        Ok(ps) => ps,
    };
    let template_config = Config::new_template(source_name, &all_playlists);

    // Create the layout on the device.
    if device.is_inited() {
        return Err(InitError::AlreadyInited);
    }
    if device.create_folders().is_err() {
        return Err(InitError::WriteError);
    }

    // Store the config onto the device.
    if device.push_config(&template_config).is_err() {
        return Err(InitError::WriteError);
    }

    Ok(device.config_display_path())
}

/// Remove the sync layout from a device.
pub fn deinit_device<D: Device>(device: &mut D) -> (r: Result<(), DeinitError>)
    ensures
        r matches Ok(u) ==> final(device).view() == DeviceView::empty(),
        r is Err ==> final(device).view() == old(device).view(),
{
    if !device.is_inited() {
        return Err(DeinitError::NotInited);
    }
    if device.remove_folders().is_err() {
        return Err(DeinitError::WriteError);
    }
    Ok(())
}

} // verus!
