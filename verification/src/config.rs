//! The per-device configuration: which source to sync from, which
//! playlists to mirror, and the rating policy.

use vstd::prelude::*;
use crate::source::Playlist;

verus! {

/// Default for `include_ratings` when the stored config omits it.
pub fn val_true() -> (r: bool)
    ensures
        r == true,
{
    true
}

/// Default for `use_computed_ratings` when the stored config omits it.
pub fn val_false() -> (r: bool)
    ensures
        r == false,
{
    false
}

/// The mathematical value of a configuration.
pub ghost struct ConfigView {
    pub source: Seq<char>,
    pub include_ratings: bool,
    pub use_computed_ratings: bool,
    pub playlists: Seq<Seq<char>>,
}

/// A device's sync configuration.
pub struct Config {
    source: String,
    include_ratings: bool,
    use_computed_ratings: bool,
    playlists: Vec<String>,
}

impl View for Config {
    type V = ConfigView;

    closed spec fn view(&self) -> ConfigView {
        ConfigView {
            source: self.source@,
            include_ratings: self.include_ratings,
            use_computed_ratings: self.use_computed_ratings,
            playlists: self.playlists.deep_view(),
        }
    }
}

impl Config {
    /// A configuration with the given fields, as read from a device.
    pub fn with_fields(
        source: String,
        include_ratings: bool,
        use_computed_ratings: bool,
        playlists: Vec<String>,
    ) -> (r: Config)
        ensures
            r@ == (ConfigView {
                source: source@,
                include_ratings,
                use_computed_ratings,
                playlists: playlists.deep_view(),
            }),
    {
        Config { source, include_ratings, use_computed_ratings, playlists }
    }

    /// The template written when a device is initialised: every playlist
    /// of the source selected, ratings included, computed ratings not used.
    pub fn new_template(source_name: &str, playlists: &Vec<Playlist>) -> (r: Config)
        ensures
            r@.source == source_name@,
            r@.include_ratings == true,
            r@.use_computed_ratings == false,
            r@.playlists == crate::source::playlist_names(playlists@),
    {
        let mut names: Vec<String> = Vec::new();
        let mut i: usize = 0;
        while i < playlists.len()
            invariant
                i <= playlists@.len(),
                names.deep_view() =~~= crate::source::playlist_names(playlists@).subrange(
                    0,
                    i as int,
                ),
            decreases playlists@.len() - i,
        {
            names.push(playlists[i].name());
            proof {
                let m = crate::source::playlist_names(playlists@);
                assert(m.subrange(0, i + 1) =~= m.subrange(0, i as int).push(m[i as int]));
            }
            i += 1;
        }
        proof {
            assert(names.deep_view() =~~= crate::source::playlist_names(playlists@));
        }
        Config {
            source: source_name.to_owned(),
            include_ratings: true,
            use_computed_ratings: false,
            playlists: names,
        }
    }

    /// A copy with the same value.
    pub fn duplicate(&self) -> (r: Config)
        ensures
            r@ == self@,
    {
        let mut names: Vec<String> = Vec::new();
        let mut i: usize = 0;
        while i < self.playlists.len()
            invariant
                i <= self.playlists@.len(),
                names.deep_view() =~~= self.playlists.deep_view().subrange(0, i as int),
            decreases self.playlists@.len() - i,
        {
            names.push(self.playlists[i].clone());
            proof {
                let m = self.playlists.deep_view();
                assert(m.subrange(0, i + 1) =~= m.subrange(0, i as int).push(m[i as int]));
                assert(self.playlists.deep_view()[i as int] == self.playlists@[i as int]@);
            }
            i += 1;
        }
        proof {
            assert(names.deep_view() =~~= self.playlists.deep_view());
        }
        Config {
            source: self.source.clone(),
            include_ratings: self.include_ratings,
            use_computed_ratings: self.use_computed_ratings,
            playlists: names,
        }
    }

    pub fn source(&self) -> (r: &str)
        ensures
            r@ == self@.source,
    {
        self.source.as_str()
    }

    pub fn playlists(&self) -> (r: &Vec<String>)
        ensures
            r.deep_view() == self@.playlists,
    {
        &self.playlists
    }

    pub fn include_ratings(&self) -> (r: bool)
        ensures
            r == self@.include_ratings,
    {
        self.include_ratings
    }

    pub fn use_computed_ratings(&self) -> (r: bool)
        ensures
            r == self@.use_computed_ratings,
    {
        self.use_computed_ratings
    }
}

} // verus!
