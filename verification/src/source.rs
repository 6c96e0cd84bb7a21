//! Sources: the music library side of a sync. Identity types, the source
//! adapter contract, and playlist rendering to M3U.

use vstd::prelude::*;
use crate::strutil::{concat_str, strip_prefix_str};

verus! {

/// A song ID: an opaque 64-bit persistent identifier within a source.
#[derive(Clone, Copy, Debug, PartialEq, Eq, Hash, Structural)]
pub struct TrackId(pub u64);

/// A playlist ID: numeric where the source assigns persistent numbers,
/// the display name where it does not (a rename then loses correspondence).
#[derive(Clone, Debug)]
pub enum PlaylistId {
    /// Persistent ID is a number.
    Number(u64),
    /// Persistent ID is a string.
    Name(String),
}

/// The mathematical value of a `PlaylistId`.
pub ghost enum PlaylistIdView {
    Number(u64),
    Name(Seq<char>),
}

impl View for PlaylistId {
    type V = PlaylistIdView;

    open spec fn view(&self) -> PlaylistIdView {
        match self {
            PlaylistId::Number(n) => PlaylistIdView::Number(*n),
            PlaylistId::Name(s) => PlaylistIdView::Name(s@),
        }
    }
}

impl PartialEq for PlaylistId {
    fn eq(&self, other: &PlaylistId) -> (r: bool) {
        match (self, other) {
            (PlaylistId::Number(a), PlaylistId::Number(b)) => *a == *b,
            (PlaylistId::Name(a), PlaylistId::Name(b)) => *a == *b,
            _ => false,
        }
    }
}

impl vstd::std_specs::cmp::PartialEqSpecImpl for PlaylistId {
    open spec fn obeys_eq_spec() -> bool {
        true
    }

    open spec fn eq_spec(&self, other: &PlaylistId) -> bool {
        self@ == other@
    }
}

impl PlaylistId {
    /// A copy with the same value.
    pub fn duplicate(&self) -> (r: PlaylistId)
        ensures
            r@ == self@,
    {
        match self {
            PlaylistId::Number(n) => PlaylistId::Number(*n),
            PlaylistId::Name(s) => PlaylistId::Name(s.clone()),
        }
    }
}

/// The user rating of a track: absent, or between 1 and 5 stars.
pub type Rating = Option<u8>;

/// A rating is absent or holds between one and five stars.
pub open spec fn rating_wf(r: Rating) -> bool {
    r matches Some(n) ==> 1 <= n <= 5
}

/// Rating equality, as a checked executable step.
pub fn rating_eq(a: Rating, b: Rating) -> (r: bool)
    ensures
        r == (a == b),
{
    match (a, b) {
        (None, None) => true,
        (Some(x), Some(y)) => x == y,
        _ => false,
    }
}

/// The state of one track in a source library.
pub ghost struct TrackView {
    pub name: Seq<char>,
    pub id: TrackId,
    pub path: Seq<char>,
    pub rating: Rating,
    pub rating_is_computed: bool,
    pub size: u64,
}

/// The state of one playlist in a source library: order is significant.
pub ghost struct PlaylistView {
    pub name: Seq<char>,
    pub id: PlaylistIdView,
    pub tracks: Seq<TrackId>,
}

/// The state of a source library.
pub ghost struct SourceView {
    pub name: Seq<char>,
    pub playlists: Seq<PlaylistView>,
    pub tracks: Map<TrackId, TrackView>,
}

impl SourceView {
    /// Every stored rating is within range.
    pub open spec fn wf(self) -> bool {
        forall|id: TrackId|
            self.tracks.dom().contains(id) ==> rating_wf(#[trigger] self.tracks[id].rating)
    }
}

/// A track's state after its rating was set by the user.
pub open spec fn with_rating(tv: TrackView, r: Rating) -> TrackView {
    TrackView { rating: r, rating_is_computed: false, ..tv }
}

/// A track's reported rating: a computed rating is reported as absent
/// unless computed ratings were asked for.
pub open spec fn effective_rating(tv: TrackView, use_computed: bool) -> Rating {
    if tv.rating_is_computed && !use_computed {
        None
    } else {
        tv.rating
    }
}

/// A snapshot of one track, as an adapter fetched it. A `None` path or
/// size records that the backend failed to provide that attribute.
pub struct Track {
    pub name: String,
    pub id: TrackId,
    pub path: Option<String>,
    pub rating: Rating,
    pub rating_is_computed: bool,
    pub size: Option<u64>,
}

impl Track {
    /// The snapshot agrees with the track state `tv` on everything it holds.
    pub open spec fn consistent_with(self, tv: TrackView) -> bool {
        &&& self.name@ == tv.name
        &&& self.id == tv.id
        &&& (self.path matches Some(p) ==> p@ == tv.path)
        &&& self.rating == tv.rating
        &&& self.rating_is_computed == tv.rating_is_computed
        &&& (self.size matches Some(s) ==> s == tv.size)
    }

    pub fn name(&self) -> (r: String)
        ensures
            r@ == self.name@,
    {
        self.name.clone()
    }

    pub fn id(&self) -> (r: TrackId)
        ensures
            r == self.id,
    {
        self.id
    }

    /// The absolute path of the track's file, when the backend gave one.
    pub fn absolute_path(&self) -> (r: Option<String>)
        ensures
            r matches Some(p) ==> self.path matches Some(q) && p@ == q@,
            r is Some <==> self.path is Some,
    {
        match &self.path {
            Some(p) => Some(p.clone()),
            None => None,
        }
    }

    /// The reported rating, under the computed-ratings policy.
    pub fn rating(&self, use_computed_ratings: bool) -> (r: Rating)
        ensures
            r == self.reported_rating(use_computed_ratings),
            forall|tv: TrackView|
                self.consistent_with(tv) ==> r == effective_rating(tv, use_computed_ratings),
    {
        if self.rating_is_computed && !use_computed_ratings {
            None
        } else {
            self.rating
        }
    }

    /// What `rating` reports for this snapshot.
    pub open spec fn reported_rating(self, use_computed_ratings: bool) -> Rating {
        if self.rating_is_computed && !use_computed_ratings {
            None
        } else {
            self.rating
        }
    }

    /// The file size in bytes, when the backend gave one.
    pub fn file_size(&self) -> (r: Option<u64>)
        ensures
            r == self.size,
    {
        self.size
    }
}

/// A snapshot of one playlist, as an adapter fetched it.
pub struct Playlist {
    pub name: String,
    pub id: PlaylistId,
    pub tracks: Vec<Track>,
}

/// The names of a list of playlist snapshots, in order.
pub open spec fn playlist_names(ps: Seq<Playlist>) -> Seq<Seq<char>> {
    ps.map(|i: int, p: Playlist| p.name@)
}

/// The ids of a playlist snapshot's tracks, in order.
pub open spec fn snapshot_ids(tracks: Seq<Track>) -> Seq<TrackId> {
    tracks.map(|i: int, t: Track| t.id)
}

/// The snapshot agrees with the playlist state `pv`: same identity, same
/// order of tracks, and each track snapshot agrees with the library.
pub open spec fn playlist_matches(
    p: Playlist,
    pv: PlaylistView,
    tracks: Map<TrackId, TrackView>,
) -> bool {
    &&& p.name@ == pv.name
    &&& p.id@ == pv.id
    &&& snapshot_ids(p.tracks@) == pv.tracks
    &&& forall|i: int|
        0 <= i < p.tracks@.len() ==> tracks.dom().contains(#[trigger] p.tracks@[i].id)
            && p.tracks@[i].consistent_with(tracks[p.tracks@[i].id])
}

/// The snapshot agrees with some playlist of the library.
pub open spec fn playlist_consistent(p: Playlist, sv: SourceView) -> bool {
    exists|i: int|
        0 <= i < sv.playlists.len() && playlist_matches(p, #[trigger] sv.playlists[i], sv.tracks)
}

/// What `sanitize_filename::sanitize_with_options` returns for a name,
/// under fixed options.
pub uninterp spec fn sanitized_of(name: Seq<char>) -> Seq<char>;

/// Relies on `sanitize_filename::sanitize_with_options`. The options are
/// pinned (windows rules, truncation, empty replacement) so that the result
/// is a function of the name alone, the same on every platform.
#[verifier::external_body]
fn sanitize_name(name: &str) -> (r: String)
    ensures
        r@ == sanitized_of(name@),
{
    sanitize_filename::sanitize_with_options(
        name,
        sanitize_filename::Options { windows: true, truncate: true, replacement: "" },
    )
}

impl Playlist {
    pub fn name(&self) -> (r: String)
        ensures
            r@ == self.name@,
    {
        self.name.clone()
    }

    pub fn id(&self) -> (r: PlaylistId)
        ensures
            r@ == self.id@,
    {
        self.id.duplicate()
    }

    /// The ids of the snapshot's tracks, in order.
    pub fn track_ids(&self) -> (r: Vec<TrackId>)
        ensures
            r@ == snapshot_ids(self.tracks@),
    {
        let mut ids: Vec<TrackId> = Vec::new();
        let mut i: usize = 0;
        while i < self.tracks.len()
            invariant
                i <= self.tracks@.len(),
                ids@ =~= snapshot_ids(self.tracks@).subrange(0, i as int),
            decreases self.tracks@.len() - i,
        {
            ids.push(self.tracks[i].id);
            proof {
                assert(snapshot_ids(self.tracks@).subrange(0, i + 1) =~= snapshot_ids(
                    self.tracks@,
                ).subrange(0, i as int).push(self.tracks@[i as int].id));
            }
            i += 1;
        }
        proof {
            assert(ids@ =~= snapshot_ids(self.tracks@));
        }
        ids
    }

    /// The sanitized playlist name with the `.m3u` extension.
    pub fn suitable_filename(&self) -> (r: String)
        ensures
            r@ == sanitized_of(self.name@) + ".m3u"@,
    {
        let sanitized = sanitize_name(self.name.as_str());
        concat_str(sanitized.as_str(), ".m3u")
    }

    /// Render this playlist as M3U: each track's path relative to
    /// `common_ancestor`, prefixed and joined with `"\r\n"`. A track whose
    /// path is unavailable or not under the ancestor is an error.
    pub fn to_m3u(&self, common_ancestor: &str, prefix_to_add: &str) -> (r: Result<
        String,
        String,
    >)
        ensures
            r matches Ok(s) ==> tracks_under(self.tracks@, common_ancestor@) && s@
                == m3u_rendered(rel_paths(self.tracks@, common_ancestor@), prefix_to_add@),
            r is Err <==> !tracks_under(self.tracks@, common_ancestor@),
            r matches Err(e) ==> exists|j: int|
                #![trigger self.tracks@[j]]
                0 <= j < self.tracks@.len() && track_rel(self.tracks@[j], common_ancestor@)
                    is None && (forall|i: int|
                    0 <= i < j ==> track_rel(#[trigger] self.tracks@[i], common_ancestor@)
                        is Some) && e@ == not_under_text(self.tracks@[j].name@, common_ancestor@),
    {
        let mut rels: Vec<String> = Vec::new();
        let mut i: usize = 0;
        while i < self.tracks.len()
            invariant
                i <= self.tracks@.len(),
                forall|j: int| 0 <= j < i ==> track_rel(#[trigger] self.tracks@[j], common_ancestor@) is Some,
                rels.deep_view() =~~= rel_paths(self.tracks@.subrange(0, i as int), common_ancestor@),
            decreases self.tracks@.len() - i,
        {
            let track = &self.tracks[i];
            let rel = match track.absolute_path() {
                None => {
                    proof {
                        assert(track_rel(self.tracks@[i as int], common_ancestor@) is None);
                    }
                    return Err(not_under_message(track.name.as_str(), common_ancestor));
                },
                Some(p) => {
                    let pre = dir_prefix_exec(common_ancestor);
                    match strip_prefix_str(p.as_str(), pre.as_str()) {
                        None => {
                            proof {
                                assert(track_rel(self.tracks@[i as int], common_ancestor@)
                                    is None);
                            }
                            return Err(not_under_message(track.name.as_str(), common_ancestor));
                        },
                        Some(rest) => rest,
                    }
                },
            };
            proof {
                assert(rel@ == track_rel(self.tracks@[i as int], common_ancestor@).unwrap());
                assert(rel_paths(self.tracks@.subrange(0, i + 1), common_ancestor@) =~~= rel_paths(
                    self.tracks@.subrange(0, i as int),
                    common_ancestor@,
                ).push(rel@));
            }
            rels.push(rel);
            i += 1;
        }
        proof {
            assert(self.tracks@.subrange(0, self.tracks@.len() as int) =~= self.tracks@);
            assert(rels.deep_view() =~~= rel_paths(self.tracks@, common_ancestor@));
        }
        create_m3u(&rels, prefix_to_add)
    }
}

/// The error text naming a track that cannot be made relative.
pub open spec fn not_under_text(track_name: Seq<char>, anc: Seq<char>) -> Seq<char> {
    "Track '"@ + track_name + "' is not a child of the common ancestor '"@ + anc + "'"@
}

/// Render the error text naming a track that cannot be made relative.
fn not_under_message(track_name: &str, ancestor: &str) -> (r: String)
    ensures
        r@ == not_under_text(track_name@, ancestor@),
{
    let mut m = String::new();
    m.append("Track '");
    m.append(track_name);
    m.append("' is not a child of the common ancestor '");
    m.append(ancestor);
    m.append("'");
    proof {
        assert(m@ =~= not_under_text(track_name@, ancestor@));
    }
    m
}

/// Path separators normalised to forward slashes.
pub open spec fn slashified(s: Seq<char>) -> Seq<char> {
    s.map(|i: int, c: char| if c == '\\' { '/' } else { c })
}

/// `prefix` and `rel` joined with a single separator.
pub open spec fn joined_path(prefix: Seq<char>, rel: Seq<char>) -> Seq<char> {
    if prefix.len() == 0 {
        rel
    } else if prefix.last() == '/' {
        prefix + rel
    } else {
        prefix + seq!['/'] + rel
    }
}

/// The M3U text for a list of relative paths: one line per path, prefixed,
/// separators normalised, lines joined with `"\r\n"`, no header.
pub open spec fn m3u_rendered(paths: Seq<Seq<char>>, prefix: Seq<char>) -> Seq<char>
    decreases paths.len(),
{
    if paths.len() == 0 {
        Seq::<char>::empty()
    } else if paths.len() == 1 {
        slashified(joined_path(prefix, paths[0]))
    } else {
        slashified(joined_path(prefix, paths[0])) + seq!['\r', '\n'] + m3u_rendered(
            paths.drop_first(),
            prefix,
        )
    }
}

proof fn lemma_m3u_rendered_push(paths: Seq<Seq<char>>, prefix: Seq<char>, x: Seq<char>)
    requires
        paths.len() >= 1,
    ensures
        m3u_rendered(paths.push(x), prefix) =~= m3u_rendered(paths, prefix) + seq!['\r', '\n']
            + slashified(joined_path(prefix, x)),
    decreases paths.len(),
{
    if paths.len() == 1 {
        assert(paths.push(x)[0] == paths[0]);
        assert(paths.push(x).drop_first() =~= seq![x]);
        assert(seq![x][0] == x);
        assert(m3u_rendered(seq![x], prefix) == slashified(joined_path(prefix, x)));
    } else {
        lemma_m3u_rendered_push(paths.drop_first(), prefix, x);
        assert(paths.push(x).drop_first() =~= paths.drop_first().push(x));
        assert(paths.push(x)[0] == paths[0]);
        assert(m3u_rendered(paths.push(x), prefix) == slashified(joined_path(prefix, paths[0]))
            + seq!['\r', '\n'] + m3u_rendered(paths.drop_first().push(x), prefix));
    }
}

/// The directory `anc` as a path prefix: with a trailing separator.
pub open spec fn dir_prefix(anc: Seq<char>) -> Seq<char> {
    if anc.len() == 0 || anc.last() == '/' {
        anc
    } else {
        anc + seq!['/']
    }
}

pub(crate) fn dir_prefix_exec(anc: &str) -> (r: String)
    ensures
        r@ == dir_prefix(anc@),
{
    proof {
        reveal_strlit("/");
    }
    let len = anc.unicode_len();
    if len == 0 || anc.get_char(len - 1) == '/' {
        anc.to_owned()
    } else {
        let r = concat_str(anc, "/");
        proof {
            assert(r@ =~= anc@ + seq!['/']);
        }
        r
    }
}

/// A track's path relative to the ancestor directory, when it lies under it.
pub open spec fn track_rel(t: Track, anc: Seq<char>) -> Option<Seq<char>> {
    match t.path {
        Option::None => Option::None,
        Option::Some(p) => {
            let pre = dir_prefix(anc);
            if pre.is_prefix_of(p@) {
                Option::Some(p@.skip(pre.len() as int))
            } else {
                Option::None
            }
        },
    }
}

/// Every track has a path under the ancestor.
pub open spec fn tracks_under(tracks: Seq<Track>, anc: Seq<char>) -> bool {
    forall|i: int| 0 <= i < tracks.len() ==> track_rel(#[trigger] tracks[i], anc) is Some
}

/// The relative paths of the tracks, in order.
pub open spec fn rel_paths(tracks: Seq<Track>, anc: Seq<char>) -> Seq<Seq<char>> {
    tracks.map(|i: int, t: Track| track_rel(t, anc).unwrap())
}

/// Normalise separators to forward slashes.
pub(crate) fn slashify(s: &str) -> (r: String)
    ensures
        r@ == slashified(s@),
{
    let len = s.unicode_len();
    let mut r = String::new();
    let mut i: usize = 0;
    while i < len
        invariant
            i <= len,
            len == s@.len(),
            r@ =~= slashified(s@.subrange(0, i as int)),
        decreases len - i,
    {
        let c = s.get_char(i);
        if c == '\\' {
            r.push('/');
        } else {
            r.push(c);
        }
        proof {
            assert(slashified(s@.subrange(0, i + 1)) =~= slashified(
                s@.subrange(0, i as int),
            ).push(if s@[i as int] == '\\' { '/' } else { s@[i as int] }));
        }
        i += 1;
    }
    proof {
        assert(s@.subrange(0, len as int) =~= s@);
    }
    r
}

pub(crate) fn joined_path_exec(prefix: &str, rel: &str) -> (r: String)
    ensures
        r@ == joined_path(prefix@, rel@),
{
    let plen = prefix.unicode_len();
    if plen == 0 {
        rel.to_owned()
    } else if prefix.get_char(plen - 1) == '/' {
        concat_str(prefix, rel)
    } else {
        let mut r = prefix.to_owned();
        r.append("/");
        r.append(rel);
        proof {
            reveal_strlit("/");
            assert(r@ =~= joined_path(prefix@, rel@));
        }
        r
    }
}

/// Render an M3U file for relative paths: prefix each path, convert any
/// backslash separator to a forward slash, and join with `"\r\n"`. No
/// `#EXTM3U` header is produced.
pub fn create_m3u(songs_relative_paths: &Vec<String>, prefix_to_add: &str) -> (r: Result<
    String,
    String,
>)
    ensures
        r matches Ok(s) && s@ == m3u_rendered(songs_relative_paths.deep_view(), prefix_to_add@),
{
    let mut out = String::new();
    let mut i: usize = 0;
    while i < songs_relative_paths.len()
        invariant
            i <= songs_relative_paths@.len(),
            out@ =~= m3u_rendered(
                songs_relative_paths.deep_view().subrange(0, i as int),
                prefix_to_add@,
            ),
        decreases songs_relative_paths@.len() - i,
    {
        let line = slashify(joined_path_exec(prefix_to_add, songs_relative_paths[i].as_str()).as_str());
        proof {
            let dv = songs_relative_paths.deep_view();
            assert(dv[i as int] == songs_relative_paths@[i as int]@);
            assert(line@ == slashified(joined_path(prefix_to_add@, dv[i as int])));
            if i == 0 {
                assert(dv.subrange(0, 1) =~= seq![dv[0]]);
            } else {
                lemma_m3u_rendered_push(dv.subrange(0, i as int), prefix_to_add@, dv[i as int]);
                assert(dv.subrange(0, i + 1) =~= dv.subrange(0, i as int).push(dv[i as int]));
            }
        }
        if i > 0 {
            out.append("\r\n");
            proof {
                reveal_strlit("\r\n");
                assert("\r\n"@ =~= seq!['\r', '\n']);
            }
        }
        out.append(line.as_str());
        i += 1;
    }
    proof {
        assert(songs_relative_paths.deep_view().subrange(
            0,
            songs_relative_paths@.len() as int,
        ) =~= songs_relative_paths.deep_view());
    }
    Ok(out)
}

/// The uniform capability surface over a music library that the sync
/// engine consumes. Backends implement it; the in-memory source in this
/// crate is the verified model implementation.
pub trait Source: Sized {
    /// The current state of the library. An unverified backend may leave
    /// the default, of which nothing is known.
    open spec fn view(&self) -> SourceView {
        SourceView { name: Seq::empty(), playlists: Seq::empty(), tracks: Map::empty() }
    }

    /// A stable identifier for this source.
    fn name(&self) -> (r: String)
        ensures
            r@ == self.view().name,
    ;

    /// The library's user playlists. A backend may fail to enumerate.
    fn playlists(&self) -> (r: Result<Vec<Playlist>, String>)
        ensures
            r matches Ok(ps) ==> forall|i: int|
                0 <= i < ps@.len() ==> playlist_consistent(#[trigger] ps@[i], self.view()),
    ;

    /// Look a playlist up by display name; absent or unreadable is `None`.
    fn playlist_by_name(&self, name: &str) -> (r: Option<Playlist>)
        ensures
            r matches Some(p) ==> p.name@ == name@ && playlist_consistent(p, self.view()),
    ;

    /// Look a playlist up by its persistent ID.
    fn playlist_by_id(&self, id: &PlaylistId) -> (r: Option<Playlist>)
        ensures
            r matches Some(p) ==> p.id@ == id@ && playlist_consistent(p, self.view()),
    ;

    /// Look a track up by its persistent ID.
    fn track_by_id(&self, id: TrackId) -> (r: Option<Track>)
        ensures
            r matches Some(t) ==> t.id == id && self.view().tracks.dom().contains(id)
                && t.consistent_with(self.view().tracks[id]),
    ;

    /// Set a track's user rating. On success the track holds the new
    /// rating as a user-set one; on failure the library is unchanged.
    fn set_rating(&mut self, id: TrackId, new_rating: Rating) -> (r: Result<(), String>)
        requires
            rating_wf(new_rating),
        ensures
            final(self).view().name == old(self).view().name,
            final(self).view().playlists == old(self).view().playlists,
            r matches Ok(u) ==> old(self).view().tracks.dom().contains(id) && final(self).view().tracks
                == old(self).view().tracks.insert(
                id,
                with_rating(old(self).view().tracks[id], new_rating),
            ),
            r is Err ==> final(self).view().tracks == old(self).view().tracks,
    ;

    /// Make every playlist with this ID hold exactly `new_content`, order
    /// and duplicates included. On failure a partial edit of those
    /// playlists' contents may remain; nothing else changes.
    fn change_contents_to(&mut self, id: &PlaylistId, new_content: &Vec<TrackId>) -> (r: Result<
        (),
        String,
    >)
        ensures
            final(self).view().name == old(self).view().name,
            final(self).view().tracks == old(self).view().tracks,
            final(self).view().playlists.len() == old(self).view().playlists.len(),
            forall|i: int|
                0 <= i < old(self).view().playlists.len() ==> {
                    let before = #[trigger] old(self).view().playlists[i];
                    let after = final(self).view().playlists[i];
                    after.name == before.name && after.id == before.id && (before.id != id@
                        ==> after.tracks == before.tracks)
                },
            r matches Ok(u) ==> forall|i: int|
                0 <= i < old(self).view().playlists.len() && (#[trigger] old(
                    self,
                ).view().playlists[i]).id == id@ ==> final(self).view().playlists[i].tracks
                    == new_content@,
    ;
}

} // verus!

