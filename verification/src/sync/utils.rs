//! The playlist classifier, the file-set built from the source, and the
//! case-insensitive path set difference used by forward-sync.

use vstd::prelude::*;
use crate::source::{Rating, TrackId};
use crate::strutil::{concat_str, lower_of, lowercase, str_eq, strip_prefix_str, strip_suffix_str};
use crate::numfmt::{dec_of, digit_char, u64_to_dec};

verus! {

/// Which family of playlist files a scan is after.
#[derive(Clone, Copy, Debug, PartialEq, Eq, Structural)]
pub enum RequestedPlaylistKind {
    /// Regular user playlists.
    Regular,
    /// Synthetic playlists that are just a bag of songs with a given rating.
    Ratings,
}

/// What a playlist file name turned out to be.
#[derive(Debug, PartialEq, Eq)]
pub enum ActualPlaylistKind {
    /// A regular user playlist.
    Regular(String),
    /// A synthetic playlist holding the songs rated with this many stars.
    Ratings(u8),
}

/// The mathematical value of a classification.
pub ghost enum PlaylistKindView {
    Regular(Seq<char>),
    Ratings(u8),
}

impl View for ActualPlaylistKind {
    type V = PlaylistKindView;

    open spec fn view(&self) -> PlaylistKindView {
        match self {
            ActualPlaylistKind::Regular(s) => PlaylistKindView::Regular(s@),
            ActualPlaylistKind::Ratings(n) => PlaylistKindView::Ratings(*n),
        }
    }
}

/// The fixed prefix of a rating-bucket playlist file name.
pub open spec fn ratings_prefix() -> Seq<char> {
    seq!['F', 'a', 'v', 'o', 'u', 'r', 'i', 't', 'e', 's', ' ', '-', ' ']
}

/// The fixed suffix of a rating-bucket playlist file name.
pub open spec fn ratings_suffix() -> Seq<char> {
    seq![' ', 's', 't', 'a', 'r', 's', '.', 'm', '3', 'u']
}

/// The file name of the rating bucket for `n` stars.
pub open spec fn fav_name(n: int) -> Seq<char> {
    ratings_prefix() + seq![digit_char(n)] + ratings_suffix()
}

/// Whether `s` is the bucket name for some valid star count `n`.
pub open spec fn is_fav_name(s: Seq<char>, n: int) -> bool {
    1 <= n <= 5 && s == fav_name(n)
}

/// A file name classifies as `Ratings(n)` exactly when it equals the
/// bucket name for `n` with `n` between 1 and 5; anything else is a
/// regular playlist name. Total and deterministic by construction.
pub open spec fn classify_spec(s: Seq<char>) -> PlaylistKindView {
    if exists|n: int| is_fav_name(s, n) {
        PlaylistKindView::Ratings((choose|n: int| is_fav_name(s, n)) as u8)
    } else {
        PlaylistKindView::Regular(s)
    }
}

/// Two different star counts have different bucket names.
pub proof fn lemma_fav_name_injective(a: int, b: int)
    requires
        1 <= a <= 5,
        1 <= b <= 5,
        fav_name(a) == fav_name(b),
    ensures
        a == b,
{
    assert(fav_name(a)[13] == digit_char(a));
    assert(fav_name(b)[13] == digit_char(b));
    assert(digit_char(a) as int == 48 + a);
    assert(digit_char(b) as int == 48 + b);
}

impl ActualPlaylistKind {
    /// Classify a playlist file name.
    pub fn classify(m3u_file_name: &str) -> (r: ActualPlaylistKind)
        ensures
            r@ == classify_spec(m3u_file_name@),
    {
        proof {
            reveal_strlit("Favourites - ");
            reveal_strlit(" stars.m3u");
            assert("Favourites - "@ =~= ratings_prefix());
            assert(" stars.m3u"@ =~= ratings_suffix());
        }
        let rest = match strip_prefix_str(m3u_file_name, "Favourites - ") {
            Some(rest) => rest,
            None => {
                proof {
                    lemma_not_fav_without_parts(m3u_file_name@);
                }
                return ActualPlaylistKind::Regular(m3u_file_name.to_owned());
            },
        };
        let middle = match strip_suffix_str(rest.as_str(), " stars.m3u") {
            Some(middle) => middle,
            None => {
                proof {
                    let s = m3u_file_name@;
                    assert forall|n: int| !is_fav_name(s, n) by {
                        if 1 <= n <= 5 && s == fav_name(n) {
                            assert(rest@ =~= s.skip(13));
                            assert(rest@.subrange(rest@.len() - 10, rest@.len() as int)
                                =~= ratings_suffix());
                        }
                    }
                }
                return ActualPlaylistKind::Regular(m3u_file_name.to_owned());
            },
        };
        let mlen = middle.as_str().unicode_len();
        if mlen == 1 {
            let c = middle.as_str().get_char(0);
            let cu: u32 = c as u32;
            if cu >= 49 && cu <= 53 {
                let stars: u8 = (cu - 48) as u8;
                proof {
                    let s = m3u_file_name@;
                    assert(middle@[0] == c);
                    assert(s =~= ratings_prefix() + middle@ + ratings_suffix());
                    assert(digit_char(stars as int) as int == 48 + stars);
                    assert(middle@ =~= seq![digit_char(stars as int)]);
                    assert(is_fav_name(s, stars as int));
                    let n = choose|n: int| is_fav_name(s, n);
                    lemma_fav_name_injective(n, stars as int);
                }
                return ActualPlaylistKind::Ratings(stars);
            }
        }
        proof {
            let s = m3u_file_name@;
            assert(s =~= ratings_prefix() + middle@ + ratings_suffix());
            assert forall|n: int| !is_fav_name(s, n) by {
                if 1 <= n <= 5 && s == fav_name(n) {
                    assert(s.len() == 24);
                    assert(middle@.len() == 1);
                    assert(middle@[0] == s[13]);
                    assert(s[13] == digit_char(n));
                    assert(digit_char(n) as int == 48 + n);
                }
            }
        }
        ActualPlaylistKind::Regular(m3u_file_name.to_owned())
    }

    /// Whether this classification is of the requested family.
    pub fn matches(&self, requested: RequestedPlaylistKind) -> (r: bool)
        ensures
            r == match (self@, requested) {
                (PlaylistKindView::Regular(s), RequestedPlaylistKind::Regular) => true,
                (PlaylistKindView::Ratings(n), RequestedPlaylistKind::Ratings) => true,
                _ => false,
            },
    {
        match (self, requested) {
            (ActualPlaylistKind::Regular(s), RequestedPlaylistKind::Regular) => true,
            (ActualPlaylistKind::Ratings(n), RequestedPlaylistKind::Ratings) => true,
            _ => false,
        }
    }

    /// The star count of a rating bucket, absent for a regular playlist.
    pub fn stars(&self) -> (r: Rating)
        ensures
            r == match self@ {
                PlaylistKindView::Ratings(n) => Some(n),
                PlaylistKindView::Regular(s) => None::<u8>,
            },
    {
        match self {
            ActualPlaylistKind::Ratings(stars) => Some(*stars),
            _ => None,
        }
    }
}

/// A name without the bucket prefix or without the bucket suffix is no
/// bucket name.
proof fn lemma_not_fav_without_parts(s: Seq<char>)
    requires
        !(ratings_prefix().is_prefix_of(s) && ratings_suffix().is_suffix_of(s)),
    ensures
        forall|n: int| !is_fav_name(s, n),
{
    assert forall|n: int| !is_fav_name(s, n) by {
        if 1 <= n <= 5 && s == fav_name(n) {
            assert(ratings_prefix().is_prefix_of(s)) by {
                assert(s.subrange(0, 13) =~= ratings_prefix());
            }
            assert(ratings_suffix().is_suffix_of(s)) by {
                assert(s.subrange(s.len() - 10, s.len() as int) =~= ratings_suffix());
            }
        }
    }
}

/// The file name of the rating bucket for a star count.
pub fn favorites_playlist_name(rating: u8) -> (r: String)
    ensures
        r@ == ratings_prefix() + dec_of(rating as nat) + ratings_suffix(),
        1 <= rating <= 5 ==> r@ == fav_name(rating as int),
{
    proof {
        reveal_strlit("Favourites - ");
        reveal_strlit(" stars.m3u");
        assert("Favourites - "@ =~= ratings_prefix());
        assert(" stars.m3u"@ =~= ratings_suffix());
    }
    let digits = u64_to_dec(rating as u64);
    let mut r = concat_str("Favourites - ", digits.as_str());
    r.append(" stars.m3u");
    proof {
        if 1 <= rating <= 5 {
            assert(r@ =~= fav_name(rating as int));
        }
    }
    r
}

/// The classifier sends the bucket name for `n` stars to `Ratings(n)`,
/// for every `n` from one to five.
pub proof fn lemma_classify_favorites(n: u8)
    requires
        1 <= n <= 5,
    ensures
        classify_spec(fav_name(n as int)) == PlaylistKindView::Ratings(n),
{
    let s = fav_name(n as int);
    assert(is_fav_name(s, n as int));
    let w = choose|w: int| is_fav_name(s, w);
    lemma_fav_name_injective(w, n as int);
}

/// A ratings classification always carries one to five stars.
pub proof fn lemma_classify_ratings_range(s: Seq<char>)
    ensures
        classify_spec(s) matches PlaylistKindView::Ratings(n) ==> 1 <= n <= 5,
{
    if exists|n: int| is_fav_name(s, n) {
        let n = choose|n: int| is_fav_name(s, n);
        assert(1 <= n <= 5);
    }
}

/// A name classified as a rating bucket is that bucket's name.
pub proof fn lemma_classify_ratings_name(s: Seq<char>)
    ensures
        classify_spec(s) matches PlaylistKindView::Ratings(n) ==> 1 <= n <= 5 && s == fav_name(
            n as int,
        ),
{
    if exists|n: int| is_fav_name(s, n) {
        let w = choose|n: int| is_fav_name(s, n);
        assert(1 <= w <= 5);
        assert(classify_spec(s) == PlaylistKindView::Ratings(w as u8));
        assert((w as u8) as int == w);
    }
}

/// Per-file record in the file-set.
#[derive(Debug)]
pub struct FileData {
    /// Size (in bytes) of the file.
    pub file_size: u64,
    pub id: TrackId,
    pub rating: Rating,
}

/// The total size of the recorded files, without clamping.
pub open spec fn sum_sizes(s: Seq<(Seq<char>, FileData)>) -> int
    decreases s.len(),
{
    if s.len() == 0 {
        0
    } else {
        s[0].1.file_size + sum_sizes(s.drop_first())
    }
}

/// The view of recorded file data.
pub open spec fn files_data_view(s: Seq<(String, FileData)>) -> Seq<(Seq<char>, FileData)> {
    s.map(|i: int, e: (String, FileData)| (e.0@, e.1))
}

/// The set of files a cycle must leave on the device: paths relative to
/// the common ancestor, each with its size, track and rating.
#[derive(Debug)]
pub struct FileSet {
    pub common_ancestor: String,
    /// Keyed by path relative to `common_ancestor`; keys are distinct.
    pub files_data: Vec<(String, FileData)>,
    /// Total size of this file set in bytes, saturating at the maximum.
    pub total_size: u64,
}

impl FileSet {
    /// Each distinct path counts once, and the total reflects exactly the
    /// recorded entries (saturated if they exceed the counter).
    pub open spec fn wf(self) -> bool {
        &&& crate::assoc::distinct_keys(files_data_view(self.files_data@))
        &&& self.total_size == if sum_sizes(files_data_view(self.files_data@)) > u64::MAX {
            u64::MAX as int
        } else {
            sum_sizes(files_data_view(self.files_data@))
        }
    }

    /// The recorded paths whose rating is exactly `stars`.
    pub fn paths_with_rating(&self, stars: u8) -> (r: Vec<String>)
        ensures
            r.deep_view() == rated_paths(files_data_view(self.files_data@), stars),
    {
        let mut out: Vec<String> = Vec::new();
        let mut i: usize = 0;
        proof {
            assert(files_data_view(self.files_data@).skip(0) =~= files_data_view(
                self.files_data@,
            ));
        }
        while i < self.files_data.len()
            invariant
                i <= self.files_data@.len(),
                rated_paths(files_data_view(self.files_data@), stars) =~~= out.deep_view()
                    + rated_paths(files_data_view(self.files_data@).skip(i as int), stars),
            decreases self.files_data@.len() - i,
        {
            let entry = &self.files_data[i];
            proof {
                let fv = files_data_view(self.files_data@);
                assert(fv.skip(i as int)[0] == fv[i as int]);
                assert(fv.skip(i as int).drop_first() =~= fv.skip(i + 1));
            }
            match entry.1.rating {
                Some(s) if s == stars => {
                    out.push(entry.0.clone());
                },
                _ => {},
            }
            i += 1;
        }
        proof {
            assert(files_data_view(self.files_data@).skip(self.files_data@.len() as int)
                =~= Seq::empty());
            assert(out.deep_view() =~~= rated_paths(files_data_view(self.files_data@), stars));
        }
        out
    }

    /// The recorded paths, bucketed by rating from one to five stars.
    pub fn song_paths_by_rating(&self) -> (r: Vec<(u8, Vec<String>)>)
        ensures
            r@.len() == 5,
            forall|k: int|
                0 <= k < 5 ==> (#[trigger] r@[k]).0 == k + 1 && r@[k].1.deep_view() == rated_paths(
                    files_data_view(self.files_data@),
                    (k + 1) as u8,
                ),
    {
        let mut out: Vec<(u8, Vec<String>)> = Vec::new();
        let mut stars: u8 = 1;
        while stars <= 5
            invariant
                1 <= stars <= 6,
                out@.len() == stars - 1,
                forall|k: int|
                    0 <= k < stars - 1 ==> (#[trigger] out@[k]).0 == k + 1
                        && out@[k].1.deep_view() == rated_paths(
                        files_data_view(self.files_data@),
                        (k + 1) as u8,
                    ),
            decreases 6 - stars,
        {
            out.push((stars, self.paths_with_rating(stars)));
            stars += 1;
        }
        out
    }
}

/// The paths recorded with exactly this rating, in order.
pub open spec fn rated_paths(s: Seq<(Seq<char>, FileData)>, stars: u8) -> Seq<Seq<char>>
    decreases s.len(),
{
    if s.len() == 0 {
        Seq::empty()
    } else {
        let rest = rated_paths(s.drop_first(), stars);
        if s[0].1.rating == Some(stars) {
            seq![s[0].0] + rest
        } else {
            rest
        }
    }
}

/// Whether some element of `s` equals `p` up to case.
pub open spec fn lower_mem(s: Seq<Seq<char>>, p: Seq<char>) -> bool {
    exists|i: int| 0 <= i < s.len() && lower_of(#[trigger] s[i]) == lower_of(p)
}

/// The elements of `left` with no case-insensitive counterpart in `right`,
/// in order.
pub open spec fn ci_diff(left: Seq<Seq<char>>, right: Seq<Seq<char>>) -> Seq<Seq<char>>
    decreases left.len(),
{
    if left.len() == 0 {
        Seq::empty()
    } else {
        let rest = ci_diff(left.drop_first(), right);
        if !lower_mem(right, left[0]) {
            seq![left[0]] + rest
        } else {
            rest
        }
    }
}

/// Whether `needle` occurs in `haystack`, comparing lowered text; the
/// haystack is already lowered.
fn lowered_contains(haystack_lower: &Vec<String>, needle_lower: &str) -> (r: bool)
    ensures
        r == exists|i: int|
            0 <= i < haystack_lower@.len() && (#[trigger] haystack_lower@[i])@ == needle_lower@,
{
    let mut i: usize = 0;
    while i < haystack_lower.len()
        invariant
            i <= haystack_lower@.len(),
            forall|j: int| 0 <= j < i ==> (#[trigger] haystack_lower@[j])@ != needle_lower@,
        decreases haystack_lower@.len() - i,
    {
        if str_eq(haystack_lower[i].as_str(), needle_lower) {
            return true;
        }
        i += 1;
    }
    false
}

/// The paths of `left` that have no case-insensitive counterpart in
/// `right`: membership is decided on lowercased text, the original casing
/// is returned.
pub fn case_insensitive_difference(left: &Vec<String>, right: &Vec<String>) -> (r: Vec<String>)
    ensures
        r.deep_view() == ci_diff(left.deep_view(), right.deep_view()),
{
    let mut right_lower: Vec<String> = Vec::new();
    let mut i: usize = 0;
    while i < right.len()
        invariant
            i <= right@.len(),
            right_lower@.len() == i,
            forall|j: int|
                0 <= j < i ==> (#[trigger] right_lower@[j])@ == lower_of(right.deep_view()[j]),
        decreases right@.len() - i,
    {
        right_lower.push(lowercase(right[i].as_str()));
        i += 1;
    }
    let ghost lv = left.deep_view();
    let ghost rv = right.deep_view();
    let mut out: Vec<String> = Vec::new();
    let mut k: usize = 0;
    proof {
        assert(lv.skip(0) =~= lv);
    }
    while k < left.len()
        invariant
            k <= left@.len(),
            lv == left.deep_view(),
            rv == right.deep_view(),
            right_lower@.len() == rv.len(),
            forall|j: int| 0 <= j < rv.len() ==> (#[trigger] right_lower@[j])@ == lower_of(rv[j]),
            ci_diff(lv, rv) =~~= out.deep_view() + ci_diff(lv.skip(k as int), rv),
        decreases left@.len() - k,
    {
        proof {
            assert(lv.skip(k as int)[0] == lv[k as int]);
            assert(lv.skip(k as int).drop_first() =~= lv.skip(k + 1));
        }
        let l_lower = lowercase(left[k].as_str());
        let present = lowered_contains(&right_lower, l_lower.as_str());
        proof {
            assert(present == lower_mem(rv, lv[k as int])) by {
                if present {
                    let i = choose|i: int|
                        0 <= i < right_lower@.len() && (#[trigger] right_lower@[i])@ == l_lower@;
                    assert(lower_of(rv[i]) == lower_of(lv[k as int]));
                } else {
                    if lower_mem(rv, lv[k as int]) {
                        let i = choose|i: int|
                            0 <= i < rv.len() && lower_of(#[trigger] rv[i]) == lower_of(
                                lv[k as int],
                            );
                        assert(right_lower@[i]@ == l_lower@);
                    }
                }
            }
        }
        if !present {
            out.push(left[k].clone());
        }
        k += 1;
    }
    proof {
        assert(lv.skip(lv.len() as int) =~= Seq::empty());
        assert(out.deep_view() =~~= ci_diff(lv, rv));
    }
    out
}

/// Case-differing paths on the two sides are the same files: when each
/// side is covered by the other up to case, both differences are empty,
/// so nothing is pushed and nothing is deleted.
pub proof fn lemma_case_insensitive_agreement(device: Seq<Seq<char>>, expected: Seq<Seq<char>>)
    requires
        forall|i: int| 0 <= i < device.len() ==> lower_mem(expected, #[trigger] device[i]),
        forall|i: int| 0 <= i < expected.len() ==> lower_mem(device, #[trigger] expected[i]),
    ensures
        ci_diff(device, expected) =~~= Seq::<Seq<char>>::empty(),
        ci_diff(expected, device) =~~= Seq::<Seq<char>>::empty(),
{
    lemma_ci_diff_all_members(device, expected);
    lemma_ci_diff_all_members(expected, device);
}

/// A left side wholly covered by the right yields an empty difference.
proof fn lemma_ci_diff_all_members(left: Seq<Seq<char>>, right: Seq<Seq<char>>)
    requires
        forall|i: int| 0 <= i < left.len() ==> lower_mem(right, #[trigger] left[i]),
    ensures
        ci_diff(left, right) =~~= Seq::<Seq<char>>::empty(),
    decreases left.len(),
{
    if left.len() > 0 {
        assert(lower_mem(right, left[0]));
        assert(forall|i: int|
            0 <= i < left.drop_first().len() ==> #[trigger] left.drop_first()[i] == left[i + 1]);
        lemma_ci_diff_all_members(left.drop_first(), right);
    }
}

} // verus!
