//! The sync engine: reverse-sync of playlists and ratings, forward-sync of
//! files and playlists, and the per-cycle orchestrator.

pub mod info;
pub mod merge;
pub mod status;
pub mod utils;

pub use info::SyncInfo;

use vstd::prelude::*;
use crate::config::Config;
use crate::device::{Device, DeviceView, Folder};
use crate::device::m3u::{m3u_entries, M3u};
use crate::source::{dir_prefix, PlaylistId, Rating, Source, TrackId};
use crate::strutil::{has_suffix, lower_of, str_eq, strip_prefix_str};
use crate::sync::info::{id_for_rel, SyncInfoView};
use crate::sync::status::{Message, Progress, Sender};
use crate::sync::utils::{ActualPlaylistKind, PlaylistKindView, RequestedPlaylistKind};
use crate::utils::current_hostname;

verus! {

broadcast use {vstd::map::group_map_axioms, vstd::set::group_set_axioms};

/// How many warnings have been issued.
pub type Warnings = usize;

/// A fatal error of a sync cycle, naming the phase that failed.
#[derive(Debug)]
pub enum SyncError {
    /// The configured source is not available.
    SourceNotFound(String),
    /// The requested device is not available.
    DeviceNotFound(String),
    /// The device contents cannot be enumerated.
    DeviceReadError,
    /// The device has no sync layout.
    NotInited,
    /// The validator handshake rejected the cycle.
    SanityChecks,
    /// Scanning the computer for songs has failed.
    SongScanningFailed(String),
    /// Syncing files to the device failed.
    SyncingFilesFailed(String),
    /// Pushing updated playlists to the device failed.
    PushingPlaylistsFailed(String),
    /// Writing the manifest of this cycle to the device failed.
    UpdateSyncInfoFailed(String),
    /// The selected files share no directory; there is no way to know how
    /// they should be laid out on the device.
    NoCommonAncestor,
}

/// Why reverse-sync of playlists aborted.
#[derive(Debug)]
pub enum ReverseSyncPlaylistError {
    /// Unable to get playlists from the device.
    ListingDevicePlaylistsFailed(SyncError),
}

/// Why reverse-sync of ratings aborted.
#[derive(Debug)]
pub enum ReverseSyncRatingsError {
    /// Unable to get playlists from the device.
    ListingDevicePlaylistsFailed(SyncError),
    /// The device does not contain lists of songs for every possible rating.
    MisingRatingsLists,
    /// Some songs on the device are registered with different ratings.
    DuplicateRatingsForASong,
}

/// The results of the sanity check run before a cycle. A failed check may
/// be acknowledged (set back to `None`) after prompting the user; the sync
/// starts only when the acknowledged validator is valid.
pub struct SyncValidator {
    /// When the previous sync was made on another computer: the previous
    /// and the current hostname.
    pub last_sync_computer_mismatch: Option<(String, String)>,
}

impl SyncValidator {
    /// The checks for a cycle, given the current hostname.
    pub fn build_with_hostname(previous_sync_infos: Option<&SyncInfo>, chn: String) -> (r:
        SyncValidator)
        ensures
            r.last_sync_computer_mismatch is Some <==> (previous_sync_infos matches Some(psi)
                && psi@.hostname != chn@),
            r.last_sync_computer_mismatch matches Some(m) ==> previous_sync_infos matches Some(psi)
                && m.0@ == psi@.hostname && m.1@ == chn@,
    {
        let last_sync_computer_mismatch = match previous_sync_infos {
            None => None,
            Some(psi) => {
                if !str_eq(psi.hostname(), chn.as_str()) {
                    Some((psi.hostname().to_owned(), chn))
                } else {
                    None
                }
            },
        };
        SyncValidator { last_sync_computer_mismatch }
    }

    /// The checks for a cycle, against this machine's hostname.
    pub fn build(previous_sync_infos: Option<&SyncInfo>) -> (r: SyncValidator) {
        let chn = current_hostname();
        SyncValidator::build_with_hostname(previous_sync_infos, chn)
    }

    /// Whether every check passed or was acknowledged.
    pub fn is_valid(&self) -> (r: bool)
        ensures
            r == (self.last_sync_computer_mismatch is None),
    {
        self.last_sync_computer_mismatch.is_none()
    }
}

/// The ids the manifest knows for these device paths, in order; unknown
/// paths are dropped.
pub open spec fn known_ids(paths: Seq<Seq<char>>, si: SyncInfoView) -> Seq<TrackId>
    decreases paths.len(),
{
    if paths.len() == 0 {
        Seq::empty()
    } else {
        let rest = known_ids(paths.drop_first(), si);
        match id_for_rel(si, paths[0]) {
            Some(id) => seq![id] + rest,
            None => rest,
        }
    }
}

/// Translate a device playlist to track ids through the previous manifest;
/// a path the manifest does not know is dropped with a warning.
pub fn m3u_to_song_ids(status_tx: &mut Sender, playlist: &M3u, previous_sync_info: &SyncInfo) -> (r:
    Vec<TrackId>)
    requires
        old(status_tx).wf(),
    ensures
        final(status_tx).wf(),
        final(status_tx).progress_log() == old(status_tx).progress_log(),
        r@ == known_ids(playlist@, previous_sync_info@),
        final(status_tx).warnings() >= old(status_tx).warnings(),
        final(status_tx).warnings() == old(status_tx).warnings() <==> (forall|i: int|
            0 <= i < playlist@.len() ==> id_for_rel(previous_sync_info@, #[trigger] playlist@[i])
                is Some),
{
    let paths = playlist.paths();
    let ghost pv = playlist@;
    let mut out: Vec<TrackId> = Vec::new();
    let mut i: usize = 0;
    proof {
        assert(pv.skip(0) =~= pv);
    }
    while i < paths.len()
        invariant
            old(status_tx).wf(),
            status_tx.wf(),
            status_tx.progress_log() == old(status_tx).progress_log(),
            i <= paths@.len(),
            pv == paths.deep_view(),
            known_ids(pv, previous_sync_info@) =~= out@ + known_ids(
                pv.skip(i as int),
                previous_sync_info@,
            ),
            status_tx.warnings() >= old(status_tx).warnings(),
            status_tx.warnings() == old(status_tx).warnings() <==> (forall|j: int|
                0 <= j < i ==> id_for_rel(previous_sync_info@, #[trigger] pv[j]) is Some),
        decreases paths@.len() - i,
    {
        proof {
            assert(pv.skip(i as int)[0] == pv[i as int]);
            assert(pv.skip(i as int).drop_first() =~= pv.skip(i + 1));
            assert(paths.deep_view()[i as int] == paths@[i as int]@);
        }
        match previous_sync_info.id_for_relative_path(paths[i].as_str()) {
            Some(id) => {
                out.push(id);
            },
            None => {
                let mut m = String::new();
                m.append("Unable to get ID for song at path '");
                m.append(paths[i].as_str());
                m.append("' on device.");
                status_tx.send_warning(m);
            },
        }
        i += 1;
    }
    proof {
        assert(pv.skip(pv.len() as int) =~= Seq::empty());
        assert(out@ =~= known_ids(pv, previous_sync_info@));
    }
    out
}

/// The relative paths of the listed files that lie under `root`.
pub open spec fn stripped_under(files: Seq<crate::device::File>, root: Seq<char>) -> Set<
    Seq<char>,
> {
    Set::new(
        |p: Seq<char>|
            exists|i: int|
                0 <= i < files.len() && dir_prefix(root).is_prefix_of(
                    (#[trigger] files[i]).path@,
                ) && files[i].path@.skip(dir_prefix(root).len() as int) == p,
    )
}

/// Whether a path is already present in the collection.
fn vec_contains_str(v: &Vec<String>, needle: &str) -> (r: bool)
    ensures
        r == exists|i: int| 0 <= i < v@.len() && (#[trigger] v@[i])@ == needle@,
{
    let mut i: usize = 0;
    while i < v.len()
        invariant
            i <= v@.len(),
            forall|j: int| 0 <= j < i ==> (#[trigger] v@[j])@ != needle@,
        decreases v@.len() - i,
    {
        if str_eq(v[i].as_str(), needle) {
            return true;
        }
        i += 1;
    }
    false
}

/// How one more listed file extends the stripped path set.
proof fn lemma_stripped_step(fv: Seq<crate::device::File>, root: Seq<char>, i: int)
    requires
        0 <= i < fv.len(),
    ensures
        forall|p: Seq<char>|
            stripped_under(fv.subrange(0, i + 1), root).contains(p) == (stripped_under(
                fv.subrange(0, i),
                root,
            ).contains(p) || (dir_prefix(root).is_prefix_of(fv[i].path@) && fv[i].path@.skip(
                dir_prefix(root).len() as int,
            ) == p)),
{
    assert forall|p: Seq<char>|
        stripped_under(fv.subrange(0, i + 1), root).contains(p) == (stripped_under(
            fv.subrange(0, i),
            root,
        ).contains(p) || (dir_prefix(root).is_prefix_of(fv[i].path@) && fv[i].path@.skip(
            dir_prefix(root).len() as int,
        ) == p)) by {
        if stripped_under(fv.subrange(0, i), root).contains(p) {
            let k = choose|k: int|
                0 <= k < i && dir_prefix(root).is_prefix_of(
                    (#[trigger] fv.subrange(0, i)[k]).path@,
                ) && fv.subrange(0, i)[k].path@.skip(dir_prefix(root).len() as int) == p;
            assert(fv.subrange(0, i + 1)[k] == fv.subrange(0, i)[k]);
            assert(stripped_under(fv.subrange(0, i + 1), root).contains(p));
        }
        if dir_prefix(root).is_prefix_of(fv[i].path@) && fv[i].path@.skip(
            dir_prefix(root).len() as int,
        ) == p {
            assert(fv.subrange(0, i + 1)[i] == fv[i]);
            assert(stripped_under(fv.subrange(0, i + 1), root).contains(p));
        }
        if stripped_under(fv.subrange(0, i + 1), root).contains(p) {
            let k = choose|k: int|
                0 <= k < i + 1 && dir_prefix(root).is_prefix_of(
                    (#[trigger] fv.subrange(0, i + 1)[k]).path@,
                ) && fv.subrange(0, i + 1)[k].path@.skip(dir_prefix(root).len() as int) == p;
            if k < i {
                assert(fv.subrange(0, i)[k] == fv.subrange(0, i + 1)[k]);
                assert(stripped_under(fv.subrange(0, i), root).contains(p));
            } else {
                assert(fv.subrange(0, i + 1)[k] == fv[i]);
            }
        }
    }
}

/// Record each listed file relative to the scan root, once; a file outside
/// the root is a warning.
pub fn populate_device_files(
    status_tx: &mut Sender,
    root_folder_path: &str,
    files_on_device: &mut Vec<String>,
    current_folder: &Folder,
)
    requires
        old(status_tx).wf(),
        crate::assoc::distinct_strs(old(files_on_device).deep_view()),
    ensures
        final(status_tx).wf(),
        final(status_tx).progress_log() == old(status_tx).progress_log(),
        final(status_tx).warnings() >= old(status_tx).warnings(),
        crate::assoc::distinct_strs(final(files_on_device).deep_view()),
        final(files_on_device).deep_view().to_set() =~= old(files_on_device).deep_view().to_set().union(stripped_under(current_folder.files@, root_folder_path@)),
        (current_folder.rooted() && current_folder.path@ == root_folder_path@) ==> final(status_tx).warnings() == old(status_tx).warnings(),
{
    let pre = crate::source::dir_prefix_exec(root_folder_path);
    let ghost fv = current_folder.files@;
    let mut i: usize = 0;
    while i < current_folder.files.len()
        invariant
            old(status_tx).wf(),
            status_tx.wf(),
            status_tx.progress_log() == old(status_tx).progress_log(),
            i <= fv.len(),
            fv == current_folder.files@,
            pre@ == dir_prefix(root_folder_path@),
            crate::assoc::distinct_strs(files_on_device.deep_view()),
            files_on_device.deep_view().to_set() =~= old(
                files_on_device,
            ).deep_view().to_set().union(
                stripped_under(fv.subrange(0, i as int), root_folder_path@),
            ),
            status_tx.warnings() >= old(status_tx).warnings(),
            (forall|j: int|
                0 <= j < i ==> dir_prefix(root_folder_path@).is_prefix_of(
                    (#[trigger] fv[j]).path@,
                )) ==> status_tx.warnings() == old(status_tx).warnings(),
        decreases fv.len() - i,
    {
        let file = &current_folder.files[i];
        let ghost oset = old(files_on_device).deep_view().to_set();
        proof {
            lemma_stripped_step(fv, root_folder_path@, i as int);
        }
        match strip_prefix_str(file.path.as_str(), pre.as_str()) {
            Some(rel) => {
                let ghost before = files_on_device.deep_view();
                let ghost relv = rel@;
                proof {
                    assert(relv == fv[i as int].path@.skip(
                        dir_prefix(root_folder_path@).len() as int,
                    )) by {
                        assert(fv[i as int].path@.subrange(
                            pre@.len() as int,
                            fv[i as int].path@.len() as int,
                        ) =~= fv[i as int].path@.skip(dir_prefix(root_folder_path@).len() as int));
                    }
                    assert(dir_prefix(root_folder_path@).is_prefix_of(fv[i as int].path@));
                    assert forall|p: Seq<char>|
                        stripped_under(fv.subrange(0, i + 1), root_folder_path@).contains(p)
                            == stripped_under(
                            fv.subrange(0, i as int),
                            root_folder_path@,
                        ).insert(relv).contains(p) by {
                        assert(stripped_under(fv.subrange(0, i + 1), root_folder_path@).contains(
                            p,
                        ) == (stripped_under(fv.subrange(0, i as int), root_folder_path@).contains(
                            p,
                        ) || (dir_prefix(root_folder_path@).is_prefix_of(fv[i as int].path@) && fv[
                            i as int
                        ].path@.skip(dir_prefix(root_folder_path@).len() as int) == p)));
                    }
                    assert(stripped_under(fv.subrange(0, i + 1), root_folder_path@)
                        =~= stripped_under(fv.subrange(0, i as int), root_folder_path@).insert(
                        relv,
                    ));
                    assert(forall|j: int|
                        0 <= j < files_on_device@.len()
                            ==> #[trigger] files_on_device.deep_view()[j]
                            == files_on_device@[j]@);
                }
                if !vec_contains_str(files_on_device, rel.as_str()) {
                    proof {
                        assert(forall|j: int| 0 <= j < before.len() ==> before[j] != relv);
                    }
                    files_on_device.push(rel);
                    proof {
                        assert(files_on_device.deep_view() =~~= before.push(relv));
                        assert(files_on_device.deep_view().to_set() =~= before.to_set().insert(
                            relv,
                        )) by {
                            let after = files_on_device.deep_view();
                            assert forall|a: Seq<char>|
                                after.to_set().contains(a) == (before.to_set().contains(a) || a
                                    == relv) by {
                                if after.contains(a) {
                                    let k = choose|k: int|
                                        0 <= k < after.len() && after[k] == a;
                                    if k < before.len() {
                                        assert(before[k] == a);
                                        assert(before.contains(a));
                                    }
                                }
                                if before.contains(a) {
                                    let k = choose|k: int|
                                        0 <= k < before.len() && before[k] == a;
                                    assert(after[k] == a);
                                    assert(after.contains(a));
                                }
                                if a == relv {
                                    assert(after[before.len() as int] == a);
                                    assert(after.contains(a));
                                }
                            }
                        }
                        assert(files_on_device.deep_view().to_set() =~= oset.union(
                            stripped_under(fv.subrange(0, i + 1), root_folder_path@),
                        ));
                    }
                } else {
                    proof {
                        let k = choose|k: int|
                            0 <= k < files_on_device@.len() && (#[trigger] files_on_device@[k])@
                                == relv;
                        assert(before[k] == relv);
                        assert(before.contains(relv));
                        assert(before.to_set().contains(relv));
                        assert(files_on_device.deep_view().to_set() =~= oset.union(
                            stripped_under(fv.subrange(0, i + 1), root_folder_path@),
                        ));
                    }
                }
            },
            None => {
                proof {
                    assert(!dir_prefix(root_folder_path@).is_prefix_of(fv[i as int].path@));
                    assert(stripped_under(fv.subrange(0, i + 1), root_folder_path@)
                        =~= stripped_under(fv.subrange(0, i as int), root_folder_path@));
                }
                let mut m = String::new();
                m.append("Found a file (");
                m.append(file.path.as_str());
                m.append(") that is not included in the root folder ");
                m.append(root_folder_path);
                status_tx.send_warning(m);
            },
        }
        i += 1;
    }
    proof {
        assert(fv.subrange(0, fv.len() as int) =~= fv);
    }
}

/// List every file under the device music folder, as a set of relative
/// paths (each path once). Scanning the actual folders, rather than taking
/// the manifest word for it, keeps the cycle robust to accidental
/// deletions.
pub fn files_on_device<D: Device>(status_tx: &mut Sender, device: &D) -> (r: Result<
    Vec<String>,
    SyncError,
>)
    requires
        old(status_tx).wf(),
    ensures
        final(status_tx).wf(),
        final(status_tx).warnings() == old(status_tx).warnings(),
        final(status_tx).progress_log() == old(status_tx).progress_log().push(
            Progress::ListingFilesOnDevice,
        ),
        r matches Ok(v) ==> device.view().inited && crate::assoc::distinct_strs(v.deep_view())
            && v.deep_view().to_set() =~= device.view().music,
        r matches Err(e) ==> e is DeviceReadError,
{
    status_tx.send_progress(Progress::ListingFilesOnDevice);
    let music_folder = match device.music_folder() {
        None => {
            return Err(SyncError::DeviceReadError);
        },
        Some(f) => f,
    };
    let mut found: Vec<String> = Vec::new();
    let root = music_folder.path.clone();
    populate_device_files(status_tx, root.as_str(), &mut found, &music_folder);
    proof {
        assert(stripped_under(music_folder.files@, music_folder.path@)
            =~= music_folder.rel_file_paths().to_set()) by {
            assert forall|p: Seq<char>|
                music_folder.rel_file_paths().to_set().contains(p) implies stripped_under(
                music_folder.files@,
                music_folder.path@,
            ).contains(p) by {
                let k = choose|k: int|
                    0 <= k < music_folder.rel_file_paths().len()
                        && music_folder.rel_file_paths()[k] == p;
                assert(dir_prefix(music_folder.path@).is_prefix_of(music_folder.files@[k].path@));
            }
            assert forall|p: Seq<char>|
                stripped_under(music_folder.files@, music_folder.path@).contains(
                    p,
                ) implies music_folder.rel_file_paths().to_set().contains(p) by {
                let k = choose|k: int|
                    0 <= k < music_folder.files@.len() && dir_prefix(
                        music_folder.path@,
                    ).is_prefix_of((#[trigger] music_folder.files@[k]).path@)
                        && music_folder.files@[k].path@.skip(
                        dir_prefix(music_folder.path@).len() as int,
                    ) == p;
                assert(music_folder.rel_file_paths()[k] == p);
                assert(music_folder.rel_file_paths().contains(p));
            }
        }
        assert(found.deep_view().to_set() =~= device.view().music);
    }
    Ok(found)
}

/// The case-folded image of a path set.
pub open spec fn lower_set(s: Set<Seq<char>>) -> Set<Seq<char>> {
    Set::new(|q: Seq<char>| exists|p: Seq<char>| #[trigger] s.contains(p) && lower_of(p) == q)
}

/// An element is in the case-insensitive difference exactly when the left
/// side holds it and the right side has no case-insensitive counterpart.
pub proof fn lemma_ci_diff_membership(left: Seq<Seq<char>>, right: Seq<Seq<char>>, p: Seq<char>)
    ensures
        crate::sync::utils::ci_diff(left, right).contains(p) == (left.contains(p)
            && !crate::sync::utils::lower_mem(right, p)),
    decreases left.len(),
{
    let d = crate::sync::utils::ci_diff(left, right);
    if left.len() == 0 {
    } else {
        lemma_ci_diff_membership(left.drop_first(), right, p);
        let rest = crate::sync::utils::ci_diff(left.drop_first(), right);
        if !crate::sync::utils::lower_mem(right, left[0]) {
            assert(d =~= seq![left[0]] + rest);
            if d.contains(p) {
                let k = choose|k: int| 0 <= k < d.len() && d[k] == p;
                if k == 0 {
                    assert(left.contains(p)) by {
                        assert(left[0] == p);
                    }
                } else {
                    assert(rest[k - 1] == p);
                    assert(rest.contains(p));
                    let m = choose|m: int|
                        0 <= m < left.drop_first().len() && left.drop_first()[m] == p;
                    assert(left[m + 1] == p);
                }
            }
            if left.contains(p) && !crate::sync::utils::lower_mem(right, p) {
                let k = choose|k: int| 0 <= k < left.len() && left[k] == p;
                if k == 0 {
                    assert(d[0] == p);
                } else {
                    assert(left.drop_first()[k - 1] == p);
                    assert(left.drop_first().contains(p));
                    let m = choose|m: int| 0 <= m < rest.len() && rest[m] == p;
                    assert(d[m + 1] == p);
                }
            }
        } else {
            assert(d =~= rest);
            if d.contains(p) {
                let m = choose|m: int|
                    0 <= m < left.drop_first().len() && left.drop_first()[m] == p;
                assert(left[m + 1] == p);
            }
            if left.contains(p) && !crate::sync::utils::lower_mem(right, p) {
                let k = choose|k: int| 0 <= k < left.len() && left[k] == p;
                if k == 0 {
                    assert(crate::sync::utils::lower_mem(right, p));
                } else {
                    assert(left.drop_first()[k - 1] == p);
                    assert(left.drop_first().contains(p));
                }
            }
        }
    }
}

/// After deleting the case-insensitive surplus and pushing the
/// case-insensitive deficit, the device holds, up to case, exactly the
/// expected files.
pub proof fn lemma_file_sync_converges(present: Seq<Seq<char>>, expected: Seq<Seq<char>>)
    ensures
        lower_set(
            present.to_set().difference(
                crate::sync::utils::ci_diff(present, expected).to_set(),
            ).union(crate::sync::utils::ci_diff(expected, present).to_set()),
        ) =~= lower_set(expected.to_set()),
{
    let to_delete = crate::sync::utils::ci_diff(present, expected);
    let to_push = crate::sync::utils::ci_diff(expected, present);
    let result = present.to_set().difference(to_delete.to_set()).union(to_push.to_set());
    assert forall|q: Seq<char>|
        lower_set(result).contains(q) implies lower_set(expected.to_set()).contains(q) by {
        let p = choose|p: Seq<char>| #[trigger] result.contains(p) && lower_of(p) == q;
        lemma_ci_diff_membership(present, expected, p);
        lemma_ci_diff_membership(expected, present, p);
        if present.to_set().contains(p) && !to_delete.to_set().contains(p) {
            assert(crate::sync::utils::lower_mem(expected, p));
            let k = choose|k: int|
                0 <= k < expected.len() && lower_of(#[trigger] expected[k]) == lower_of(p);
            assert(expected.to_set().contains(expected[k]));
            assert(lower_set(expected.to_set()).contains(q));
        } else {
            assert(to_push.to_set().contains(p));
            assert(expected.contains(p));
            assert(expected.to_set().contains(p));
        }
    }
    assert forall|q: Seq<char>|
        lower_set(expected.to_set()).contains(q) implies lower_set(result).contains(q) by {
        let e = choose|e: Seq<char>| #[trigger] expected.to_set().contains(e) && lower_of(e) == q;
        lemma_ci_diff_membership(expected, present, e);
        if crate::sync::utils::lower_mem(present, e) {
            let k = choose|k: int|
                0 <= k < present.len() && lower_of(#[trigger] present[k]) == lower_of(e);
            let p = present[k];
            lemma_ci_diff_membership(present, expected, p);
            assert(crate::sync::utils::lower_mem(expected, p)) by {
                let m = choose|m: int| 0 <= m < expected.len() && expected[m] == e;
                assert(lower_of(expected[m]) == lower_of(p));
            }
            assert(present.to_set().contains(p));
            assert(result.contains(p));
            assert(lower_set(result).contains(q));
        } else {
            assert(expected.contains(e));
            assert(to_push.contains(e));
            assert(to_push.to_set().contains(e));
            assert(result.contains(e));
            assert(lower_set(result).contains(q));
        }
    }
}

/// The recorded keys of a file-set, in order.
pub open spec fn file_keys(s: Seq<(String, crate::sync::utils::FileData)>) -> Seq<Seq<char>> {
    s.map(|i: int, e: (String, crate::sync::utils::FileData)| e.0@)
}

/// Push and delete music files so that the device converges, up to path
/// case, on exactly the recorded file-set; deletes go first, a failed push
/// is retried once, and per-file failures are warnings.
pub fn sync_files<D: Device>(
    status_tx: &mut Sender,
    file_set: &crate::sync::utils::FileSet,
    files_on_device: &Vec<String>,
    device: &mut D,
) -> (r: Result<(), SyncError>)
    requires
        old(status_tx).wf(),
        files_on_device.deep_view().to_set() == old(device).view().music,
    ensures
        final(status_tx).wf(),
        final(status_tx).warnings() >= old(status_tx).warnings(),
        final(status_tx).progress_log() == old(status_tx).progress_log().push(
            Progress::SyncingFiles,
        ),
        final(device).view().inited == old(device).view().inited,
        final(device).view().root_files == old(device).view().root_files,
        final(device).view().config == old(device).view().config,
        final(device).view().sync_info == old(device).view().sync_info,
        r matches Err(e) ==> e is DeviceReadError && final(device).view() == old(device).view()
            && final(status_tx).warnings() == old(status_tx).warnings(),
        final(device).view().music.subset_of(
            old(device).view().music.union(
                crate::sync::utils::ci_diff(
                    file_keys(file_set.files_data@),
                    files_on_device.deep_view(),
                ).to_set(),
            ),
        ),
        old(device).view().music.difference(
            crate::sync::utils::ci_diff(
                files_on_device.deep_view(),
                file_keys(file_set.files_data@),
            ).to_set(),
        ).subset_of(final(device).view().music),
        (r is Ok && final(status_tx).warnings() == old(status_tx).warnings()) ==> final(device).view().music =~= old(device).view().music.difference(
            crate::sync::utils::ci_diff(
                files_on_device.deep_view(),
                file_keys(file_set.files_data@),
            ).to_set(),
        ).union(
            crate::sync::utils::ci_diff(
                file_keys(file_set.files_data@),
                files_on_device.deep_view(),
            ).to_set(),
        ),
        (r is Ok && final(status_tx).warnings() == old(status_tx).warnings()) ==> lower_set(
            final(device).view().music,
        ) =~= lower_set(file_keys(file_set.files_data@).to_set()),
{
    let ghost present = files_on_device.deep_view();
    let ghost expectedv = file_keys(file_set.files_data@);

    // What files should there be on the device?
    let mut expected_files: Vec<String> = Vec::new();
    let mut i: usize = 0;
    while i < file_set.files_data.len()
        invariant
            i <= file_set.files_data@.len(),
            expected_files.deep_view() =~~= file_keys(file_set.files_data@).subrange(0, i as int),
        decreases file_set.files_data@.len() - i,
    {
        expected_files.push(file_set.files_data[i].0.clone());
        proof {
            let m = file_keys(file_set.files_data@);
            assert(m.subrange(0, i + 1) =~= m.subrange(0, i as int).push(m[i as int]));
        }
        i += 1;
    }
    proof {
        assert(expected_files.deep_view() =~~= expectedv);
    }

    let files_to_remove = crate::sync::utils::case_insensitive_difference(
        files_on_device,
        &expected_files,
    );
    let paths_to_push = crate::sync::utils::case_insensitive_difference(
        &expected_files,
        files_on_device,
    );

    // Actually sync files
    status_tx.send_progress(Progress::SyncingFiles);
    if device.music_folder().is_none() {
        return Err(SyncError::DeviceReadError);
    }
    let ghost music0 = device.view().music;
    let ghost delv = files_to_remove.deep_view();
    let mut k: usize = 0;
    while k < files_to_remove.len()
        invariant
            old(status_tx).wf(),
            status_tx.wf(),
            status_tx.progress_log() == old(status_tx).progress_log().push(
                Progress::SyncingFiles,
            ),
            k <= delv.len(),
            delv == files_to_remove.deep_view(),
            status_tx.warnings() >= old(status_tx).warnings(),
            device.view().inited == old(device).view().inited,
            device.view().root_files == old(device).view().root_files,
            device.view().config == old(device).view().config,
            device.view().sync_info == old(device).view().sync_info,
            device.view().music.subset_of(music0),
            music0.difference(delv.to_set()).subset_of(device.view().music),
            status_tx.warnings() == old(status_tx).warnings() ==> device.view().music
                =~= music0.difference(delv.subrange(0, k as int).to_set()),
        decreases delv.len() - k,
    {
        proof {
            assert(files_to_remove.deep_view()[k as int] == files_to_remove@[k as int]@);
        }
        let file_to_remove = &files_to_remove[k];
        status_tx.send(Message::RemovingFile(file_to_remove.clone()));
        let ghost music_before = device.view().music;
        proof {
            assert(delv.to_set().contains(delv[k as int])) by {
                assert(delv.contains(delv[k as int]));
            }
        }
        match device.delete_music_file(file_to_remove.as_str()) {
            Ok(u) => {
                proof {
                    assert(delv.subrange(0, k + 1) =~= delv.subrange(0, k as int).push(
                        delv[k as int],
                    ));
                    if status_tx.warnings() == old(status_tx).warnings() {
                        assert(device.view().music =~= music0.difference(
                            delv.subrange(0, k + 1).to_set(),
                        )) by {
                            assert(delv.subrange(0, k + 1).to_set() =~= delv.subrange(
                                0,
                                k as int,
                            ).to_set().insert(delv[k as int])) by {
                                lemma_seq_push_to_set(delv.subrange(0, k as int), delv[k as int]);
                            }
                        }
                    }
                }
            },
            Err(e) => {
                let mut m = String::new();
                m.append("Unable to remove file at ");
                m.append(file_to_remove.as_str());
                m.append(": ");
                m.append(e.as_str());
                status_tx.send_warning(m);
            },
        }
        k += 1;
    }

    let ghost pushv = paths_to_push.deep_view();
    let n_files = paths_to_push.len();
    let mut total_size: u64 = 0;
    let mut j: usize = 0;
    while j < paths_to_push.len()
        invariant
            j <= pushv.len(),
            pushv == paths_to_push.deep_view(),
        decreases pushv.len() - j,
    {
        match crate::assoc::assoc_get(&file_set.files_data, paths_to_push[j].as_str()) {
            Some(data) => {
                total_size = total_size.saturating_add(data.file_size);
            },
            None => {},
        }
        j += 1;
    }

    proof {
        assert(delv.subrange(0, delv.len() as int) =~= delv);
    }
    let ghost music_deleted = device.view().music;
    let mut size_so_far: u64 = 0;
    let mut i_file: usize = 0;
    let mut p: usize = 0;
    while p < paths_to_push.len()
        invariant
            old(status_tx).wf(),
            status_tx.wf(),
            status_tx.progress_log() == old(status_tx).progress_log().push(
                Progress::SyncingFiles,
            ),
            p <= pushv.len(),
            pushv == paths_to_push.deep_view(),
            n_files == pushv.len(),
            status_tx.warnings() >= old(status_tx).warnings(),
            device.view().inited == old(device).view().inited,
            device.view().root_files == old(device).view().root_files,
            device.view().config == old(device).view().config,
            device.view().sync_info == old(device).view().sync_info,
            music_deleted.subset_of(music0),
            music0.difference(delv.to_set()).subset_of(music_deleted),
            music_deleted.subset_of(device.view().music),
            device.view().music.subset_of(music_deleted.union(pushv.to_set())),
            status_tx.warnings() == old(status_tx).warnings() ==> device.view().music
                =~= music_deleted.union(pushv.subrange(0, p as int).to_set()),
            status_tx.warnings() == old(status_tx).warnings() ==> music_deleted
                =~= music0.difference(delv.to_set()),
        decreases pushv.len() - p,
    {
        proof {
            assert(paths_to_push.deep_view()[p as int] == paths_to_push@[p as int]@);
        }
        proof {
            assert(pushv.to_set().contains(pushv[p as int])) by {
                assert(pushv.contains(pushv[p as int]));
            }
        }
        let path_to_push = &paths_to_push[p];
        let file_size: u64 = match crate::assoc::assoc_get(
            &file_set.files_data,
            path_to_push.as_str(),
        ) {
            Some(data) => data.file_size,
            None => 0,
        };
        if i_file < usize::MAX {
            i_file += 1;
        }
        status_tx.send(
            Message::PushingFile {
                path: path_to_push.clone(),
                file_size,
                size_so_far,
                total_size,
                n_files,
                i_file,
            },
        );
        size_so_far = size_so_far.saturating_add(file_size);

        let local_absolute_path = crate::source::joined_path_exec(
            file_set.common_ancestor.as_str(),
            path_to_push.as_str(),
        );
        let ghost music_before = device.view().music;
        let mut pushed = false;
        match device.push_music_file(local_absolute_path.as_str(), path_to_push.as_str()) {
            Ok(u) => {
                pushed = true;
            },
            Err(e) => {
                let mut m = String::new();
                m.append("Unable to push file ");
                m.append(path_to_push.as_str());
                m.append(": ");
                m.append(e.as_str());
                m.append(". Trying again...");
                status_tx.send_warning(m);
                match device.push_music_file(local_absolute_path.as_str(), path_to_push.as_str()) {
                    Ok(u) => {
                        pushed = true;
                    },
                    Err(e2) => {
                        let mut m2 = String::new();
                        m2.append("Unable to push file ");
                        m2.append(path_to_push.as_str());
                        m2.append(": ");
                        m2.append(e2.as_str());
                        m2.append(". Giving up.");
                        status_tx.send_warning(m2);
                    },
                }
            },
        }
        proof {
            if status_tx.warnings() == old(status_tx).warnings() {
                assert(device.view().music =~= music_before.insert(pushv[p as int]));
                assert(pushv.subrange(0, p + 1) =~= pushv.subrange(0, p as int).push(
                    pushv[p as int],
                ));
                lemma_seq_push_to_set(pushv.subrange(0, p as int), pushv[p as int]);
                assert(device.view().music =~= music_deleted.union(
                    pushv.subrange(0, p + 1).to_set(),
                ));
            }
        }
        p += 1;
    }

    proof {
        if status_tx.warnings() == old(status_tx).warnings() {
            assert(delv.subrange(0, delv.len() as int) =~= delv);
            assert(pushv.subrange(0, pushv.len() as int) =~= pushv);
            assert(final(device).view().music =~= music0.difference(delv.to_set()).union(
                pushv.to_set(),
            ));
            assert(music0 == present.to_set());
            lemma_file_sync_converges(present, expectedv);
        }
    }
    Ok(())
}

/// Pushing one element onto a sequence inserts it into the element set.
proof fn lemma_seq_push_to_set(s: Seq<Seq<char>>, x: Seq<char>)
    ensures
        s.push(x).to_set() =~= s.to_set().insert(x),
{
    assert forall|a: Seq<char>|
        #![trigger s.push(x).to_set().contains(a)]
        s.push(x).to_set().contains(a) == (s.to_set().contains(a) || a == x) by {
        if s.push(x).contains(a) {
            let k = choose|k: int| 0 <= k < s.push(x).len() && s.push(x)[k] == a;
            if k < s.len() {
                assert(s[k] == a);
                assert(s.contains(a));
            }
        }
        if s.contains(a) {
            let k = choose|k: int| 0 <= k < s.len() && s[k] == a;
            assert(s.push(x)[k] == a);
            assert(s.push(x).contains(a));
        }
        if a == x {
            assert(s.push(x)[s.len() as int] == a);
            assert(s.push(x).contains(a));
        }
    }
}


/// Whether a root file name is of interest to a scan: an `.m3u` file whose
/// classification matches the requested family, and, for regular
/// playlists, one the previous manifest knows.
pub open spec fn wanted_playlist(
    name: Seq<char>,
    requested: RequestedPlaylistKind,
    psi: SyncInfoView,
) -> bool {
    &&& ".m3u"@.is_suffix_of(name)
    &&& match (requested, crate::sync::utils::classify_spec(name)) {
        (RequestedPlaylistKind::Regular, PlaylistKindView::Regular(n)) => crate::assoc::alookup(
            psi.playlists,
            name,
        ) is Some,
        (RequestedPlaylistKind::Ratings, PlaylistKindView::Ratings(n)) => true,
        _ => false,
    }
}

/// Every wanted playlist file of the device appears in the scan result.
pub open spec fn listing_complete(
    v: Seq<(String, M3u)>,
    dv: DeviceView,
    requested: RequestedPlaylistKind,
    psi: SyncInfoView,
) -> bool {
    forall|name: Seq<char>|
        dv.root_files.contains_key(name) && wanted_playlist(name, requested, psi) ==> exists|
            i: int,
        |
            0 <= i < v.len() && (#[trigger] v[i]).0@ == name
}

/// List and parse the playlist files of the requested family at the
/// layout's root. Every returned entry is a wanted file with its parsed
/// content; when no warning was issued, every wanted file was returned.
#[verifier::rlimit(60)]
pub fn playlists_on_device<D: Device>(
    status_tx: &mut Sender,
    requested_kind: RequestedPlaylistKind,
    device: &D,
    previous_sync_info: &SyncInfo,
) -> (r: Result<Vec<(String, M3u)>, SyncError>)
    requires
        old(status_tx).wf(),
    ensures
        final(status_tx).wf(),
        final(status_tx).warnings() >= old(status_tx).warnings(),
        final(status_tx).progress_log() == old(status_tx).progress_log(),
        r matches Err(e) ==> e is DeviceReadError,
        r matches Ok(v) ==> device.view().inited && (forall|i: int|
            0 <= i < v@.len() ==> {
                &&& wanted_playlist((#[trigger] v@[i]).0@, requested_kind, previous_sync_info@)
                &&& device.view().root_files.contains_key(v@[i].0@)
                &&& v@[i].1@ == m3u_entries(device.view().root_files[v@[i].0@])
            }),
        r matches Ok(v) ==> (forall|i: int, j: int|
            0 <= i < j < v@.len() ==> (#[trigger] v@[i]).0@ != (#[trigger] v@[j]).0@),
        r matches Ok(v) ==> (final(status_tx).warnings() == old(status_tx).warnings()
            ==> listing_complete(v@, device.view(), requested_kind, previous_sync_info@)),
{
    let playlists_folder = match device.starsync_folder() {
        None => {
            return Err(SyncError::DeviceReadError);
        },
        Some(f) => f,
    };
    let mut names: Vec<String> = Vec::new();
    let root = playlists_folder.path.clone();
    populate_device_files(status_tx, root.as_str(), &mut names, &playlists_folder);
    proof {
        assert(stripped_under(playlists_folder.files@, playlists_folder.path@)
            =~= playlists_folder.rel_file_paths().to_set()) by {
            assert forall|p: Seq<char>|
                playlists_folder.rel_file_paths().to_set().contains(p) implies stripped_under(
                playlists_folder.files@,
                playlists_folder.path@,
            ).contains(p) by {
                let k = choose|k: int|
                    0 <= k < playlists_folder.rel_file_paths().len()
                        && playlists_folder.rel_file_paths()[k] == p;
                assert(dir_prefix(playlists_folder.path@).is_prefix_of(
                    playlists_folder.files@[k].path@,
                ));
            }
            assert forall|p: Seq<char>|
                stripped_under(playlists_folder.files@, playlists_folder.path@).contains(
                    p,
                ) implies playlists_folder.rel_file_paths().to_set().contains(p) by {
                let k = choose|k: int|
                    0 <= k < playlists_folder.files@.len() && dir_prefix(
                        playlists_folder.path@,
                    ).is_prefix_of((#[trigger] playlists_folder.files@[k]).path@)
                        && playlists_folder.files@[k].path@.skip(
                        dir_prefix(playlists_folder.path@).len() as int,
                    ) == p;
                assert(playlists_folder.rel_file_paths()[k] == p);
                assert(playlists_folder.rel_file_paths().contains(p));
            }
        }
        assert(names.deep_view().to_set() =~= device.view().root_files.dom());
    }

    let ghost nv = names.deep_view();
    let ghost w0 = status_tx.warnings();
    let mut playlists_on_device: Vec<(String, M3u)> = Vec::new();
    let mut i: usize = 0;
    while i < names.len()
        invariant
            old(status_tx).wf(),
            status_tx.wf(),
            status_tx.progress_log() == old(status_tx).progress_log(),
            i <= nv.len(),
            nv == names.deep_view(),
            crate::assoc::distinct_strs(nv),
            status_tx.warnings() >= w0,
            w0 >= old(status_tx).warnings(),
            forall|a: int, b: int|
                0 <= a < b < playlists_on_device@.len() ==> (#[trigger] playlists_on_device@[
                    a
                ]).0@ != (#[trigger] playlists_on_device@[b]).0@,
            forall|a: int|
                0 <= a < playlists_on_device@.len() ==> exists|j: int|
                    0 <= j < i && (#[trigger] playlists_on_device@[a]).0@ == #[trigger] nv[j],
            forall|k: int|
                0 <= k < playlists_on_device@.len() ==> {
                    &&& wanted_playlist(
                        (#[trigger] playlists_on_device@[k]).0@,
                        requested_kind,
                        previous_sync_info@,
                    )
                    &&& device.view().root_files.contains_key(playlists_on_device@[k].0@)
                    &&& playlists_on_device@[k].1@ == m3u_entries(
                        device.view().root_files[playlists_on_device@[k].0@],
                    )
                },
            status_tx.warnings() == w0 ==> (forall|j: int|
                0 <= j < i && wanted_playlist(
                    #[trigger] nv[j],
                    requested_kind,
                    previous_sync_info@,
                ) ==> exists|k: int|
                    0 <= k < playlists_on_device@.len() && (#[trigger] playlists_on_device@[k]).0@
                        == nv[j]),
        decreases nv.len() - i,
    {
        proof {
            assert(names.deep_view()[i as int] == names@[i as int]@);
        }
        let ghost pv0 = playlists_on_device@;
        let file_name = &names[i];
        if has_suffix(file_name.as_str(), ".m3u") {
            let actual_kind = ActualPlaylistKind::classify(file_name.as_str());
            let process = match (requested_kind, &actual_kind) {
                (RequestedPlaylistKind::Regular, ActualPlaylistKind::Regular(n)) => {
                    if !previous_sync_info.has_playlist_file_name(file_name.as_str()) {
                        // Not selected for sync; ignore it.
                        let mut m = String::new();
                        m.append("File ");
                        m.append(file_name.as_str());
                        m.append(
                            " exists, but the playlist is ignored because it is not selected in the config file.",
                        );
                        status_tx.send_info(m);
                        false
                    } else {
                        true
                    }
                },
                (RequestedPlaylistKind::Ratings, ActualPlaylistKind::Ratings(n)) => true,
                _ => false,
            };
            if process {
                status_tx.send(Message::RetrievingDevicePlaylist(file_name.clone()));
                match device.read_root_file(file_name.as_str()) {
                    Err(e) => {
                        let mut m = String::new();
                        m.append("Unable to get playlist file '");
                        m.append(file_name.as_str());
                        m.append("' from device: ");
                        m.append(e.as_str());
                        status_tx.send_warning(m);
                    },
                    Ok(content) => {
                        let m3u_playlist = M3u::parse(content.as_str());
                        let ghost listed_pre = playlists_on_device@;
                        playlists_on_device.push((file_name.clone(), m3u_playlist));
                        proof {
                            assert((playlists_on_device@[playlists_on_device@.len() - 1]).0@
                                == nv[i as int]);
                            assert forall|a: int|
                                0 <= a < playlists_on_device@.len() implies exists|j: int|
                                0 <= j < i + 1 && (#[trigger] playlists_on_device@[a]).0@
                                    == #[trigger] nv[j] by {
                                if a < listed_pre.len() {
                                    let j = choose|j: int|
                                        0 <= j < i && (#[trigger] listed_pre[a]).0@
                                            == #[trigger] nv[j];
                                    assert(playlists_on_device@[a] == listed_pre[a]);
                                    assert(playlists_on_device@[a].0@ == nv[j]);
                                } else {
                                    assert(playlists_on_device@[a].0@ == nv[i as int]);
                                }
                            }
                            assert forall|a: int, b: int|
                                0 <= a < b < playlists_on_device@.len() implies (
                            #[trigger] playlists_on_device@[a]).0@ != (
                            #[trigger] playlists_on_device@[b]).0@ by {
                                if b == playlists_on_device@.len() - 1 {
                                    let j = choose|j: int|
                                        0 <= j < i && (#[trigger] listed_pre[a]).0@
                                            == #[trigger] nv[j];
                                    assert(playlists_on_device@[a].0@ == nv[j]);
                                    assert(nv[j] != nv[i as int]);
                                } else {
                                    assert(playlists_on_device@[a] == listed_pre[a]);
                                    assert(playlists_on_device@[b] == listed_pre[b]);
                                }
                            }
                        }
                    },
                }
            }
        }
        proof {
            reveal_strlit(".m3u");
            if status_tx.warnings() == w0 {
                assert forall|j: int|
                    0 <= j < i + 1 && wanted_playlist(
                        #[trigger] nv[j],
                        requested_kind,
                        previous_sync_info@,
                    ) implies exists|k: int|
                    0 <= k < playlists_on_device@.len() && (#[trigger] playlists_on_device@[k]).0@
                        == nv[j] by {
                    if j < i {
                        let k = choose|k: int|
                            0 <= k < pv0.len() && (#[trigger] pv0[k]).0@ == nv[j];
                        assert(playlists_on_device@[k] == pv0[k]);
                    }
                }
            }
        }
        i += 1;
    }
    proof {
        if status_tx.warnings() == w0 {
            assert forall|name: Seq<char>|
                device.view().root_files.contains_key(name) && wanted_playlist(
                    name,
                    requested_kind,
                    previous_sync_info@,
                ) implies exists|k: int|
                0 <= k < playlists_on_device@.len() && (#[trigger] playlists_on_device@[k]).0@
                    == name by {
                assert(nv.to_set().contains(name));
                assert(nv.contains(name));
                let j = choose|j: int| 0 <= j < nv.len() && nv[j] == name;
                assert(nv[j] == name);
                assert(wanted_playlist(nv[j], requested_kind, previous_sync_info@));
            }
            assert(listing_complete(
                playlists_on_device@,
                device.view(),
                requested_kind,
                previous_sync_info@,
            ));
        }
    }
    Ok(playlists_on_device)
}

/// Track id list equality.
pub fn ids_eq(a: &Vec<TrackId>, b: &Vec<TrackId>) -> (r: bool)
    ensures
        r == (a@ == b@),
{
    if a.len() != b.len() {
        return false;
    }
    let mut i: usize = 0;
    while i < a.len()
        invariant
            i <= a@.len(),
            a@.len() == b@.len(),
            forall|j: int| 0 <= j < i ==> a@[j] == b@[j],
        decreases a@.len() - i,
    {
        if a[i] != b[i] {
            return false;
        }
        i += 1;
    }
    proof {
        assert(a@ =~= b@);
    }
    true
}

/// Some playlist of the library carries this id with order `l`.
pub open spec fn some_playlist_order(
    sv: crate::source::SourceView,
    pid: crate::source::PlaylistIdView,
    l: Seq<TrackId>,
) -> bool {
    exists|j: int|
        0 <= j < sv.playlists.len() && (#[trigger] sv.playlists[j]).id == pid
            && sv.playlists[j].tracks == l
}

/// The device's order was reconciled into every playlist with this id:
/// against the current order `l` of one of them, nothing changes when the
/// device agrees with `l` or the merge returns `l`, and otherwise each
/// ends holding the merge. When `l` is still the recorded ancestor, the
/// merge is the device's order itself.
pub open spec fn merge_applied(
    before: crate::source::SourceView,
    after: crate::source::SourceView,
    pid: crate::source::PlaylistIdView,
    ancestor: Seq<TrackId>,
    device: Seq<TrackId>,
) -> bool {
    exists|l: Seq<TrackId>|
        #[trigger] some_playlist_order(before, pid, l) && (forall|i: int|
            0 <= i < before.playlists.len() && (#[trigger] before.playlists[i]).id == pid
                ==> after.playlists[i].tracks == (if device == l || crate::sync::merge::merged_ids(
                ancestor,
                l,
                device,
            ) == l {
                before.playlists[i].tracks
            } else {
                crate::sync::merge::merged_ids(ancestor, l, device)
            })) && (l == ancestor && device != l ==> crate::sync::merge::merged_ids(
            ancestor,
            l,
            device,
        ) == device)
}

/// The frame of a playlist edit: names, ids, tracks and the other
/// playlists are untouched; only playlists with the edited id may change.
pub open spec fn playlists_frame(
    before: crate::source::SourceView,
    after: crate::source::SourceView,
    id: crate::source::PlaylistIdView,
) -> bool {
    &&& after.name == before.name
    &&& after.tracks == before.tracks
    &&& after.playlists.len() == before.playlists.len()
    &&& forall|i: int|
        0 <= i < before.playlists.len() ==> {
            let b = #[trigger] before.playlists[i];
            let a = after.playlists[i];
            a.name == b.name && a.id == b.id && (b.id != id ==> a.tracks == b.tracks)
        }
}

/// Reverse-sync one playlist: merge the device's order with the source's
/// current order against the order at the previous sync, and write the
/// merge back to the source when the device edited the list.
///
/// When the device still holds the ancestor order, nothing is written:
/// the merge is then the identity towards the source.
pub fn reverse_sync_playlist<S: Source>(
    status_tx: &mut Sender,
    source: &mut S,
    playlist_name: &str,
    playlist_id: &PlaylistId,
    ancestor_song_ids: &Vec<TrackId>,
    device_song_ids: &Vec<TrackId>,
) -> (r: Result<(), String>)
    requires
        old(status_tx).wf(),
    ensures
        final(status_tx).wf(),
        final(status_tx).warnings() >= old(status_tx).warnings(),
        final(status_tx).progress_log() == old(status_tx).progress_log(),
        playlists_frame(old(source).view(), final(source).view(), playlist_id@),
        device_song_ids@ == ancestor_song_ids@ ==> final(source).view().playlists == old(
            source,
        ).view().playlists,
        (r is Ok && final(status_tx).warnings() == old(status_tx).warnings()) ==> merge_applied(
            old(source).view(),
            final(source).view(),
            playlist_id@,
            ancestor_song_ids@,
            device_song_ids@,
        ),
{
    status_tx.send(Message::ReverseSyncPlaylist(playlist_name.to_owned()));

    let local_playlist = match source.playlist_by_id(playlist_id) {
        None => {
            return Err("No such playlist".to_owned());
        },
        Some(p) => p,
    };
    let local_song_ids = local_playlist.track_ids();
    let ghost l = local_song_ids@;
    proof {
        assert(some_playlist_order(old(source).view(), playlist_id@, l)) by {
            let j = choose|j: int|
                0 <= j < old(source).view().playlists.len() && crate::source::playlist_matches(
                    local_playlist,
                    #[trigger] old(source).view().playlists[j],
                    old(source).view().tracks,
                );
            assert(old(source).view().playlists[j].id == playlist_id@);
            assert(old(source).view().playlists[j].tracks == l);
        }
    }

    // In case both lists are the same, do not bother doing a 3-way merge.
    if ids_eq(device_song_ids, &local_song_ids) {
        let mut m = String::new();
        m.append("Playlist ");
        m.append(playlist_name);
        m.append(" has not been modified, skipping it.");
        status_tx.send_info(m);
        proof {
            assert(merge_applied(
                old(source).view(),
                source.view(),
                playlist_id@,
                ancestor_song_ids@,
                device_song_ids@,
            ));
        }
        return Ok(());
    }

    let new_song_order = crate::sync::merge::three_way_merge(
        ancestor_song_ids,
        &local_song_ids,
        device_song_ids,
    );
    if ids_eq(&local_song_ids, &new_song_order) {
        let mut m = String::new();
        m.append("Playlist ");
        m.append(playlist_name);
        m.append(" has not been modified on the device. Not reverse syncing it.");
        status_tx.send_info(m);
        proof {
            assert(merge_applied(
                old(source).view(),
                source.view(),
                playlist_id@,
                ancestor_song_ids@,
                device_song_ids@,
            ));
        }
    } else {
        status_tx.send(
            Message::UpdatingPlaylistIntoSource { new_content: clone_ids(&new_song_order) },
        );
        match source.change_contents_to(playlist_id, &new_song_order) {
            Ok(u) => {
                proof {
                    assert(merge_applied(
                        old(source).view(),
                        source.view(),
                        playlist_id@,
                        ancestor_song_ids@,
                        device_song_ids@,
                    ));
                }
            },
            Err(err) => {
                let mut m = String::new();
                m.append("Unable to update the contents of playlist ");
                m.append(playlist_name);
                m.append(": ");
                m.append(err.as_str());
                status_tx.send_warning(m);
            },
        }
    }

    Ok(())
}

/// A copy of an id list.
pub fn clone_ids(ids: &Vec<TrackId>) -> (r: Vec<TrackId>)
    ensures
        r@ == ids@,
{
    let mut out: Vec<TrackId> = Vec::new();
    let mut i: usize = 0;
    while i < ids.len()
        invariant
            i <= ids@.len(),
            out@ =~= ids@.subrange(0, i as int),
        decreases ids@.len() - i,
    {
        out.push(ids[i]);
        i += 1;
    }
    proof {
        assert(out@ =~= ids@);
    }
    out
}

/// No other wanted device playlist's manifest entry carries the same id
/// as this one's.
pub open spec fn unique_wanted_id(dv: DeviceView, psi: SyncInfoView, name: Seq<char>) -> bool {
    forall|other: Seq<char>|
        #![trigger wanted_playlist(other, RequestedPlaylistKind::Regular, psi)]
        wanted_playlist(other, RequestedPlaylistKind::Regular, psi) && dv.root_files.contains_key(
            other,
        ) && other != name ==> !(crate::assoc::alookup(psi.playlists, other) matches Some(e2)
            && crate::assoc::alookup(psi.playlists, name) matches Some(e1) && e2.0 == e1.0)
}

/// The device's edit of the playlist file `name` was reconciled into the
/// source, against the manifest's recorded ancestor for that name.
pub open spec fn entry_merged(
    before: crate::source::SourceView,
    after: crate::source::SourceView,
    dv: DeviceView,
    psi: SyncInfoView,
    name: Seq<char>,
) -> bool {
    (crate::assoc::alookup(psi.playlists, name) matches Some(e) && unique_wanted_id(
        dv,
        psi,
        name,
    )) ==> merge_applied(
        before,
        after,
        crate::assoc::alookup(psi.playlists, name).unwrap().0,
        crate::assoc::alookup(psi.playlists, name).unwrap().1,
        known_ids(m3u_entries(dv.root_files[name]), psi),
    )
}

/// Every wanted device playlist that the manifest knows, and whose
/// manifest id no other wanted playlist shares, was reconciled.
pub open spec fn playlists_merged(
    before: crate::source::SourceView,
    after: crate::source::SourceView,
    dv: DeviceView,
    psi: SyncInfoView,
) -> bool {
    forall|name: Seq<char>|
        #![trigger wanted_playlist(name, RequestedPlaylistKind::Regular, psi)]
        wanted_playlist(name, RequestedPlaylistKind::Regular, psi) && dv.root_files.contains_key(
            name,
        ) ==> entry_merged(before, after, dv, psi, name)
}

/// `merge_applied` transfers across a before-state that agrees on the
/// edited id's playlists.
proof fn lemma_merge_applied_before(
    b0: crate::source::SourceView,
    b1: crate::source::SourceView,
    a: crate::source::SourceView,
    pid: crate::source::PlaylistIdView,
    anc: Seq<TrackId>,
    dev: Seq<TrackId>,
)
    requires
        merge_applied(b1, a, pid, anc, dev),
        b0.playlists.len() == b1.playlists.len(),
        forall|i: int|
            0 <= i < b0.playlists.len() ==> (#[trigger] b1.playlists[i]).id
                == b0.playlists[i].id,
        forall|i: int|
            0 <= i < b0.playlists.len() && (#[trigger] b0.playlists[i]).id == pid
                ==> b1.playlists[i].tracks == b0.playlists[i].tracks,
    ensures
        merge_applied(b0, a, pid, anc, dev),
{
    let l = choose|l: Seq<TrackId>|
        #[trigger] some_playlist_order(b1, pid, l) && (forall|i: int|
            0 <= i < b1.playlists.len() && (#[trigger] b1.playlists[i]).id == pid
                ==> a.playlists[i].tracks == (if dev == l || crate::sync::merge::merged_ids(
                anc,
                l,
                dev,
            ) == l {
                b1.playlists[i].tracks
            } else {
                crate::sync::merge::merged_ids(anc, l, dev)
            })) && (l == anc && dev != l ==> crate::sync::merge::merged_ids(anc, l, dev) == dev);
    assert(some_playlist_order(b0, pid, l)) by {
        let j = choose|j: int|
            0 <= j < b1.playlists.len() && (#[trigger] b1.playlists[j]).id == pid
                && b1.playlists[j].tracks == l;
        assert(b0.playlists[j].id == pid && b0.playlists[j].tracks == l);
    }
    assert forall|i: int|
        0 <= i < b0.playlists.len() && (#[trigger] b0.playlists[i]).id == pid implies a.playlists[
        i
    ].tracks == (if dev == l || crate::sync::merge::merged_ids(anc, l, dev) == l {
        b0.playlists[i].tracks
    } else {
        crate::sync::merge::merged_ids(anc, l, dev)
    }) by {
        assert(b1.playlists[i].id == pid);
        assert(b1.playlists[i].tracks == b0.playlists[i].tracks);
    }
}

/// `merge_applied` persists while later edits leave the id's playlists
/// alone.
proof fn lemma_merge_applied_after(
    b: crate::source::SourceView,
    a0: crate::source::SourceView,
    a1: crate::source::SourceView,
    pid: crate::source::PlaylistIdView,
    anc: Seq<TrackId>,
    dev: Seq<TrackId>,
)
    requires
        merge_applied(b, a0, pid, anc, dev),
        forall|i: int|
            0 <= i < b.playlists.len() && (#[trigger] b.playlists[i]).id == pid ==> a1.playlists[
                i
            ].tracks == a0.playlists[i].tracks,
    ensures
        merge_applied(b, a1, pid, anc, dev),
{
    let l = choose|l: Seq<TrackId>|
        #[trigger] some_playlist_order(b, pid, l) && (forall|i: int|
            0 <= i < b.playlists.len() && (#[trigger] b.playlists[i]).id == pid ==> a0.playlists[
                i
            ].tracks == (if dev == l || crate::sync::merge::merged_ids(anc, l, dev) == l {
                b.playlists[i].tracks
            } else {
                crate::sync::merge::merged_ids(anc, l, dev)
            })) && (l == anc && dev != l ==> crate::sync::merge::merged_ids(anc, l, dev) == dev);
    assert forall|i: int|
        0 <= i < b.playlists.len() && (#[trigger] b.playlists[i]).id == pid implies a1.playlists[
        i
    ].tracks == (if dev == l || crate::sync::merge::merged_ids(anc, l, dev) == l {
        b.playlists[i].tracks
    } else {
        crate::sync::merge::merged_ids(anc, l, dev)
    }) by {
        assert(a0.playlists[i].tracks == (if dev == l || crate::sync::merge::merged_ids(
            anc,
            l,
            dev,
        ) == l {
            b.playlists[i].tracks
        } else {
            crate::sync::merge::merged_ids(anc, l, dev)
        }));
    }
}

/// Every changed playlist is accounted for by a wanted device playlist
/// whose manifest entry carries that playlist's id.
pub open spec fn changes_dispatched(
    before: crate::source::SourceView,
    after: crate::source::SourceView,
    dv: DeviceView,
    psi: SyncInfoView,
) -> bool {
    forall|i: int|
        0 <= i < before.playlists.len() && (#[trigger] after.playlists[i]).tracks
            != before.playlists[i].tracks ==> exists|name: Seq<char>|
            #![trigger wanted_playlist(name, RequestedPlaylistKind::Regular, psi)]
            wanted_playlist(name, RequestedPlaylistKind::Regular, psi)
                && dv.root_files.contains_key(name) && (crate::assoc::alookup(psi.playlists, name)
                matches Some(e) && e.0 == before.playlists[i].id)
}

/// Reverse-sync the device's edits of regular playlists back into the
/// source, each by three-way merge against the previous manifest. With no
/// previous manifest there is nothing to reverse-sync.
pub fn reverse_sync_playlists<S: Source, D: Device>(
    status_tx: &mut Sender,
    previous_sync_info: &Option<SyncInfo>,
    source: &mut S,
    device: &D,
) -> (r: Result<(), ReverseSyncPlaylistError>)
    requires
        old(status_tx).wf(),
    ensures
        final(status_tx).wf(),
        final(status_tx).warnings() >= old(status_tx).warnings(),
        final(status_tx).progress_log() == old(status_tx).progress_log().push(
            Progress::ReverseSyncPlaylists,
        ),
        final(source).view().name == old(source).view().name,
        final(source).view().tracks == old(source).view().tracks,
        final(source).view().playlists.len() == old(source).view().playlists.len(),
        forall|i: int|
            0 <= i < old(source).view().playlists.len() ==> {
                let b = #[trigger] old(source).view().playlists[i];
                let a = final(source).view().playlists[i];
                a.name == b.name && a.id == b.id
            },
        previous_sync_info is None ==> final(source).view() == old(source).view() && r is Ok,
        r matches Err(e) ==> e is ListingDevicePlaylistsFailed,
        previous_sync_info matches Some(psi) ==> (final(status_tx).warnings() == old(
            status_tx,
        ).warnings() ==> changes_dispatched(
            old(source).view(),
            final(source).view(),
            device.view(),
            psi@,
        )),
        previous_sync_info matches Some(psi) ==> ((r is Ok && final(status_tx).warnings() == old(
            status_tx,
        ).warnings()) ==> playlists_merged(
            old(source).view(),
            final(source).view(),
            device.view(),
            psi@,
        )),
{
    status_tx.send_progress(Progress::ReverseSyncPlaylists);

    let previous_sync_info = match previous_sync_info {
        Some(psi) => psi,
        None => {
            // In case there was no previous sync, there is nothing to reverse sync.
            status_tx.send_info(
                "This seems to be the first time this device is synced. Not performing reverse sync for playlists".to_owned(),
            );
            return Ok(());
        },
    };

    let playlists_on_dev = match playlists_on_device(
        status_tx,
        RequestedPlaylistKind::Regular,
        device,
        previous_sync_info,
    ) {
        Err(err) => {
            return Err(ReverseSyncPlaylistError::ListingDevicePlaylistsFailed(err));
        },
        Ok(v) => v,
    };

    let ghost psiv = previous_sync_info@;
    let ghost sv0 = source.view();
    let mut i: usize = 0;
    while i < playlists_on_dev.len()
        invariant
            old(status_tx).wf(),
            status_tx.wf(),
            status_tx.progress_log() == old(status_tx).progress_log().push(
                Progress::ReverseSyncPlaylists,
            ),
            i <= playlists_on_dev@.len(),
            status_tx.warnings() >= old(status_tx).warnings(),
            psiv == previous_sync_info@,
            sv0 == old(source).view(),
            source.view().name == old(source).view().name,
            source.view().tracks == old(source).view().tracks,
            source.view().playlists.len() == old(source).view().playlists.len(),
            forall|k: int|
                0 <= k < playlists_on_dev@.len() ==> wanted_playlist(
                    (#[trigger] playlists_on_dev@[k]).0@,
                    RequestedPlaylistKind::Regular,
                    psiv,
                ) && device.view().root_files.contains_key(playlists_on_dev@[k].0@)
                    && playlists_on_dev@[k].1@ == m3u_entries(
                    device.view().root_files[playlists_on_dev@[k].0@],
                ),
            forall|a: int, b: int|
                0 <= a < b < playlists_on_dev@.len() ==> (#[trigger] playlists_on_dev@[a]).0@
                    != (#[trigger] playlists_on_dev@[b]).0@,
            forall|k: int|
                0 <= k < old(source).view().playlists.len() ==> {
                    let b = #[trigger] old(source).view().playlists[k];
                    let a = source.view().playlists[k];
                    a.name == b.name && a.id == b.id
                },
            status_tx.warnings() == old(status_tx).warnings() ==> changes_dispatched(
                sv0,
                source.view(),
                device.view(),
                psiv,
            ),
            status_tx.warnings() == old(status_tx).warnings() ==> listing_complete(
                playlists_on_dev@,
                device.view(),
                RequestedPlaylistKind::Regular,
                psiv,
            ),
            status_tx.warnings() == old(status_tx).warnings() ==> (forall|x: int|
                0 <= x < sv0.playlists.len() && (#[trigger] source.view().playlists[x]).tracks
                    != sv0.playlists[x].tracks ==> exists|j: int|
                    #![trigger playlists_on_dev@[j]]
                    0 <= j < i && (crate::assoc::alookup(
                        psiv.playlists,
                        playlists_on_dev@[j].0@,
                    ) matches Some(e) && e.0 == sv0.playlists[x].id)),
            status_tx.warnings() == old(status_tx).warnings() ==> (forall|j: int|
                #![trigger playlists_on_dev@[j]]
                0 <= j < i ==> entry_merged(
                    sv0,
                    source.view(),
                    device.view(),
                    psiv,
                    playlists_on_dev@[j].0@,
                )),
        decreases playlists_on_dev@.len() - i,
    {
        let entry = &playlists_on_dev[i];
        let device_song_ids = m3u_to_song_ids(status_tx, &entry.1, previous_sync_info);
        let ghost sv_before = source.view();
        match previous_sync_info.playlist(entry.0.as_str()) {
            None => {
                let mut m = String::new();
                m.append("Unable to get info about the last sync of playlist '");
                m.append(entry.0.as_str());
                m.append("'.");
                status_tx.send_warning(m);
            },
            Some(stored) => {
                let playlist_id = stored.0.duplicate();
                let ancestor_song_ids = clone_ids(&stored.1);
                match reverse_sync_playlist(
                    status_tx,
                    source,
                    entry.0.as_str(),
                    &playlist_id,
                    &ancestor_song_ids,
                    &device_song_ids,
                ) {
                    Ok(u) => {},
                    Err(err) => {
                        let mut m = String::new();
                        m.append("Unable to reverse sync playlist '");
                        m.append(entry.0.as_str());
                        m.append("': ");
                        m.append(err.as_str());
                        status_tx.send_warning(m);
                    },
                }
                proof {
                    if status_tx.warnings() == old(status_tx).warnings() {
                        let dv = device.view();
                        let nj = entry.0@;
                        let pid = playlist_id@;
                        assert(crate::assoc::alookup(psiv.playlists, nj) == Some(
                            (pid, ancestor_song_ids@),
                        ));
                        // indexed dispatch
                        assert forall|x: int|
                            0 <= x < sv0.playlists.len()
                                && (#[trigger] source.view().playlists[x]).tracks
                                != sv0.playlists[x].tracks implies exists|j: int|
                            #![trigger playlists_on_dev@[j]]
                            0 <= j < i + 1 && (crate::assoc::alookup(
                                psiv.playlists,
                                playlists_on_dev@[j].0@,
                            ) matches Some(e) && e.0 == sv0.playlists[x].id) by {
                            if source.view().playlists[x].tracks == sv_before.playlists[
                                x
                            ].tracks {
                                assert(sv_before.playlists[x].tracks != sv0.playlists[x].tracks);
                            } else {
                                assert(sv_before.playlists[x].id == pid);
                                assert(sv0.playlists[x].id == pid);
                                assert(playlists_on_dev@[i as int].0@ == nj);
                            }
                        }
                        // the new entry's merge claim, and preservation of the old ones
                        assert forall|j: int|
                            #![trigger playlists_on_dev@[j]]
                            0 <= j < i + 1 implies entry_merged(
                            sv0,
                            source.view(),
                            dv,
                            psiv,
                            playlists_on_dev@[j].0@,
                        ) by {
                            let name_j = playlists_on_dev@[j].0@;
                            if crate::assoc::alookup(psiv.playlists, name_j) is Some
                                && unique_wanted_id(dv, psiv, name_j) {
                                let ej = crate::assoc::alookup(psiv.playlists, name_j).unwrap();
                                if j == i {
                                    assert(ej == (pid, ancestor_song_ids@));
                                    assert(device_song_ids@ == known_ids(
                                        m3u_entries(dv.root_files[nj]),
                                        psiv,
                                    ));
                                    assert(merge_applied(
                                        sv_before,
                                        source.view(),
                                        pid,
                                        ancestor_song_ids@,
                                        device_song_ids@,
                                    ));
                                    assert(forall|x: int|
                                        0 <= x < sv0.playlists.len() && (
                                        #[trigger] sv0.playlists[x]).id == pid
                                            ==> sv_before.playlists[x].tracks
                                            == sv0.playlists[x].tracks) by {
                                        assert forall|x: int|
                                            0 <= x < sv0.playlists.len() && (
                                            #[trigger] sv0.playlists[x]).id == pid
                                                && sv_before.playlists[x].tracks
                                                != sv0.playlists[x].tracks implies false by {
                                            let j2 = choose|j2: int|
                                                #![trigger playlists_on_dev@[j2]]
                                                0 <= j2 < i && (crate::assoc::alookup(
                                                    psiv.playlists,
                                                    playlists_on_dev@[j2].0@,
                                                ) matches Some(e2) && e2.0
                                                    == sv0.playlists[x].id);
                                            assert(playlists_on_dev@[j2].0@ != nj);
                                            assert(wanted_playlist(
                                                playlists_on_dev@[j2].0@,
                                                RequestedPlaylistKind::Regular,
                                                psiv,
                                            ));
                                        }
                                    }
                                    lemma_merge_applied_before(
                                        sv0,
                                        sv_before,
                                        source.view(),
                                        pid,
                                        ancestor_song_ids@,
                                        device_song_ids@,
                                    );
                                } else {
                                    assert(entry_merged(sv0, sv_before, dv, psiv, name_j));
                                    assert(merge_applied(
                                        sv0,
                                        sv_before,
                                        ej.0,
                                        ej.1,
                                        known_ids(m3u_entries(dv.root_files[name_j]), psiv),
                                    ));
                                    assert(ej.0 != pid) by {
                                        assert(name_j != nj);
                                        assert(wanted_playlist(
                                            nj,
                                            RequestedPlaylistKind::Regular,
                                            psiv,
                                        ) && dv.root_files.contains_key(nj));
                                    }
                                    assert(forall|x: int|
                                        0 <= x < sv0.playlists.len() && (
                                        #[trigger] sv0.playlists[x]).id == ej.0
                                            ==> source.view().playlists[x].tracks
                                            == sv_before.playlists[x].tracks) by {
                                        assert(forall|x: int|
                                            0 <= x < sv0.playlists.len() && (
                                            #[trigger] sv_before.playlists[x]).id != pid
                                                ==> source.view().playlists[x].tracks
                                                == sv_before.playlists[x].tracks);
                                    }
                                    lemma_merge_applied_after(
                                        sv0,
                                        sv_before,
                                        source.view(),
                                        ej.0,
                                        ej.1,
                                        known_ids(m3u_entries(dv.root_files[name_j]), psiv),
                                    );
                                }
                            }
                        }
                        assert(changes_dispatched(sv0, source.view(), device.view(), psiv)) by {
                            assert forall|k: int|
                                0 <= k < sv0.playlists.len()
                                    && (#[trigger] source.view().playlists[k]).tracks
                                    != sv0.playlists[k].tracks implies exists|name: Seq<char>|
                                #![trigger wanted_playlist(name, RequestedPlaylistKind::Regular, psiv)]
                                wanted_playlist(name, RequestedPlaylistKind::Regular, psiv)
                                    && device.view().root_files.contains_key(name) && (
                                crate::assoc::alookup(psiv.playlists, name) matches Some(e)
                                    && e.0 == sv0.playlists[k].id) by {
                                if source.view().playlists[k].tracks
                                    != sv_before.playlists[k].tracks {
                                    assert(sv_before.playlists[k].id == playlist_id@);
                                    assert(sv0.playlists[k].id == playlist_id@);
                                    assert(wanted_playlist(
                                        entry.0@,
                                        RequestedPlaylistKind::Regular,
                                        psiv,
                                    ) && device.view().root_files.contains_key(entry.0@) && (
                                    crate::assoc::alookup(psiv.playlists, entry.0@)
                                        matches Some(e) && e.0 == sv0.playlists[k].id));
                                } else {
                                    assert(sv_before.playlists[k].tracks
                                        != sv0.playlists[k].tracks);
                                }
                            }
                        }
                    }
                }
            },
        }
        i += 1;
    }

    Ok(())
}


/// The view of rating buckets collected from the device.
pub open spec fn rview(s: Seq<(Rating, Vec<TrackId>)>) -> Seq<(Rating, Seq<TrackId>)> {
    s.map(|i: int, e: (Rating, Vec<TrackId>)| (e.0, e.1@))
}

/// Whether two id lists share an element.
pub open spec fn ids_overlap(a: Seq<TrackId>, b: Seq<TrackId>) -> bool {
    exists|x: int, y: int| 0 <= x < a.len() && 0 <= y < b.len() && a[x] == b[y]
}

/// Whether a bucket for `n` stars appears among the scanned playlists.
pub open spec fn has_bucket(v: Seq<(String, M3u)>, n: int) -> bool {
    exists|i: int|
        0 <= i < v.len() && crate::sync::utils::classify_spec((#[trigger] v[i]).0@)
            == PlaylistKindView::Ratings(n as u8)
}

/// Whether all five rating buckets appear among the scanned playlists.
pub fn are_all_ratings_playslists_on_device(
    rating_playlists_on_device: &Vec<(String, M3u)>,
) -> (r: bool)
    ensures
        r == forall|n: int| 1 <= n <= 5 ==> #[trigger] has_bucket(rating_playlists_on_device@, n),
{
    let v = rating_playlists_on_device;
    let mut found: Vec<bool> = Vec::new();
    let mut n: usize = 0;
    while n < 6
        invariant
            found@.len() == n,
            n <= 6,
            forall|k: int| 0 <= k < n ==> found@[k] == false,
        decreases 6 - n,
    {
        found.push(false);
        n += 1;
    }
    let mut i: usize = 0;
    while i < v.len()
        invariant
            found@.len() == 6,
            i <= v@.len(),
            forall|k: int|
                1 <= k <= 5 ==> found@[k] == exists|m: int|
                    0 <= m < i && crate::sync::utils::classify_spec((#[trigger] v@[m]).0@)
                        == PlaylistKindView::Ratings(k as u8),
        decreases v@.len() - i,
    {
        let ghost found0 = found@;
        match ActualPlaylistKind::classify(v[i].0.as_str()).stars() {
            Some(s) => {
                if 1 <= s && s <= 5 {
                    found.set(s as usize, true);
                }
            },
            None => {},
        }
        proof {
            assert forall|k: int|
                1 <= k <= 5 implies found@[k] == exists|m: int|
                0 <= m < i + 1 && crate::sync::utils::classify_spec((#[trigger] v@[m]).0@)
                    == PlaylistKindView::Ratings(k as u8) by {
                if found@[k] {
                    if found0[k] {
                        let m = choose|m: int|
                            0 <= m < i && crate::sync::utils::classify_spec(
                                (#[trigger] v@[m]).0@,
                            ) == PlaylistKindView::Ratings(k as u8);
                        assert(crate::sync::utils::classify_spec(v@[m].0@)
                            == PlaylistKindView::Ratings(k as u8));
                    } else {
                        assert(crate::sync::utils::classify_spec(v@[i as int].0@)
                            == PlaylistKindView::Ratings(k as u8));
                    }
                } else {
                    if exists|m: int|
                        0 <= m < i + 1 && crate::sync::utils::classify_spec(
                            (#[trigger] v@[m]).0@,
                        ) == PlaylistKindView::Ratings(k as u8) {
                        let m = choose|m: int|
                            0 <= m < i + 1 && crate::sync::utils::classify_spec(
                                (#[trigger] v@[m]).0@,
                            ) == PlaylistKindView::Ratings(k as u8);
                        assert(m < i);
                        assert(false);
                    }
                }
            }
        }
        i += 1;
    }
    let all = found[1] && found[2] && found[3] && found[4] && found[5];
    proof {
        if all {
            assert forall|k: int| 1 <= k <= 5 implies #[trigger] has_bucket(v@, k) by {
                assert(found@[k]);
            }
        } else {
            if !found@[1] {
                assert(!has_bucket(v@, 1));
            } else if !found@[2] {
                assert(!has_bucket(v@, 2));
            } else if !found@[3] {
                assert(!has_bucket(v@, 3));
            } else if !found@[4] {
                assert(!has_bucket(v@, 4));
            } else {
                assert(!has_bucket(v@, 5));
            }
        }
    }
    all
}

/// Whether the buckets for `i` and `j` stars share a track; `None` when
/// either star count is zero or either bucket is missing.
pub fn have_sets_overlap(
    ratings_on_device: &Vec<(Rating, Vec<TrackId>)>,
    i: u8,
    j: u8,
) -> (r: Option<bool>)
    ensures
        r == if i == 0 || j == 0 {
            None::<bool>
        } else {
            match (
                crate::assoc::alookup(rview(ratings_on_device@), Some(i)),
                crate::assoc::alookup(rview(ratings_on_device@), Some(j)),
            ) {
                (Some(a), Some(b)) => Some(ids_overlap(a, b)),
                _ => None,
            }
        },
{
    if i == 0 || j == 0 {
        return None;
    }
    let set_a = match rating_lookup(ratings_on_device, Some(i)) {
        None => {
            return None;
        },
        Some(a) => a,
    };
    let set_b = match rating_lookup(ratings_on_device, Some(j)) {
        None => {
            return None;
        },
        Some(b) => b,
    };
    let mut x: usize = 0;
    while x < set_a.len()
        invariant
            x <= set_a@.len(),
            i != 0,
            j != 0,
            crate::assoc::alookup(rview(ratings_on_device@), Some(i)) == Some(set_a@),
            crate::assoc::alookup(rview(ratings_on_device@), Some(j)) == Some(set_b@),
            forall|p: int, q: int|
                0 <= p < x && 0 <= q < set_b@.len() ==> set_a@[p] != set_b@[q],
        decreases set_a@.len() - x,
    {
        let mut y: usize = 0;
        while y < set_b.len()
            invariant
                x < set_a@.len(),
                y <= set_b@.len(),
                i != 0,
                j != 0,
                crate::assoc::alookup(rview(ratings_on_device@), Some(i)) == Some(set_a@),
                crate::assoc::alookup(rview(ratings_on_device@), Some(j)) == Some(set_b@),
                forall|q: int| 0 <= q < y ==> set_a@[x as int] != set_b@[q],
            decreases set_b@.len() - y,
        {
            if set_a[x] == set_b[y] {
                proof {
                    assert(set_a@[x as int] == set_b@[y as int]);
                    assert(ids_overlap(set_a@, set_b@));
                }
                return Some(true);
            }
            y += 1;
        }
        x += 1;
    }
    Some(false)
}

/// First-match lookup of a rating bucket.
fn rating_lookup<'a>(v: &'a Vec<(Rating, Vec<TrackId>)>, key: Rating) -> (r: Option<
    &'a Vec<TrackId>,
>)
    ensures
        match r {
            Some(ids) => crate::assoc::alookup(rview(v@), key) == Some(ids@),
            None => crate::assoc::alookup(rview(v@), key) is None,
        },
{
    let mut i: usize = 0;
    while i < v.len()
        invariant
            i <= v@.len(),
            forall|k: int| 0 <= k < i ==> (#[trigger] v@[k]).0 != key,
        decreases v@.len() - i,
    {
        if crate::source::rating_eq(v[i].0, key) {
            proof {
                crate::assoc::lemma_alookup_first_hit(rview(v@), key, i as int);
            }
            return Some(&v[i].1);
        }
        i += 1;
    }
    proof {
        crate::assoc::lemma_alookup_all_miss(rview(v@), key);
    }
    None
}

/// Whether an id already occurs.
fn id_in(v: &Vec<TrackId>, id: TrackId) -> (r: bool)
    ensures
        r == v@.contains(id),
{
    let mut i: usize = 0;
    while i < v.len()
        invariant
            i <= v@.len(),
            forall|k: int| 0 <= k < i ==> v@[k] != id,
        decreases v@.len() - i,
    {
        if v[i] == id {
            proof {
                assert(v@.contains(id));
            }
            return true;
        }
        i += 1;
    }
    false
}

/// Every starred entry carries a valid star count, the deduplicated
/// tracks of that bucket on the device, and no repeated track.
pub open spec fn entries_sound(
    entries: Seq<(Rating, Vec<TrackId>)>,
    dv: DeviceView,
    psi: SyncInfoView,
) -> bool {
    forall|k: int|
        0 <= k < entries.len() ==> {
            let e = #[trigger] entries[k];
            ((e.0 matches Some(m) ==> 1 <= m <= 5 && e.1@ == dedup_ids_spec(
                bucket_ids(dv, psi, m as int),
            )) && (forall|a: int, b: int| 0 <= a < b < e.1@.len() ==> e.1@[a] != e.1@[b]))
        }
}

/// Some entry carries this star count.
pub open spec fn has_entry(entries: Seq<(Rating, Vec<TrackId>)>, n: int) -> bool {
    exists|k: int| 0 <= k < entries.len() && (#[trigger] entries[k]).0 == Some(n as u8)
}

/// Any two entries sharing a track carry the same rating.
pub open spec fn entries_share_rating(entries: Seq<(Rating, Vec<TrackId>)>) -> bool {
    forall|k1: int, k2: int, u1: int, u2: int|
        #![trigger entries[k1].1@[u1], entries[k2].1@[u2]]
        0 <= k1 < entries.len() && 0 <= k2 < entries.len() && 0 <= u1 < entries[k1].1@.len() && 0
            <= u2 < entries[k2].1@.len() && entries[k1].1@[u1] == entries[k2].1@[u2]
            ==> entries[k1].0 == entries[k2].0
}

/// The pair (entry `k`, position `u`) was reconciled: when the manifest
/// disagrees with the bucket while the source still matches the manifest,
/// the track holds the bucket's rating as a user-set one.
pub open spec fn pair_settled(
    entries: Seq<(Rating, Vec<TrackId>)>,
    k: int,
    u: int,
    psi: SyncInfoView,
    tracks0: Map<TrackId, crate::source::TrackView>,
    now: Map<TrackId, crate::source::TrackView>,
    uc: bool,
) -> bool {
    let id = entries[k].1@[u];
    (crate::sync::info::rating_for(psi, id) != entries[k].0 && tracks0.dom().contains(id)
        && crate::source::effective_rating(tracks0[id], uc) == crate::sync::info::rating_for(
        psi,
        id,
    )) ==> (now.dom().contains(id) && now[id] == crate::source::with_rating(
        tracks0[id],
        entries[k].0,
    ))
}

/// Every pair lexicographically before (`bk`, `bu`) was reconciled.
pub open spec fn settled_upto(
    entries: Seq<(Rating, Vec<TrackId>)>,
    bk: int,
    bu: int,
    psi: SyncInfoView,
    tracks0: Map<TrackId, crate::source::TrackView>,
    now: Map<TrackId, crate::source::TrackView>,
    uc: bool,
) -> bool {
    forall|k: int, u: int|
        #![trigger entries[k].1@[u]]
        0 <= k < entries.len() && 0 <= u < entries[k].1@.len() && (k < bk || (k == bk && u < bu))
            ==> pair_settled(entries, k, u, psi, tracks0, now, uc)
}

/// Every change so far is to a track named by an already-visited pair,
/// holds that pair's rating as a user-set one, and that rating differs
/// from the manifest's.
pub open spec fn changed_in_entries(
    entries: Seq<(Rating, Vec<TrackId>)>,
    bk: int,
    bu: int,
    psi: SyncInfoView,
    tracks0: Map<TrackId, crate::source::TrackView>,
    now: Map<TrackId, crate::source::TrackView>,
) -> bool {
    forall|id: TrackId|
        tracks0.dom().contains(id) && #[trigger] now[id] != tracks0[id] ==> exists|k: int, u: int|
            #![trigger entries[k].1@[u]]
            0 <= k < entries.len() && 0 <= u < entries[k].1@.len() && (k < bk || (k == bk && u
                < bu)) && entries[k].1@[u] == id && now[id] == crate::source::with_rating(
                tracks0[id],
                entries[k].0,
            ) && crate::sync::info::rating_for(psi, id) != entries[k].0
}

/// Every write the rating phase made mirrors the device: a changed track
/// holds either a bucket's stars (the track being in that bucket) or no
/// rating (the track being in no bucket), and in both cases the manifest
/// disagreed with the device.
pub open spec fn writes_from_device(
    dv: DeviceView,
    psi: SyncInfoView,
    before: Map<TrackId, crate::source::TrackView>,
    after: Map<TrackId, crate::source::TrackView>,
) -> bool {
    forall|id: TrackId|
        before.dom().contains(id) && #[trigger] after[id] != before[id] ==> ((exists|n: int|
            #![trigger bucket_ids(dv, psi, n)]
            1 <= n <= 5 && bucket_ids(dv, psi, n).contains(id) && after[id]
                == crate::source::with_rating(before[id], Some(n as u8))
                && crate::sync::info::rating_for(psi, id) != Some(n as u8)) || (after[id]
            == crate::source::with_rating(before[id], None) && crate::sync::info::rating_for(
            psi,
            id,
        ) != None::<u8> && (forall|n: int|
            1 <= n <= 5 ==> !bucket_ids(dv, psi, n).contains(id))))
}

/// Whether some collected entry names this track.
pub open spec fn in_some_bucket(entries: Seq<(Rating, Vec<TrackId>)>, id: TrackId) -> bool {
    exists|k: int, u: int|
        #![trigger entries[k].1@[u]]
        0 <= k < entries.len() && 0 <= u < entries[k].1@.len() && entries[k].1@[u] == id
}

/// The bookkeeping that ties the implicit no-rating bucket to the device:
/// every manifest-known device file was gathered, a track gathered but
/// absent from the final no-rating list sits in some star bucket, and the
/// last entry is the no-rating list under a `None` key.
spec fn norating_bookkeeping(
    files: Seq<Seq<char>>,
    psi: SyncInfoView,
    nr0: Seq<TrackId>,
    nr_final: Seq<TrackId>,
    pre_none: Seq<(Rating, Vec<TrackId>)>,
    entries: Seq<(Rating, Vec<TrackId>)>,
) -> bool {
    &&& forall|g: int|
        0 <= g < files.len() ==> (crate::sync::info::id_for_rel(psi, #[trigger] files[g])
            matches Some(id) ==> nr0.contains(id))
    &&& forall|id: TrackId|
        nr0.contains(id) && !nr_final.contains(id) ==> #[trigger] in_some_bucket(pre_none, id)
    &&& entries.len() == pre_none.len() + 1
    &&& entries[pre_none.len() as int].0 is None
    &&& entries[pre_none.len() as int].1@ == nr_final
    &&& forall|k: int|
        0 <= k < pre_none.len() ==> (#[trigger] entries[k]).0 is Some && entries[k] == pre_none[k]
}

/// A manifest-known device file outside every bucket, whose manifest
/// rating is set while the source still matches the manifest, ends with
/// its rating cleared.
pub open spec fn norating_applied(
    files: Seq<Seq<char>>,
    dv: DeviceView,
    psi: SyncInfoView,
    before: Map<TrackId, crate::source::TrackView>,
    after: Map<TrackId, crate::source::TrackView>,
    uc: bool,
) -> bool {
    forall|id: TrackId|
        #![trigger crate::sync::info::rating_for(psi, id)]
        (exists|f: int|
            0 <= f < files.len() && crate::sync::info::id_for_rel(psi, #[trigger] files[f])
                == Some(id)) && (forall|n: int|
            1 <= n <= 5 ==> !bucket_ids(dv, psi, n).contains(id)) && crate::sync::info::rating_for(
            psi,
            id,
        ) != None::<u8> && before.dom().contains(id) && crate::source::effective_rating(
            before[id],
            uc,
        ) == crate::sync::info::rating_for(psi, id) ==> after.dom().contains(id) && after[id]
            == crate::source::with_rating(before[id], None)
}

/// Every track in a device bucket whose manifest rating disagrees, while
/// the source still matches the manifest, ends holding the bucket's stars.
pub open spec fn device_ratings_applied(
    dv: DeviceView,
    psi: SyncInfoView,
    before: Map<TrackId, crate::source::TrackView>,
    after: Map<TrackId, crate::source::TrackView>,
    uc: bool,
) -> bool {
    forall|n: int, id: TrackId|
        #![trigger bucket_ids(dv, psi, n).contains(id)]
        1 <= n <= 5 && bucket_ids(dv, psi, n).contains(id) && crate::sync::info::rating_for(
            psi,
            id,
        ) != Some(n as u8) && before.dom().contains(id) && crate::source::effective_rating(
            before[id],
            uc,
        ) == crate::sync::info::rating_for(psi, id) ==> after.dom().contains(id) && after[id]
            == crate::source::with_rating(before[id], Some(n as u8))
}

/// Removing one position removes no other value, and with distinct values
/// it removes that value for good.
proof fn lemma_seq_remove_ids(s: Seq<TrackId>, i: int)
    requires
        0 <= i < s.len(),
    ensures
        forall|x: TrackId| s.remove(i).contains(x) ==> s.contains(x),
        forall|x: TrackId| s.contains(x) && x != s[i] ==> s.remove(i).contains(x),
        (forall|a: int, b: int| 0 <= a < b < s.len() ==> s[a] != s[b]) ==> !s.remove(i).contains(
            s[i],
        ),
        forall|a: int, b: int|
            (forall|c: int, d: int| 0 <= c < d < s.len() ==> s[c] != s[d]) && 0 <= a < b < s.remove(
                i,
            ).len() ==> s.remove(i)[a] != s.remove(i)[b],
{
    let t = s.remove(i);
    assert forall|x: TrackId| s.contains(x) && x != s[i] implies t.contains(x) by {
        let k = choose|k: int| 0 <= k < s.len() && s[k] == x;
        if k < i {
            assert(t[k] == x);
        } else {
            assert(k > i);
            assert(t[k - 1] == x);
        }
    }
    assert forall|x: TrackId| t.contains(x) implies s.contains(x) by {
        let k = choose|k: int| 0 <= k < t.len() && t[k] == x;
        if k < i {
            assert(s[k] == x);
        } else {
            assert(s[k + 1] == x);
        }
    }
    if forall|a: int, b: int| 0 <= a < b < s.len() ==> s[a] != s[b] {
        if t.contains(s[i]) {
            let k = choose|k: int| 0 <= k < t.len() && t[k] == s[i];
            if k < i {
                assert(s[k] == s[i]);
            } else {
                assert(s[k + 1] == s[i]);
            }
        }
    }
}

/// The tracks a rating bucket on the device names, through the manifest.
pub open spec fn bucket_ids(dv: DeviceView, psi: SyncInfoView, n: int) -> Seq<TrackId> {
    known_ids(m3u_entries(dv.root_files[crate::sync::utils::fav_name(n)]), psi)
}

/// How a rating reconciliation may change the library: every track is
/// untouched, or holds a device rating that differed from the manifest
/// while the source still agreed with the manifest -- the source wins
/// two-sided conflicts, and an unchanged device track is never written.
pub open spec fn ratings_reconciled(
    before: Map<TrackId, crate::source::TrackView>,
    after: Map<TrackId, crate::source::TrackView>,
    psi: SyncInfoView,
    uc: bool,
) -> bool {
    &&& after.dom() =~= before.dom()
    &&& forall|id: TrackId|
        before.dom().contains(id) ==> ((#[trigger] after[id]) == before[id] || (exists|r: Rating|
            crate::source::rating_wf(r) && after[id] == crate::source::with_rating(
                before[id],
                r,
            ) && r != crate::sync::info::rating_for(psi, id) && crate::source::effective_rating(
                before[id],
                uc,
            ) == crate::sync::info::rating_for(psi, id)))
}

/// Reverse-sync rating edits made on the device: read the five rating
/// buckets, derive the implicit no-rating bucket, and write back each
/// changed rating unless the source changed too (the source then wins).
pub fn reverse_sync_ratings<S: Source, D: Device>(
    status_tx: &mut Sender,
    previous_sync_info: &Option<SyncInfo>,
    files_on_device: &Vec<String>,
    source: &mut S,
    device: &D,
    config: &Config,
) -> (r: Result<(), ReverseSyncRatingsError>)
    requires
        old(status_tx).wf(),
    ensures
        final(status_tx).wf(),
        final(status_tx).warnings() >= old(status_tx).warnings(),
        final(status_tx).progress_log() == old(status_tx).progress_log().push(
            Progress::ReverseSyncRatings,
        ),
        final(source).view().name == old(source).view().name,
        final(source).view().playlists == old(source).view().playlists,
        previous_sync_info matches Some(psi) ==> ratings_reconciled(
            old(source).view().tracks,
            final(source).view().tracks,
            psi@,
            config@.use_computed_ratings,
        ),
        previous_sync_info is None ==> final(source).view() == old(source).view() && r is Ok,
        r is Err ==> final(source).view() == old(source).view(),
        r matches Err(e) ==> e is ListingDevicePlaylistsFailed || e is MisingRatingsLists
            || e is DuplicateRatingsForASong,
        (previous_sync_info is Some && r is Ok) ==> forall|n: int|
            1 <= n <= 5 ==> device.view().root_files.contains_key(
                #[trigger] crate::sync::utils::fav_name(n),
            ),
        previous_sync_info matches Some(psi) ==> ((r is Ok && final(status_tx).warnings() == old(
            status_tx,
        ).warnings()) ==> device_ratings_applied(
            device.view(),
            psi@,
            old(source).view().tracks,
            final(source).view().tracks,
            config@.use_computed_ratings,
        )),
        previous_sync_info matches Some(psi) ==> (final(status_tx).warnings() == old(
            status_tx,
        ).warnings() ==> writes_from_device(
            device.view(),
            psi@,
            old(source).view().tracks,
            final(source).view().tracks,
        )),
        previous_sync_info matches Some(psi) ==> ((r is Ok && final(status_tx).warnings() == old(
            status_tx,
        ).warnings()) ==> norating_applied(
            files_on_device.deep_view(),
            device.view(),
            psi@,
            old(source).view().tracks,
            final(source).view().tracks,
            config@.use_computed_ratings,
        )),
        previous_sync_info matches Some(psi) ==> ((r is Ok && final(status_tx).warnings() == old(
            status_tx,
        ).warnings()) ==> (forall|n1: int, n2: int, id: TrackId|
            #![trigger bucket_ids(device.view(), psi@, n1).contains(id), bucket_ids(device.view(), psi@, n2).contains(id)]
            1 <= n1 < n2 <= 5 ==> !(bucket_ids(device.view(), psi@, n1).contains(id)
                && bucket_ids(device.view(), psi@, n2).contains(id)))),
{
    status_tx.send_progress(Progress::ReverseSyncRatings);

    let previous_sync_info = match previous_sync_info {
        Some(psi) => psi,
        None => {
            // In case there was no previous sync, there is nothing to reverse sync.
            status_tx.send_info(
                "This seems to be the first time this device is synced. Not performing reverse sync for ratings".to_owned(),
            );
            return Ok(());
        },
    };
    let ghost tracks0 = source.view().tracks;
    let ghost psiv = previous_sync_info@;
    let ghost uc = config@.use_computed_ratings;

    let rating_playlists_on_device = match playlists_on_device(
        status_tx,
        RequestedPlaylistKind::Ratings,
        device,
        previous_sync_info,
    ) {
        Err(err) => {
            return Err(ReverseSyncRatingsError::ListingDevicePlaylistsFailed(err));
        },
        Ok(v) => v,
    };

    let ghost w1 = status_tx.warnings();

    // Assert all 5 ratings playlists are on the device.
    if !are_all_ratings_playslists_on_device(&rating_playlists_on_device) {
        return Err(ReverseSyncRatingsError::MisingRatingsLists);
    }
    proof {
        assert forall|n: int|
            1 <= n <= 5 implies device.view().root_files.contains_key(
            #[trigger] crate::sync::utils::fav_name(n),
        ) by {
            assert(has_bucket(rating_playlists_on_device@, n));
            let k = choose|k: int|
                0 <= k < rating_playlists_on_device@.len() && crate::sync::utils::classify_spec(
                    (#[trigger] rating_playlists_on_device@[k]).0@,
                ) == PlaylistKindView::Ratings(n as u8);
            crate::sync::utils::lemma_classify_ratings_name(rating_playlists_on_device@[k].0@);
            assert(rating_playlists_on_device@[k].0@ == crate::sync::utils::fav_name(n));
        }
    }

    // The IDs of every file on the device; whoever keeps no rating in the
    // five buckets ends up in the implicit no-rating bucket.
    let mut no_ratings: Vec<TrackId> = Vec::new();
    let ghost files = files_on_device.deep_view();
    let mut f: usize = 0;
    while f < files_on_device.len()
        invariant
            f <= files_on_device@.len(),
            files == files_on_device.deep_view(),
            psiv == previous_sync_info@,
            forall|a: int, b: int| 0 <= a < b < no_ratings@.len() ==> no_ratings@[a]
                != no_ratings@[b],
            forall|g: int|
                0 <= g < f ==> (crate::sync::info::id_for_rel(psiv, #[trigger] files[g])
                    matches Some(id) ==> no_ratings@.contains(id)),
            status_tx.wf(),
            old(status_tx).wf(),
            status_tx.warnings() >= w1,
            status_tx.warnings() >= old(status_tx).warnings(),
            status_tx.progress_log() == old(status_tx).progress_log().push(
                Progress::ReverseSyncRatings,
            ),
        decreases files_on_device@.len() - f,
    {
        proof {
            assert(files[f as int] == files_on_device@[f as int]@);
        }
        let ghost nr_before = no_ratings@;
        match previous_sync_info.id_for_relative_path(files_on_device[f].as_str()) {
            Some(id) => {
                if !id_in(&no_ratings, id) {
                    no_ratings.push(id);
                    proof {
                        assert(no_ratings@.last() == id);
                        assert(no_ratings@.contains(id));
                    }
                } else {
                    proof {
                        assert(no_ratings@.contains(id));
                    }
                }
            },
            None => {},
        }
        proof {
            assert forall|x: TrackId|
                nr_before.contains(x) implies #[trigger] no_ratings@.contains(x) by {
                let a = choose|a: int| 0 <= a < nr_before.len() && nr_before[a] == x;
                assert(no_ratings@[a] == x);
            }
        }
        f += 1;
    }
    let ghost nr0 = no_ratings@;

    // Convert playlist names to rating values and file paths to song IDs.
    let mut ratings_on_device: Vec<(Rating, Vec<TrackId>)> = Vec::new();
    let mut p: usize = 0;
    while p < rating_playlists_on_device.len()
        invariant
            old(status_tx).wf(),
            status_tx.wf(),
            p <= rating_playlists_on_device@.len(),
            status_tx.warnings() >= old(status_tx).warnings(),
            status_tx.warnings() >= w1,
            status_tx.progress_log() == old(status_tx).progress_log().push(
                Progress::ReverseSyncRatings,
            ),
            psiv == previous_sync_info@,
            forall|k: int|
                0 <= k < ratings_on_device@.len() ==> crate::source::rating_wf(
                    (#[trigger] ratings_on_device@[k]).0,
                ),
            forall|j: int|
                0 <= j < rating_playlists_on_device@.len() ==> device.view().root_files.contains_key(
                    (#[trigger] rating_playlists_on_device@[j]).0@,
                ) && rating_playlists_on_device@[j].1@ == m3u_entries(
                    device.view().root_files[rating_playlists_on_device@[j].0@],
                ),
            files == files_on_device.deep_view(),
            forall|g: int|
                0 <= g < files.len() ==> (crate::sync::info::id_for_rel(psiv, #[trigger] files[g])
                    matches Some(id) ==> nr0.contains(id)),
            entries_sound(ratings_on_device@, device.view(), psiv),
            forall|k: int|
                0 <= k < ratings_on_device@.len() ==> (#[trigger] ratings_on_device@[k]).0
                    is Some,
            forall|a: int, b: int| 0 <= a < b < no_ratings@.len() ==> no_ratings@[a]
                != no_ratings@[b],
            forall|id: TrackId|
                nr0.contains(id) && !no_ratings@.contains(id) ==> #[trigger] in_some_bucket(
                    ratings_on_device@,
                    id,
                ),
            status_tx.warnings() == old(status_tx).warnings() ==> (forall|k: int, u: int|
                #![trigger ratings_on_device@[k].1@[u]]
                0 <= k < ratings_on_device@.len() && 0 <= u < ratings_on_device@[k].1@.len()
                    ==> !no_ratings@.contains(ratings_on_device@[k].1@[u])),
            status_tx.warnings() == old(status_tx).warnings() ==> (forall|j: int, m: u8|
                #![trigger rating_playlists_on_device@[j], has_entry(ratings_on_device@, m as int)]
                0 <= j < p && crate::sync::utils::classify_spec(
                    rating_playlists_on_device@[j].0@,
                ) == PlaylistKindView::Ratings(m) ==> has_entry(ratings_on_device@, m as int)),
        decreases rating_playlists_on_device@.len() - p,
    {
        let ghost w_head = status_tx.warnings();
        let ghost entries_head = ratings_on_device@;
        let entry = &rating_playlists_on_device[p];
        match ActualPlaylistKind::classify(entry.0.as_str()).stars() {
            None => {
                let mut m = String::new();
                m.append("Unexpected non-ratings list '");
                m.append(entry.0.as_str());
                m.append("'");
                status_tx.send_warning(m);
            },
            Some(stars) => {
                proof {
                    crate::sync::utils::lemma_classify_ratings_range(entry.0@);
                    crate::sync::utils::lemma_classify_ratings_name(entry.0@);
                }
                let raw_ids = m3u_to_song_ids(status_tx, &entry.1, previous_sync_info);
                // The bucket is a set of tracks: a path listed twice in
                // one bucket file still names one track.
                let ids_with_this_rating = dedup_ids(&raw_ids);
                proof {
                    assert(ids_with_this_rating@ == dedup_ids_spec(
                        bucket_ids(device.view(), psiv, stars as int),
                    ));
                }
                // Tracks that are rated leave the no-rating bucket.
                let mut q: usize = 0;
                while q < ids_with_this_rating.len()
                    invariant
                        old(status_tx).wf(),
                        status_tx.wf(),
                        q <= ids_with_this_rating@.len(),
                        status_tx.warnings() >= old(status_tx).warnings(),
                        status_tx.warnings() >= w_head,
                        status_tx.progress_log() == old(status_tx).progress_log().push(
                            Progress::ReverseSyncRatings,
                        ),
                        entries_head == ratings_on_device@,
                        files == files_on_device.deep_view(),
                        forall|g: int|
                            0 <= g < files.len() ==> (crate::sync::info::id_for_rel(
                                psiv,
                                #[trigger] files[g],
                            ) matches Some(id) ==> nr0.contains(id)),
                        forall|a: int, b: int| 0 <= a < b < no_ratings@.len() ==> no_ratings@[a]
                            != no_ratings@[b],
                        forall|id: TrackId|
                            nr0.contains(id) && !no_ratings@.contains(id)
                                ==> #[trigger] in_some_bucket(entries_head, id)
                                || ids_with_this_rating@.contains(id),
                        forall|a: int, b: int|
                            0 <= a < b < ids_with_this_rating@.len()
                                ==> ids_with_this_rating@[a] != ids_with_this_rating@[b],
                        status_tx.warnings() == old(status_tx).warnings() ==> (forall|k: int, u: int|
                            #![trigger entries_head[k].1@[u]]
                            0 <= k < entries_head.len() && 0 <= u < entries_head[k].1@.len()
                                ==> !no_ratings@.contains(entries_head[k].1@[u])),
                        status_tx.warnings() == old(status_tx).warnings() ==> (forall|u: int|
                            0 <= u < q ==> !no_ratings@.contains(
                                #[trigger] ids_with_this_rating@[u],
                            )),
                    decreases ids_with_this_rating@.len() - q,
                {
                    let rated_id = ids_with_this_rating[q];
                    let ghost nr_pre = no_ratings@;
                    match position_of(&no_ratings, rated_id) {
                        Some(at) => {
                            no_ratings.remove(at);
                            proof {
                                lemma_seq_remove_ids(nr_pre, at as int);
                                assert(nr_pre[at as int] == rated_id);
                                assert(ids_with_this_rating@.contains(rated_id));
                                assert forall|id: TrackId|
                                    nr0.contains(id) && !no_ratings@.contains(
                                        id,
                                    ) implies #[trigger] in_some_bucket(entries_head, id)
                                    || ids_with_this_rating@.contains(id) by {
                                    if nr_pre.contains(id) {
                                        assert(id == rated_id);
                                    }
                                }
                            }
                        },
                        None => {
                            let mut m = String::new();
                            m.append("Song with ID ");
                            m.append(crate::numfmt::u64_to_dec(rated_id.0).as_str());
                            m.append(
                                " is rated, but it does not look like it is present on the device, or it was in multiple rating playlists.",
                            );
                            status_tx.send_warning(m);
                        },
                    }
                    q += 1;
                }
                ratings_on_device.push((Some(stars), ids_with_this_rating));
                proof {
                    assert forall|id: TrackId|
                        nr0.contains(id) && !no_ratings@.contains(id) implies #[trigger] in_some_bucket(
                        ratings_on_device@,
                        id,
                    ) by {
                        if in_some_bucket(entries_head, id) {
                            let (k, u) = choose|k: int, u: int|
                                #![trigger entries_head[k].1@[u]]
                                0 <= k < entries_head.len() && 0 <= u < entries_head[k].1@.len()
                                    && entries_head[k].1@[u] == id;
                            assert(ratings_on_device@[k].1@[u] == id);
                        } else {
                            let u = choose|u: int|
                                0 <= u < ids_with_this_rating@.len() && ids_with_this_rating@[u]
                                    == id;
                            assert(ratings_on_device@[ratings_on_device@.len() - 1].1@[u] == id);
                        }
                    }
                    assert(entries_sound(ratings_on_device@, device.view(), psiv)) by {
                        assert(forall|k: int|
                            0 <= k < entries_head.len() ==> #[trigger] ratings_on_device@[k]
                                == entries_head[k]);
                        assert(ratings_on_device@.last() == (Some(stars), ids_with_this_rating));
                    }
                    if status_tx.warnings() == old(status_tx).warnings() {
                        assert(w_head == old(status_tx).warnings());
                        assert forall|k: int, u: int|
                            #![trigger ratings_on_device@[k].1@[u]]
                            0 <= k < ratings_on_device@.len() && 0 <= u
                                < ratings_on_device@[k].1@.len() implies !no_ratings@.contains(
                            ratings_on_device@[k].1@[u],
                        ) by {
                            if k < entries_head.len() {
                                assert(ratings_on_device@[k] == entries_head[k]);
                            } else {
                                assert(ratings_on_device@[k].1@[u]
                                    == ids_with_this_rating@[u]);
                            }
                        }
                        assert forall|j: int, m: u8|
                            #![trigger rating_playlists_on_device@[j], has_entry(ratings_on_device@, m as int)]
                            0 <= j < p + 1 && crate::sync::utils::classify_spec(
                                rating_playlists_on_device@[j].0@,
                            ) == PlaylistKindView::Ratings(m) implies has_entry(
                            ratings_on_device@,
                            m as int,
                        ) by {
                            if j < p {
                                assert(has_entry(entries_head, m as int));
                                let k0 = choose|k0: int|
                                    0 <= k0 < entries_head.len() && (#[trigger] entries_head[
                                        k0
                                    ]).0 == Some(((m as int) as u8));
                                assert(ratings_on_device@[k0].0 == Some(m as u8));
                                assert(has_entry(ratings_on_device@, m as int));
                            } else {
                                assert(m == stars);
                                assert(ratings_on_device@.last().0 == Some(stars));
                            }
                        }
                    }
                }
            },
        }
        p += 1;
    }

    // Assert the same track is not in several rating playlists at once.
    if unwrap_or_true(have_sets_overlap(&ratings_on_device, 1, 2)) || unwrap_or_true(
        have_sets_overlap(&ratings_on_device, 1, 3),
    ) || unwrap_or_true(have_sets_overlap(&ratings_on_device, 1, 4)) || unwrap_or_true(
        have_sets_overlap(&ratings_on_device, 1, 5),
    ) || unwrap_or_true(have_sets_overlap(&ratings_on_device, 2, 3)) || unwrap_or_true(
        have_sets_overlap(&ratings_on_device, 2, 4),
    ) || unwrap_or_true(have_sets_overlap(&ratings_on_device, 2, 5)) || unwrap_or_true(
        have_sets_overlap(&ratings_on_device, 3, 4),
    ) || unwrap_or_true(have_sets_overlap(&ratings_on_device, 3, 5)) || unwrap_or_true(
        have_sets_overlap(&ratings_on_device, 4, 5),
    ) {
        return Err(ReverseSyncRatingsError::DuplicateRatingsForASong);
    }

    proof {
        assert(entries_share_rating(ratings_on_device@)) by {
            let es = ratings_on_device@;
            assert forall|k1: int, k2: int, u1: int, u2: int|
                #![trigger es[k1].1@[u1], es[k2].1@[u2]]
                0 <= k1 < es.len() && 0 <= k2 < es.len() && 0 <= u1 < es[k1].1@.len() && 0 <= u2
                    < es[k2].1@.len() && es[k1].1@[u1] == es[k2].1@[u2] implies es[k1].0
                == es[k2].0 by {
                let m1 = es[k1].0.unwrap();
                let m2 = es[k2].0.unwrap();
                if m1 != m2 {
                    assert(rview(es)[k1].0 == Some(m1));
                    assert(rview(es)[k2].0 == Some(m2));
                    crate::assoc::lemma_alookup_index(rview(es), Some(m1));
                    crate::assoc::lemma_alookup_index(rview(es), Some(m2));
                    assert(crate::assoc::alookup(rview(es), Some(m1)) is Some);
                    assert(crate::assoc::alookup(rview(es), Some(m2)) is Some);
                    let v1 = crate::assoc::alookup(rview(es), Some(m1)).unwrap();
                    let v2 = crate::assoc::alookup(rview(es), Some(m2)).unwrap();
                    let i1 = choose|i1: int|
                        0 <= i1 < rview(es).len() && #[trigger] rview(es)[i1] == (Some(m1), v1);
                    let i2 = choose|i2: int|
                        0 <= i2 < rview(es).len() && #[trigger] rview(es)[i2] == (Some(m2), v2);
                    assert(es[i1].0 == Some(m1) && es[i1].1@ == v1);
                    assert(es[i2].0 == Some(m2) && es[i2].1@ == v2);
                    assert(v1 == es[k1].1@);
                    assert(v2 == es[k2].1@);
                    assert(ids_overlap(v1, v2)) by {
                        assert(v1[u1] == v2[u2]);
                    }
                    assert(ids_overlap(v2, v1)) by {
                        assert(v2[u2] == v1[u1]);
                    }
                    assert(false);
                }
            }
        }
    }

    // Add the songs that have no rating.
    let ghost pre_none = ratings_on_device@;
    let ghost nr_final = no_ratings@;
    ratings_on_device.push((None, no_ratings));
    let ghost entries = ratings_on_device@;
    proof {
        assert(forall|k: int| 0 <= k < pre_none.len() ==> #[trigger] entries[k] == pre_none[k]);
        assert(entries.last() == (None::<u8>, no_ratings));
        assert(entries_sound(entries, device.view(), psiv));
        assert(norating_bookkeeping(files, psiv, nr0, nr_final, pre_none, entries));
        if status_tx.warnings() == old(status_tx).warnings() {
            assert(entries_share_rating(entries)) by {
                assert forall|k1: int, k2: int, u1: int, u2: int|
                    #![trigger entries[k1].1@[u1], entries[k2].1@[u2]]
                    0 <= k1 < entries.len() && 0 <= k2 < entries.len() && 0 <= u1 < entries[
                        k1
                    ].1@.len() && 0 <= u2 < entries[k2].1@.len() && entries[k1].1@[u1]
                        == entries[k2].1@[u2] implies entries[k1].0 == entries[k2].0 by {
                    if k1 < pre_none.len() && k2 < pre_none.len() {
                        assert(pre_none[k1].1@[u1] == pre_none[k2].1@[u2]);
                    } else if k1 < pre_none.len() && k2 == pre_none.len() {
                        assert(!no_ratings@.contains(pre_none[k1].1@[u1]));
                        assert(no_ratings@[u2] == entries[k1].1@[u1]);
                        assert(no_ratings@.contains(entries[k1].1@[u1]));
                    } else if k2 < pre_none.len() && k1 == pre_none.len() {
                        assert(!no_ratings@.contains(pre_none[k2].1@[u2]));
                        assert(no_ratings@[u1] == entries[k2].1@[u2]);
                        assert(no_ratings@.contains(entries[k2].1@[u2]));
                    }
                }
            }
            assert forall|n: int| 1 <= n <= 5 implies #[trigger] has_entry(entries, n) by {
                let name = crate::sync::utils::fav_name(n);
                assert(device.view().root_files.contains_key(name));
                crate::sync::utils::lemma_classify_favorites(n as u8);
                assert(".m3u"@.is_suffix_of(name)) by {
                    reveal_strlit(".m3u");
                    assert(name.subrange(name.len() - 4, name.len() as int) =~= ".m3u"@);
                }
                assert(wanted_playlist(name, RequestedPlaylistKind::Ratings, psiv));
                assert(w1 == old(status_tx).warnings());
                assert(listing_complete(
                    rating_playlists_on_device@,
                    device.view(),
                    RequestedPlaylistKind::Ratings,
                    psiv,
                ));
                let j = choose|j: int|
                    0 <= j < rating_playlists_on_device@.len()
                        && (#[trigger] rating_playlists_on_device@[j]).0@ == name;
                assert(crate::sync::utils::classify_spec(rating_playlists_on_device@[j].0@)
                    == PlaylistKindView::Ratings(n as u8));
                assert(has_entry(pre_none, (n as u8) as int));
                let k0 = choose|k0: int|
                    0 <= k0 < pre_none.len() && (#[trigger] pre_none[k0]).0 == Some(
                        ((n as u8) as int) as u8,
                    );
                assert(entries[k0].0 == Some(n as u8));
            }
        }
    }

    // Check which track has changed its rating.
    let mut b: usize = 0;
    while b < ratings_on_device.len()
        invariant
            old(status_tx).wf(),
            status_tx.wf(),
            b <= ratings_on_device@.len(),
            status_tx.warnings() >= old(status_tx).warnings(),
            status_tx.progress_log() == old(status_tx).progress_log().push(
                Progress::ReverseSyncRatings,
            ),
            entries == ratings_on_device@,
            entries_sound(entries, device.view(), psiv),
            files == files_on_device.deep_view(),
            norating_bookkeeping(files, psiv, nr0, nr_final, pre_none, entries),
            status_tx.warnings() == old(status_tx).warnings() ==> (forall|n: int|
                1 <= n <= 5 ==> #[trigger] has_entry(entries, n)),
            forall|k: int|
                0 <= k < ratings_on_device@.len() ==> crate::source::rating_wf(
                    (#[trigger] ratings_on_device@[k]).0,
                ),
            source.view().name == old(source).view().name,
            source.view().playlists == old(source).view().playlists,
            ratings_reconciled(tracks0, source.view().tracks, psiv, uc),
            tracks0 == old(source).view().tracks,
            psiv == previous_sync_info@,
            uc == config@.use_computed_ratings,
            status_tx.warnings() == old(status_tx).warnings() ==> entries_share_rating(entries),
            status_tx.warnings() == old(status_tx).warnings() ==> settled_upto(
                entries,
                b as int,
                0,
                psiv,
                tracks0,
                source.view().tracks,
                uc,
            ),
            status_tx.warnings() == old(status_tx).warnings() ==> changed_in_entries(
                entries,
                b as int,
                0,
                psiv,
                tracks0,
                source.view().tracks,
            ),
        decreases ratings_on_device@.len() - b,
    {
        let rating_on_device = ratings_on_device[b].0;
        let mut t: usize = 0;
        while t < ratings_on_device[b].1.len()
            invariant
                old(status_tx).wf(),
                status_tx.wf(),
                b < ratings_on_device@.len(),
                t <= ratings_on_device@[b as int].1@.len(),
                status_tx.warnings() >= old(status_tx).warnings(),
                status_tx.progress_log() == old(status_tx).progress_log().push(
                    Progress::ReverseSyncRatings,
                ),
                entries == ratings_on_device@,
                entries_sound(entries, device.view(), psiv),
                files == files_on_device.deep_view(),
                norating_bookkeeping(files, psiv, nr0, nr_final, pre_none, entries),
                status_tx.warnings() == old(status_tx).warnings() ==> (forall|n: int|
                    1 <= n <= 5 ==> #[trigger] has_entry(entries, n)),
                rating_on_device == ratings_on_device@[b as int].0,
                crate::source::rating_wf(rating_on_device),
                source.view().name == old(source).view().name,
                source.view().playlists == old(source).view().playlists,
                ratings_reconciled(tracks0, source.view().tracks, psiv, uc),
                tracks0 == old(source).view().tracks,
                psiv == previous_sync_info@,
                uc == config@.use_computed_ratings,
                status_tx.warnings() == old(status_tx).warnings() ==> entries_share_rating(
                    entries,
                ),
                status_tx.warnings() == old(status_tx).warnings() ==> settled_upto(
                    entries,
                    b as int,
                    t as int,
                    psiv,
                    tracks0,
                    source.view().tracks,
                    uc,
                ),
                status_tx.warnings() == old(status_tx).warnings() ==> changed_in_entries(
                    entries,
                    b as int,
                    t as int,
                    psiv,
                    tracks0,
                    source.view().tracks,
                ),
            decreases ratings_on_device@[b as int].1@.len() - t,
        {
            let track_id = ratings_on_device[b].1[t];
            let ghost cur0 = source.view().tracks;
            let rating_at_previous_sync = previous_sync_info.rating_for_id(track_id);
            if !crate::source::rating_eq(rating_at_previous_sync, rating_on_device) {
                // This song has changed its rating on the device.
                // Has it changed on the source as well?
                match source.track_by_id(track_id) {
                    None => {
                        let mut m = String::new();
                        m.append("The rating of track ");
                        m.append(crate::numfmt::u64_to_dec(track_id.0).as_str());
                        m.append(
                            " has changed on the device, but it has been removed from the source",
                        );
                        status_tx.send_warning(m);
                    },
                    Some(track) => {
                        let rating_on_source = track.rating(config.use_computed_ratings());
                        let track_name = match previous_sync_info.path_for_id(track_id) {
                            Some(path) => path,
                            None => "<unknown>".to_owned(),
                        };
                        if !crate::source::rating_eq(rating_on_source, rating_at_previous_sync) {
                            // That is a conflict.
                            let mut m = String::new();
                            m.append("Song ");
                            m.append(track_name.as_str());
                            m.append(
                                " has changed its rating on both the source and the device. That is a conflict, let the source win.",
                            );
                            status_tx.send_info(m);
                            proof {
                                if status_tx.warnings() == old(status_tx).warnings() {
                                    assert(pair_settled(
                                        entries,
                                        b as int,
                                        t as int,
                                        psiv,
                                        tracks0,
                                        source.view().tracks,
                                        uc,
                                    )) by {
                                        let id = entries[b as int].1@[t as int];
                                        assert(id == track_id);
                                        if crate::sync::info::rating_for(psiv, id) != entries[
                                            b as int
                                        ].0 && tracks0.dom().contains(id)
                                            && crate::source::effective_rating(tracks0[id], uc)
                                            == crate::sync::info::rating_for(psiv, id) {
                                            assert(track.consistent_with(cur0[id]));
                                            assert(rating_on_source
                                                == crate::source::effective_rating(cur0[id], uc));
                                            if cur0[id] == tracks0[id] {
                                                assert(false);
                                            } else {
                                                let (k0, u0) = choose|k0: int, u0: int|
                                                    #![trigger entries[k0].1@[u0]]
                                                    0 <= k0 < entries.len() && 0 <= u0 < entries[
                                                        k0
                                                    ].1@.len() && (k0 < b as int || (k0
                                                        == b as int && u0 < t as int))
                                                        && entries[k0].1@[u0] == id
                                                        && source.view().tracks[id]
                                                        == crate::source::with_rating(
                                                        tracks0[id],
                                                        entries[k0].0,
                                                    ) && crate::sync::info::rating_for(psiv, id)
                                                        != entries[k0].0;
                                                assert(entries[k0].0 == entries[b as int].0);
                                                assert(pair_settled(
                                                    entries,
                                                    k0,
                                                    u0,
                                                    psiv,
                                                    tracks0,
                                                    source.view().tracks,
                                                    uc,
                                                ));
                                            }
                                        }
                                    }
                                }
                            }
                        } else {
                            // We are cleared to update the rating on the source.
                            status_tx.send(
                                Message::UpdatingSongRatingIntoSource {
                                    track_name,
                                    new_rating: rating_on_device,
                                    current_rating_on_source: rating_on_source,
                                },
                            );
                            let ghost before_call = source.view().tracks;
                            let set_result = source.set_rating(track_id, rating_on_device);
                            proof {
                                if set_result is Ok {
                                    assert(before_call.dom().contains(track_id));
                                    assert(tracks0.dom().contains(track_id));
                                    assert(before_call[track_id] == tracks0[track_id]) by {
                                        if before_call[track_id] != tracks0[track_id] {
                                            let r0 = choose|r0: Rating|
                                                crate::source::rating_wf(r0) && before_call[
                                                    track_id
                                                ] == crate::source::with_rating(
                                                    tracks0[track_id],
                                                    r0,
                                                ) && r0 != crate::sync::info::rating_for(
                                                    psiv,
                                                    track_id,
                                                ) && crate::source::effective_rating(
                                                    tracks0[track_id],
                                                    uc,
                                                ) == crate::sync::info::rating_for(
                                                    psiv,
                                                    track_id,
                                                );
                                            assert(track.consistent_with(
                                                before_call[track_id],
                                            ));
                                            assert(rating_on_source
                                                == crate::source::effective_rating(
                                                before_call[track_id],
                                                uc,
                                            ));
                                            assert(rating_on_source == r0);
                                            assert(false);
                                        }
                                    }
                                    assert(rating_on_source == crate::source::effective_rating(
                                        tracks0[track_id],
                                        uc,
                                    ));
                                    assert(rating_at_previous_sync
                                        == crate::sync::info::rating_for(psiv, track_id));
                                    assert(source.view().tracks =~= before_call.insert(
                                        track_id,
                                        crate::source::with_rating(
                                            tracks0[track_id],
                                            rating_on_device,
                                        ),
                                    ));
                                    assert(ratings_reconciled(
                                        tracks0,
                                        source.view().tracks,
                                        psiv,
                                        uc,
                                    )) by {
                                        assert(source.view().tracks.dom() =~= tracks0.dom());
                                        assert forall|id: TrackId|
                                            tracks0.dom().contains(
                                                id,
                                            ) implies ((#[trigger] source.view().tracks[id])
                                            == tracks0[id] || (exists|r: Rating|
                                            crate::source::rating_wf(r)
                                                && source.view().tracks[id]
                                                == crate::source::with_rating(tracks0[id], r) && r
                                                != crate::sync::info::rating_for(psiv, id)
                                                && crate::source::effective_rating(
                                                tracks0[id],
                                                uc,
                                            ) == crate::sync::info::rating_for(psiv, id))) by {
                                            if id != track_id {
                                                assert(source.view().tracks[id]
                                                    == before_call[id]);
                                            } else {
                                                assert(crate::source::rating_wf(rating_on_device)
                                                    && source.view().tracks[id]
                                                    == crate::source::with_rating(
                                                    tracks0[id],
                                                    rating_on_device,
                                                ) && rating_on_device
                                                    != crate::sync::info::rating_for(psiv, id)
                                                    && crate::source::effective_rating(
                                                    tracks0[id],
                                                    uc,
                                                ) == crate::sync::info::rating_for(psiv, id));
                                            }
                                        }
                                    }
                                }
                            }
                            if let Err(err) = set_result {
                                let mut m = String::new();
                                m.append("Unable to update rating for track '");
                                m.append(crate::numfmt::u64_to_dec(track_id.0).as_str());
                                m.append("': ");
                                m.append(err.as_str());
                                status_tx.send_warning(m);
                            }
                        }
                    },
                }
            }
            t += 1;
        }
        b += 1;
    }
    proof {
        if status_tx.warnings() == old(status_tx).warnings() {
            assert forall|n: int, id: TrackId|
                #![trigger bucket_ids(device.view(), psiv, n).contains(id)]
                1 <= n <= 5 && bucket_ids(device.view(), psiv, n).contains(id)
                    && crate::sync::info::rating_for(psiv, id) != Some(n as u8)
                    && tracks0.dom().contains(id) && crate::source::effective_rating(
                    tracks0[id],
                    uc,
                ) == crate::sync::info::rating_for(psiv, id) implies source.view().tracks.dom().contains(
                id,
            ) && source.view().tracks[id] == crate::source::with_rating(
                tracks0[id],
                Some(n as u8),
            ) by {
                assert(has_entry(entries, n));
                let k = choose|k: int|
                    0 <= k < entries.len() && (#[trigger] entries[k]).0 == Some(n as u8);
                assert(entries[k].1@ == dedup_ids_spec(bucket_ids(device.view(), psiv, n)));
                lemma_dedup_contains(bucket_ids(device.view(), psiv, n), id);
                assert(entries[k].1@.contains(id));
                let u = choose|u: int| 0 <= u < entries[k].1@.len() && entries[k].1@[u] == id;
                assert(entries[k].1@[u] == id);
                assert(pair_settled(entries, k, u, psiv, tracks0, source.view().tracks, uc));
            }
            assert(device_ratings_applied(
                device.view(),
                psiv,
                tracks0,
                source.view().tracks,
                uc,
            ));
            assert forall|n1: int, n2: int, id: TrackId|
                #![trigger bucket_ids(device.view(), psiv, n1).contains(id), bucket_ids(device.view(), psiv, n2).contains(id)]
                1 <= n1 < n2 <= 5 implies !(bucket_ids(device.view(), psiv, n1).contains(id)
                && bucket_ids(device.view(), psiv, n2).contains(id)) by {
                if bucket_ids(device.view(), psiv, n1).contains(id) && bucket_ids(
                    device.view(),
                    psiv,
                    n2,
                ).contains(id) {
                    assert(has_entry(entries, n1));
                    assert(has_entry(entries, n2));
                    let k1 = choose|k1: int|
                        0 <= k1 < entries.len() && (#[trigger] entries[k1]).0 == Some(n1 as u8);
                    let k2 = choose|k2: int|
                        0 <= k2 < entries.len() && (#[trigger] entries[k2]).0 == Some(n2 as u8);
                    lemma_dedup_contains(bucket_ids(device.view(), psiv, n1), id);
                    lemma_dedup_contains(bucket_ids(device.view(), psiv, n2), id);
                    assert(entries[k1].1@.contains(id));
                    assert(entries[k2].1@.contains(id));
                    let u1 = choose|u1: int|
                        0 <= u1 < entries[k1].1@.len() && entries[k1].1@[u1] == id;
                    let u2 = choose|u2: int|
                        0 <= u2 < entries[k2].1@.len() && entries[k2].1@[u2] == id;
                    assert(entries[k1].1@[u1] == entries[k2].1@[u2]);
                    assert(entries[k1].0 == entries[k2].0);
                }
            }
            let dv = device.view();
            let now = source.view().tracks;
            assert(writes_from_device(dv, psiv, tracks0, now)) by {
                assert(changed_in_entries(entries, entries.len() as int, 0, psiv, tracks0, now));
                assert forall|id: TrackId|
                    tracks0.dom().contains(id) && #[trigger] now[id] != tracks0[id] implies ((
                exists|n: int|
                    #![trigger bucket_ids(dv, psiv, n)]
                    1 <= n <= 5 && bucket_ids(dv, psiv, n).contains(id) && now[id]
                        == crate::source::with_rating(tracks0[id], Some(n as u8))
                        && crate::sync::info::rating_for(psiv, id) != Some(n as u8)) || (now[id]
                    == crate::source::with_rating(tracks0[id], None)
                    && crate::sync::info::rating_for(psiv, id) != None::<u8> && (forall|n: int|
                    1 <= n <= 5 ==> !bucket_ids(dv, psiv, n).contains(id)))) by {
                    let (k, u) = choose|k: int, u: int|
                        #![trigger entries[k].1@[u]]
                        0 <= k < entries.len() && 0 <= u < entries[k].1@.len() && (k < entries.len()
                            as int || (k == entries.len() as int && u < 0)) && entries[k].1@[u]
                            == id && now[id] == crate::source::with_rating(
                            tracks0[id],
                            entries[k].0,
                        ) && crate::sync::info::rating_for(psiv, id) != entries[k].0;
                    if k < pre_none.len() {
                        assert(entries[k].0 is Some);
                        let m = entries[k].0.unwrap();
                        assert(entries[k].1@ == dedup_ids_spec(bucket_ids(dv, psiv, m as int)));
                        assert(entries[k].1@.contains(id)) by {
                            assert(entries[k].1@[u] == id);
                        }
                        lemma_dedup_contains(bucket_ids(dv, psiv, m as int), id);
                        assert(1 <= m as int <= 5 && bucket_ids(dv, psiv, m as int).contains(id)
                            && now[id] == crate::source::with_rating(
                            tracks0[id],
                            Some(((m as int) as u8)),
                        ) && crate::sync::info::rating_for(psiv, id) != Some(((m as int) as u8)));
                    } else {
                        assert(k == pre_none.len());
                        assert(entries[k].0 is None);
                        assert forall|n: int| 1 <= n <= 5 implies !bucket_ids(
                            dv,
                            psiv,
                            n,
                        ).contains(id) by {
                            if bucket_ids(dv, psiv, n).contains(id) {
                                assert(has_entry(entries, n));
                                let k2 = choose|k2: int|
                                    0 <= k2 < entries.len() && (#[trigger] entries[k2]).0 == Some(
                                        n as u8,
                                    );
                                lemma_dedup_contains(bucket_ids(dv, psiv, n), id);
                                assert(entries[k2].1@ == dedup_ids_spec(
                                    bucket_ids(dv, psiv, n),
                                ));
                                assert(entries[k2].1@.contains(id));
                                let u2 = choose|u2: int|
                                    0 <= u2 < entries[k2].1@.len() && entries[k2].1@[u2] == id;
                                assert(entries[k].1@[u] == entries[k2].1@[u2]);
                                assert(entries[k].0 == entries[k2].0);
                                assert(false);
                            }
                        }
                    }
                }
            }
            assert(norating_applied(files, dv, psiv, tracks0, now, uc)) by {
                assert forall|id: TrackId|
                    #![trigger crate::sync::info::rating_for(psiv, id)]
                    (exists|f: int|
                        0 <= f < files.len() && crate::sync::info::id_for_rel(
                            psiv,
                            #[trigger] files[f],
                        ) == Some(id)) && (forall|n: int|
                        1 <= n <= 5 ==> !bucket_ids(dv, psiv, n).contains(id))
                        && crate::sync::info::rating_for(psiv, id) != None::<u8>
                        && tracks0.dom().contains(id) && crate::source::effective_rating(
                        tracks0[id],
                        uc,
                    ) == crate::sync::info::rating_for(psiv, id) implies now.dom().contains(id)
                    && now[id] == crate::source::with_rating(tracks0[id], None) by {
                    let fidx = choose|f: int|
                        0 <= f < files.len() && crate::sync::info::id_for_rel(
                            psiv,
                            #[trigger] files[f],
                        ) == Some(id);
                    assert(nr0.contains(id));
                    let kl = pre_none.len() as int;
                    assert(!in_some_bucket(pre_none, id)) by {
                        if in_some_bucket(pre_none, id) {
                            let (k, u) = choose|k: int, u: int|
                                #![trigger pre_none[k].1@[u]]
                                0 <= k < pre_none.len() && 0 <= u < pre_none[k].1@.len()
                                    && pre_none[k].1@[u] == id;
                            assert(entries[k] == pre_none[k]);
                            assert(entries[k].0 is Some);
                            let m = entries[k].0.unwrap();
                            assert(entries[k].1@ == dedup_ids_spec(
                                bucket_ids(dv, psiv, m as int),
                            ));
                            assert(entries[k].1@.contains(id)) by {
                                assert(entries[k].1@[u] == id);
                            }
                            lemma_dedup_contains(bucket_ids(dv, psiv, m as int), id);
                            assert(!bucket_ids(dv, psiv, m as int).contains(id));
                            assert(false);
                        }
                    }
                    assert(nr_final.contains(id));
                    let u = choose|u: int| 0 <= u < nr_final.len() && nr_final[u] == id;
                    assert(entries[kl].1@[u] == id);
                    assert(settled_upto(entries, entries.len() as int, 0, psiv, tracks0, now, uc));
                    assert(pair_settled(entries, kl, u, psiv, tracks0, now, uc));
                    assert(crate::sync::info::rating_for(psiv, id) != entries[kl].0);
                }
            }
        }
    }

    Ok(())
}

/// A missing answer counts as an overlap, out of caution.
fn unwrap_or_true(o: Option<bool>) -> (r: bool)
    ensures
        r == match o {
            Some(b) => b,
            None => true,
        },
{
    match o {
        Some(b) => b,
        None => true,
    }
}

/// The ids with later repetitions dropped, first occurrences in order.
pub open spec fn dedup_ids_spec(s: Seq<TrackId>) -> Seq<TrackId>
    decreases s.len(),
{
    if s.len() == 0 {
        Seq::empty()
    } else {
        let prefix = dedup_ids_spec(s.drop_last());
        if prefix.contains(s.last()) {
            prefix
        } else {
            prefix.push(s.last())
        }
    }
}

/// An id survives deduplication exactly when it occurs.
pub proof fn lemma_dedup_contains(s: Seq<TrackId>, id: TrackId)
    ensures
        dedup_ids_spec(s).contains(id) == s.contains(id),
    decreases s.len(),
{
    if s.len() > 0 {
        lemma_dedup_contains(s.drop_last(), id);
        let prefix = dedup_ids_spec(s.drop_last());
        if s.contains(id) {
            let k = choose|k: int| 0 <= k < s.len() && s[k] == id;
            if k < s.len() - 1 {
                assert(s.drop_last()[k] == id);
                assert(s.drop_last().contains(id));
            }
            if prefix.contains(id) {
                let m = choose|m: int| 0 <= m < prefix.len() && prefix[m] == id;
                assert(dedup_ids_spec(s)[m] == id);
                assert(dedup_ids_spec(s).contains(id));
            } else {
                assert(id == s.last());
                assert(dedup_ids_spec(s).last() == id);
                assert(dedup_ids_spec(s).contains(id));
            }
        }
        if dedup_ids_spec(s).contains(id) && !s.contains(id) {
            if prefix.contains(id) {
                assert(s.drop_last().contains(id));
                let k = choose|k: int| 0 <= k < s.drop_last().len() && s.drop_last()[k] == id;
                assert(s[k] == id);
            } else {
                assert(dedup_ids_spec(s) == prefix.push(s.last()));
                let k = choose|k: int|
                    0 <= k < dedup_ids_spec(s).len() && dedup_ids_spec(s)[k] == id;
                if k < prefix.len() {
                    assert(prefix[k] == id);
                    assert(prefix.contains(id));
                } else {
                    assert(s.last() == id);
                    assert(s[s.len() - 1] == id);
                }
            }
        }
    }
}

/// Drop repeated ids, keeping first occurrences in order.
pub fn dedup_ids(v: &Vec<TrackId>) -> (r: Vec<TrackId>)
    ensures
        r@ == dedup_ids_spec(v@),
        forall|i: int, j: int| 0 <= i < j < r@.len() ==> r@[i] != r@[j],
{
    let mut out: Vec<TrackId> = Vec::new();
    let mut i: usize = 0;
    while i < v.len()
        invariant
            i <= v@.len(),
            out@ == dedup_ids_spec(v@.subrange(0, i as int)),
            forall|a: int, b: int| 0 <= a < b < out@.len() ==> out@[a] != out@[b],
        decreases v@.len() - i,
    {
        proof {
            assert(v@.subrange(0, i + 1).drop_last() =~= v@.subrange(0, i as int));
            assert(v@.subrange(0, i + 1).last() == v@[i as int]);
        }
        if !id_in(&out, v[i]) {
            out.push(v[i]);
        }
        i += 1;
    }
    proof {
        assert(v@.subrange(0, v@.len() as int) =~= v@);
    }
    out
}

/// The first position of an id.
fn position_of(v: &Vec<TrackId>, id: TrackId) -> (r: Option<usize>)
    ensures
        r matches Some(at) ==> at < v@.len() && v@[at as int] == id,
        r is None ==> !v@.contains(id),
{
    let mut i: usize = 0;
    while i < v.len()
        invariant
            i <= v@.len(),
            forall|k: int| 0 <= k < i ==> v@[k] != id,
        decreases v@.len() - i,
    {
        if v[i] == id {
            return Some(i);
        }
        i += 1;
    }
    None
}


/// The character-wise longest common prefix of two paths.
pub open spec fn lcp2(a: Seq<char>, b: Seq<char>) -> Seq<char>
    decreases a.len(),
{
    if a.len() == 0 || b.len() == 0 || a[0] != b[0] {
        Seq::empty()
    } else {
        seq![a[0]] + lcp2(a.drop_first(), b.drop_first())
    }
}

/// The common prefix of an accumulator and every path in the list.
pub open spec fn lcp_fold(acc: Seq<char>, paths: Seq<Seq<char>>) -> Seq<char>
    decreases paths.len(),
{
    if paths.len() == 0 {
        acc
    } else {
        lcp_fold(lcp2(acc, paths[0]), paths.drop_first())
    }
}

/// The longest common prefix of all paths (empty when there are none).
pub open spec fn lcp_all(paths: Seq<Seq<char>>) -> Seq<char> {
    if paths.len() == 0 {
        Seq::empty()
    } else {
        lcp_fold(paths[0], paths.drop_first())
    }
}

/// The index of the last separator in a path, if any.
pub open spec fn last_slash(s: Seq<char>) -> Option<int>
    decreases s.len(),
{
    if s.len() == 0 {
        None
    } else if s.last() == '/' {
        Some(s.len() - 1)
    } else {
        last_slash(s.drop_last())
    }
}

/// The common ancestor of a set of absolute paths: the longest directory
/// prefix (up to, excluding, the last separator within the common prefix)
/// that every path lies under; none when the paths share no directory.
pub open spec fn ca_spec(paths: Seq<Seq<char>>) -> Option<Seq<char>> {
    if paths.len() == 0 {
        None
    } else {
        match last_slash(lcp_all(paths)) {
            None => None,
            Some(k) => Some(lcp_all(paths).take(k)),
        }
    }
}

/// The longest common prefix of two paths, character by character.
fn lcp2_exec(a: &str, b: &str) -> (r: String)
    ensures
        r@ == lcp2(a@, b@),
{
    let alen = a.unicode_len();
    let blen = b.unicode_len();
    let mut m: usize = 0;
    while m < alen && m < blen && a.get_char(m) == b.get_char(m)
        invariant
            m <= alen,
            m <= blen,
            alen == a@.len(),
            blen == b@.len(),
            forall|k: int| 0 <= k < m ==> a@[k] == b@[k],
        decreases alen - m,
    {
        m += 1;
    }
    let r = a.substring_char(0, m).to_owned();
    proof {
        lemma_lcp2_take(a@, b@, m as int);
    }
    r
}

proof fn lemma_lcp2_take(a: Seq<char>, b: Seq<char>, m: int)
    requires
        0 <= m <= a.len(),
        m <= b.len(),
        forall|k: int| 0 <= k < m ==> a[k] == b[k],
        m == a.len() || m == b.len() || a[m] != b[m],
    ensures
        lcp2(a, b) == a.subrange(0, m),
    decreases m,
{
    if m == 0 {
        assert(a.subrange(0, 0) =~= Seq::<char>::empty());
    } else {
        assert(a[0] == b[0]);
        lemma_lcp2_take(a.drop_first(), b.drop_first(), m - 1);
        assert(forall|k: int|
            0 <= k < m - 1 ==> #[trigger] a.drop_first()[k] == a[k + 1] && b.drop_first()[k] == b[
                k + 1
            ]);
        assert(a.drop_first().subrange(0, m - 1) =~= a.subrange(1, m));
        assert(lcp2(a, b) == seq![a[0]] + a.subrange(1, m));
        assert(seq![a[0]] + a.subrange(1, m) =~= a.subrange(0, m));
    }
}

/// The common prefix of two paths is a prefix of either.
proof fn lemma_lcp2_prefix(a: Seq<char>, b: Seq<char>)
    ensures
        lcp2(a, b).is_prefix_of(a),
        lcp2(a, b).is_prefix_of(b),
    decreases a.len(),
{
    if !(a.len() == 0 || b.len() == 0 || a[0] != b[0]) {
        lemma_lcp2_prefix(a.drop_first(), b.drop_first());
        let r = lcp2(a, b);
        assert(r.subrange(1, r.len() as int) =~= lcp2(a.drop_first(), b.drop_first()));
        assert(a.subrange(1, r.len() as int) =~= a.drop_first().subrange(0, r.len() - 1));
        assert(b.subrange(1, r.len() as int) =~= b.drop_first().subrange(0, r.len() - 1));
        assert(r =~= a.subrange(0, r.len() as int));
        assert(r =~= b.subrange(0, r.len() as int));
    }
}

/// The folded common prefix is a prefix of the accumulator and of every
/// listed path.
proof fn lemma_lcp_fold_prefix(acc: Seq<char>, paths: Seq<Seq<char>>)
    ensures
        lcp_fold(acc, paths).is_prefix_of(acc),
        forall|i: int|
            0 <= i < paths.len() ==> lcp_fold(acc, paths).is_prefix_of(#[trigger] paths[i]),
    decreases paths.len(),
{
    if paths.len() == 0 {
        assert(acc.subrange(0, acc.len() as int) =~= acc);
    } else {
        lemma_lcp2_prefix(acc, paths[0]);
        lemma_lcp_fold_prefix(lcp2(acc, paths[0]), paths.drop_first());
        let r = lcp_fold(acc, paths);
        let l2 = lcp2(acc, paths[0]);
        assert(r.is_prefix_of(l2));
        assert forall|x: Seq<char>, y: Seq<char>, z: Seq<char>|
            x.is_prefix_of(y) && y.is_prefix_of(z) implies #[trigger] prefix_chain(x, y, z) by {
            assert(x =~= z.subrange(0, x.len() as int)) by {
                assert(forall|k: int| 0 <= k < x.len() ==> x[k] == y[k] && y[k] == z[k]);
            }
        }
        assert(prefix_chain(r, l2, acc));
        assert(prefix_chain(r, l2, paths[0]));
        assert forall|i: int|
            0 <= i < paths.len() implies r.is_prefix_of(#[trigger] paths[i]) by {
            if i > 0 {
                assert(paths.drop_first()[i - 1] == paths[i]);
            }
        }
    }
}

/// Three nested prefixes.
pub open spec fn prefix_chain(x: Seq<char>, y: Seq<char>, z: Seq<char>) -> bool {
    x.is_prefix_of(y) && y.is_prefix_of(z) ==> x.is_prefix_of(z)
}

/// The index of the last separator, or none.
fn last_slash_exec(s: &str) -> (r: Option<usize>)
    ensures
        match r {
            Some(k) => last_slash(s@) == Some(k as int),
            None => last_slash(s@) is None,
        },
{
    let len = s.unicode_len();
    proof {
        assert(s@.take(len as int) =~= s@);
    }
    let mut k: usize = len;
    while k > 0
        invariant
            k <= len,
            len == s@.len(),
            last_slash(s@) == last_slash(s@.take(k as int)),
        decreases k,
    {
        proof {
            assert(s@.take(k as int).drop_last() =~= s@.take(k - 1));
            assert(s@.take(k as int).last() == s@[k - 1]);
        }
        if s.get_char(k - 1) == '/' {
            return Some(k - 1);
        }
        k -= 1;
    }
    proof {
        assert(s@.take(0) =~= Seq::<char>::empty());
    }
    None
}

/// Build the file-set from the scanned absolute paths: compute the common
/// ancestor, make every path relative to it, and keep the running total.
/// Fails exactly when the paths share no directory.
#[verifier::rlimit(60)]
pub fn build_file_set(
    data_with_absolute_paths: Vec<(String, crate::sync::utils::FileData)>,
    total_size: u64,
) -> (r: Result<crate::sync::utils::FileSet, SyncError>)
    requires
        crate::assoc::distinct_keys(
            crate::sync::utils::files_data_view(data_with_absolute_paths@),
        ),
        total_size == if crate::sync::utils::sum_sizes(
            crate::sync::utils::files_data_view(data_with_absolute_paths@),
        ) > u64::MAX {
            u64::MAX as int
        } else {
            crate::sync::utils::sum_sizes(
                crate::sync::utils::files_data_view(data_with_absolute_paths@),
            )
        },
    ensures
        r matches Ok(fs) ==> ca_spec(file_keys(data_with_absolute_paths@)) == Some(
            fs.common_ancestor@,
        ) && fs.wf() && fs.total_size == total_size && fs.files_data@.len()
            == data_with_absolute_paths@.len() && (forall|i: int|
            0 <= i < data_with_absolute_paths@.len() ==> ((#[trigger] fs.files_data@[i]).1
                == data_with_absolute_paths@[i].1 && fs.files_data@[i].0@
                == data_with_absolute_paths@[i].0@.skip(fs.common_ancestor@.len() as int + 1)
                && dir_prefix(fs.common_ancestor@).is_prefix_of(
                data_with_absolute_paths@[i].0@,
            ))),
        r matches Err(e) ==> e is NoCommonAncestor && ca_spec(
            file_keys(data_with_absolute_paths@),
        ) is None,
{
    let ghost keys = file_keys(data_with_absolute_paths@);
    if data_with_absolute_paths.len() == 0 {
        return Err(SyncError::NoCommonAncestor);
    }
    let mut l: String = data_with_absolute_paths[0].0.clone();
    let mut i: usize = 1;
    proof {
        assert(keys.skip(1).len() == keys.len() - 1);
        assert(lcp_all(keys) == lcp_fold(keys[0], keys.drop_first()));
        assert(keys.drop_first() =~= keys.skip(1));
    }
    while i < data_with_absolute_paths.len()
        invariant
            1 <= i <= data_with_absolute_paths@.len(),
            keys == file_keys(data_with_absolute_paths@),
            keys.len() == data_with_absolute_paths@.len(),
            lcp_all(keys) == lcp_fold(l@, keys.skip(i as int)),
        decreases data_with_absolute_paths@.len() - i,
    {
        proof {
            assert(keys.skip(i as int)[0] == keys[i as int]);
            assert(keys.skip(i as int).drop_first() =~= keys.skip(i + 1));
            assert(keys[i as int] == data_with_absolute_paths@[i as int].0@);
        }
        l = lcp2_exec(l.as_str(), data_with_absolute_paths[i].0.as_str());
        i += 1;
    }
    proof {
        assert(keys.skip(keys.len() as int) =~= Seq::empty());
        assert(l@ == lcp_all(keys));
    }
    let k = match last_slash_exec(l.as_str()) {
        None => {
            return Err(SyncError::NoCommonAncestor);
        },
        Some(k) => k,
    };
    proof {
        lemma_last_slash_bound(l@);
        assert(k < l@.len());
    }
    let llen = l.as_str().unicode_len();
    let common_ancestor = l.as_str().substring_char(0, k).to_owned();
    let pre = l.as_str().substring_char(0, if k < llen { k + 1 } else { llen }).to_owned();
    proof {
        assert(common_ancestor@ =~= lcp_all(keys).take(k as int));
        assert(pre@ =~= lcp_all(keys).take(k + 1));
        assert(l@[k as int] == '/');
        assert(dir_prefix(common_ancestor@).is_prefix_of(pre@)) by {
            if common_ancestor@.len() == 0 || common_ancestor@.last() == '/' {
                assert(dir_prefix(common_ancestor@) == common_ancestor@);
                assert(common_ancestor@ =~= pre@.subrange(0, k as int));
            } else {
                assert(dir_prefix(common_ancestor@) =~= pre@);
                assert(pre@ =~= pre@.subrange(0, pre@.len() as int));
            }
        }
    }
    let mut relative_files: Vec<(String, crate::sync::utils::FileData)> = Vec::new();
    let mut j: usize = 0;
    while j < data_with_absolute_paths.len()
        invariant
            j <= data_with_absolute_paths@.len(),
            keys == file_keys(data_with_absolute_paths@),
            keys.len() == data_with_absolute_paths@.len(),
            pre@ == lcp_all(keys).take(k + 1),
            k < lcp_all(keys).len(),
            lcp_all(keys)[k as int] == '/',
            relative_files@.len() == j,
            forall|n: int|
                0 <= n < j ==> {
                    &&& (#[trigger] relative_files@[n]).1 == data_with_absolute_paths@[n].1
                    &&& relative_files@[n].0@ == data_with_absolute_paths@[n].0@.skip(
                        pre@.len() as int,
                    )
                    &&& pre@.is_prefix_of(data_with_absolute_paths@[n].0@)
                },
            crate::sync::utils::sum_sizes(
                crate::sync::utils::files_data_view(relative_files@),
            ) == crate::sync::utils::sum_sizes(
                crate::sync::utils::files_data_view(
                    data_with_absolute_paths@.subrange(0, j as int),
                ),
            ),
        decreases data_with_absolute_paths@.len() - j,
    {
        let entry = &data_with_absolute_paths[j];
        proof {
            lemma_lcp_fold_prefix(keys[0], keys.drop_first());
            assert(keys.drop_first() =~= keys.skip(1));
            assert(lcp_all(keys).is_prefix_of(keys[j as int])) by {
                if j == 0 {
                    assert(lcp_fold(keys[0], keys.drop_first()).is_prefix_of(keys[0]));
                } else {
                    assert(keys.drop_first()[j - 1] == keys[j as int]);
                }
            }
            assert(pre@.is_prefix_of(keys[j as int])) by {
                let la = lcp_all(keys);
                assert(pre@ =~= la.take(k + 1));
                assert(forall|c: int| 0 <= c < k + 1 ==> pre@[c] == la[c] && la[c] == keys[j as int][c]);
                assert(pre@ =~= keys[j as int].subrange(0, k + 1));
            }
            assert(keys[j as int] == entry.0@);
        }
        let rel = match strip_prefix_str(entry.0.as_str(), pre.as_str()) {
            Some(rest) => rest,
            None => {
                // Unreachable: every scanned path lies under the prefix.
                return Err(SyncError::NoCommonAncestor);
            },
        };
        let fd = crate::sync::utils::FileData {
            file_size: entry.1.file_size,
            id: entry.1.id,
            rating: entry.1.rating,
        };
        let ghost rf_before = relative_files@;
        relative_files.push((rel, fd));
        proof {
            assert(rel@ =~= entry.0@.skip(pre@.len() as int)) by {
                assert(entry.0@.subrange(pre@.len() as int, entry.0@.len() as int)
                    =~= entry.0@.skip(pre@.len() as int));
            }
            assert(fd == data_with_absolute_paths@[j as int].1);
            lemma_sum_push(
                crate::sync::utils::files_data_view(rf_before),
                (rel@, fd),
            );
            assert(crate::sync::utils::files_data_view(relative_files@)
                =~= crate::sync::utils::files_data_view(rf_before).push((rel@, fd)));
            let dv = crate::sync::utils::files_data_view(data_with_absolute_paths@);
            assert(crate::sync::utils::files_data_view(
                data_with_absolute_paths@.subrange(0, j + 1),
            ) =~= crate::sync::utils::files_data_view(
                data_with_absolute_paths@.subrange(0, j as int),
            ).push((data_with_absolute_paths@[j as int].0@, data_with_absolute_paths@[j as int].1)));
            lemma_sum_push(
                crate::sync::utils::files_data_view(
                    data_with_absolute_paths@.subrange(0, j as int),
                ),
                (data_with_absolute_paths@[j as int].0@, data_with_absolute_paths@[j as int].1),
            );
        }
        j += 1;
    }
    proof {
        assert(data_with_absolute_paths@.subrange(0, data_with_absolute_paths@.len() as int)
            =~= data_with_absolute_paths@);
        let dp = dir_prefix(common_ancestor@);
        assert forall|n: int|
            0 <= n < data_with_absolute_paths@.len() implies dp.is_prefix_of(
            (#[trigger] data_with_absolute_paths@[n]).0@,
        ) by {
            let te = relative_files@[n];
            assert(pre@.is_prefix_of(data_with_absolute_paths@[n].0@));
            assert(dp.is_prefix_of(pre@));
            assert(forall|c: int| 0 <= c < dp.len() ==> dp[c] == pre@[c]);
            assert(forall|c: int|
                0 <= c < pre@.len() ==> pre@[c] == data_with_absolute_paths@[n].0@[c]);
            assert(dp =~= data_with_absolute_paths@[n].0@.subrange(0, dp.len() as int));
        }
        assert(crate::assoc::distinct_keys(
            crate::sync::utils::files_data_view(relative_files@),
        )) by {
            let rv = crate::sync::utils::files_data_view(relative_files@);
            let dv = crate::sync::utils::files_data_view(data_with_absolute_paths@);
            assert forall|a: int, b: int|
                0 <= a < b < rv.len() implies (#[trigger] rv[a]).0 != (#[trigger] rv[b]).0 by {
                if rv[a].0 == rv[b].0 {
                    assert(data_with_absolute_paths@[a].0@ =~= pre@ + rv[a].0) by {
                        assert(pre@.is_prefix_of(data_with_absolute_paths@[a].0@));
                        assert(rv[a].0 == data_with_absolute_paths@[a].0@.skip(
                            pre@.len() as int,
                        ));
                    }
                    assert(data_with_absolute_paths@[b].0@ =~= pre@ + rv[b].0) by {
                        assert(pre@.is_prefix_of(data_with_absolute_paths@[b].0@));
                        assert(rv[b].0 == data_with_absolute_paths@[b].0@.skip(
                            pre@.len() as int,
                        ));
                    }
                    assert(dv[a].0 == dv[b].0);
                    assert(false);
                }
            }
        }
    }
    Ok(crate::sync::utils::FileSet { common_ancestor, files_data: relative_files, total_size })
}

/// Appending one record adds its size to the total.
proof fn lemma_sum_push(s: Seq<(Seq<char>, crate::sync::utils::FileData)>, e: (Seq<char>, crate::sync::utils::FileData))
    ensures
        crate::sync::utils::sum_sizes(s.push(e)) == crate::sync::utils::sum_sizes(s)
            + e.1.file_size,
    decreases s.len(),
{
    assert(s.push(e).len() > 0);
    assert(crate::sync::utils::sum_sizes(s.push(e)) == s.push(e)[0].1.file_size
        + crate::sync::utils::sum_sizes(s.push(e).drop_first()));
    if s.len() == 0 {
        assert(s.push(e).drop_first() =~= Seq::<(Seq<char>, crate::sync::utils::FileData)>::empty());
        assert(s.push(e)[0] == e);
        assert(crate::sync::utils::sum_sizes(
            Seq::<(Seq<char>, crate::sync::utils::FileData)>::empty(),
        ) == 0);
    } else {
        lemma_sum_push(s.drop_first(), e);
        assert(s.push(e).drop_first() =~= s.drop_first().push(e));
        assert(s.push(e)[0] == s[0]);
        assert(crate::sync::utils::sum_sizes(s) == s[0].1.file_size
            + crate::sync::utils::sum_sizes(s.drop_first()));
    }
}

/// A last separator index is in range and marks a separator.
proof fn lemma_last_slash_bound(s: Seq<char>)
    ensures
        last_slash(s) matches Some(k) ==> 0 <= k < s.len() && s[k] == '/',
    decreases s.len(),
{
    if s.len() > 0 && s.last() != '/' {
        lemma_last_slash_bound(s.drop_last());
    }
}

/// No separator occurs after the last one.
proof fn lemma_last_slash_latest(s: Seq<char>, j: int)
    requires
        0 <= j < s.len(),
        s[j] == '/',
    ensures
        last_slash(s) matches Some(k) && k >= j,
    decreases s.len(),
{
    if s.last() != '/' {
        assert(j < s.len() - 1);
        lemma_last_slash_latest(s.drop_last(), j);
    }
}


/// The record one scanned track contributes: its path, and its size (zero
/// when unavailable), id and reported rating. A track without a path
/// contributes nothing.
pub open spec fn track_record(t: crate::source::Track, uc: bool) -> Option<
    (Seq<char>, crate::sync::utils::FileData),
> {
    match t.path {
        Option::None => Option::None,
        Option::Some(p) => Option::Some(
            (
                p@,
                crate::sync::utils::FileData {
                    file_size: match t.size {
                        Option::Some(s) => s,
                        Option::None => 0,
                    },
                    id: t.id,
                    rating: t.reported_rating(uc),
                },
            ),
        ),
    }
}

/// One track folded into the scan: recorded unless its path is already
/// taken (a file in several playlists counts once).
pub open spec fn add_track(
    acc: Seq<(Seq<char>, crate::sync::utils::FileData)>,
    t: crate::source::Track,
    uc: bool,
) -> Seq<(Seq<char>, crate::sync::utils::FileData)> {
    match track_record(t, uc) {
        Option::None => acc,
        Option::Some(e) => if crate::assoc::alookup(acc, e.0) is Some {
            acc
        } else {
            acc.push(e)
        },
    }
}

/// A playlist's tracks folded into the scan, in order.
pub open spec fn add_tracks(
    acc: Seq<(Seq<char>, crate::sync::utils::FileData)>,
    ts: Seq<crate::source::Track>,
    uc: bool,
) -> Seq<(Seq<char>, crate::sync::utils::FileData)>
    decreases ts.len(),
{
    if ts.len() == 0 {
        acc
    } else {
        add_tracks(add_track(acc, ts[0], uc), ts.drop_first(), uc)
    }
}

/// The selected playlists folded into the scan, in order.
pub open spec fn scan_playlists(
    acc: Seq<(Seq<char>, crate::sync::utils::FileData)>,
    ps: Seq<crate::source::Playlist>,
    uc: bool,
) -> Seq<(Seq<char>, crate::sync::utils::FileData)>
    decreases ps.len(),
{
    if ps.len() == 0 {
        acc
    } else {
        scan_playlists(add_tracks(acc, ps[0].tracks@, uc), ps.drop_first(), uc)
    }
}

proof fn lemma_scan_push(
    acc: Seq<(Seq<char>, crate::sync::utils::FileData)>,
    ps: Seq<crate::source::Playlist>,
    p: crate::source::Playlist,
    uc: bool,
)
    ensures
        scan_playlists(acc, ps.push(p), uc) == add_tracks(scan_playlists(acc, ps, uc), p.tracks@, uc),
    decreases ps.len(),
{
    assert(ps.push(p).len() > 0);
    assert(scan_playlists(acc, ps.push(p), uc) == scan_playlists(
        add_tracks(acc, ps.push(p)[0].tracks@, uc),
        ps.push(p).drop_first(),
        uc,
    ));
    if ps.len() == 0 {
        assert(ps.push(p).drop_first() =~= Seq::<crate::source::Playlist>::empty());
        assert(ps.push(p)[0] == p);
        assert(scan_playlists(add_tracks(acc, p.tracks@, uc), Seq::empty(), uc) == add_tracks(
            acc,
            p.tracks@,
            uc,
        ));
    } else {
        lemma_scan_push(add_tracks(acc, ps[0].tracks@, uc), ps.drop_first(), p, uc);
        assert(ps.push(p).drop_first() =~= ps.drop_first().push(p));
        assert(ps.push(p)[0] == ps[0]);
    }
}

/// The file-set records exactly the scan of one consistent, rightly-named
/// source playlist per selected name: the common ancestor of the scanned
/// paths, and each scanned record keyed by its path made relative.
pub open spec fn scanned_exactly(
    names: Seq<Seq<char>>,
    sv: crate::source::SourceView,
    uc: bool,
    fs: crate::sync::utils::FileSet,
) -> bool {
    exists|ps: Seq<crate::source::Playlist>|
        #![trigger scan_playlists(Seq::empty(), ps, uc)]
        ps.len() == names.len() && (forall|i: int|
            0 <= i < ps.len() ==> crate::source::playlist_consistent(#[trigger] ps[i], sv)
                && ps[i].name@ == names[i]) && ca_spec(
            crate::assoc::akeys(scan_playlists(Seq::empty(), ps, uc)),
        ) == Some(fs.common_ancestor@) && crate::sync::utils::files_data_view(
            fs.files_data@,
        ).len() == scan_playlists(Seq::empty(), ps, uc).len() && (forall|n: int|
            0 <= n < scan_playlists(Seq::empty(), ps, uc).len()
                ==> (#[trigger] crate::sync::utils::files_data_view(fs.files_data@)[n]).1
                == scan_playlists(Seq::empty(), ps, uc)[n].1
                && crate::sync::utils::files_data_view(fs.files_data@)[n].0 == scan_playlists(
                Seq::empty(),
                ps,
                uc,
            )[n].0.skip(fs.common_ancestor@.len() as int + 1))
}

/// The scan of one consistent, rightly-named source playlist per selected
/// name yields paths with no shared directory.
pub open spec fn scan_has_no_ancestor(
    names: Seq<Seq<char>>,
    sv: crate::source::SourceView,
    uc: bool,
) -> bool {
    exists|ps: Seq<crate::source::Playlist>|
        #![trigger scan_playlists(Seq::empty(), ps, uc)]
        ps.len() == names.len() && (forall|i: int|
            0 <= i < ps.len() ==> crate::source::playlist_consistent(#[trigger] ps[i], sv)
                && ps[i].name@ == names[i]) && ca_spec(
            crate::assoc::akeys(scan_playlists(Seq::empty(), ps, uc)),
        ) is None
}

/// The file-set's records are exactly the scan of some consistent source
/// playlists, each carrying a selected name: nothing is invented, whether
/// or not a playlist was skipped with a warning along the way.
pub open spec fn scan_sound(
    names: Seq<Seq<char>>,
    sv: crate::source::SourceView,
    uc: bool,
    fs: crate::sync::utils::FileSet,
) -> bool {
    exists|ps: Seq<crate::source::Playlist>|
        #![trigger scan_playlists(Seq::empty(), ps, uc)]
        (forall|i: int|
            0 <= i < ps.len() ==> crate::source::playlist_consistent(#[trigger] ps[i], sv)
                && names.contains(ps[i].name@)) && ca_spec(
            crate::assoc::akeys(scan_playlists(Seq::empty(), ps, uc)),
        ) == Some(fs.common_ancestor@) && crate::sync::utils::files_data_view(
            fs.files_data@,
        ).len() == scan_playlists(Seq::empty(), ps, uc).len() && (forall|n: int|
            0 <= n < scan_playlists(Seq::empty(), ps, uc).len()
                ==> (#[trigger] crate::sync::utils::files_data_view(fs.files_data@)[n]).1
                == scan_playlists(Seq::empty(), ps, uc)[n].1
                && crate::sync::utils::files_data_view(fs.files_data@)[n].0 == scan_playlists(
                Seq::empty(),
                ps,
                uc,
            )[n].0.skip(fs.common_ancestor@.len() as int + 1))
}

/// Scan the selected playlists of the source and build the file-set that
/// must end up on the device. A missing playlist, path or size is a
/// warning; a file in several playlists counts its size once; no shared
/// directory across the files is fatal.
pub fn required_files<S: Source>(
    status_tx: &mut Sender,
    source: &S,
    config: &Config,
) -> (r: Result<crate::sync::utils::FileSet, SyncError>)
    requires
        old(status_tx).wf(),
    ensures
        final(status_tx).wf(),
        final(status_tx).warnings() >= old(status_tx).warnings(),
        final(status_tx).progress_log() == old(status_tx).progress_log().push(
            Progress::ListingFilesInSource,
        ),
        r matches Ok(fs) ==> fs.wf(),
        r matches Err(e) ==> e is NoCommonAncestor,
        r matches Ok(fs) ==> scan_sound(
            config@.playlists,
            source.view(),
            config@.use_computed_ratings,
            fs,
        ),
        r matches Ok(fs) ==> (final(status_tx).warnings() == old(status_tx).warnings()
            ==> scanned_exactly(
            config@.playlists,
            source.view(),
            config@.use_computed_ratings,
            fs,
        )),
        r is Err ==> (final(status_tx).warnings() == old(status_tx).warnings()
            ==> scan_has_no_ancestor(
            config@.playlists,
            source.view(),
            config@.use_computed_ratings,
        )),
{
    status_tx.send_progress(Progress::ListingFilesInSource);

    let mut total_size: u64 = 0;
    let mut data_with_absolute_paths: Vec<(String, crate::sync::utils::FileData)> = Vec::new();
    let ghost uc = config@.use_computed_ratings;
    let ghost mut got: Seq<crate::source::Playlist> = Seq::empty();

    let playlist_names = config.playlists();
    let mut pn: usize = 0;
    while pn < playlist_names.len()
        invariant
            old(status_tx).wf(),
            status_tx.wf(),
            pn <= playlist_names@.len(),
            status_tx.warnings() >= old(status_tx).warnings(),
            status_tx.progress_log() == old(status_tx).progress_log().push(
                Progress::ListingFilesInSource,
            ),
            uc == config@.use_computed_ratings,
            playlist_names.deep_view() == config@.playlists,
            crate::assoc::distinct_keys(
                crate::sync::utils::files_data_view(data_with_absolute_paths@),
            ),
            crate::sync::utils::files_data_view(data_with_absolute_paths@) == scan_playlists(
                Seq::empty(),
                got,
                uc,
            ),
            forall|i: int|
                0 <= i < got.len() ==> crate::source::playlist_consistent(
                    #[trigger] got[i],
                    source.view(),
                ) && config@.playlists.contains(got[i].name@),
            status_tx.warnings() == old(status_tx).warnings() ==> got.len() == pn && (forall|
                i: int,
            |
                0 <= i < got.len() ==> crate::source::playlist_consistent(
                    #[trigger] got[i],
                    source.view(),
                ) && got[i].name@ == config@.playlists[i]),
            total_size == if crate::sync::utils::sum_sizes(
                crate::sync::utils::files_data_view(data_with_absolute_paths@),
            ) > u64::MAX {
                u64::MAX as int
            } else {
                crate::sync::utils::sum_sizes(
                    crate::sync::utils::files_data_view(data_with_absolute_paths@),
                )
            },
        decreases playlist_names@.len() - pn,
    {
        let playlist_name = &playlist_names[pn];
        let ghost w_head = status_tx.warnings();
        proof {
            assert(playlist_names.deep_view()[pn as int] == playlist_names@[pn as int]@);
        }
        match source.playlist_by_name(playlist_name.as_str()) {
            None => {
                let mut m = String::new();
                m.append("Unable to find playlist '");
                m.append(playlist_name.as_str());
                m.append("'");
                status_tx.send_warning(m);
            },
            Some(list) => {
                let ghost base = crate::sync::utils::files_data_view(data_with_absolute_paths@);
                proof {
                    assert(list.tracks@.skip(0) =~= list.tracks@);
                }
                let mut ti: usize = 0;
                while ti < list.tracks.len()
                    invariant
                        old(status_tx).wf(),
                        status_tx.wf(),
                        ti <= list.tracks@.len(),
                        status_tx.warnings() >= old(status_tx).warnings(),
                        status_tx.warnings() >= w_head,
                        status_tx.progress_log() == old(status_tx).progress_log().push(
                            Progress::ListingFilesInSource,
                        ),
                        uc == config@.use_computed_ratings,
                        crate::assoc::distinct_keys(
                            crate::sync::utils::files_data_view(data_with_absolute_paths@),
                        ),
                        add_tracks(
                            crate::sync::utils::files_data_view(data_with_absolute_paths@),
                            list.tracks@.skip(ti as int),
                            uc,
                        ) == add_tracks(base, list.tracks@, uc),
                        forall|i: int|
                            0 <= i < got.len() ==> crate::source::playlist_consistent(
                                #[trigger] got[i],
                                source.view(),
                            ) && config@.playlists.contains(got[i].name@),
                        crate::source::playlist_consistent(list, source.view()),
                        config@.playlists.contains(list.name@),
                        total_size == if crate::sync::utils::sum_sizes(
                            crate::sync::utils::files_data_view(data_with_absolute_paths@),
                        ) > u64::MAX {
                            u64::MAX as int
                        } else {
                            crate::sync::utils::sum_sizes(
                                crate::sync::utils::files_data_view(data_with_absolute_paths@),
                            )
                        },
                    decreases list.tracks@.len() - ti,
                {
                    let track = &list.tracks[ti];
                    let ghost dv_pre = crate::sync::utils::files_data_view(
                        data_with_absolute_paths@,
                    );
                    proof {
                        assert(list.tracks@.skip(ti as int)[0] == list.tracks@[ti as int]);
                        assert(list.tracks@.skip(ti as int).drop_first() =~= list.tracks@.skip(
                            ti + 1,
                        ));
                    }
                    match track.absolute_path() {
                        None => {
                            let mut m = String::new();
                            m.append("Unable to get path for song '");
                            m.append(track.name.as_str());
                            m.append("'");
                            status_tx.send_warning(m);
                            proof {
                                assert(add_track(dv_pre, list.tracks@[ti as int], uc) == dv_pre);
                            }
                        },
                        Some(absolute_path) => {
                            let file_size: u64 = match track.file_size() {
                                None => {
                                    let mut m = String::new();
                                    m.append("Unable to get file size for song '");
                                    m.append(track.name.as_str());
                                    m.append("'");
                                    status_tx.send_warning(m);
                                    0
                                },
                                Some(size) => size,
                            };
                            let rating = track.rating(config.use_computed_ratings());
                            let ghost rec = track_record(list.tracks@[ti as int], uc).unwrap();
                            proof {
                                assert(rec.0 == absolute_path@);
                                assert(rec.1 == (crate::sync::utils::FileData {
                                    file_size,
                                    id: track.id,
                                    rating,
                                }));
                            }
                            match crate::assoc::assoc_position(
                                &data_with_absolute_paths,
                                absolute_path.as_str(),
                            ) {
                                Some(at) => {
                                    // Already recorded from another playlist:
                                    // its size must not count twice.
                                    proof {
                                        crate::assoc::lemma_alookup_first_hit(
                                            dv_pre,
                                            absolute_path@,
                                            at as int,
                                        );
                                        assert(add_track(dv_pre, list.tracks@[ti as int], uc)
                                            == dv_pre);
                                    }
                                },
                                None => {
                                    let ghost before = data_with_absolute_paths@;
                                    let fd = crate::sync::utils::FileData {
                                        file_size,
                                        id: track.id,
                                        rating,
                                    };
                                    proof {
                                        lemma_sum_push(
                                            crate::sync::utils::files_data_view(before),
                                            (absolute_path@, fd),
                                        );
                                        crate::assoc::lemma_alookup_all_miss(
                                            dv_pre,
                                            absolute_path@,
                                        );
                                    }
                                    total_size = total_size.saturating_add(file_size);
                                    data_with_absolute_paths.push((absolute_path, fd));
                                    proof {
                                        assert(crate::sync::utils::files_data_view(
                                            data_with_absolute_paths@,
                                        ) =~= crate::sync::utils::files_data_view(before).push(
                                            (data_with_absolute_paths@.last().0@, fd),
                                        ));
                                        assert(crate::sync::utils::files_data_view(
                                            data_with_absolute_paths@,
                                        ) == add_track(dv_pre, list.tracks@[ti as int], uc));
                                    }
                                },
                            }
                        },
                    }
                    ti += 1;
                }
                proof {
                    assert(list.tracks@.skip(list.tracks@.len() as int) =~= Seq::empty());
                    assert(crate::sync::utils::files_data_view(data_with_absolute_paths@)
                        == add_tracks(base, list.tracks@, uc));
                    lemma_scan_push(Seq::empty(), got, list, uc);
                    let ghost got_pre = got;
                    got = got.push(list);
                    assert(crate::sync::utils::files_data_view(data_with_absolute_paths@)
                        == scan_playlists(Seq::empty(), got, uc));
                    assert forall|i: int|
                        0 <= i < got.len() implies crate::source::playlist_consistent(
                        #[trigger] got[i],
                        source.view(),
                    ) && config@.playlists.contains(got[i].name@) by {
                        if i < got_pre.len() {
                            assert(got[i] == got_pre[i]);
                        } else {
                            assert(got[i] == list);
                        }
                    }
                    if status_tx.warnings() == old(status_tx).warnings() {
                        assert(w_head == old(status_tx).warnings());
                        assert(got_pre.len() == pn);
                        assert(forall|i: int|
                            0 <= i < got_pre.len() ==> #[trigger] got[i] == got_pre[i]);
                        assert(got.last() == list);
                        assert(list.name@ == config@.playlists[pn as int]);
                    }
                }
            },
        }
        pn += 1;
    }

    // Get the common ancestor for all these files, and make every path
    // relative to it.
    let ghost dview = crate::sync::utils::files_data_view(data_with_absolute_paths@);
    let ghost dkeys = file_keys(data_with_absolute_paths@);
    proof {
        assert(crate::assoc::akeys(dview) =~= dkeys);
    }
    match build_file_set(data_with_absolute_paths, total_size) {
        Ok(fs) => {
            proof {
                {
                    let scan = scan_playlists(Seq::empty(), got, uc);
                    assert(ca_spec(crate::assoc::akeys(scan)) == Some(fs.common_ancestor@));
                    assert(crate::sync::utils::files_data_view(fs.files_data@).len()
                        == scan.len());
                    assert(forall|n: int|
                        0 <= n < scan.len()
                            ==> (#[trigger] crate::sync::utils::files_data_view(
                            fs.files_data@,
                        )[n]).1 == scan[n].1 && crate::sync::utils::files_data_view(
                            fs.files_data@,
                        )[n].0 == scan[n].0.skip(fs.common_ancestor@.len() as int + 1));
                    assert(scan_sound(config@.playlists, source.view(), uc, fs));
                }
                if status_tx.warnings() == old(status_tx).warnings() {
                    let scan = scan_playlists(Seq::empty(), got, uc);
                    assert(got.len() == config@.playlists.len());
                    assert(ca_spec(crate::assoc::akeys(scan)) == Some(fs.common_ancestor@));
                    assert(crate::sync::utils::files_data_view(fs.files_data@).len()
                        == scan.len());
                    assert(forall|n: int|
                        0 <= n < scan.len()
                            ==> (#[trigger] crate::sync::utils::files_data_view(
                            fs.files_data@,
                        )[n]).1 == scan[n].1 && crate::sync::utils::files_data_view(
                            fs.files_data@,
                        )[n].0 == scan[n].0.skip(fs.common_ancestor@.len() as int + 1));
                    assert(scanned_exactly(
                        config@.playlists,
                        source.view(),
                        uc,
                        fs,
                    ));
                }
            }
            Ok(fs)
        },
        Err(e) => {
            proof {
                if status_tx.warnings() == old(status_tx).warnings() {
                    let scan = scan_playlists(Seq::empty(), got, uc);
                    assert(ca_spec(crate::assoc::akeys(scan)) is None);
                    assert(scan_has_no_ancestor(config@.playlists, source.view(), uc));
                }
            }
            Err(e)
        },
    }
}

/// Whether a file name carries the playlist extension.
pub open spec fn is_m3u_name(k: Seq<char>) -> bool {
    ".m3u"@.is_suffix_of(k)
}

/// The root files without the playlist files.
pub open spec fn without_m3u(m: Map<Seq<char>, Seq<char>>) -> Map<Seq<char>, Seq<char>> {
    Map::new(|k: Seq<char>| m.dom().contains(k) && !is_m3u_name(k), |k: Seq<char>| m[k])
}

/// Every playlist file at the layout's root is one the record names:
/// no stale `.m3u` file survives the playlist update.
pub open spec fn m3u_keys_recorded(
    rf: Map<Seq<char>, Seq<char>>,
    ps: Seq<(String, (PlaylistId, Vec<TrackId>))>,
) -> bool {
    forall|k: Seq<char>|
        #[trigger] rf.contains_key(k) && is_m3u_name(k) ==> exists|i: int|
            0 <= i < ps.len() && (#[trigger] ps[i]).0@ == k
}

/// `after` holds a subset of `before`'s entries, unchanged.
pub open spec fn root_files_shrunk(
    before: Map<Seq<char>, Seq<char>>,
    after: Map<Seq<char>, Seq<char>>,
) -> bool {
    forall|k: Seq<char>|
        #[trigger] after.contains_key(k) ==> before.contains_key(k) && after[k] == before[k]
}

/// Every file without the playlist extension survives.
pub open spec fn keeps_non_m3u(
    before: Map<Seq<char>, Seq<char>>,
    after: Map<Seq<char>, Seq<char>>,
) -> bool {
    forall|k: Seq<char>|
        #[trigger] before.contains_key(k) && !is_m3u_name(k) ==> after.contains_key(k)
}

/// Remove every playlist file at the layout's root, regular playlists and
/// rating buckets alike; a failed delete is a warning. Nothing else is
/// touched, and with no warning exactly the `.m3u` files are gone.
pub fn remove_current_playlists<D: Device>(
    status_tx: &mut Sender,
    device: &mut D,
    main_folder: &Folder,
) -> (r: Result<(), SyncError>)
    requires
        old(status_tx).wf(),
        main_folder.rooted(),
        main_folder.rel_file_paths().to_set() == old(device).view().root_files.dom(),
    ensures
        final(status_tx).wf(),
        final(status_tx).warnings() >= old(status_tx).warnings(),
        final(status_tx).progress_log() == old(status_tx).progress_log(),
        final(device).view().inited == old(device).view().inited,
        final(device).view().music == old(device).view().music,
        final(device).view().config == old(device).view().config,
        final(device).view().sync_info == old(device).view().sync_info,
        root_files_shrunk(old(device).view().root_files, final(device).view().root_files),
        keeps_non_m3u(old(device).view().root_files, final(device).view().root_files),
        final(status_tx).warnings() == old(status_tx).warnings() ==> final(device).view().root_files =~= without_m3u(old(device).view().root_files),
        r is Ok,
{
    let ghost rf0 = old(device).view().root_files;
    let ghost rels = main_folder.rel_file_paths();
    let pre = crate::source::dir_prefix_exec(main_folder.path.as_str());
    let mut i: usize = 0;
    while i < main_folder.files.len()
        invariant
            old(status_tx).wf(),
            status_tx.wf(),
            status_tx.progress_log() == old(status_tx).progress_log(),
            i <= main_folder.files@.len(),
            main_folder.rooted(),
            rels == main_folder.rel_file_paths(),
            rf0 == old(device).view().root_files,
            pre@ == dir_prefix(main_folder.path@),
            status_tx.warnings() >= old(status_tx).warnings(),
            device.view().inited == old(device).view().inited,
            device.view().music == old(device).view().music,
            device.view().config == old(device).view().config,
            device.view().sync_info == old(device).view().sync_info,
            root_files_shrunk(rf0, device.view().root_files),
            keeps_non_m3u(rf0, device.view().root_files),
            status_tx.warnings() == old(status_tx).warnings() ==> (forall|j: int|
                0 <= j < i && is_m3u_name(#[trigger] rels[j])
                    ==> !device.view().root_files.contains_key(rels[j])),
        decreases main_folder.files@.len() - i,
    {
        let file = &main_folder.files[i];
        proof {
            assert(dir_prefix(main_folder.path@).is_prefix_of(file.path@));
        }
        let name = match strip_prefix_str(file.path.as_str(), pre.as_str()) {
            Some(rel) => rel,
            None => file.path.clone(),
        };
        proof {
            assert(name@ == rels[i as int]) by {
                assert(file.path@.subrange(pre@.len() as int, file.path@.len() as int)
                    =~= file.path@.skip(dir_prefix(main_folder.path@).len() as int));
            }
        }
        if has_suffix(name.as_str(), ".m3u") {
            status_tx.send(Message::RemovingPlaylist(name.clone()));
            match device.delete_root_file(name.as_str()) {
                Ok(u) => {},
                Err(err) => {
                    let mut m = String::new();
                    m.append("Unable to delete ");
                    m.append(name.as_str());
                    m.append(": ");
                    m.append(err.as_str());
                    status_tx.send_warning(m);
                },
            }
        }
        i += 1;
    }
    proof {
        if status_tx.warnings() == old(status_tx).warnings() {
            assert(device.view().root_files =~= without_m3u(rf0)) by {
                assert forall|k: Seq<char>|
                    device.view().root_files.contains_key(k) == without_m3u(rf0).contains_key(
                        k,
                    ) by {
                    if device.view().root_files.contains_key(k) {
                        assert(rf0.contains_key(k));
                        if is_m3u_name(k) {
                            assert(rels.to_set().contains(k));
                            assert(rels.contains(k));
                            let j = choose|j: int| 0 <= j < rels.len() && rels[j] == k;
                            assert(!device.view().root_files.contains_key(rels[j]));
                        }
                    }
                    if without_m3u(rf0).contains_key(k) {
                        assert(rf0.contains_key(k) && !is_m3u_name(k));
                    }
                }
            }
        }
    }
    Ok(())
}

/// Every recorded manifest entry reflects a real playlist of the source:
/// its sanitized file name, its id, and its exact track order.
pub open spec fn pushed_sound(
    r: Seq<(String, (PlaylistId, Vec<TrackId>))>,
    sv: crate::source::SourceView,
) -> bool {
    forall|i: int|
        0 <= i < r.len() ==> exists|p: crate::source::Playlist|
            #![auto]
            crate::source::playlist_consistent(p, sv) && (#[trigger] r[i]).0@
                == crate::source::sanitized_of(p.name@) + ".m3u"@ && r[i].1.0@ == p.id@
                && r[i].1.1@ == crate::source::snapshot_ids(p.tracks@)
}

/// Every selected playlist resolved to a source playlist, its rendered
/// M3U sits on the device under its sanitized file name, and the record
/// maps that file name to the playlist's id and exact track order.
pub open spec fn playlists_pushed(
    names: Seq<Seq<char>>,
    sv: crate::source::SourceView,
    r: Seq<(String, (PlaylistId, Vec<TrackId>))>,
    rf: Map<Seq<char>, Seq<char>>,
    ancestor: Seq<char>,
) -> bool {
    forall|n: int|
        #![trigger names[n]]
        0 <= n < names.len() ==> exists|p: crate::source::Playlist|
            #![trigger crate::source::playlist_consistent(p, sv)]
            crate::source::playlist_consistent(p, sv) && p.name@ == names[n]
                && crate::assoc::alookup(
                crate::sync::info::playlists_view(r),
                crate::source::sanitized_of(p.name@) + ".m3u"@,
            ) == Some((p.id@, crate::source::snapshot_ids(p.tracks@))) && rf.contains_key(
                crate::source::sanitized_of(p.name@) + ".m3u"@,
            ) && rf[crate::source::sanitized_of(p.name@) + ".m3u"@]
                == crate::source::m3u_rendered(
                crate::source::rel_paths(p.tracks@, ancestor),
                "music/"@,
            )
}

/// Render and push every selected playlist, and record what was pushed
/// for the new manifest. Two playlists whose names sanitize to the same
/// file name are reported as duplicates; the later one wins.
pub fn push_playlists<S: Source, D: Device>(
    status_tx: &mut Sender,
    device: &mut D,
    source: &S,
    config: &Config,
    common_ancestor: &str,
) -> (r: crate::sync::info::PlaylistsSet)
    requires
        old(status_tx).wf(),
    ensures
        final(status_tx).wf(),
        final(status_tx).warnings() >= old(status_tx).warnings(),
        final(status_tx).progress_log() == old(status_tx).progress_log(),
        final(device).view().inited == old(device).view().inited,
        final(device).view().music == old(device).view().music,
        final(device).view().config == old(device).view().config,
        final(device).view().sync_info == old(device).view().sync_info,
        crate::assoc::distinct_keys(crate::sync::info::playlists_view(r@)),
        pushed_sound(r@, source.view()),
        forall|k: Seq<char>|
            #[trigger] final(device).view().root_files.contains_key(k) && !old(
                device,
            ).view().root_files.contains_key(k) ==> exists|i: int|
                0 <= i < r@.len() && (#[trigger] r@[i]).0@ == k,
        final(status_tx).warnings() == old(status_tx).warnings() ==> playlists_pushed(
            config@.playlists,
            source.view(),
            r@,
            final(device).view().root_files,
            common_ancestor@,
        ),
{
    let mut pushed_playlists: crate::sync::info::PlaylistsSet = Vec::new();

    let playlist_names = config.playlists();
    let mut pn: usize = 0;
    while pn < playlist_names.len()
        invariant
            old(status_tx).wf(),
            status_tx.wf(),
            status_tx.progress_log() == old(status_tx).progress_log(),
            pn <= playlist_names@.len(),
            status_tx.warnings() >= old(status_tx).warnings(),
            device.view().inited == old(device).view().inited,
            device.view().music == old(device).view().music,
            device.view().config == old(device).view().config,
            device.view().sync_info == old(device).view().sync_info,
            crate::assoc::distinct_keys(crate::sync::info::playlists_view(pushed_playlists@)),
            pushed_sound(pushed_playlists@, source.view()),
            forall|k: Seq<char>|
                #[trigger] device.view().root_files.contains_key(k) && !old(
                    device,
                ).view().root_files.contains_key(k) ==> exists|i: int|
                    0 <= i < pushed_playlists@.len() && (#[trigger] pushed_playlists@[i]).0@ == k,
            playlist_names.deep_view() == config@.playlists,
            status_tx.warnings() == old(status_tx).warnings() ==> playlists_pushed(
                config@.playlists.subrange(0, pn as int),
                source.view(),
                pushed_playlists@,
                device.view().root_files,
                common_ancestor@,
            ),
        decreases playlist_names@.len() - pn,
    {
        let playlist_name = &playlist_names[pn];
        let ghost rf_pre = device.view().root_files;
        let ghost rec_pre = pushed_playlists@;
        proof {
            assert(playlist_names.deep_view()[pn as int] == playlist_names@[pn as int]@);
        }
        match source.playlist_by_name(playlist_name.as_str()) {
            None => {
                let mut m = String::new();
                m.append("Unable to get local playlist '");
                m.append(playlist_name.as_str());
                m.append("'");
                status_tx.send_warning(m);
            },
            Some(list) => {
                // Push an M3U file onto the device.
                let ghost rendered = crate::source::m3u_rendered(
                    crate::source::rel_paths(list.tracks@, common_ancestor@),
                    "music/"@,
                );
                match list.to_m3u(common_ancestor, "music/") {
                    Err(err) => {
                        let mut m = String::new();
                        m.append("Unable to generate m3u file for playlist '");
                        m.append(playlist_name.as_str());
                        m.append("': ");
                        m.append(err.as_str());
                        status_tx.send_warning(m);
                    },
                    Ok(m3u_content) => {
                        let device_relative_path = list.suitable_filename();
                        status_tx.send(Message::PushingPlaylist(playlist_name.clone()));
                        if let Err(err) = device.push_playlist(
                            m3u_content.as_str(),
                            device_relative_path.as_str(),
                        ) {
                            let mut m = String::new();
                            m.append("Unable to push m3u file for playlist '");
                            m.append(playlist_name.as_str());
                            m.append("': ");
                            m.append(err.as_str());
                            status_tx.send_warning(m);
                        }
                    },
                }

                // Populate the list of pushed playlists.
                let filename = list.suitable_filename();
                let song_ids = list.track_ids();
                let playlist_id = list.id();
                let ghost before = pushed_playlists@;
                match crate::assoc::assoc_position(&pushed_playlists, filename.as_str()) {
                    Some(at) => {
                        let mut m = String::new();
                        m.append("Duplicate playlists named '");
                        m.append(playlist_name.as_str());
                        m.append("'");
                        status_tx.send_warning(m);
                        pushed_playlists.set(at, (filename, (playlist_id, song_ids)));
                        proof {
                            let nv = crate::sync::info::playlists_view(pushed_playlists@);
                            let ov = crate::sync::info::playlists_view(before);
                            assert(nv.len() == ov.len());
                            assert(forall|i: int|
                                0 <= i < nv.len() && i != at ==> nv[i] == ov[i]);
                            assert(nv[at as int].0 == ov[at as int].0);
                            assert(crate::assoc::distinct_keys(nv)) by {
                                assert(forall|i: int|
                                    0 <= i < nv.len() ==> (#[trigger] nv[i]).0 == ov[i].0);
                            }
                            assert forall|i: int|
                                0 <= i < pushed_playlists@.len() implies exists|
                                p: crate::source::Playlist,
                            |
                                #![auto]
                                crate::source::playlist_consistent(p, source.view()) && (
                                #[trigger] pushed_playlists@[i]).0@
                                    == crate::source::sanitized_of(p.name@) + ".m3u"@
                                    && pushed_playlists@[i].1.0@ == p.id@
                                    && pushed_playlists@[i].1.1@
                                    == crate::source::snapshot_ids(p.tracks@) by {
                                assert(pushed_sound(before, source.view()));
                                if i == at {
                                    assert(crate::source::playlist_consistent(
                                        list,
                                        source.view(),
                                    ) && pushed_playlists@[i].0@ == crate::source::sanitized_of(
                                        list.name@,
                                    ) + ".m3u"@ && pushed_playlists@[i].1.0@ == list.id@
                                        && pushed_playlists@[i].1.1@
                                        == crate::source::snapshot_ids(list.tracks@));
                } else {
                                    assert(pushed_playlists@[i] == before[i]);
                                }
                            }
                            assert(pushed_sound(pushed_playlists@, source.view()));
                            assert(forall|i: int|
                                0 <= i < rec_pre.len() ==> (#[trigger] pushed_playlists@[i]).0@
                                    == rec_pre[i].0@);
                            assert(pushed_playlists@[at as int].0@ == crate::source::sanitized_of(
                                list.name@,
                            ) + ".m3u"@);
                        }
                    },
                    None => {
                        pushed_playlists.push((filename, (playlist_id, song_ids)));
                        proof {
                            assert(crate::assoc::distinct_keys(
                                crate::sync::info::playlists_view(pushed_playlists@),
                            )) by {
                                let nv = crate::sync::info::playlists_view(pushed_playlists@);
                                let ov = crate::sync::info::playlists_view(before);
                                assert(forall|i: int| 0 <= i < ov.len() ==> (#[trigger] nv[i]) == ov[i]);
                                assert(forall|i: int|
                                    0 <= i < ov.len() ==> (#[trigger] ov[i]).0 == before[i].0@);
                                assert(nv.last().0 == filename@);
                            }
                            assert forall|i: int|
                                0 <= i < pushed_playlists@.len() implies exists|
                                p: crate::source::Playlist,
                            |
                                #![auto]
                                crate::source::playlist_consistent(p, source.view()) && (
                                #[trigger] pushed_playlists@[i]).0@
                                    == crate::source::sanitized_of(p.name@) + ".m3u"@
                                    && pushed_playlists@[i].1.0@ == p.id@
                                    && pushed_playlists@[i].1.1@
                                    == crate::source::snapshot_ids(p.tracks@) by {
                                assert(pushed_sound(before, source.view()));
                                if i == pushed_playlists@.len() - 1 {
                                    assert(crate::source::playlist_consistent(
                                        list,
                                        source.view(),
                                    ) && pushed_playlists@[i].0@ == crate::source::sanitized_of(
                                        list.name@,
                                    ) + ".m3u"@ && pushed_playlists@[i].1.0@ == list.id@
                                        && pushed_playlists@[i].1.1@
                                        == crate::source::snapshot_ids(list.tracks@));
                                } else {
                                    assert(pushed_playlists@[i] == before[i]);
                                }
                            }
                            assert(pushed_sound(pushed_playlists@, source.view()));
                            assert(forall|i: int|
                                0 <= i < rec_pre.len() ==> (#[trigger] pushed_playlists@[i]).0@
                                    == rec_pre[i].0@);
                            assert(pushed_playlists@.last().0@ == crate::source::sanitized_of(
                                list.name@,
                            ) + ".m3u"@);
                        }
                    },
                }
                proof {
                    let ghost fname_k = crate::source::sanitized_of(list.name@) + ".m3u"@;
                    assert forall|k: Seq<char>|
                        #[trigger] device.view().root_files.contains_key(k) && !old(
                            device,
                        ).view().root_files.contains_key(k) implies exists|i: int|
                        0 <= i < pushed_playlists@.len() && (#[trigger] pushed_playlists@[i]).0@
                            == k by {
                        if rf_pre.contains_key(k) {
                            let i0 = choose|i0: int|
                                0 <= i0 < rec_pre.len() && (#[trigger] rec_pre[i0]).0@ == k;
                            assert(pushed_playlists@[i0].0@ == k);
                        } else {
                            assert(k == fname_k);
                            let iw = choose|iw: int|
                                0 <= iw < pushed_playlists@.len()
                                    && (#[trigger] pushed_playlists@[iw]).0@ == fname_k;
                            assert(pushed_playlists@[iw].0@ == k);
                        }
                    }
                    if status_tx.warnings() == old(status_tx).warnings() {
                        let names = config@.playlists;
                        let sv = source.view();
                        let ca = common_ancestor@;
                        let fname = crate::source::sanitized_of(list.name@) + ".m3u"@;
                        assert(crate::assoc::alookup(
                            crate::sync::info::playlists_view(rec_pre),
                            fname,
                        ) is None) by {
                            crate::assoc::lemma_alookup_all_miss(
                                crate::sync::info::playlists_view(rec_pre),
                                fname,
                            );
                        }
                        assert(crate::sync::info::playlists_view(pushed_playlists@)
                            =~= crate::sync::info::playlists_view(rec_pre).push(
                            (fname, (list.id@, crate::source::snapshot_ids(list.tracks@))),
                        ));
                        assert(device.view().root_files =~= rf_pre.insert(fname, rendered));
                        assert forall|n: int|
                            #![trigger names.subrange(0, pn + 1)[n]]
                            0 <= n < pn + 1 implies exists|p: crate::source::Playlist|
                            #![trigger crate::source::playlist_consistent(p, sv)]
                            crate::source::playlist_consistent(p, sv) && p.name@
                                == names.subrange(0, pn + 1)[n] && crate::assoc::alookup(
                                crate::sync::info::playlists_view(pushed_playlists@),
                                crate::source::sanitized_of(p.name@) + ".m3u"@,
                            ) == Some((p.id@, crate::source::snapshot_ids(p.tracks@)))
                                && device.view().root_files.contains_key(
                                crate::source::sanitized_of(p.name@) + ".m3u"@,
                            ) && device.view().root_files[crate::source::sanitized_of(p.name@)
                                + ".m3u"@] == crate::source::m3u_rendered(
                                crate::source::rel_paths(p.tracks@, ca),
                                "music/"@,
                            ) by {
                            if n < pn {
                                assert(playlists_pushed(
                                    names.subrange(0, pn as int),
                                    sv,
                                    rec_pre,
                                    rf_pre,
                                    ca,
                                ));
                                assert(names.subrange(0, pn as int)[n] == names.subrange(
                                    0,
                                    pn + 1,
                                )[n]);
                                let p = choose|p: crate::source::Playlist|
                                    #![trigger crate::source::playlist_consistent(p, sv)]
                                    crate::source::playlist_consistent(p, sv) && p.name@
                                        == names.subrange(0, pn as int)[n]
                                        && crate::assoc::alookup(
                                        crate::sync::info::playlists_view(rec_pre),
                                        crate::source::sanitized_of(p.name@) + ".m3u"@,
                                    ) == Some((p.id@, crate::source::snapshot_ids(p.tracks@)))
                                        && rf_pre.contains_key(
                                        crate::source::sanitized_of(p.name@) + ".m3u"@,
                                    ) && rf_pre[crate::source::sanitized_of(p.name@) + ".m3u"@]
                                        == crate::source::m3u_rendered(
                                        crate::source::rel_paths(p.tracks@, ca),
                                        "music/"@,
                                    );
                                let key = crate::source::sanitized_of(p.name@) + ".m3u"@;
                                assert(key != fname) by {
                                    crate::assoc::lemma_alookup_index(
                                        crate::sync::info::playlists_view(rec_pre),
                                        key,
                                    );
                                }
                                crate::assoc::lemma_alookup_push(
                                    crate::sync::info::playlists_view(rec_pre),
                                    fname,
                                    (list.id@, crate::source::snapshot_ids(list.tracks@)),
                                    key,
                                );
                            } else {
                                assert(names.subrange(0, pn + 1)[n] == list.name@);
                                crate::assoc::lemma_alookup_push(
                                    crate::sync::info::playlists_view(rec_pre),
                                    fname,
                                    (list.id@, crate::source::snapshot_ids(list.tracks@)),
                                    fname,
                                );
                                assert(crate::source::playlist_consistent(list, sv) && list.name@
                                    == names.subrange(0, pn + 1)[n] && crate::assoc::alookup(
                                    crate::sync::info::playlists_view(pushed_playlists@),
                                    crate::source::sanitized_of(list.name@) + ".m3u"@,
                                ) == Some(
                                    (list.id@, crate::source::snapshot_ids(list.tracks@)),
                                ) && device.view().root_files.contains_key(
                                    crate::source::sanitized_of(list.name@) + ".m3u"@,
                                ) && device.view().root_files[crate::source::sanitized_of(
                                    list.name@,
                                ) + ".m3u"@] == crate::source::m3u_rendered(
                                    crate::source::rel_paths(list.tracks@, ca),
                                    "music/"@,
                                ));
                            }
                        }
                        assert(playlists_pushed(
                            names.subrange(0, pn + 1),
                            sv,
                            pushed_playlists@,
                            device.view().root_files,
                            ca,
                        ));
                    }
                }
            },
        }
        pn += 1;
    }
    proof {
        assert(config@.playlists.subrange(0, config@.playlists.len() as int)
            =~= config@.playlists);
    }
    pushed_playlists
}



/// Remove the previous playlist files and push the updated ones; the
/// record of what was pushed goes into the new manifest.
pub fn update_playlists<S: Source, D: Device>(
    status_tx: &mut Sender,
    source: &S,
    device: &mut D,
    config: &Config,
    common_ancestor: &str,
) -> (r: Result<crate::sync::info::PlaylistsSet, SyncError>)
    requires
        old(status_tx).wf(),
    ensures
        final(status_tx).wf(),
        final(status_tx).warnings() >= old(status_tx).warnings(),
        final(status_tx).progress_log() == old(status_tx).progress_log().push(
            Progress::PushingPlaylists,
        ),
        final(device).view().inited == old(device).view().inited,
        final(device).view().music == old(device).view().music,
        final(device).view().config == old(device).view().config,
        final(device).view().sync_info == old(device).view().sync_info,
        r matches Err(e) ==> e is DeviceReadError,
        r matches Ok(ps) ==> crate::assoc::distinct_keys(
            crate::sync::info::playlists_view(ps@),
        ) && pushed_sound(ps@, source.view()),
        r matches Ok(ps) ==> (final(status_tx).warnings() == old(status_tx).warnings()
            ==> playlists_pushed(
            config@.playlists,
            source.view(),
            ps@,
            final(device).view().root_files,
            common_ancestor@,
        )),
        r matches Ok(ps) ==> (final(status_tx).warnings() == old(status_tx).warnings()
            ==> m3u_keys_recorded(final(device).view().root_files, ps@)),
{
    status_tx.send_progress(Progress::PushingPlaylists);
    let main_folder = match device.starsync_folder() {
        None => {
            return Err(SyncError::DeviceReadError);
        },
        Some(f) => f,
    };
    let ghost rf0 = device.view().root_files;
    let ghost w_remove = status_tx.warnings();

    // Remove previous playlists.
    if let Err(e) = remove_current_playlists(status_tx, device, &main_folder) {
        // Unreachable: the removal pass never fails as a whole.
        status_tx.send_warning("Unable to remove playlists".to_owned());
    }
    let ghost rf1 = device.view().root_files;
    let ghost w_push = status_tx.warnings();

    // Push updated playlists.
    let playlists = push_playlists(status_tx, device, source, config, common_ancestor);
    proof {
        if status_tx.warnings() == old(status_tx).warnings() {
            assert(w_push == w_remove);
            assert(rf1 =~= without_m3u(rf0));
            assert(m3u_keys_recorded(device.view().root_files, playlists@)) by {
                assert forall|k: Seq<char>|
                    #[trigger] device.view().root_files.contains_key(k) && is_m3u_name(
                        k,
                    ) implies exists|i: int|
                    0 <= i < playlists@.len() && (#[trigger] playlists@[i]).0@ == k by {
                    assert(!rf1.contains_key(k));
                }
            }
        }
    }
    Ok(playlists)
}

/// Push the five synthetic rating playlists, one per star count, each
/// holding the recorded files with exactly that rating.
pub fn push_star_playlists<D: Device>(
    status_tx: &mut Sender,
    device: &mut D,
    file_set: &crate::sync::utils::FileSet,
)
    requires
        old(status_tx).wf(),
    ensures
        final(status_tx).wf(),
        final(status_tx).warnings() >= old(status_tx).warnings(),
        final(status_tx).progress_log() == old(status_tx).progress_log().push(
            Progress::PushingRatings,
        ),
        final(device).view().inited == old(device).view().inited,
        final(device).view().music == old(device).view().music,
        final(device).view().config == old(device).view().config,
        final(device).view().sync_info == old(device).view().sync_info,
        forall|k: Seq<char>|
            (forall|n: int| 1 <= n <= 5 ==> k != #[trigger] crate::sync::utils::fav_name(n))
                ==> #[trigger] final(device).view().root_files.contains_key(k) == old(
                device,
            ).view().root_files.contains_key(k) && (old(device).view().root_files.contains_key(k)
                ==> final(device).view().root_files[k] == old(device).view().root_files[k]),
        final(status_tx).warnings() == old(status_tx).warnings() ==> (forall|n: int|
            1 <= n <= 5 ==> final(device).view().root_files.contains_key(
                #[trigger] crate::sync::utils::fav_name(n),
            ) && final(device).view().root_files[crate::sync::utils::fav_name(n)]
                == crate::source::m3u_rendered(
                crate::sync::utils::rated_paths(
                    crate::sync::utils::files_data_view(file_set.files_data@),
                    n as u8,
                ),
                "music/"@,
            )),
{
    status_tx.send_progress(Progress::PushingRatings);

    let buckets = file_set.song_paths_by_rating();
    let mut i: usize = 0;
    while i < buckets.len()
        invariant
            old(status_tx).wf(),
            status_tx.wf(),
            status_tx.progress_log() == old(status_tx).progress_log().push(
                Progress::PushingRatings,
            ),
            forall|k: Seq<char>|
                (forall|n: int| 1 <= n <= 5 ==> k != #[trigger] crate::sync::utils::fav_name(n))
                    ==> #[trigger] device.view().root_files.contains_key(k) == old(
                    device,
                ).view().root_files.contains_key(k) && (old(
                    device,
                ).view().root_files.contains_key(k) ==> device.view().root_files[k] == old(
                    device,
                ).view().root_files[k]),
            i <= buckets@.len(),
            buckets@.len() == 5,
            forall|k: int|
                0 <= k < 5 ==> (#[trigger] buckets@[k]).0 == k + 1
                    && buckets@[k].1.deep_view() == crate::sync::utils::rated_paths(
                    crate::sync::utils::files_data_view(file_set.files_data@),
                    (k + 1) as u8,
                ),
            status_tx.warnings() >= old(status_tx).warnings(),
            device.view().inited == old(device).view().inited,
            device.view().music == old(device).view().music,
            device.view().config == old(device).view().config,
            device.view().sync_info == old(device).view().sync_info,
            status_tx.warnings() == old(status_tx).warnings() ==> (forall|n: int|
                1 <= n <= i ==> device.view().root_files.contains_key(
                    #[trigger] crate::sync::utils::fav_name(n),
                ) && device.view().root_files[crate::sync::utils::fav_name(n)]
                    == crate::source::m3u_rendered(
                    crate::sync::utils::rated_paths(
                        crate::sync::utils::files_data_view(file_set.files_data@),
                        n as u8,
                    ),
                    "music/"@,
                )),
        decreases buckets@.len() - i,
    {
        let entry = &buckets[i];
        let rating = entry.0;
        let ghost rf_before = device.view().root_files;
        let ghost w_before = status_tx.warnings();
        match crate::source::create_m3u(&entry.1, "music/") {
            Err(err) => {
                let mut m = String::new();
                m.append("Unable to generate m3u file for songs rated ");
                m.append(crate::numfmt::u64_to_dec(rating as u64).as_str());
                m.append(" stars: ");
                m.append(err.as_str());
                status_tx.send_warning(m);
            },
            Ok(m3u_content) => {
                let playlist_file_name = crate::sync::utils::favorites_playlist_name(rating);
                status_tx.send(Message::PushingPlaylist(playlist_file_name.clone()));
                if let Err(err) = device.push_playlist(
                    m3u_content.as_str(),
                    playlist_file_name.as_str(),
                ) {
                    let mut m = String::new();
                    m.append("Unable to push m3u file for rating playlist '");
                    m.append(playlist_file_name.as_str());
                    m.append("': ");
                    m.append(err.as_str());
                    status_tx.send_warning(m);
                }
            },
        }
        proof {
            if status_tx.warnings() == old(status_tx).warnings() {
                assert(rating == i + 1);
                assert(1 <= rating <= 5);
                assert(device.view().root_files =~= rf_before.insert(
                    crate::sync::utils::fav_name(i + 1),
                    crate::source::m3u_rendered(
                        crate::sync::utils::rated_paths(
                            crate::sync::utils::files_data_view(file_set.files_data@),
                            (i + 1) as u8,
                        ),
                        "music/"@,
                    ),
                ));
                assert forall|n: int|
                    1 <= n <= i + 1 implies device.view().root_files.contains_key(
                    #[trigger] crate::sync::utils::fav_name(n),
                ) && device.view().root_files[crate::sync::utils::fav_name(n)]
                    == crate::source::m3u_rendered(
                    crate::sync::utils::rated_paths(
                        crate::sync::utils::files_data_view(file_set.files_data@),
                        n as u8,
                    ),
                    "music/"@,
                ) by {
                    if n <= i {
                        if crate::sync::utils::fav_name(n) == crate::sync::utils::fav_name(
                            i + 1,
                        ) {
                            crate::sync::utils::lemma_fav_name_injective(n, i + 1);
                        }
                        assert(rf_before.contains_key(crate::sync::utils::fav_name(n)));
                    }
                }
            }
        }
        i += 1;
    }
}

/// The manifest's song-data keys: the recorded relative paths, lowercased.
pub open spec fn lowered_song_data(s: Seq<(Seq<char>, crate::sync::utils::FileData)>) -> Seq<
    (Seq<char>, (TrackId, Rating)),
> {
    s.map(
        |i: int, e: (Seq<char>, crate::sync::utils::FileData)|
            (lower_of(e.0), (e.1.id, e.1.rating)),
    )
}

/// Write the manifest of this cycle onto the device: the common ancestor,
/// the recorded songs under lowercased path keys, and the pushed
/// playlists. This is the last write of the cycle.
pub fn update_sync_info<D: Device>(
    status_tx: &mut Sender,
    device: &mut D,
    file_set: crate::sync::utils::FileSet,
    playlists: crate::sync::info::PlaylistsSet,
) -> (r: Result<(), String>)
    requires
        old(status_tx).wf(),
    ensures
        final(status_tx).wf(),
        final(status_tx).warnings() == old(status_tx).warnings(),
        final(status_tx).progress_log() == old(status_tx).progress_log().push(
            Progress::UpdatingSyncInfo,
        ),
        final(device).view().inited == old(device).view().inited,
        final(device).view().music == old(device).view().music,
        final(device).view().root_files == old(device).view().root_files,
        final(device).view().config == old(device).view().config,
        r matches Ok(u) ==> final(device).view().sync_info matches Some(si) && si.common_ancestor
            == file_set.common_ancestor@ && si.song_data == lowered_song_data(
            crate::sync::utils::files_data_view(file_set.files_data@),
        ) && si.playlists == crate::sync::info::playlists_view(playlists@),
        r is Err ==> final(device).view().sync_info == old(device).view().sync_info,
{
    status_tx.send_progress(Progress::UpdatingSyncInfo);

    let mut song_data_to_serialize: Vec<(String, (TrackId, Rating))> = Vec::new();
    let mut i: usize = 0;
    while i < file_set.files_data.len()
        invariant
            i <= file_set.files_data@.len(),
            crate::sync::info::song_data_view(song_data_to_serialize@) =~~= lowered_song_data(
                crate::sync::utils::files_data_view(file_set.files_data@),
            ).subrange(0, i as int),
        decreases file_set.files_data@.len() - i,
    {
        let entry = &file_set.files_data[i];
        let key = crate::strutil::lowercase(entry.0.as_str());
        song_data_to_serialize.push((key, (entry.1.id, entry.1.rating)));
        proof {
            let m = lowered_song_data(
                crate::sync::utils::files_data_view(file_set.files_data@),
            );
            assert(m.subrange(0, i + 1) =~= m.subrange(0, i as int).push(m[i as int]));
        }
        i += 1;
    }
    proof {
        assert(crate::sync::info::song_data_view(song_data_to_serialize@) =~~= lowered_song_data(
            crate::sync::utils::files_data_view(file_set.files_data@),
        ));
    }
    let sync_info = SyncInfo::new(
        file_set.common_ancestor,
        song_data_to_serialize,
        playlists,
    );

    device.push_sync_infos(&sync_info)
}

/// Relies on `std::sync::mpsc` channel ends declared in the status module:
/// hand the validator to the driver; a disconnected driver is ignored
/// here, since the following receive then fails and aborts the cycle.
fn send_validator(outbound: &std::sync::mpsc::Sender<SyncValidator>, v: SyncValidator) {
    let _ignored = outbound.send(v);
}

/// Receive the acknowledged validator back; a disconnected driver counts
/// as a refusal.
fn recv_validator(inbound: &std::sync::mpsc::Receiver<SyncValidator>) -> (r: Option<
    SyncValidator,
>) {
    match inbound.recv() {
        Ok(v) => Some(v),
        Err(e) => None,
    }
}

/// The cycle order, written out for each setting of the rating flag.
proof fn lemma_cycle_progress_unfold(inc: bool)
    ensures
        inc ==> cycle_progress(true) =~= seq![
            Progress::Started,
            Progress::ListingFilesOnDevice,
            Progress::ReverseSyncPlaylists,
            Progress::ReverseSyncRatings,
            Progress::ListingFilesInSource,
            Progress::SyncingFiles,
            Progress::PushingPlaylists,
            Progress::PushingRatings,
            Progress::UpdatingSyncInfo,
            Progress::Done,
        ],
        !inc ==> cycle_progress(false) =~= seq![
            Progress::Started,
            Progress::ListingFilesOnDevice,
            Progress::ReverseSyncPlaylists,
            Progress::ListingFilesInSource,
            Progress::SyncingFiles,
            Progress::PushingPlaylists,
            Progress::UpdatingSyncInfo,
            Progress::Done,
        ],
{
}

/// A log that extends `base` by the first `k` steps of the cycle order is
/// a genuine, `Done`-free prefix of that order.
proof fn lemma_cycle_prefix(base: Seq<Progress>, now: Seq<Progress>, inc: bool, k: int)
    requires
        0 <= k < cycle_progress(inc).len(),
        now == base + cycle_progress(inc).take(k),
    ensures
        base.is_prefix_of(now),
        now.skip(base.len() as int).is_prefix_of(cycle_progress(inc)),
        !now.skip(base.len() as int).contains(Progress::Done),
{
    assert(base =~= now.subrange(0, base.len() as int));
    assert(now.skip(base.len() as int) =~= cycle_progress(inc).take(k));
    assert(cycle_progress(inc).take(k) =~= cycle_progress(inc).subrange(0, k));
    assert forall|i: int|
        0 <= i < cycle_progress(inc).take(k).len() implies cycle_progress(inc).take(k)[i]
        != Progress::Done by {
        assert(cycle_progress(inc)[i] != Progress::Done);
    }
    if now.skip(base.len() as int).contains(Progress::Done) {
        let i = choose|i: int|
            0 <= i < now.skip(base.len() as int).len() && now.skip(base.len() as int)[i]
                == Progress::Done;
    }
}

/// The progress steps of one full cycle, in the order spec'd for the
/// orchestrator; the two rating phases appear only when ratings are on.
pub open spec fn cycle_progress(include_ratings: bool) -> Seq<Progress> {
    seq![Progress::Started, Progress::ListingFilesOnDevice, Progress::ReverseSyncPlaylists] + (
    if include_ratings {
        seq![Progress::ReverseSyncRatings]
    } else {
        Seq::<Progress>::empty()
    }) + seq![Progress::ListingFilesInSource, Progress::SyncingFiles, Progress::PushingPlaylists]
        + (if include_ratings {
        seq![Progress::PushingRatings]
    } else {
        Seq::<Progress>::empty()
    }) + seq![Progress::UpdatingSyncInfo, Progress::Done]
}

/// Every selected playlist was recorded exactly, and its rendered M3U is
/// on the device -- unless its sanitized file name is a rating bucket's,
/// which the rating push afterwards overwrites.
pub open spec fn playlists_delivered(
    names: Seq<Seq<char>>,
    sv: crate::source::SourceView,
    r: Seq<(String, (PlaylistId, Vec<TrackId>))>,
    rf: Map<Seq<char>, Seq<char>>,
    ancestor: Seq<char>,
) -> bool {
    forall|n: int|
        #![trigger names[n]]
        0 <= n < names.len() ==> exists|p: crate::source::Playlist|
            #![trigger crate::source::playlist_consistent(p, sv)]
            crate::source::playlist_consistent(p, sv) && p.name@ == names[n]
                && crate::assoc::alookup(
                crate::sync::info::playlists_view(r),
                crate::source::sanitized_of(p.name@) + ".m3u"@,
            ) == Some((p.id@, crate::source::snapshot_ids(p.tracks@))) && ((forall|m: int|
                1 <= m <= 5 ==> crate::source::sanitized_of(p.name@) + ".m3u"@
                    != #[trigger] crate::sync::utils::fav_name(m)) ==> rf.contains_key(
                crate::source::sanitized_of(p.name@) + ".m3u"@,
            ) && rf[crate::source::sanitized_of(p.name@) + ".m3u"@]
                == crate::source::m3u_rendered(
                crate::source::rel_paths(p.tracks@, ancestor),
                "music/"@,
            ))
}

/// The outcome of a completed, warning-free cycle: some file-set scanned
/// exactly from the selected playlists, with the device's music converged
/// on it up to path case; every selected playlist recorded and delivered;
/// the fresh manifest holding exactly that file set under lowercased keys
/// and those playlist records; and, with ratings on, the five bucket
/// files holding the rated paths.
pub open spec fn cycle_outcome(
    cfg: crate::config::ConfigView,
    sv: crate::source::SourceView,
    dv: DeviceView,
) -> bool {
    exists|fs: crate::sync::utils::FileSet|
        #![trigger scanned_exactly(cfg.playlists, sv, cfg.use_computed_ratings, fs)]
        fs.wf() && scanned_exactly(cfg.playlists, sv, cfg.use_computed_ratings, fs) && lower_set(
            dv.music,
        ) =~= lower_set(file_keys(fs.files_data@).to_set()) && (exists|
            ps: crate::sync::info::PlaylistsSet,
        |
            #![trigger crate::sync::info::playlists_view(ps@)]
            playlists_delivered(cfg.playlists, sv, ps@, dv.root_files, fs.common_ancestor@) && (
            dv.sync_info matches Some(si) && si.common_ancestor == fs.common_ancestor@
                && si.song_data == lowered_song_data(
                crate::sync::utils::files_data_view(fs.files_data@),
            ) && si.playlists == crate::sync::info::playlists_view(ps@))) && (cfg.include_ratings
            ==> forall|n: int|
            1 <= n <= 5 ==> dv.root_files.contains_key(#[trigger] crate::sync::utils::fav_name(n))
                && dv.root_files[crate::sync::utils::fav_name(n)] == crate::source::m3u_rendered(
                crate::sync::utils::rated_paths(
                    crate::sync::utils::files_data_view(fs.files_data@),
                    n as u8,
                ),
                "music/"@,
            ))
}

/// How far into the cycle each fatal error can arise: the phases already
/// announced when it is returned. A reverse-sync failure has no fatal
/// kind at all -- it costs a warning and the later phases still run.
pub open spec fn error_phase_len(e: SyncError, inc: bool) -> int {
    if e is DeviceReadError {
        2
    } else if e is SongScanningFailed {
        if inc { 5 } else { 4 }
    } else if e is SyncingFilesFailed {
        if inc { 6 } else { 5 }
    } else if e is PushingPlaylistsFailed {
        if inc { 7 } else { 6 }
    } else {
        if inc { 9 } else { 7 }
    }
}

/// An unchanged log is a `Done`-free prefix extension by nothing.
proof fn lemma_log_stays(log: Seq<Progress>, inc: bool)
    ensures
        log.is_prefix_of(log),
        log.skip(log.len() as int).is_prefix_of(cycle_progress(inc)),
        !log.skip(log.len() as int).contains(Progress::Done),
{
    assert(log =~= log.subrange(0, log.len() as int));
    assert(log.skip(log.len() as int) =~= Seq::<Progress>::empty());
    assert(Seq::<Progress>::empty() =~= cycle_progress(inc).subrange(0, 0));
}

/// Assemble the outcome of a warning-free cycle from the facts its
/// phases established.
proof fn lemma_assemble_outcome(
    cfg: crate::config::ConfigView,
    sv: crate::source::SourceView,
    dv: DeviceView,
    fsg: crate::sync::utils::FileSet,
    psg: crate::sync::info::PlaylistsSet,
    rf_mid: Map<Seq<char>, Seq<char>>,
)
    requires
        fsg.wf(),
        scanned_exactly(cfg.playlists, sv, cfg.use_computed_ratings, fsg),
        lower_set(dv.music) =~= lower_set(file_keys(fsg.files_data@).to_set()),
        playlists_pushed(cfg.playlists, sv, psg@, rf_mid, fsg.common_ancestor@),
        forall|k: Seq<char>|
            (forall|m: int| 1 <= m <= 5 ==> k != #[trigger] crate::sync::utils::fav_name(m))
                ==> #[trigger] dv.root_files.contains_key(k) == rf_mid.contains_key(k) && (
            rf_mid.contains_key(k) ==> dv.root_files[k] == rf_mid[k]),
        dv.sync_info matches Some(si) && si.common_ancestor == fsg.common_ancestor@
            && si.song_data == lowered_song_data(
            crate::sync::utils::files_data_view(fsg.files_data@),
        ) && si.playlists == crate::sync::info::playlists_view(psg@),
        cfg.include_ratings ==> forall|n: int|
            1 <= n <= 5 ==> dv.root_files.contains_key(#[trigger] crate::sync::utils::fav_name(n))
                && dv.root_files[crate::sync::utils::fav_name(n)] == crate::source::m3u_rendered(
                crate::sync::utils::rated_paths(
                    crate::sync::utils::files_data_view(fsg.files_data@),
                    n as u8,
                ),
                "music/"@,
            ),
    ensures
        cycle_outcome(cfg, sv, dv),
{
    assert(playlists_delivered(cfg.playlists, sv, psg@, dv.root_files, fsg.common_ancestor@)) by {
        assert forall|n: int|
            #![trigger cfg.playlists[n]]
            0 <= n < cfg.playlists.len() implies exists|p: crate::source::Playlist|
            #![trigger crate::source::playlist_consistent(p, sv)]
            crate::source::playlist_consistent(p, sv) && p.name@ == cfg.playlists[n]
                && crate::assoc::alookup(
                crate::sync::info::playlists_view(psg@),
                crate::source::sanitized_of(p.name@) + ".m3u"@,
            ) == Some((p.id@, crate::source::snapshot_ids(p.tracks@))) && ((forall|m: int|
                1 <= m <= 5 ==> crate::source::sanitized_of(p.name@) + ".m3u"@
                    != #[trigger] crate::sync::utils::fav_name(m)) ==> dv.root_files.contains_key(
                crate::source::sanitized_of(p.name@) + ".m3u"@,
            ) && dv.root_files[crate::source::sanitized_of(p.name@) + ".m3u"@]
                == crate::source::m3u_rendered(
                crate::source::rel_paths(p.tracks@, fsg.common_ancestor@),
                "music/"@,
            )) by {
            let p = choose|p: crate::source::Playlist|
                #![trigger crate::source::playlist_consistent(p, sv)]
                crate::source::playlist_consistent(p, sv) && p.name@ == cfg.playlists[n]
                    && crate::assoc::alookup(
                    crate::sync::info::playlists_view(psg@),
                    crate::source::sanitized_of(p.name@) + ".m3u"@,
                ) == Some((p.id@, crate::source::snapshot_ids(p.tracks@)))
                    && rf_mid.contains_key(crate::source::sanitized_of(p.name@) + ".m3u"@)
                    && rf_mid[crate::source::sanitized_of(p.name@) + ".m3u"@]
                    == crate::source::m3u_rendered(
                    crate::source::rel_paths(p.tracks@, fsg.common_ancestor@),
                    "music/"@,
                );
            assert(crate::source::playlist_consistent(p, sv));
        }
    }
    assert(crate::sync::info::playlists_view(psg@) == crate::sync::info::playlists_view(psg@));
}

/// A sync session against one device and its configured source.
pub struct SyncManager<S: Source, D: Device> {
    pub device: D,
    pub source: S,
    pub config: Config,
    pub previous_sync_infos: Option<SyncInfo>,
}

impl<S: Source, D: Device> SyncManager<S, D> {
    /// A sync session over the given adapters, configuration and previous
    /// manifest.
    pub fn with_options(
        device: D,
        source: S,
        config: Config,
        previous_sync_infos: Option<SyncInfo>,
    ) -> (r: SyncManager<S, D>)
        ensures
            r.device == device,
            r.source == source,
            r.config == config,
            r.previous_sync_infos == previous_sync_infos,
    {
        SyncManager { device, source, config, previous_sync_infos }
    }

    /// Perform the sanity handshake, then run the sync.
    ///
    /// The validator goes out on `outbound`; the cycle starts only when an
    /// acknowledged, valid validator comes back on `inbound`. A dropped
    /// driver counts as a refusal, and a refusal leaves both adapters
    /// untouched. Only fatal errors are returned; the warnings are counted
    /// in the `Ok` value.
    pub fn start_sync(
        &mut self,
        status_tx: &mut Sender,
        outbound: std::sync::mpsc::Sender<SyncValidator>,
        inbound: std::sync::mpsc::Receiver<SyncValidator>,
    ) -> (r: Result<Warnings, SyncError>)
        requires
            old(status_tx).wf(),
        ensures
            final(status_tx).wf(),
            final(status_tx).warnings() >= old(status_tx).warnings(),
            r matches Ok(n) ==> final(self).device.view().sync_info is Some && n == if final(status_tx).warnings() > usize::MAX {
                usize::MAX as nat
            } else {
                final(status_tx).warnings()
            },
            r matches Err(e) ==> e is SanityChecks || e is DeviceReadError
                || e is SongScanningFailed || e is SyncingFilesFailed
                || e is PushingPlaylistsFailed || e is UpdateSyncInfoFailed,
            (r matches Err(e) && e is SanityChecks) ==> final(self).device.view() == old(
                self,
            ).device.view() && final(self).source.view() == old(self).source.view() && final(status_tx).warnings() == old(status_tx).warnings() && final(status_tx).progress_log()
                == old(status_tx).progress_log(),
            r is Ok ==> final(status_tx).progress_log() == old(status_tx).progress_log()
                + cycle_progress(final(self).config@.include_ratings),
            r is Err ==> old(status_tx).progress_log().is_prefix_of(
                final(status_tx).progress_log(),
            ) && final(status_tx).progress_log().skip(
                old(status_tx).progress_log().len() as int,
            ).is_prefix_of(cycle_progress(final(self).config@.include_ratings)) && !final(status_tx).progress_log().skip(
                old(status_tx).progress_log().len() as int,
            ).contains(Progress::Done),
            r matches Err(e) ==> (!(e is SanityChecks) ==> final(status_tx).progress_log()
                == old(status_tx).progress_log() + cycle_progress(
                final(self).config@.include_ratings,
            ).take(error_phase_len(e, final(self).config@.include_ratings))),
            (r is Ok && final(status_tx).warnings() == old(status_tx).warnings())
                ==> cycle_outcome(
                final(self).config@,
                final(self).source.view(),
                final(self).device.view(),
            ),
    {
        let validator = SyncValidator::build(self.previous_sync_infos.as_ref());
        send_validator(&outbound, validator);

        let acknowledged_validator = match recv_validator(&inbound) {
            None => {
                proof {
                    lemma_log_stays(status_tx.progress_log(), self.config@.include_ratings);
                }
                return Err(SyncError::SanityChecks);
            },
            Some(v) => v,
        };
        if acknowledged_validator.is_valid() {
            match self.sync_inner(status_tx) {
                Err(e) => Err(e),
                Ok(u) => Ok(status_tx.warnings_count()),
            }
        } else {
            proof {
                lemma_log_stays(status_tx.progress_log(), self.config@.include_ratings);
            }
            Err(SyncError::SanityChecks)
        }
    }

    /// One sync cycle: reverse-sync playlists and ratings, compute the
    /// required files, converge the device, push playlists and rating
    /// buckets, and write the fresh manifest last.
    #[verifier::rlimit(100)]
    pub fn sync_inner(&mut self, status_tx: &mut Sender) -> (r: Result<(), SyncError>)
        requires
            old(status_tx).wf(),
        ensures
            final(status_tx).wf(),
            final(status_tx).warnings() >= old(status_tx).warnings(),
            r matches Ok(u) ==> final(self).device.view().sync_info is Some,
            r matches Err(e) ==> e is DeviceReadError || e is SongScanningFailed
                || e is SyncingFilesFailed || e is PushingPlaylistsFailed
                || e is UpdateSyncInfoFailed,
            r is Ok ==> final(status_tx).progress_log() == old(status_tx).progress_log()
                + cycle_progress(final(self).config@.include_ratings),
            r is Err ==> old(status_tx).progress_log().is_prefix_of(
                final(status_tx).progress_log(),
            ) && final(status_tx).progress_log().skip(
                old(status_tx).progress_log().len() as int,
            ).is_prefix_of(cycle_progress(final(self).config@.include_ratings)) && !final(status_tx).progress_log().skip(
                old(status_tx).progress_log().len() as int,
            ).contains(Progress::Done),
            r matches Err(e) ==> final(status_tx).progress_log() == old(
                status_tx,
            ).progress_log() + cycle_progress(final(self).config@.include_ratings).take(
                error_phase_len(e, final(self).config@.include_ratings),
            ),
            (r is Ok && final(status_tx).warnings() == old(status_tx).warnings())
                ==> cycle_outcome(
                final(self).config@,
                final(self).source.view(),
                final(self).device.view(),
            ),
    {
        let ghost log0 = status_tx.progress_log();
        let ghost inc = self.config@.include_ratings;
        status_tx.send_progress(Progress::Started);

        let previous_sync_info = self.device.previous_sync_infos();
        if let Some(si) = &previous_sync_info {
            let mut m = String::new();
            m.append("Last sync at ");
            m.append(si.timestamp());
            m.append(" on ");
            m.append(si.hostname());
            status_tx.send_info(m);
        }

        let on_device = match files_on_device(status_tx, &self.device) {
            Err(e) => {
                proof {
                    lemma_cycle_progress_unfold(inc);
                    assert(status_tx.progress_log() =~= log0 + cycle_progress(inc).take(2));
                    lemma_cycle_prefix(log0, status_tx.progress_log(), inc, 2);
                }
                return Err(e);
            },
            Ok(v) => v,
        };

        // Reverse sync
        if let Err(err) = reverse_sync_playlists(
            status_tx,
            &previous_sync_info,
            &mut self.source,
            &self.device,
        ) {
            status_tx.send_warning("Unable to reverse sync playlists".to_owned());
        }

        // Reverse sync for ratings
        if self.config.include_ratings() {
            if let Err(err) = reverse_sync_ratings(
                status_tx,
                &previous_sync_info,
                &on_device,
                &mut self.source,
                &self.device,
                &self.config,
            ) {
                status_tx.send_warning("Unable to reverse sync ratings".to_owned());
            }
        }

        // Build the list of files that should be on the device
        let file_set = match required_files(status_tx, &self.source, &self.config) {
            Err(e) => {
                proof {
                    lemma_cycle_progress_unfold(inc);
                    assert(status_tx.progress_log() =~= log0 + cycle_progress(inc).take(
                        if inc { 5 } else { 4 },
                    ));
                    lemma_cycle_prefix(log0, status_tx.progress_log(), inc, if inc { 5 } else { 4 });
                }
                return Err(SyncError::SongScanningFailed(
                    "the selected files share no directory".to_owned(),
                ));
            },
            Ok(fs) => fs,
        };

        // Push and delete files. The device's music was not touched since
        // the scan at the start of the cycle, so that listing still holds.
        if let Err(e) = sync_files(status_tx, &file_set, &on_device, &mut self.device) {
            proof {
                lemma_cycle_progress_unfold(inc);
                assert(status_tx.progress_log() =~= log0 + cycle_progress(inc).take(
                    if inc { 6 } else { 5 },
                ));
                lemma_cycle_prefix(log0, status_tx.progress_log(), inc, if inc { 6 } else { 5 });
            }
            return Err(SyncError::SyncingFilesFailed(
                "unable to read the device".to_owned(),
            ));
        }

        // Push playlists
        let playlists = match update_playlists(
            status_tx,
            &self.source,
            &mut self.device,
            &self.config,
            file_set.common_ancestor.as_str(),
        ) {
            Err(e) => {
                proof {
                    lemma_cycle_progress_unfold(inc);
                    assert(status_tx.progress_log() =~= log0 + cycle_progress(inc).take(
                        if inc { 7 } else { 6 },
                    ));
                    lemma_cycle_prefix(log0, status_tx.progress_log(), inc, if inc { 7 } else { 6 });
                }
                return Err(SyncError::PushingPlaylistsFailed(
                    "unable to read the device".to_owned(),
                ));
            },
            Ok(ps) => ps,
        };

        let ghost rf_mid = self.device.view().root_files;

        // Push made-up star playlists
        if self.config.include_ratings() {
            push_star_playlists(status_tx, &mut self.device, &file_set);
        }

        // Update the last sync info
        let ghost fsg = file_set;
        let ghost psg = playlists;
        if let Err(e) = update_sync_info(status_tx, &mut self.device, file_set, playlists) {
            proof {
                lemma_cycle_progress_unfold(inc);
                assert(status_tx.progress_log() =~= log0 + cycle_progress(inc).take(
                    if inc { 9 } else { 7 },
                ));
                lemma_cycle_prefix(log0, status_tx.progress_log(), inc, if inc { 9 } else { 7 });
            }
            return Err(SyncError::UpdateSyncInfoFailed(e));
        }

        status_tx.send_progress(Progress::Done);

        proof {
            assert(status_tx.progress_log() =~= log0 + cycle_progress(inc)) by {
                if inc {
                    assert(cycle_progress(true) =~= seq![
                        Progress::Started,
                        Progress::ListingFilesOnDevice,
                        Progress::ReverseSyncPlaylists,
                        Progress::ReverseSyncRatings,
                        Progress::ListingFilesInSource,
                        Progress::SyncingFiles,
                        Progress::PushingPlaylists,
                        Progress::PushingRatings,
                        Progress::UpdatingSyncInfo,
                        Progress::Done,
                    ]);
                } else {
                    assert(cycle_progress(false) =~= seq![
                        Progress::Started,
                        Progress::ListingFilesOnDevice,
                        Progress::ReverseSyncPlaylists,
                        Progress::ListingFilesInSource,
                        Progress::SyncingFiles,
                        Progress::PushingPlaylists,
                        Progress::UpdatingSyncInfo,
                        Progress::Done,
                    ]);
                }
            }
            if status_tx.warnings() == old(status_tx).warnings() {
                let cfg = self.config@;
                let sv = self.source.view();
                let dv = self.device.view();
                assert(forall|k: Seq<char>|
                    (forall|m: int|
                        1 <= m <= 5 ==> k != #[trigger] crate::sync::utils::fav_name(m))
                        ==> #[trigger] dv.root_files.contains_key(k) == rf_mid.contains_key(k)
                        && (rf_mid.contains_key(k) ==> dv.root_files[k] == rf_mid[k]));
                lemma_assemble_outcome(cfg, sv, dv, fsg, psg, rf_mid);
            }
        }

        Ok(())
    }
}


/// A path that survives M3U rendering unharmed: no line separators, no
/// backslash to normalise, and no URL scheme marker.
pub open spec fn path_clean(p: Seq<char>) -> bool {
    &&& forall|i: int| 0 <= i < p.len() ==> #[trigger] p[i] != '\n' && p[i] != '\r' && p[i] != '\\'
    &&& !crate::strutil::contains_seq(p, seq![':', '/', '/'])
}

/// A clean path is unchanged by separator normalisation.
proof fn lemma_slashified_clean(p: Seq<char>)
    requires
        forall|i: int| 0 <= i < p.len() ==> #[trigger] p[i] != '\\',
    ensures
        crate::source::slashified(p) =~= p,
{
}

/// Prefixing a clean path with the music segment yields an M3U path entry.
proof fn lemma_music_line_entry(p: Seq<char>)
    requires
        path_clean(p),
    ensures
        crate::device::m3u::is_entry(crate::sync::info::music_segment() + p),
{
    let line = crate::sync::info::music_segment() + p;
    assert(line[0] == 'm');
    assert(!crate::strutil::contains_seq(line, seq![':', '/', '/'])) by {
        if crate::strutil::contains_seq(line, seq![':', '/', '/']) {
            let i = choose|i: int|
                0 <= i && i + 3 <= line.len() && #[trigger] line.subrange(i, i + 3) =~= seq![
                    ':',
                    '/',
                    '/',
                ];
            assert(line.subrange(i, i + 3)[0] == ':');
            assert(line[i] == ':');
            if i < 6 {
                assert(crate::sync::info::music_segment()[i] == ':');
                assert(false);
            } else {
                assert(p.subrange(i - 6, (i - 6) + 3) =~= line.subrange(i, i + 3));
                assert(crate::strutil::contains_seq(p, seq![':', '/', '/']));
            }
        }
    }
}

/// Splitting a rendered M3U recovers its lines, when no line holds a
/// separator character.
proof fn lemma_m3u_lines_round_trip(paths: Seq<Seq<char>>, prefix: Seq<char>)
    requires
        paths.len() > 0,
        forall|i: int|
            0 <= i < paths.len() ==> (forall|c: int|
                0 <= c < (#[trigger] paths[i]).len() ==> #[trigger] paths[i][c] != '\n'
                    && paths[i][c] != '\r' && paths[i][c] != '\\'),
        forall|c: int| 0 <= c < prefix.len() ==> #[trigger] prefix[c] != '\n' && prefix[c] != '\r' && prefix[c] != '\\',
        prefix.len() > 0,
        prefix.last() == '/',
    ensures
        crate::lines::crlf_lines(crate::source::m3u_rendered(paths, prefix)) =~~= paths.map(
            |i: int, p: Seq<char>| prefix + p,
        ),
    decreases paths.len(),
{
    let line = crate::source::slashified(crate::source::joined_path(prefix, paths[0]));
    lemma_slashified_clean(prefix + paths[0]);
    assert(crate::source::joined_path(prefix, paths[0]) == prefix + paths[0]);
    assert(line =~= prefix + paths[0]);
    if paths.len() == 1 {
        assert(crate::source::m3u_rendered(paths, prefix) == line);
        assert(forall|c: int| 0 <= c < line.len() ==> #[trigger] line[c] != '\n');
        lemma_split_nl_none(line);
        assert(crate::lines::split_nl(line) =~~= seq![line]);
        assert(crate::lines::trim_cr(line) =~= line);
        assert(crate::lines::crlf_lines(line) =~~= seq![line]);
        assert(paths.map(|i: int, p: Seq<char>| prefix + p) =~~= seq![line]);
    } else {
        lemma_m3u_lines_round_trip(paths.drop_first(), prefix);
        let rest = crate::source::m3u_rendered(paths.drop_first(), prefix);
        assert(crate::source::m3u_rendered(paths, prefix) == line + seq!['\r', '\n'] + rest);
        let linecr = line.push('\r');
        assert(forall|c: int| 0 <= c < linecr.len() ==> #[trigger] linecr[c] != '\n');
        crate::lines::lemma_split_nl_line(linecr, rest);
        assert(line + seq!['\r', '\n'] + rest =~= linecr + seq!['\n'] + rest);
        let sp = crate::lines::split_nl(crate::source::m3u_rendered(paths, prefix));
        assert(sp =~~= seq![linecr] + crate::lines::split_nl(rest));
        assert(crate::lines::trim_cr(linecr) =~= line);
        assert(crate::lines::crlf_lines(crate::source::m3u_rendered(paths, prefix)) =~~= seq![
            line,
        ] + crate::lines::crlf_lines(rest)) by {
            assert(sp[0] == linecr);
            assert(sp.drop_first() =~~= crate::lines::split_nl(rest));
            assert(sp.map(|i: int, l: Seq<char>| crate::lines::trim_cr(l))[0] =~= line);
            assert(sp.map(|i: int, l: Seq<char>| crate::lines::trim_cr(l)).drop_first()
                =~~= crate::lines::split_nl(rest).map(
                |i: int, l: Seq<char>| crate::lines::trim_cr(l),
            ));
        }
        assert(paths.map(|i: int, p: Seq<char>| prefix + p) =~~= seq![line]
            + paths.drop_first().map(|i: int, p: Seq<char>| prefix + p)) by {
            assert(forall|i: int|
                1 <= i < paths.len() ==> #[trigger] paths[i] == paths.drop_first()[i - 1]);
        }
    }
}

/// A text without separators splits into itself alone.
proof fn lemma_split_nl_none(s: Seq<char>)
    requires
        forall|c: int| 0 <= c < s.len() ==> #[trigger] s[c] != '\n',
    ensures
        crate::lines::split_nl(s) =~~= seq![s],
    decreases s.len(),
{
    if s.len() > 0 {
        lemma_split_nl_none(s.drop_first());
        assert(seq![s[0]] + s.drop_first() =~= s);
    }
}

/// Every path is recorded in the manifest, under its lowercased key, with
/// the matching track id.
pub open spec fn recorded_under(paths: Seq<Seq<char>>, ids: Seq<TrackId>, si: SyncInfoView) -> bool {
    forall|i: int|
        0 <= i < paths.len() ==> {
            let e = crate::assoc::alookup(si.song_data, lower_of(#[trigger] paths[i]));
            e is Some && e.unwrap().0 == ids[i]
        }
}

/// A cycle keeps a selected playlist faithful: the `.m3u` the cycle wrote
/// for it, read back and mapped through the fresh manifest, is exactly the
/// playlist's track order at the source. This holds for every playlist
/// whose relative paths are clean (no separators, backslashes or URL
/// markers) and recorded in the manifest under their lowercased key.
pub proof fn lemma_playlist_round_trip(
    paths: Seq<Seq<char>>,
    ids: Seq<TrackId>,
    si: SyncInfoView,
)
    requires
        paths.len() == ids.len(),
        forall|i: int| 0 <= i < paths.len() ==> path_clean(#[trigger] paths[i]),
        recorded_under(paths, ids, si),
    ensures
        known_ids(
            m3u_entries(crate::source::m3u_rendered(paths, crate::sync::info::music_segment())),
            si,
        ) == ids,
{
    let mp = crate::sync::info::music_segment();
    if paths.len() == 0 {
        assert(crate::source::m3u_rendered(paths, mp) == Seq::<char>::empty());
        let e: Seq<char> = Seq::empty();
        assert(crate::lines::split_nl(e) =~~= seq![e]);
        assert(crate::lines::trim_cr(e) =~= e);
        assert(crate::lines::crlf_lines(e) =~~= seq![e]);
        assert(!crate::device::m3u::is_entry(e));
        assert(m3u_entries(e) =~= crate::device::m3u::entries_of(seq![e]));
        assert(seq![e].drop_first() =~~= Seq::<Seq<char>>::empty());
        assert(crate::device::m3u::entries_of(Seq::<Seq<char>>::empty())
            =~= Seq::<Seq<char>>::empty());
        assert(m3u_entries(e) =~= Seq::<Seq<char>>::empty());
        assert(known_ids(m3u_entries(crate::source::m3u_rendered(paths, mp)), si)
            =~= Seq::<TrackId>::empty());
        assert(ids =~= Seq::<TrackId>::empty());
    } else {
        assert(mp.last() == '/');
        assert(forall|c: int| 0 <= c < mp.len() ==> #[trigger] mp[c] != '\n' && mp[c] != '\r' && mp[c] != '\\');
        lemma_m3u_lines_round_trip(paths, mp);
        let lines = paths.map(|i: int, p: Seq<char>| mp + p);
        assert(crate::lines::crlf_lines(crate::source::m3u_rendered(paths, mp)) =~~= lines);
        lemma_entries_all(lines, paths);
        assert(m3u_entries(crate::source::m3u_rendered(paths, mp)) =~~= lines);
        lemma_known_ids_map(paths, ids, si);
    }
}

/// Every prefixed clean path is kept by the M3U reader.
proof fn lemma_entries_all(lines: Seq<Seq<char>>, paths: Seq<Seq<char>>)
    requires
        lines.len() == paths.len(),
        forall|i: int| 0 <= i < paths.len() ==> path_clean(#[trigger] paths[i]),
        forall|i: int|
            0 <= i < lines.len() ==> #[trigger] lines[i] == crate::sync::info::music_segment()
                + paths[i],
    ensures
        crate::device::m3u::entries_of(lines) =~~= lines,
    decreases lines.len(),
{
    if lines.len() > 0 {
        lemma_music_line_entry(paths[0]);
        assert(crate::device::m3u::is_entry(lines[0]));
        lemma_entries_all(lines.drop_first(), paths.drop_first());
        assert(forall|i: int|
            0 <= i < lines.drop_first().len() ==> #[trigger] lines.drop_first()[i] == lines[i
                + 1]);
        assert(forall|i: int|
            0 <= i < paths.drop_first().len() ==> #[trigger] paths.drop_first()[i] == paths[i
                + 1]);
        assert(crate::device::m3u::entries_of(lines) =~~= seq![lines[0]]
            + crate::device::m3u::entries_of(lines.drop_first()));
    }
}

/// Looking every prefixed path up through the manifest yields the ids.
proof fn lemma_known_ids_map(paths: Seq<Seq<char>>, ids: Seq<TrackId>, si: SyncInfoView)
    requires
        paths.len() == ids.len(),
        recorded_under(paths, ids, si),
    ensures
        known_ids(paths.map(|i: int, p: Seq<char>| crate::sync::info::music_segment() + p), si)
            == ids,
    decreases paths.len(),
{
    let mp = crate::sync::info::music_segment();
    let lines = paths.map(|i: int, p: Seq<char>| mp + p);
    if paths.len() == 0 {
        assert(lines =~~= Seq::<Seq<char>>::empty());
        assert(ids =~= Seq::<TrackId>::empty());
    } else {
        assert(lines[0] == mp + paths[0]);
        assert(mp.is_prefix_of(lines[0])) by {
            assert(mp =~= lines[0].subrange(0, 6));
        }
        assert((mp + paths[0]).skip(6) =~= paths[0]);
        assert(crate::sync::info::normalized_key(lines[0]) == lower_of(paths[0]));
        assert(crate::sync::info::id_for_rel(si, lines[0]) == Some(ids[0])) by {
            let e = crate::assoc::alookup(si.song_data, lower_of(paths[0]));
            assert(e is Some && e.unwrap().0 == ids[0]);
        }
        assert(recorded_under(paths.drop_first(), ids.drop_first(), si)) by {
            assert forall|i: int|
                0 <= i < paths.drop_first().len() implies {
                let e = crate::assoc::alookup(
                    si.song_data,
                    lower_of(#[trigger] paths.drop_first()[i]),
                );
                e is Some && e.unwrap().0 == ids.drop_first()[i]
            } by {
                assert(paths.drop_first()[i] == paths[i + 1]);
                assert(ids.drop_first()[i] == ids[i + 1]);
                let e = crate::assoc::alookup(si.song_data, lower_of(paths[i + 1]));
                assert(e is Some && e.unwrap().0 == ids[i + 1]);
            }
        }
        lemma_known_ids_map(paths.drop_first(), ids.drop_first(), si);
        assert(forall|i: int|
            0 <= i < paths.drop_first().len() ==> #[trigger] paths.drop_first()[i] == paths[i
                + 1] && ids.drop_first()[i] == ids[i + 1]);
        assert(lines.drop_first() =~~= paths.drop_first().map(
            |i: int, p: Seq<char>| mp + p,
        ));
        assert(known_ids(lines, si) == seq![ids[0]] + known_ids(lines.drop_first(), si));
        assert(seq![ids[0]] + ids.drop_first() =~= ids);
    }
}

} // verus!
