//! The status channel: the worker reports progress, infos and warnings to
//! the driver in producer order, and counts the warnings it issued.

use vstd::prelude::*;
use crate::source::{Rating, TrackId};

verus! {

/// Declares `std::sync::mpsc::Sender` for use in signatures.
#[verifier::external_type_specification]
#[verifier::external_body]
#[verifier::reject_recursive_types(T)]
pub struct ExMpscSender<T>(std::sync::mpsc::Sender<T>);

/// Declares `std::sync::mpsc::Receiver` for use in signatures.
#[verifier::external_type_specification]
#[verifier::external_body]
#[verifier::reject_recursive_types(T)]
pub struct ExMpscReceiver<T>(std::sync::mpsc::Receiver<T>);

/// Declares `std::sync::mpsc::SendError` for use in signatures.
#[verifier::external_type_specification]
#[verifier::external_body]
#[verifier::reject_recursive_types(T)]
pub struct ExMpscSendError<T>(std::sync::mpsc::SendError<T>);

/// Declares `std::sync::mpsc::RecvError` for use in signatures.
#[verifier::external_type_specification]
#[verifier::external_body]
pub struct ExMpscRecvError(std::sync::mpsc::RecvError);

/// Relies on `std::sync::mpsc::channel`: the two ends of a new channel.
pub assume_specification<T>[ std::sync::mpsc::channel::<T> ]() -> (r: (
    std::sync::mpsc::Sender<T>,
    std::sync::mpsc::Receiver<T>,
));

/// Relies on `std::sync::mpsc::Sender::send`: delivers in producer order;
/// fails only when the receiving end is disconnected.
pub assume_specification<T>[ std::sync::mpsc::Sender::<T>::send ](
    s: &std::sync::mpsc::Sender<T>,
    t: T,
) -> (r: Result<(), std::sync::mpsc::SendError<T>>);

/// Relies on `std::sync::mpsc::Receiver::recv`: blocks for the next
/// message; fails only when the sending end is disconnected.
pub assume_specification<T>[ std::sync::mpsc::Receiver::<T>::recv ](
    s: &std::sync::mpsc::Receiver<T>,
) -> (r: Result<T, std::sync::mpsc::RecvError>);

/// A progress step of the cycle, in the order the orchestrator runs them.
#[derive(Debug, Clone, Copy, PartialEq, Eq, Structural)]
pub enum Progress {
    /// Sync has started.
    Started,
    /// Scanning the files on the device.
    ListingFilesOnDevice,
    /// Reverse-syncing playlists.
    ReverseSyncPlaylists,
    /// Reverse-syncing song ratings.
    ReverseSyncRatings,
    /// Generating the list of files to sync.
    ListingFilesInSource,
    /// Currently syncing files.
    SyncingFiles,
    /// Pushing the updated playlists to the device.
    PushingPlaylists,
    /// Pushing song ratings to the device.
    PushingRatings,
    /// Updating the sync info stored on the device.
    UpdatingSyncInfo,
    /// Sync has completed.
    Done,
}

/// A message on the status channel.
#[derive(Debug)]
pub enum Message {
    /// Info about the current step we have reached.
    Progress(Progress),
    /// Reading a playlist from the device.
    RetrievingDevicePlaylist(String),
    /// Reverse-syncing a playlist.
    ReverseSyncPlaylist(String),
    /// Reverse-updating a playlist into the source.
    UpdatingPlaylistIntoSource { new_content: Vec<TrackId> },
    /// Importing a rating change back into the source.
    UpdatingSongRatingIntoSource {
        track_name: String,
        new_rating: Rating,
        current_rating_on_source: Rating,
    },
    /// A music file is about to be copied, with how far the copy has come.
    PushingFile {
        path: String,
        file_size: u64,
        size_so_far: u64,
        total_size: u64,
        n_files: usize,
        i_file: usize,
    },
    /// A music file is about to be removed.
    RemovingFile(String),
    /// A playlist file is about to be copied.
    PushingPlaylist(String),
    /// A playlist file is about to be removed.
    RemovingPlaylist(String),
    /// An arbitrary info.
    Info(String),
    /// A non-fatal warning.
    Warning(String),
}

/// Whether a message counts as a warning.
pub open spec fn is_warning(m: Message) -> bool {
    m matches Message::Warning(t)
}

/// The sending half of a status channel; it counts the warnings sent and
/// keeps, as ghost state, the sequence of progress steps announced.
pub struct Sender {
    tx: std::sync::mpsc::Sender<Message>,
    n_warns: usize,
    warns: Ghost<nat>,
    progress: Ghost<Seq<Progress>>,
}

/// The receiving half of a status channel.
pub type Receiver = std::sync::mpsc::Receiver<Message>;

/// A status channel.
pub fn channel() -> (r: (Sender, Receiver))
    ensures
        r.0.warnings() == 0,
        r.0.progress_log() == Seq::<Progress>::empty(),
        r.0.wf(),
{
    let (tx, rx) = std::sync::mpsc::channel();
    (Sender { tx, n_warns: 0, warns: Ghost(0), progress: Ghost(Seq::empty()) }, rx)
}

impl Sender {
    /// How many warnings this sender has issued.
    pub closed spec fn warnings(self) -> nat {
        self.warns@
    }

    /// The progress steps announced so far, in order.
    pub closed spec fn progress_log(self) -> Seq<Progress> {
        self.progress@
    }

    /// The reported count mirrors the true count, saturating at the top of
    /// its range.
    pub closed spec fn wf(self) -> bool {
        self.n_warns == if self.warns@ > usize::MAX {
            usize::MAX as nat
        } else {
            self.warns@
        }
    }

    /// Send a message; a disconnected receiver is ignored, since there is
    /// nothing to be done about it. Warnings are counted.
    pub fn send(&mut self, message: Message)
        requires
            old(self).wf(),
        ensures
            final(self).wf(),
            final(self).warnings() == if is_warning(message) {
                (old(self).warnings() + 1) as nat
            } else {
                old(self).warnings()
            },
            final(self).progress_log() == match message {
                Message::Progress(p) => old(self).progress_log().push(p),
                _ => old(self).progress_log(),
            },
    {
        if let Message::Warning(t) = &message {
            self.n_warns = self.n_warns.saturating_add(1);
            proof {
                self.warns@ = self.warns@ + 1;
            }
        }
        if let Message::Progress(p) = &message {
            proof {
                self.progress@ = self.progress@.push(*p);
            }
        }
        let _ignored_error = self.tx.send(message);
    }

    /// Convenience: send a warning.
    pub fn send_warning(&mut self, text: String)
        requires
            old(self).wf(),
        ensures
            final(self).wf(),
            final(self).warnings() == old(self).warnings() + 1,
            final(self).progress_log() == old(self).progress_log(),
    {
        self.send(Message::Warning(text));
    }

    /// Convenience: send an info.
    pub fn send_info(&mut self, text: String)
        requires
            old(self).wf(),
        ensures
            final(self).wf(),
            final(self).warnings() == old(self).warnings(),
            final(self).progress_log() == old(self).progress_log(),
    {
        self.send(Message::Info(text));
    }

    /// Convenience: send a progress step.
    pub fn send_progress(&mut self, progress: Progress)
        requires
            old(self).wf(),
        ensures
            final(self).wf(),
            final(self).warnings() == old(self).warnings(),
            final(self).progress_log() == old(self).progress_log().push(progress),
    {
        self.send(Message::Progress(progress));
    }

    /// How many warnings have been issued so far (saturating).
    pub fn warnings_count(&self) -> (r: usize)
        requires
            self.wf(),
        ensures
            r == if self.warnings() > usize::MAX {
                usize::MAX as nat
            } else {
                self.warnings()
            },
    {
        self.n_warns
    }
}

} // verus!
