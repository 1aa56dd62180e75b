//! Progress events of an installation and what a front end makes of them.

use vstd::prelude::*;

verus! {

/// An event sent by an installation to whoever shows its progress.
#[derive(Debug)]
pub enum InstallProgressEvent {
    /// Request to show status message to user.
    CurrentFileName(String),
    /// Installation has ended, either successfully or by error. Check thread return value!
    Ended,
    /// Total size of all requested files. Should only be sent once on install start.
    AllFilesLengthBytes(u64),
    /// How far we've gotten through all files, totally.
    AllFilesOffsetBytes(u64),
    /// The size of current file being installed. Should only be sent on start of this file.
    CurrentFileLengthBytes(u64),
    /// How far we've gotten through current file.
    CurrentFileOffsetBytes(u64),
}

#[verifier::external_type_specification]
#[verifier::external_body]
#[verifier::reject_recursive_types(T)]
pub struct ExSender<T>(std::sync::mpsc::Sender<T>);

/// The sending end of a channel of progress events.
pub type InstallProgressSender = std::sync::mpsc::Sender<InstallProgressEvent>;

/// The receiving end of a channel of progress events.
pub type InstallProgressReceiver = std::sync::mpsc::Receiver<InstallProgressEvent>;

/// Sends an event through the channel with `std::sync::mpsc::Sender::send`,
/// ignoring a disconnected receiver. `send` reports a disconnected receiver
/// as an error and does not panic; nothing is claimed of what arrives.
#[verifier::external_body]
fn send_event(tx: &std::sync::mpsc::Sender<InstallProgressEvent>, event: InstallProgressEvent)
    opens_invariants none
    no_unwind
{
    let _ = tx.send(event);
}

/// Sends `InstallProgressEvent::Ended` when dropped, so that the receiving
/// side learns that the installation is over however it ended.
pub struct InstallEndGuard<'a> {
    pub tx: &'a std::sync::mpsc::Sender<InstallProgressEvent>,
}

impl<'a> Drop for InstallEndGuard<'a> {
    fn drop(&mut self)
        opens_invariants none
        no_unwind
    {
        send_event(self.tx, InstallProgressEvent::Ended);
    }
}

/// What a front end showing two progress bars (all files, current file) does
/// on receiving a progress event.
#[derive(Debug)]
pub enum ProgressAction {
    /// Set the length of the all-files bar.
    SetTotalLength(u64),
    /// Set the position of the all-files bar.
    SetTotalPosition(u64),
    /// Set the length of the current-file bar.
    SetFileLength(u64),
    /// Set the position of the current-file bar.
    SetFilePosition(u64),
    /// Show the name of the file now being installed.
    ShowFileName(String),
    /// Finish both bars and stop receiving.
    Finish,
}

/// What the progress of an installation amounts to so far, as the contracts see it.
pub struct InstallTrackerModel {
    pub games_installed: nat,
    pub ended: bool,
}

/// The tracker's state after one more event: each file name announced counts
/// one game, and `Ended` ends the installation.
pub open spec fn spec_track(state: InstallTrackerModel, event: InstallProgressEvent) -> InstallTrackerModel {
    match event {
        InstallProgressEvent::CurrentFileName(_) => InstallTrackerModel {
            games_installed: state.games_installed + 1,
            ended: state.ended,
        },
        InstallProgressEvent::Ended => InstallTrackerModel {
            games_installed: state.games_installed,
            ended: true,
        },
        _ => state,
    }
}

/// The tracker's state after a sequence of events.
pub open spec fn spec_track_all(state: InstallTrackerModel, events: Seq<InstallProgressEvent>) -> InstallTrackerModel
    decreases events.len(),
{
    if events.len() == 0 {
        state
    } else {
        spec_track(spec_track_all(state, events.drop_last()), events.last())
    }
}

/// The action taken on an event.
pub open spec fn spec_progress_action(event: InstallProgressEvent) -> ProgressAction {
    match event {
        InstallProgressEvent::AllFilesLengthBytes(n) => ProgressAction::SetTotalLength(n),
        InstallProgressEvent::AllFilesOffsetBytes(n) => ProgressAction::SetTotalPosition(n),
        InstallProgressEvent::CurrentFileLengthBytes(n) => ProgressAction::SetFileLength(n),
        InstallProgressEvent::CurrentFileOffsetBytes(n) => ProgressAction::SetFilePosition(n),
        InstallProgressEvent::CurrentFileName(name) => ProgressAction::ShowFileName(name),
        InstallProgressEvent::Ended => ProgressAction::Finish,
    }
}

/// The action for an event carries the event's number or name unchanged:
/// lengths and offsets of all files and of the current file become the
/// matching bar's length and position, a file name is shown as it is, and
/// `Ended` finishes.
pub proof fn lemma_progress_actions_carry_event_values(n: u64, name: String)
    ensures
        spec_progress_action(InstallProgressEvent::AllFilesLengthBytes(n)) == ProgressAction::SetTotalLength(n),
        spec_progress_action(InstallProgressEvent::AllFilesOffsetBytes(n)) == ProgressAction::SetTotalPosition(n),
        spec_progress_action(InstallProgressEvent::CurrentFileLengthBytes(n)) == ProgressAction::SetFileLength(n),
        spec_progress_action(InstallProgressEvent::CurrentFileOffsetBytes(n)) == ProgressAction::SetFilePosition(n),
        spec_progress_action(InstallProgressEvent::CurrentFileName(name)) == ProgressAction::ShowFileName(name),
        spec_progress_action(InstallProgressEvent::Ended) is Finish,
{
}

/// Counts the games of an installation from its progress events and tells
/// the front end what to show for each event.
pub struct InstallTracker {
    games_installed: u64,
    ended: bool,
}

impl View for InstallTracker {
    type V = InstallTrackerModel;

    closed spec fn view(&self) -> InstallTrackerModel {
        InstallTrackerModel { games_installed: self.games_installed as nat, ended: self.ended }
    }
}

impl InstallTracker {
    /// No game installed yet, not ended.
    pub fn new() -> (res: InstallTracker)
        ensures
            res@ == (InstallTrackerModel { games_installed: 0, ended: false }),
    {
        InstallTracker { games_installed: 0, ended: false }
    }

    /// Takes in one event: returns what to show for it and updates the count.
    pub fn handle(&mut self, event: InstallProgressEvent) -> (action: ProgressAction)
        requires
            event is CurrentFileName ==> old(self)@.games_installed < u64::MAX,
        ensures
            final(self)@ == spec_track(old(self)@, event),
            action == spec_progress_action(event),
            event matches InstallProgressEvent::AllFilesLengthBytes(n) ==> action == ProgressAction::SetTotalLength(n),
            event matches InstallProgressEvent::AllFilesOffsetBytes(n) ==> action == ProgressAction::SetTotalPosition(n),
            event matches InstallProgressEvent::CurrentFileLengthBytes(n) ==> action == ProgressAction::SetFileLength(n),
            event matches InstallProgressEvent::CurrentFileOffsetBytes(n) ==> action == ProgressAction::SetFilePosition(n),
            event matches InstallProgressEvent::CurrentFileName(name) ==> action == ProgressAction::ShowFileName(name),
            event is Ended ==> action is Finish,
            final(self)@.games_installed == old(self)@.games_installed + if event is CurrentFileName { 1nat } else { 0nat },
            final(self)@.ended == (old(self)@.ended || event is Ended),
    {
        match event {
            InstallProgressEvent::AllFilesLengthBytes(n) => ProgressAction::SetTotalLength(n),
            InstallProgressEvent::AllFilesOffsetBytes(n) => ProgressAction::SetTotalPosition(n),
            InstallProgressEvent::CurrentFileLengthBytes(n) => ProgressAction::SetFileLength(n),
            InstallProgressEvent::CurrentFileOffsetBytes(n) => ProgressAction::SetFilePosition(n),
            InstallProgressEvent::CurrentFileName(name) => {
                self.games_installed = self.games_installed + 1;
                ProgressAction::ShowFileName(name)
            },
            InstallProgressEvent::Ended => {
                self.ended = true;
                ProgressAction::Finish
            },
        }
    }

    /// The number of games whose installation started.
    pub fn games_installed(&self) -> (res: u64)
        ensures
            res == self@.games_installed,
    {
        self.games_installed
    }

    /// Whether the installation reported its end.
    pub fn has_ended(&self) -> (res: bool)
        ensures
            res == self@.ended,
    {
        self.ended
    }
}

/// The ending of "game" in "Successfully installed N game(s)!".
pub fn games_plural_suffix(count: u64) -> (res: &'static str)
    ensures
        res@ == if count == 1 { ""@ } else { "s"@ },
{
    if count == 1 { "" } else { "s" }
}

/// The number of file-name announcements among the events.
pub open spec fn count_file_names(events: Seq<InstallProgressEvent>) -> nat
    decreases events.len(),
{
    if events.len() == 0 {
        0
    } else {
        count_file_names(events.drop_last()) + if events.last() is CurrentFileName { 1nat } else { 0nat }
    }
}

/// From a fresh tracker, the number of games counted after any sequence of
/// events is the number of file names announced in it, and the installation
/// counts as ended exactly when `Ended` occurred among the events.
pub proof fn lemma_tracker_counts_file_names(events: Seq<InstallProgressEvent>)
    ensures
        spec_track_all(InstallTrackerModel { games_installed: 0, ended: false }, events).games_installed
            == count_file_names(events),
        spec_track_all(InstallTrackerModel { games_installed: 0, ended: false }, events).ended
            == exists|i: int| 0 <= i < events.len() && events[i] is Ended,
    decreases events.len(),
{
    if events.len() > 0 {
        let init = InstallTrackerModel { games_installed: 0, ended: false };
        let prev = events.drop_last();
        lemma_tracker_counts_file_names(prev);
        if events.last() is Ended {
            assert(events[events.len() - 1] is Ended);
        } else {
            if exists|i: int| 0 <= i < events.len() && events[i] is Ended {
                let i = choose|i: int| 0 <= i < events.len() && events[i] is Ended;
                assert(prev[i] is Ended);
            }
            if exists|i: int| 0 <= i < prev.len() && prev[i] is Ended {
                let i = choose|i: int| 0 <= i < prev.len() && prev[i] is Ended;
                assert(events[i] is Ended);
            }
        }
    }
}

/// How far an installation shown in the graphical front end has got: the
/// last reported total length (1 until one is reported) and position.
pub struct InstallationProgress {
    pub last_progress_len: u64,
    pub last_progress: u64,
}

impl InstallationProgress {
    /// Nothing reported yet: position 0 of length 1.
    pub fn new() -> (res: InstallationProgress)
        ensures
            res.last_progress_len == 1,
            res.last_progress == 0,
    {
        InstallationProgress { last_progress_len: 1, last_progress: 0 }
    }

    /// Takes in what was received since the last update, if anything.
    pub fn update(&mut self, progress_len: Option<u64>, progress: Option<u64>)
        ensures
            final(self).last_progress_len == match progress_len { Some(n) => n, None => old(self).last_progress_len },
            final(self).last_progress == match progress { Some(n) => n, None => old(self).last_progress },
    {
        if let Some(n) = progress_len {
            self.last_progress_len = n;
        }
        if let Some(n) = progress {
            self.last_progress = n;
        }
    }
}

/// How the thread of a finished installation ended.
#[derive(Clone, Copy, Debug, PartialEq, Eq, Structural)]
pub enum InstallThreadEnd {
    /// It returned success.
    Succeeded,
    /// It returned an error.
    Failed,
    /// It panicked.
    Panicked,
}

/// What the user is told about a finished installation.
#[derive(Clone, Copy, Debug, PartialEq, Eq, Structural)]
pub enum InstallOutcome {
    /// The user cancelled it ("Installation cancelled.").
    Cancelled,
    /// It completed ("Installation completed successfully!").
    Completed,
    /// It returned an error ("Installation failed").
    Failed,
    /// Its thread panicked ("Installation crashed").
    Crashed,
}

/// The outcome of a finished installation: a cancellation counts first,
/// whatever the thread returned; otherwise the thread's ending decides.
pub fn install_outcome(cancelled: bool, thread_end: InstallThreadEnd) -> (res: InstallOutcome)
    ensures
        res == if cancelled {
            InstallOutcome::Cancelled
        } else {
            match thread_end {
                InstallThreadEnd::Succeeded => InstallOutcome::Completed,
                InstallThreadEnd::Failed => InstallOutcome::Failed,
                InstallThreadEnd::Panicked => InstallOutcome::Crashed,
            }
        },
{
    if cancelled {
        InstallOutcome::Cancelled
    } else {
        match thread_end {
            InstallThreadEnd::Succeeded => InstallOutcome::Completed,
            InstallThreadEnd::Failed => InstallOutcome::Failed,
            InstallThreadEnd::Panicked => InstallOutcome::Crashed,
        }
    }
}

/// `a + b`, or `u64::MAX` when the sum does not fit.
pub open spec fn saturating_sum(a: u64, b: u64) -> u64 {
    if a + b > u64::MAX { u64::MAX } else { (a + b) as u64 }
}

/// A capped sum is the exact sum while that fits in a `u64`, and `u64::MAX`
/// after; it never falls below either of its terms.
pub proof fn lemma_saturating_sum_caps(a: u64, b: u64)
    ensures
        a + b <= u64::MAX ==> saturating_sum(a, b) == a + b,
        a + b > u64::MAX ==> saturating_sum(a, b) == u64::MAX,
        saturating_sum(a, b) >= a,
        saturating_sum(a, b) >= b,
{
}

/// What a USB installation has reported so far, as the contracts see it: the
/// file being sent, if any, and the bytes of all files sent.
pub struct UsbProgressModel {
    pub current_file: Option<Seq<char>>,
    pub all_sent: u64,
}

/// The progress events of an installation in which the console asks for
/// ranges of the offered files: the total length once at the start, the
/// name and length of a file when the console starts asking for it, and the
/// offsets reached as pieces go out.
pub struct UsbProgress {
    current_file: Option<String>,
    all_sent: u64,
}

impl View for UsbProgress {
    type V = UsbProgressModel;

    closed spec fn view(&self) -> UsbProgressModel {
        UsbProgressModel {
            current_file: match self.current_file {
                Some(name) => Some(name@),
                None => None,
            },
            all_sent: self.all_sent,
        }
    }
}

impl UsbProgress {
    /// Starts an installation of files `all_files_length` bytes long in all:
    /// no file under way, nothing sent, and the event announcing the total,
    /// which is sent once, before any other.
    pub fn start(all_files_length: u64) -> (res: (UsbProgress, InstallProgressEvent))
        ensures
            res.0@ == (UsbProgressModel { current_file: None, all_sent: 0 }),
            res.1 == InstallProgressEvent::AllFilesLengthBytes(all_files_length),
    {
        (UsbProgress { current_file: None, all_sent: 0 }, InstallProgressEvent::AllFilesLengthBytes(all_files_length))
    }

    /// The console asks for a range of the file `file_name`, which is
    /// `file_length` bytes long. When it is not the file under way, it becomes
    /// so and its name and length are announced, once, at its start;
    /// otherwise nothing is announced.
    pub fn file_range(&mut self, file_name: String, file_length: u64) -> (events: Vec<InstallProgressEvent>)
        ensures
            old(self)@.current_file == Some(file_name@) ==> {
                &&& events@ == Seq::<InstallProgressEvent>::empty()
                &&& final(self)@ == old(self)@
            },
            old(self)@.current_file != Some(file_name@) ==> {
                &&& events@ == seq![
                    InstallProgressEvent::CurrentFileName(file_name),
                    InstallProgressEvent::CurrentFileLengthBytes(file_length),
                ]
                &&& final(self)@ == (UsbProgressModel { current_file: Some(file_name@), all_sent: old(self)@.all_sent })
            },
    {
        let same = match &self.current_file {
            Some(current) => current.eq(&file_name),
            None => false,
        };
        let mut events: Vec<InstallProgressEvent> = Vec::new();
        if !same {
            let name = file_name.clone();
            self.current_file = Some(file_name);
            events.push(InstallProgressEvent::CurrentFileName(name));
            events.push(InstallProgressEvent::CurrentFileLengthBytes(file_length));
        }
        events
    }

    /// A piece of `chunk` bytes of a range that starts at `range_offset` of
    /// the current file went out, `sent_in_range` bytes of the range in all:
    /// announces how far the current file and all files have got.
    pub fn chunk_sent(&mut self, range_offset: u64, sent_in_range: u64, chunk: u64) -> (events: Vec<InstallProgressEvent>)
        ensures
            final(self)@ == (UsbProgressModel {
                current_file: old(self)@.current_file,
                all_sent: saturating_sum(old(self)@.all_sent, chunk),
            }),
            events@ == seq![
                InstallProgressEvent::CurrentFileOffsetBytes(saturating_sum(range_offset, sent_in_range)),
                InstallProgressEvent::AllFilesOffsetBytes(saturating_sum(old(self)@.all_sent, chunk)),
            ],
    {
        self.all_sent = self.all_sent.saturating_add(chunk);
        let mut events: Vec<InstallProgressEvent> = Vec::new();
        events.push(InstallProgressEvent::CurrentFileOffsetBytes(range_offset.saturating_add(sent_in_range)));
        events.push(InstallProgressEvent::AllFilesOffsetBytes(self.all_sent));
        events
    }
}

} // verus!
