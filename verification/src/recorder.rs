//! The recorder's screens and buttons as a state machine: each click, and
//! each outcome of the work a click starts, moves the state on and names the
//! next piece of work (reset the encoder, start or stop capture, save, play).

use vstd::prelude::*;
use vstd::string::StringSliceAdditionalSpecFns;

verus! {

/// The suffix of a saved recording's file name.
pub open spec fn record_suffix() -> Seq<u8> {
    seq![0x2eu8, 0x67u8, 0x6cu8, 0x61u8]
}

/// Whether the UTF-8 bytes of a file name end with `.gla`.
pub open spec fn is_record_name_bytes(name: Seq<u8>) -> bool {
    name.len() >= 4 && name.subrange(name.len() - 4, name.len() as int) == record_suffix()
}

/// Whether a file name is that of a saved recording: it ends with `.gla`.
pub fn is_record_file_name(name: &str) -> (r: bool)
    ensures
        r == (name.spec_bytes().len() >= 4 && name.spec_bytes()[name.spec_bytes().len() - 4] == 0x2e
            && name.spec_bytes()[name.spec_bytes().len() - 3] == 0x67 && name.spec_bytes()[name.spec_bytes().len()
            - 2] == 0x6c && name.spec_bytes()[name.spec_bytes().len() - 1] == 0x61),
        r == is_record_name_bytes(name.spec_bytes()),
{
    let b = name.as_bytes();
    let n = b.len();
    if n < 4 {
        return false;
    }
    let r = b[n - 4] == 0x2e && b[n - 3] == 0x67 && b[n - 2] == 0x6c && b[n - 1] == 0x61;
    assert(r == (b@.subrange(n - 4, n as int) =~= record_suffix()));
    r
}

/// The text of a message page, as data.
#[derive(Debug, PartialEq, Eq)]
pub enum Notice {
    /// Opening a new recording failed, with the error's text.
    ResetFailed(String),
    /// The capture thread could not be joined.
    JoinFailed,
    /// Saving the recording failed, with the error's text.
    SaveFailed(String),
    /// The recording was saved.
    Saved,
    /// Finish was pressed before a recording was started.
    NotStarted,
    /// Opening a recording for playback failed, with the error's text.
    PlayerResetFailed(String),
}

/// The page on screen.
#[derive(Debug, PartialEq, Eq)]
pub enum RouterPage {
    Main,
    List,
    Message(Notice),
}

/// What happened: a click, or the outcome of work a click started.
#[derive(Debug, PartialEq, Eq)]
pub enum UiEvent {
    /// "record list" on the main page.
    RecordListClicked,
    /// The record folder was scanned; `false` when it could not be.
    RecordsScanned(bool),
    /// The pause button, shown while recording.
    PauseRecordingClicked,
    /// The capture thread ended; `false` when it could not be joined.
    CaptureJoined(bool),
    /// The record button, shown while not recording.
    ContinueClicked,
    /// The encoder was reset for a new recording: `None` on success or when
    /// the encoder could not be locked, else the error's text.
    EncoderReset(Option<String>),
    /// Capture was started; `false` when the input could not be opened.
    CaptureStarted(bool),
    /// The finish button, shown while not recording.
    FinishClicked,
    /// The recording was saved (`Ok`) or not (`Err` with the text); `None`
    /// when the encoder could not be locked.
    RecordingSaved(Option<Result<(), String>>),
    /// "back to main" on the list page.
    BackToMainClicked,
    /// The pause button of playback, shown while playing.
    PausePlaybackClicked,
    /// The play button of playback, shown while not playing.
    PlayClicked,
    /// A listed recording was clicked.
    RecordClicked(usize),
    /// The player was reset to a recording: `None` on success, else the
    /// error's text.
    PlayerReset(Option<String>),
    /// "return to main" on a message page.
    ReturnToMainClicked,
}

/// The work to do next.
#[derive(Debug, PartialEq, Eq)]
pub enum UiAction {
    Nothing,
    /// Scan the record folder for recordings.
    ScanRecords,
    /// Stop capture: close the input and join the capture thread.
    StopCapture,
    /// Reset the encoder for a new recording.
    ResetEncoder,
    /// Open the input and start the capture thread.
    StartCapture,
    /// Save the recording.
    SaveRecording,
    /// Pause playback.
    PausePlayer,
    /// Resume playback.
    PlayPlayer,
    /// Reset the player to the listed recording with this index.
    ResetPlayer(usize),
}

/// What the capture thread's encoding loop does next.
#[derive(Debug, Clone, Copy, PartialEq, Eq, Structural)]
pub enum EncodeAction {
    /// Encode the samples received.
    Encode,
    /// Nothing was received, but recording goes on: try again.
    Continue,
    /// Nothing was received and recording has ended: leave the loop.
    Stop,
}

/// The encoding loop's next step: encode what was received; when nothing
/// was, go on while recording and stop once it has ended.
pub fn encode_thread_step(received: bool, is_encoding: bool) -> (a: EncodeAction)
    ensures
        a == (if received {
            EncodeAction::Encode
        } else if is_encoding {
            EncodeAction::Continue
        } else {
            EncodeAction::Stop
        }),
{
    if received {
        EncodeAction::Encode
    } else if is_encoding {
        EncodeAction::Continue
    } else {
        EncodeAction::Stop
    }
}

/// The state of the recorder's screens.
#[derive(Debug, PartialEq, Eq)]
pub struct RecorderState {
    pub router_page: RouterPage,
    pub is_recording: bool,
    pub is_recording_started: bool,
    pub is_playing: bool,
    /// The index of the listed recording chosen last for playback.
    pub playing_record: Option<usize>,
}

/// The state after `e` and the work it calls for.
pub open spec fn ui_step(s: RecorderState, e: UiEvent) -> (RecorderState, UiAction) {
    match e {
        UiEvent::RecordListClicked => (s, UiAction::ScanRecords),
        UiEvent::RecordsScanned(ok) => (
            if ok { RecorderState { router_page: RouterPage::List, ..s } } else { s },
            UiAction::Nothing,
        ),
        UiEvent::PauseRecordingClicked => if s.is_recording {
            (RecorderState { is_recording: false, ..s }, UiAction::StopCapture)
        } else {
            (s, UiAction::Nothing)
        },
        UiEvent::CaptureJoined(ok) => (
            if ok { s } else { RecorderState { router_page: RouterPage::Message(Notice::JoinFailed), ..s } },
            UiAction::Nothing,
        ),
        UiEvent::ContinueClicked => if s.is_recording {
            (s, UiAction::Nothing)
        } else if s.is_recording_started {
            (s, UiAction::StartCapture)
        } else {
            (s, UiAction::ResetEncoder)
        },
        UiEvent::EncoderReset(err) => (
            match err {
                Some(text) => RecorderState {
                    router_page: RouterPage::Message(Notice::ResetFailed(text)),
                    is_recording_started: true,
                    ..s
                },
                None => RecorderState { is_recording_started: true, ..s },
            },
            UiAction::StartCapture,
        ),
        UiEvent::CaptureStarted(ok) => (
            if ok && s.is_recording_started { RecorderState { is_recording: true, ..s } } else { s },
            UiAction::Nothing,
        ),
        UiEvent::FinishClicked => if s.is_recording {
            (s, UiAction::Nothing)
        } else if s.is_recording_started {
            (s, UiAction::SaveRecording)
        } else {
            (RecorderState { router_page: RouterPage::Message(Notice::NotStarted), ..s }, UiAction::Nothing)
        },
        UiEvent::RecordingSaved(outcome) => (
            match outcome {
                Some(Ok(())) => RecorderState {
                    router_page: RouterPage::Message(Notice::Saved),
                    is_recording_started: false,
                    ..s
                },
                Some(Err(text)) => RecorderState {
                    router_page: RouterPage::Message(Notice::SaveFailed(text)),
                    ..s
                },
                None => s,
            },
            UiAction::Nothing,
        ),
        UiEvent::BackToMainClicked => (RecorderState { router_page: RouterPage::Main, ..s }, UiAction::Nothing),
        UiEvent::PausePlaybackClicked => if s.is_playing {
            (RecorderState { is_playing: false, ..s }, UiAction::PausePlayer)
        } else {
            (s, UiAction::Nothing)
        },
        UiEvent::PlayClicked => if s.is_playing {
            (s, UiAction::Nothing)
        } else {
            (RecorderState { is_playing: true, ..s }, UiAction::PlayPlayer)
        },
        UiEvent::RecordClicked(i) => (
            RecorderState { is_playing: false, playing_record: Some(i), ..s },
            UiAction::ResetPlayer(i),
        ),
        UiEvent::PlayerReset(err) => (
            match err {
                Some(text) => RecorderState {
                    router_page: RouterPage::Message(Notice::PlayerResetFailed(text)),
                    ..s
                },
                None => s,
            },
            UiAction::Nothing,
        ),
        UiEvent::ReturnToMainClicked => (RecorderState { router_page: RouterPage::Main, ..s }, UiAction::Nothing),
    }
}

impl RecorderState {
    /// The state at start: the main page, nothing recorded, played or chosen.
    pub fn new() -> (s: Self)
        ensures
            s == (RecorderState {
                router_page: RouterPage::Main,
                is_recording: false,
                is_recording_started: false,
                is_playing: false,
                playing_record: None,
            }),
    {
        RecorderState {
            router_page: RouterPage::Main,
            is_recording: false,
            is_recording_started: false,
            is_playing: false,
            playing_record: None,
        }
    }

    /// Moves the state on by `e` and returns the work it calls for.
    pub fn step(&mut self, e: UiEvent) -> (a: UiAction)
        ensures
            (*final(self), a) == ui_step(*old(self), e),
    {
        match e {
            UiEvent::RecordListClicked => UiAction::ScanRecords,
            UiEvent::RecordsScanned(ok) => {
                if ok {
                    self.router_page = RouterPage::List;
                }
                UiAction::Nothing
            },
            UiEvent::PauseRecordingClicked => {
                if self.is_recording {
                    self.is_recording = false;
                    UiAction::StopCapture
                } else {
                    UiAction::Nothing
                }
            },
            UiEvent::CaptureJoined(ok) => {
                if !ok {
                    self.router_page = RouterPage::Message(Notice::JoinFailed);
                }
                UiAction::Nothing
            },
            UiEvent::ContinueClicked => {
                if self.is_recording {
                    UiAction::Nothing
                } else if self.is_recording_started {
                    UiAction::StartCapture
                } else {
                    UiAction::ResetEncoder
                }
            },
            UiEvent::EncoderReset(err) => {
                match err {
                    Some(text) => {
                        self.router_page = RouterPage::Message(Notice::ResetFailed(text));
                    },
                    None => {},
                }
                self.is_recording_started = true;
                UiAction::StartCapture
            },
            UiEvent::CaptureStarted(ok) => {
                if ok && self.is_recording_started {
                    self.is_recording = true;
                }
                UiAction::Nothing
            },
            UiEvent::FinishClicked => {
                if self.is_recording {
                    UiAction::Nothing
                } else if self.is_recording_started {
                    UiAction::SaveRecording
                } else {
                    self.router_page = RouterPage::Message(Notice::NotStarted);
                    UiAction::Nothing
                }
            },
            UiEvent::RecordingSaved(outcome) => {
                match outcome {
                    Some(Ok(())) => {
                        self.router_page = RouterPage::Message(Notice::Saved);
                        self.is_recording_started = false;
                    },
                    Some(Err(text)) => {
                        self.router_page = RouterPage::Message(Notice::SaveFailed(text));
                    },
                    None => {},
                }
                UiAction::Nothing
            },
            UiEvent::BackToMainClicked => {
                self.router_page = RouterPage::Main;
                UiAction::Nothing
            },
            UiEvent::PausePlaybackClicked => {
                if self.is_playing {
                    self.is_playing = false;
                    UiAction::PausePlayer
                } else {
                    UiAction::Nothing
                }
            },
            UiEvent::PlayClicked => {
                if self.is_playing {
                    UiAction::Nothing
                } else {
                    self.is_playing = true;
                    UiAction::PlayPlayer
                }
            },
            UiEvent::RecordClicked(i) => {
                self.is_playing = false;
                self.playing_record = Some(i);
                UiAction::ResetPlayer(i)
            },
            UiEvent::PlayerReset(err) => {
                match err {
                    Some(text) => {
                        self.router_page = RouterPage::Message(Notice::PlayerResetFailed(text));
                    },
                    None => {},
                }
                UiAction::Nothing
            },
            UiEvent::ReturnToMainClicked => {
                self.router_page = RouterPage::Main;
                UiAction::Nothing
            },
        }
    }
}

/// A recording is saved only when none is being captured and one was
/// started; finishing before starting shows the not-started message.
pub proof fn lemma_save_only_after_start(s: RecorderState)
    ensures
        ui_step(s, UiEvent::FinishClicked).1 == UiAction::SaveRecording <==> !s.is_recording && s.is_recording_started,
        !s.is_recording && !s.is_recording_started ==> ui_step(s, UiEvent::FinishClicked).0.router_page
            == RouterPage::Message(Notice::NotStarted),
{
}

/// A new recording resets the encoder exactly once: the record button asks
/// for a reset only while no recording is started, and the reset starts one.
pub proof fn lemma_reset_once(s: RecorderState, err: Option<String>)
    ensures
        ui_step(s, UiEvent::ContinueClicked).1 == UiAction::ResetEncoder <==> !s.is_recording && !s.is_recording_started,
        ui_step(s, UiEvent::EncoderReset(err)).0.is_recording_started,
        ui_step(s, UiEvent::EncoderReset(err)).1 == UiAction::StartCapture,
{
}

/// Choosing a listed recording makes it the one played: the player is reset
/// to it, playback stops until play is pressed, and the choice is kept.
pub proof fn lemma_record_click_chooses(s: RecorderState, i: usize)
    ensures
        ui_step(s, UiEvent::RecordClicked(i)).0.playing_record == Some(i),
        !ui_step(s, UiEvent::RecordClicked(i)).0.is_playing,
        ui_step(s, UiEvent::RecordClicked(i)).1 == UiAction::ResetPlayer(i),
        ui_step(ui_step(s, UiEvent::RecordClicked(i)).0, UiEvent::PlayClicked).0.playing_record == Some(i),
        ui_step(s, UiEvent::RecordClicked(i)).0.router_page == s.router_page,
        ui_step(s, UiEvent::RecordClicked(i)).0.is_recording == s.is_recording,
        ui_step(s, UiEvent::RecordClicked(i)).0.is_recording_started == s.is_recording_started,
{
}

/// Pause and play while listening: while a recording plays, pause pauses it
/// and asks the player to pause; while none plays, play starts it and asks
/// the player to play. Each changes only whether playback is on, and a click
/// on the other button, which is not shown then, does nothing.
pub proof fn lemma_pause_and_play(s: RecorderState)
    ensures
        s.is_playing ==> ({
            let (t, a) = ui_step(s, UiEvent::PausePlaybackClicked);
            &&& a == UiAction::PausePlayer
            &&& !t.is_playing
            &&& t.router_page == s.router_page
            &&& t.is_recording == s.is_recording
            &&& t.is_recording_started == s.is_recording_started
            &&& t.playing_record == s.playing_record
        }),
        !s.is_playing ==> ({
            let (t, a) = ui_step(s, UiEvent::PlayClicked);
            &&& a == UiAction::PlayPlayer
            &&& t.is_playing
            &&& t.router_page == s.router_page
            &&& t.is_recording == s.is_recording
            &&& t.is_recording_started == s.is_recording_started
            &&& t.playing_record == s.playing_record
        }),
        !s.is_playing ==> ui_step(s, UiEvent::PausePlaybackClicked) == (s, UiAction::Nothing),
        s.is_playing ==> ui_step(s, UiEvent::PlayClicked) == (s, UiAction::Nothing),
        !ui_step(ui_step(s, UiEvent::PlayClicked).0, UiEvent::PausePlaybackClicked).0.is_playing,
        ui_step(ui_step(s, UiEvent::PlayClicked).0, UiEvent::PausePlaybackClicked).1 == UiAction::PausePlayer,
{
}

/// The end of the capture thread: joining it without error changes nothing;
/// only a failed join shows the join-failed message, and it changes nothing
/// else.
pub proof fn lemma_capture_joined(s: RecorderState)
    ensures
        ui_step(s, UiEvent::CaptureJoined(true)) == (s, UiAction::Nothing),
        ({
            let (t, a) = ui_step(s, UiEvent::CaptureJoined(false));
            &&& a == UiAction::Nothing
            &&& t.router_page == RouterPage::Message(Notice::JoinFailed)
            &&& t.is_playing == s.is_playing
            &&& t.is_recording == s.is_recording
            &&& t.is_recording_started == s.is_recording_started
            &&& t.playing_record == s.playing_record
        }),
{
}

/// Pausing a recording: while capturing, pause stops the capture and changes
/// only whether capture is on; otherwise it does nothing.
pub proof fn lemma_pause_recording(s: RecorderState)
    ensures
        s.is_recording ==> ({
            let (t, a) = ui_step(s, UiEvent::PauseRecordingClicked);
            &&& a == UiAction::StopCapture
            &&& !t.is_recording
            &&& t.router_page == s.router_page
            &&& t.is_playing == s.is_playing
            &&& t.is_recording_started == s.is_recording_started
            &&& t.playing_record == s.playing_record
        }),
        !s.is_recording ==> ui_step(s, UiEvent::PauseRecordingClicked) == (s, UiAction::Nothing),
{
}

/// Recording: the record button resets the encoder for a new recording,
/// resumes capture of a started one, and does nothing while capturing; a
/// started capture turns recording on only for a started recording.
pub proof fn lemma_record_button(s: RecorderState)
    ensures
        !s.is_recording && !s.is_recording_started ==> ui_step(s, UiEvent::ContinueClicked) == (s, UiAction::ResetEncoder),
        !s.is_recording && s.is_recording_started ==> ui_step(s, UiEvent::ContinueClicked) == (s, UiAction::StartCapture),
        s.is_recording ==> ui_step(s, UiEvent::ContinueClicked) == (s, UiAction::Nothing),
        s.is_recording_started ==> ({
            let (t, a) = ui_step(s, UiEvent::CaptureStarted(true));
            &&& a == UiAction::Nothing
            &&& t.is_recording
            &&& t.router_page == s.router_page
            &&& t.is_playing == s.is_playing
            &&& t.is_recording_started
            &&& t.playing_record == s.playing_record
        }),
        !s.is_recording_started ==> ui_step(s, UiEvent::CaptureStarted(true)) == (s, UiAction::Nothing),
        ui_step(s, UiEvent::CaptureStarted(false)) == (s, UiAction::Nothing),
{
}

/// Finishing: a started recording that is not capturing is saved; a saved
/// recording shows the saved message and ends the recording; a failed save
/// shows its error and keeps the recording.
pub proof fn lemma_finish_and_save(s: RecorderState, text: String)
    ensures
        !s.is_recording && s.is_recording_started ==> ui_step(s, UiEvent::FinishClicked) == (s, UiAction::SaveRecording),
        s.is_recording ==> ui_step(s, UiEvent::FinishClicked) == (s, UiAction::Nothing),
        ({
            let (t, a) = ui_step(s, UiEvent::RecordingSaved(Some(Ok(()))));
            &&& a == UiAction::Nothing
            &&& t.router_page == RouterPage::Message(Notice::Saved)
            &&& !t.is_recording_started
            &&& t.is_recording == s.is_recording
            &&& t.is_playing == s.is_playing
            &&& t.playing_record == s.playing_record
        }),
        ({
            let (t, a) = ui_step(s, UiEvent::RecordingSaved(Some(Err(text))));
            &&& a == UiAction::Nothing
            &&& t.router_page == RouterPage::Message(Notice::SaveFailed(text))
            &&& t.is_recording_started == s.is_recording_started
            &&& t.is_recording == s.is_recording
            &&& t.is_playing == s.is_playing
            &&& t.playing_record == s.playing_record
        }),
        ui_step(s, UiEvent::RecordingSaved(None)) == (s, UiAction::Nothing),
        !s.is_recording && !s.is_recording_started ==> ({
            let (t, a) = ui_step(s, UiEvent::FinishClicked);
            &&& a == UiAction::Nothing
            &&& t.router_page == RouterPage::Message(Notice::NotStarted)
            &&& !t.is_recording_started
            &&& !t.is_recording
            &&& t.is_playing == s.is_playing
            &&& t.playing_record == s.playing_record
        }),
{
}

/// Opening a new recording: the encoder reset starts the recording and the
/// capture, and a reset error is shown without stopping them.
pub proof fn lemma_encoder_reset(s: RecorderState, text: String)
    ensures
        ({
            let (t, a) = ui_step(s, UiEvent::EncoderReset(None));
            &&& a == UiAction::StartCapture
            &&& t.is_recording_started
            &&& t.router_page == s.router_page
            &&& t.is_recording == s.is_recording
            &&& t.is_playing == s.is_playing
            &&& t.playing_record == s.playing_record
        }),
        ({
            let (t, a) = ui_step(s, UiEvent::EncoderReset(Some(text)));
            &&& a == UiAction::StartCapture
            &&& t.is_recording_started
            &&& t.router_page == RouterPage::Message(Notice::ResetFailed(text))
            &&& t.is_recording == s.is_recording
            &&& t.is_playing == s.is_playing
            &&& t.playing_record == s.playing_record
        }),
        ({
            let (t, a) = ui_step(s, UiEvent::PlayerReset(Some(text)));
            &&& a == UiAction::Nothing
            &&& t.router_page == RouterPage::Message(Notice::PlayerResetFailed(text))
            &&& t.is_recording_started == s.is_recording_started
            &&& t.is_recording == s.is_recording
            &&& t.is_playing == s.is_playing
            &&& t.playing_record == s.playing_record
        }),
{
}

/// Moving between pages: the list opens only once the records were scanned,
/// and both back buttons return to the main page; nothing else changes.
pub proof fn lemma_navigation(s: RecorderState)
    ensures
        ui_step(s, UiEvent::RecordListClicked) == (s, UiAction::ScanRecords),
        ui_step(s, UiEvent::RecordsScanned(false)) == (s, UiAction::Nothing),
        ({
            let (t, a) = ui_step(s, UiEvent::RecordsScanned(true));
            &&& a == UiAction::Nothing
            &&& t.router_page == RouterPage::List
            &&& t.is_playing == s.is_playing
            &&& t.is_recording == s.is_recording
            &&& t.is_recording_started == s.is_recording_started
            &&& t.playing_record == s.playing_record
        }),
        ({
            let (t, a) = ui_step(s, UiEvent::BackToMainClicked);
            &&& a == UiAction::Nothing
            &&& t.router_page == RouterPage::Main
            &&& t.is_playing == s.is_playing
            &&& t.is_recording == s.is_recording
            &&& t.is_recording_started == s.is_recording_started
            &&& t.playing_record == s.playing_record
        }),
        ({
            let (t, a) = ui_step(s, UiEvent::ReturnToMainClicked);
            &&& a == UiAction::Nothing
            &&& t.router_page == RouterPage::Main
            &&& t.is_playing == s.is_playing
            &&& t.is_recording == s.is_recording
            &&& t.is_recording_started == s.is_recording_started
            &&& t.playing_record == s.playing_record
        }),
        ui_step(s, UiEvent::PlayerReset(None)) == (s, UiAction::Nothing),
{
}

/// The record list keeps exactly the names whose bytes end with `.gla`:
/// whatever comes before the suffix, the name is kept, and a name is kept
/// exactly when its last four bytes are `.`, `g`, `l`, `a`.
pub proof fn lemma_record_names(prefix: Seq<u8>, name: Seq<u8>)
    ensures
        is_record_name_bytes(prefix + seq![0x2eu8, 0x67u8, 0x6cu8, 0x61u8]),
        is_record_name_bytes(name) <==> (name.len() >= 4 && name[name.len() - 4] == 0x2e && name[name.len()
            - 3] == 0x67 && name[name.len() - 2] == 0x6c && name[name.len() - 1] == 0x61),
{
    let full = prefix + seq![0x2eu8, 0x67u8, 0x6cu8, 0x61u8];
    assert(full.subrange(full.len() - 4, full.len() as int) =~= record_suffix());
    if name.len() >= 4 {
        let tail = name.subrange(name.len() - 4, name.len() as int);
        if name[name.len() - 4] == 0x2e && name[name.len() - 3] == 0x67 && name[name.len() - 2] == 0x6c
            && name[name.len() - 1] == 0x61 {
            assert(tail =~= record_suffix());
        }
        if tail == record_suffix() {
            assert(tail[0] == record_suffix()[0]);
            assert(tail[1] == record_suffix()[1]);
            assert(tail[2] == record_suffix()[2]);
            assert(tail[3] == record_suffix()[3]);
        }
    }
}

} // verus!
