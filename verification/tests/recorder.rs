use std::collections::VecDeque;

use tiny_audio_codec::playback::{
    decode_thread_continues, DecodeFn,
    decode_step, output_step, take_batch, DecodeAction, OutputStep, DECODE_BATCH_FRAMES,
};
use tiny_audio_codec::queue::take_front;
use tiny_audio_codec::recorder::{
    encode_thread_step, EncodeAction,
    is_record_file_name, Notice, RecorderState, RouterPage, UiAction, UiEvent,
};

#[test]
fn record_names_end_with_gla() {
    assert!(is_record_file_name("2024-01-02 03-04-05.gla"));
    assert!(is_record_file_name(".gla"));
    assert!(!is_record_file_name("gla"));
    assert!(!is_record_file_name("record_tmp"));
    assert!(!is_record_file_name("song.gla.bak"));
    assert!(!is_record_file_name("émission.GLA"));
    assert!(is_record_file_name("émission.gla"));
}

#[test]
fn record_then_finish_saves() {
    let mut s = RecorderState::new();
    assert_eq!(s.step(UiEvent::ContinueClicked), UiAction::ResetEncoder);
    assert_eq!(s.step(UiEvent::EncoderReset(None)), UiAction::StartCapture);
    assert!(s.is_recording_started);
    assert_eq!(s.step(UiEvent::CaptureStarted(true)), UiAction::Nothing);
    assert!(s.is_recording);
    // Finish is not shown while recording.
    assert_eq!(s.step(UiEvent::FinishClicked), UiAction::Nothing);
    assert_eq!(s.step(UiEvent::PauseRecordingClicked), UiAction::StopCapture);
    assert!(!s.is_recording);
    assert_eq!(s.step(UiEvent::CaptureJoined(true)), UiAction::Nothing);
    // Continuing the same recording does not reset the encoder.
    assert_eq!(s.step(UiEvent::ContinueClicked), UiAction::StartCapture);
    assert_eq!(s.step(UiEvent::CaptureStarted(true)), UiAction::Nothing);
    assert_eq!(s.step(UiEvent::PauseRecordingClicked), UiAction::StopCapture);
    assert_eq!(s.step(UiEvent::FinishClicked), UiAction::SaveRecording);
    assert_eq!(s.step(UiEvent::RecordingSaved(Some(Ok(())))), UiAction::Nothing);
    assert_eq!(s.router_page, RouterPage::Message(Notice::Saved));
    assert!(!s.is_recording_started);
    assert_eq!(s.step(UiEvent::ReturnToMainClicked), UiAction::Nothing);
    assert_eq!(s.router_page, RouterPage::Main);
}

#[test]
fn finish_before_start_says_not_started() {
    let mut s = RecorderState::new();
    assert_eq!(s.step(UiEvent::FinishClicked), UiAction::Nothing);
    assert_eq!(s.router_page, RouterPage::Message(Notice::NotStarted));
}

#[test]
fn failures_show_messages() {
    let mut s = RecorderState::new();
    s.step(UiEvent::ContinueClicked);
    s.step(UiEvent::EncoderReset(Some("disk full".to_string())));
    assert_eq!(s.router_page, RouterPage::Message(Notice::ResetFailed("disk full".to_string())));
    assert!(s.is_recording_started);
    s.step(UiEvent::CaptureStarted(false));
    assert!(!s.is_recording);
    s.step(UiEvent::FinishClicked);
    s.step(UiEvent::RecordingSaved(Some(Err("no space".to_string()))));
    assert_eq!(s.router_page, RouterPage::Message(Notice::SaveFailed("no space".to_string())));
    assert!(s.is_recording_started);
    s.step(UiEvent::CaptureJoined(false));
    assert_eq!(s.router_page, RouterPage::Message(Notice::JoinFailed));
}

#[test]
fn list_page_playback() {
    let mut s = RecorderState::new();
    assert_eq!(s.playing_record, None);
    assert_eq!(s.step(UiEvent::RecordListClicked), UiAction::ScanRecords);
    assert_eq!(s.router_page, RouterPage::Main);
    s.step(UiEvent::RecordsScanned(false));
    assert_eq!(s.router_page, RouterPage::Main);
    s.step(UiEvent::RecordsScanned(true));
    assert_eq!(s.router_page, RouterPage::List);
    assert_eq!(s.step(UiEvent::PlayClicked), UiAction::PlayPlayer);
    assert!(s.is_playing);
    assert_eq!(s.step(UiEvent::RecordClicked(2)), UiAction::ResetPlayer(2));
    assert!(!s.is_playing);
    assert_eq!(s.playing_record, Some(2));
    assert_eq!(s.step(UiEvent::RecordClicked(0)), UiAction::ResetPlayer(0));
    assert_eq!(s.playing_record, Some(0));
    assert_eq!(s.step(UiEvent::PausePlaybackClicked), UiAction::Nothing);
    s.step(UiEvent::PlayerReset(Some("bad file".to_string())));
    assert_eq!(s.router_page, RouterPage::Message(Notice::PlayerResetFailed("bad file".to_string())));
    s.step(UiEvent::BackToMainClicked);
    assert_eq!(s.router_page, RouterPage::Main);
}

#[test]
fn playback_decodes_ahead_then_sends_a_batch() {
    assert_eq!(decode_step(0), DecodeAction::DecodeFrame);
    assert_eq!(decode_step(DECODE_BATCH_FRAMES - 1), DecodeAction::DecodeFrame);
    assert_eq!(decode_step(DECODE_BATCH_FRAMES), DecodeAction::SendBatch);
    let mut buffer: VecDeque<Vec<u32>> = (0..12).map(|f| vec![f * 10, f * 10 + 1]).collect();
    let batch = take_batch(&mut buffer);
    assert_eq!(batch.len(), 20);
    assert_eq!(batch[0], 0);
    assert_eq!(batch[1], 1);
    assert_eq!(batch[19], 91);
    assert_eq!(buffer.len(), 2);
    assert_eq!(buffer[0], vec![100, 101]);
}

#[test]
fn output_takes_or_refills() {
    assert_eq!(output_step(100, 512), OutputStep::Refill);
    assert_eq!(output_step(512, 512), OutputStep::Take);
    assert_eq!(output_step(600, 512), OutputStep::Take);
}

#[test]
fn take_front_keeps_order() {
    let mut q: VecDeque<i32> = (1..=5).collect();
    assert_eq!(take_front(&mut q, 3), vec![1, 2, 3]);
    assert_eq!(q, VecDeque::from(vec![4, 5]));
    assert_eq!(take_front(&mut q, 0), Vec::<i32>::new());
    assert_eq!(take_front(&mut q, 2), vec![4, 5]);
    assert!(q.is_empty());
}

#[test]
fn playback_batches_follow_the_decoded_frames() {
    let mut d: DecodeFn<u32> = DecodeFn::new();
    let mut next: u32 = 0;
    let mut batches: Vec<Vec<u32>> = Vec::new();
    while batches.len() < 3 {
        match d.next_action() {
            DecodeAction::DecodeFrame => {
                d.push_frame(vec![next * 2, next * 2 + 1]);
                next += 1;
            }
            DecodeAction::SendBatch => batches.push(d.send_batch()),
        }
        assert!(d.buffered() <= DECODE_BATCH_FRAMES);
    }
    assert_eq!(next, 30);
    for (m, batch) in batches.iter().enumerate() {
        let want: Vec<u32> = (20 * m as u32..20 * m as u32 + 20).collect();
        assert_eq!(batch, &want);
    }
    assert_eq!(d.buffered(), 0);
}

#[test]
fn thread_loops_stop_when_told() {
    assert!(decode_thread_continues(true));
    assert!(!decode_thread_continues(false));
    assert_eq!(encode_thread_step(true, true), EncodeAction::Encode);
    assert_eq!(encode_thread_step(true, false), EncodeAction::Encode);
    assert_eq!(encode_thread_step(false, true), EncodeAction::Continue);
    assert_eq!(encode_thread_step(false, false), EncodeAction::Stop);
}
