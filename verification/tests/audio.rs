use converter::audio::{
    failure_message, first_audio_track, step_after_decode, step_after_read, stream_layout,
    AudioStage, DecodeStep, PacketDecode, PacketRead,
};

#[test]
fn first_track_with_a_codec_is_chosen() {
    assert_eq!(first_audio_track(&vec![false, true, true]), Ok(1));
    assert_eq!(first_audio_track(&vec![true]), Ok(0));
}

#[test]
fn no_track_with_a_codec_is_an_error() {
    assert_eq!(first_audio_track(&vec![]), Err("No audio track found in file".to_string()));
    assert_eq!(
        first_audio_track(&vec![false, false]),
        Err("No audio track found in file".to_string())
    );
}

#[test]
fn stream_layout_defaults_and_track_values() {
    assert_eq!(stream_layout(None, None), (2, 44100));
    assert_eq!(stream_layout(Some(48000), Some(1)), (1, 48000));
    assert_eq!(stream_layout(Some(8000), Some(65537)), (1, 8000));
}

#[test]
fn reads_of_other_tracks_are_skipped() {
    assert!(matches!(step_after_read(3, PacketRead::Packet(3)), DecodeStep::DecodePacket));
    assert!(matches!(step_after_read(3, PacketRead::Packet(4)), DecodeStep::SkipPacket));
    assert!(matches!(step_after_read(3, PacketRead::ResetRequired), DecodeStep::ResetDecoder));
    assert!(matches!(step_after_read(3, PacketRead::EndOfStream), DecodeStep::Finish));
}

#[test]
fn read_failure_message() {
    match step_after_read(0, PacketRead::Failed("bad header".to_string())) {
        DecodeStep::Fail(m) => assert_eq!(m, "Error reading audio packet: bad header"),
        _ => panic!("expected a failure"),
    }
}

#[test]
fn damaged_packets_are_skipped() {
    assert!(matches!(step_after_decode(PacketDecode::Decoded), DecodeStep::KeepSamples));
    assert!(matches!(step_after_decode(PacketDecode::Corrupt), DecodeStep::SkipPacket));
    assert!(matches!(step_after_decode(PacketDecode::EndOfStream), DecodeStep::Finish));
    match step_after_decode(PacketDecode::Failed("oops".to_string())) {
        DecodeStep::Fail(m) => assert_eq!(m, "Audio decode error: oops"),
        _ => panic!("expected a failure"),
    }
}

#[test]
fn failure_messages_per_stage() {
    let d = "x".to_string();
    assert_eq!(failure_message(AudioStage::Probe, &d), "Unsupported audio format: x");
    assert_eq!(failure_message(AudioStage::Decoder, &d), "Failed to create audio decoder: x");
}
