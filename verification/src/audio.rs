//! The decisions of decoding an audio file packet by packet: which track is
//! decoded, the stream layout where the container leaves it open, and what
//! the decoding loop does after each read and each decode. The decoder
//! itself, and the samples it yields, stay with the caller.
use vstd::prelude::*;
use crate::text::prefixed;

verus! {

/// The step of decoding that failed.
#[derive(PartialEq, Eq, Structural, Clone, Copy, Debug)]
pub enum AudioStage {
    Probe,
    Decoder,
    Read,
    Decode,
}

/// What reading the next packet from the container gave.
pub enum PacketRead {
    /// A packet of the track with this id.
    Packet(u32),
    /// The stream changed and the decoder must start afresh.
    ResetRequired,
    /// The container has no more data.
    EndOfStream,
    /// Reading failed; the error's text.
    Failed(String),
}

/// What decoding a packet gave.
pub enum PacketDecode {
    Decoded,
    /// The packet is damaged; it is skipped.
    Corrupt,
    EndOfStream,
    Failed(String),
}

/// What the decoding loop does next.
pub enum DecodeStep {
    ResetDecoder,
    SkipPacket,
    DecodePacket,
    KeepSamples,
    Finish,
    Fail(String),
}

/// The message prefix of a failure at `stage`.
pub open spec fn stage_prefix(stage: AudioStage) -> Seq<char> {
    match stage {
        AudioStage::Probe => "Unsupported audio format: "@,
        AudioStage::Decoder => "Failed to create audio decoder: "@,
        AudioStage::Read => "Error reading audio packet: "@,
        AudioStage::Decode => "Audio decode error: "@,
    }
}

/// The message of a failure at `stage` with the error's text `detail`.
pub fn failure_message(stage: AudioStage, detail: &String) -> (r: String)
    ensures
        r@ == stage_prefix(stage) + detail@,
{
    match stage {
        AudioStage::Probe => prefixed("Unsupported audio format: ", detail),
        AudioStage::Decoder => prefixed("Failed to create audio decoder: ", detail),
        AudioStage::Read => prefixed("Error reading audio packet: ", detail),
        AudioStage::Decode => prefixed("Audio decode error: ", detail),
    }
}

/// The first track that has a codec, `has_codec` telling for each track of
/// the file whether it has one; an error when none has.
pub fn first_audio_track(has_codec: &Vec<bool>) -> (r: Result<usize, String>)
    ensures
        match r {
            Ok(k) => k < has_codec.len() && has_codec@[k as int] && forall|j: int|
                0 <= j < k ==> !has_codec@[j],
            Err(m) => m@ == "No audio track found in file"@ && forall|j: int|
                0 <= j < has_codec.len() ==> !has_codec@[j],
        },
{
    let mut k: usize = 0;
    while k < has_codec.len()
        invariant
            k <= has_codec.len(),
            forall|j: int| 0 <= j < k ==> !has_codec@[j],
        decreases has_codec.len() - k,
    {
        if has_codec[k] {
            return Ok(k);
        }
        k = k + 1;
    }
    Err("No audio track found in file".to_string())
}

/// The channel count and sample rate of the decoded stream: the track's
/// own where it states them (the count cut to 16 bits), else two channels
/// at 44100 Hz.
pub fn stream_layout(sample_rate: Option<u32>, channel_count: Option<usize>) -> (r: (u16, u32))
    ensures
        r.0 == match channel_count {
            Some(c) => (c % 65536) as u16,
            None => 2u16,
        },
        r.1 == match sample_rate {
            Some(s) => s,
            None => 44100u32,
        },
{
    let rate = match sample_rate {
        Some(s) => s,
        None => 44100,
    };
    let channels = match channel_count {
        Some(c) => (c % 65536) as u16,
        None => 2,
    };
    (channels, rate)
}

/// What the loop does after a read, decoding the track `track`: decode a
/// packet of that track and skip those of others, reset the decoder where
/// the stream asks for it, finish at the end of the data, and fail on any
/// other read error.
pub fn step_after_read(track: u32, read: PacketRead) -> (r: DecodeStep)
    ensures
        match read {
            PacketRead::Packet(t) => if t == track {
                r is DecodePacket
            } else {
                r is SkipPacket
            },
            PacketRead::ResetRequired => r is ResetDecoder,
            PacketRead::EndOfStream => r is Finish,
            PacketRead::Failed(e) => r matches DecodeStep::Fail(m) && m@ == stage_prefix(
                AudioStage::Read,
            ) + e@,
        },
{
    match read {
        PacketRead::Packet(t) => if t == track {
            DecodeStep::DecodePacket
        } else {
            DecodeStep::SkipPacket
        },
        PacketRead::ResetRequired => DecodeStep::ResetDecoder,
        PacketRead::EndOfStream => DecodeStep::Finish,
        PacketRead::Failed(e) => DecodeStep::Fail(failure_message(AudioStage::Read, &e)),
    }
}

/// What the loop does after decoding a packet: keep its samples, skip a
/// damaged packet, finish at the end of the data, and fail on any other
/// decode error.
pub fn step_after_decode(decoded: PacketDecode) -> (r: DecodeStep)
    ensures
        match decoded {
            PacketDecode::Decoded => r is KeepSamples,
            PacketDecode::Corrupt => r is SkipPacket,
            PacketDecode::EndOfStream => r is Finish,
            PacketDecode::Failed(e) => r matches DecodeStep::Fail(m) && m@ == stage_prefix(
                AudioStage::Decode,
            ) + e@,
        },
{
    match decoded {
        PacketDecode::Decoded => DecodeStep::KeepSamples,
        PacketDecode::Corrupt => DecodeStep::SkipPacket,
        PacketDecode::EndOfStream => DecodeStep::Finish,
        PacketDecode::Failed(e) => DecodeStep::Fail(failure_message(AudioStage::Decode, &e)),
    }
}

} // verus!
