//! Perception devices (microphone, speaker, camera, screen) as this build
//! offers them: without device support, every capture and playback request
//! is answered with an error that says which feature is missing.

use vstd::prelude::*;
use vstd::string::StringExecFns;

verus! {

/// The audio devices known to this build: a single placeholder entry.
pub fn list_devices() -> (r: Result<Vec<String>, String>)
    ensures
        r matches Ok(v) && v@.len() == 1 && v@[0]@ == "默认设备 (feature disabled)"@,
{
    let mut v: Vec<String> = Vec::new();
    v.push(String::from_str("默认设备 (feature disabled)"));
    Ok(v)
}

/// Playing audio is not available in this build.
pub fn play_wav(wav_bytes: &[u8]) -> (r: Result<(), String>)
    ensures
        r matches Err(e) && e@ == "感知模块未启用（编译时未开启 perception feature）"@,
{
    Err(String::from_str("感知模块未启用（编译时未开启 perception feature）"))
}

/// Capturing a camera frame is not available in this build.
pub fn capture_camera() -> (r: Result<Vec<u8>, String>)
    ensures
        r matches Err(e) && e@ == "摄像头功能未启用（编译时未开启 camera feature）"@,
{
    Err(String::from_str("摄像头功能未启用（编译时未开启 camera feature）"))
}

/// Capturing the screen is not available in this build.
pub fn capture_screen() -> (r: Result<Vec<u8>, String>)
    ensures
        r matches Err(e) && e@ == "截屏功能未启用（编译时未开启 perception feature）"@,
{
    Err(String::from_str("截屏功能未启用（编译时未开启 perception feature）"))
}

/// A microphone recorder; this build has none.
pub struct AudioRecorder;

impl AudioRecorder {
    /// Creating a recorder fails in this build.
    pub fn new() -> (r: Result<AudioRecorder, String>)
        ensures
            r matches Err(e) && e@ == "感知模块未启用（编译时未开启 perception feature）"@,
    {
        Err(String::from_str("感知模块未启用（编译时未开启 perception feature）"))
    }

    /// Starting to record fails in this build.
    pub fn start(&mut self) -> (r: Result<(), String>)
        ensures
            r matches Err(e) && e@ == "感知模块未启用"@,
    {
        Err(String::from_str("感知模块未启用"))
    }

    /// Stopping a recording fails in this build.
    pub fn stop(&mut self) -> (r: Result<Vec<u8>, String>)
        ensures
            r matches Err(e) && e@ == "感知模块未启用"@,
    {
        Err(String::from_str("感知模块未启用"))
    }

    /// Nothing is ever buffered.
    pub fn buffer_len(&self) -> (n: usize)
        ensures
            n == 0,
    {
        0
    }
}

/// A little-endian 16-bit number at `i`.
pub open spec fn le16(b: Seq<u8>, i: int) -> u16 {
    (b[i] as int + b[i + 1] as int * 256) as u16
}

/// A little-endian 32-bit number at `i`.
pub open spec fn le32(b: Seq<u8>, i: int) -> u32 {
    (b[i] as int + b[i + 1] as int * 256 + b[i + 2] as int * 65536 + b[i + 3] as int * 16777216) as u32
}

/// The format a WAV header gives — channels, sample rate, bits per sample —
/// when the data is at least 44 bytes long and starts with "RIFF" with
/// "WAVE" at offset 8.
pub open spec fn spec_parse_wav_header(w: Seq<u8>) -> Option<(u16, u32, u16)> {
    if w.len() < 44 {
        None
    } else if !(w[0] == 0x52 && w[1] == 0x49 && w[2] == 0x46 && w[3] == 0x46 && w[8] == 0x57 && w[9] == 0x41
        && w[10] == 0x56 && w[11] == 0x45) {
        None
    } else {
        Some((le16(w, 22), le32(w, 24), le16(w, 34)))
    }
}

/// Reads the format from a WAV header.
pub fn parse_wav_header(wav: &[u8]) -> (r: Option<(u16, u32, u16)>)
    ensures
        r == spec_parse_wav_header(wav@),
{
    if wav.len() < 44 {
        return None;
    }
    if !(wav[0] == 0x52 && wav[1] == 0x49 && wav[2] == 0x46 && wav[3] == 0x46 && wav[8] == 0x57 && wav[9]
        == 0x41 && wav[10] == 0x56 && wav[11] == 0x45) {
        return None;
    }
    let channels: u16 = wav[22] as u16 + wav[23] as u16 * 256;
    let sample_rate: u32 = wav[24] as u32 + wav[25] as u32 * 256 + wav[26] as u32 * 65536 + wav[27] as u32
        * 16777216;
    let bits: u16 = wav[34] as u16 + wav[35] as u16 * 256;
    Some((channels, sample_rate, bits))
}

} // verus!
