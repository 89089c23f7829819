//! The option values that the command line selects, and its parse errors.

use vstd::prelude::*;
use vstd::string::StringExecFns;

verus! {

broadcast use vstd::string::group_string_axioms;

#[derive(Clone, Copy, Debug, PartialEq, Eq, Structural)]
pub enum VideoCodec {
    H264,
    AV1,
    VP9,
}

impl Default for VideoCodec {
    fn default() -> (r: Self)
        ensures
            r == VideoCodec::H264,
    {
        VideoCodec::H264
    }
}

pub open spec fn codec_name(c: VideoCodec) -> Seq<char> {
    match c {
        VideoCodec::H264 => "h264"@,
        VideoCodec::AV1 => "av1"@,
        VideoCodec::VP9 => "vp9"@,
    }
}

impl VideoCodec {
    /// The codec's name as the service expects it.
    pub fn print(&self) -> (r: String)
        ensures
            r@ == codec_name(*self),
    {
        match self {
            VideoCodec::H264 => "h264".to_string(),
            VideoCodec::AV1 => "av1".to_string(),
            VideoCodec::VP9 => "vp9".to_string(),
        }
    }
}

#[derive(Clone, Copy, Debug, PartialEq, Eq, Structural)]
pub enum AudioFormat {
    BEST,
    MP3,
    OGG,
    WAV,
    OPUS,
}

impl Default for AudioFormat {
    fn default() -> (r: Self)
        ensures
            r == AudioFormat::MP3,
    {
        AudioFormat::MP3
    }
}

pub open spec fn format_name(f: AudioFormat) -> Seq<char> {
    match f {
        AudioFormat::BEST => "best"@,
        AudioFormat::MP3 => "mp3"@,
        AudioFormat::OGG => "ogg"@,
        AudioFormat::WAV => "wav"@,
        AudioFormat::OPUS => "opus"@,
    }
}

impl AudioFormat {
    /// The format's name as the service expects it.
    pub fn print(&self) -> (r: String)
        ensures
            r@ == format_name(*self),
    {
        match self {
            AudioFormat::BEST => "best".to_string(),
            AudioFormat::MP3 => "mp3".to_string(),
            AudioFormat::OGG => "ogg".to_string(),
            AudioFormat::WAV => "wav".to_string(),
            AudioFormat::OPUS => "opus".to_string(),
        }
    }
}

#[derive(Clone, Copy, Debug, PartialEq, Eq, Structural)]
pub enum FilenamePattern {
    Classic,
    Pretty,
    Basic,
    Nerdy,
}

impl Default for FilenamePattern {
    fn default() -> (r: Self)
        ensures
            r == FilenamePattern::Classic,
    {
        FilenamePattern::Classic
    }
}

pub open spec fn pattern_name(p: FilenamePattern) -> Seq<char> {
    match p {
        FilenamePattern::Classic => "classic"@,
        FilenamePattern::Pretty => "pretty"@,
        FilenamePattern::Basic => "basic"@,
        FilenamePattern::Nerdy => "nerdy"@,
    }
}

impl FilenamePattern {
    /// The pattern's name as the service expects it.
    pub fn print(&self) -> (r: String)
        ensures
            r@ == pattern_name(*self),
    {
        match self {
            FilenamePattern::Classic => "classic".to_string(),
            FilenamePattern::Pretty => "pretty".to_string(),
            FilenamePattern::Basic => "basic".to_string(),
            FilenamePattern::Nerdy => "nerdy".to_string(),
        }
    }
}

#[derive(Clone, Copy, Debug, PartialEq, Eq, Structural)]
pub enum DownloadMode {
    Auto,
    Audio,
    Mute,
}

impl Default for DownloadMode {
    fn default() -> (r: Self)
        ensures
            r == DownloadMode::Auto,
    {
        DownloadMode::Auto
    }
}

pub open spec fn mode_name(m: DownloadMode) -> Seq<char> {
    match m {
        DownloadMode::Auto => "auto"@,
        DownloadMode::Audio => "audio"@,
        DownloadMode::Mute => "mute"@,
    }
}

impl DownloadMode {
    /// The mode's name as the service expects it.
    pub fn print(&self) -> (r: String)
        ensures
            r@ == mode_name(*self),
    {
        match self {
            DownloadMode::Auto => "auto".to_string(),
            DownloadMode::Audio => "audio".to_string(),
            DownloadMode::Mute => "mute".to_string(),
        }
    }
}

/// The topic that `help` was asked about.
#[derive(Clone, Copy, Debug, PartialEq, Eq, Structural)]
pub enum Help {
    Get,
    List,
    Bulk,
    Help,
    Examples,
    Config,
    GenConfig,
}

#[derive(Clone, Debug, PartialEq, Eq)]
pub enum Method {
    Get,
    List,
    Bulk,
    Help,
    Version,
    /// Asks the given instance for its version.
    CobaltVersion(String),
    GenConfig,
}

#[derive(Clone, Copy, Debug, PartialEq, Eq, Structural)]
pub enum ParseErrType {
    InvalidArg,
    Incomplete,
    BulkParseError,
}

pub open spec fn err_type_name(t: ParseErrType) -> Seq<char> {
    match t {
        ParseErrType::InvalidArg => "InvalidArg"@,
        ParseErrType::Incomplete => "Incomplete"@,
        ParseErrType::BulkParseError => "BulkParseError"@,
    }
}

/// A command line that was not accepted.
#[derive(Debug)]
pub struct ParseError {
    pub err_type: ParseErrType,
    pub message: String,
}

impl ParseError {
    /// Arguments that are missing.
    pub fn throw_incomplete(message: &str) -> (r: Self)
        ensures
            r.err_type == ParseErrType::Incomplete,
            r.message@ == message@,
    {
        ParseError { err_type: ParseErrType::Incomplete, message: message.to_string() }
    }

    /// An argument that is not valid.
    pub fn throw_invalid(message: &str) -> (r: Self)
        ensures
            r.err_type == ParseErrType::InvalidArg,
            r.message@ == message@,
    {
        ParseError { err_type: ParseErrType::InvalidArg, message: message.to_string() }
    }

    /// A fault in one of the commands of a bulk run.
    pub fn throw_bulkerr(message: &str) -> (r: Self)
        ensures
            r.err_type == ParseErrType::BulkParseError,
            r.message@ == message@,
    {
        ParseError { err_type: ParseErrType::BulkParseError, message: message.to_string() }
    }

    /// `<kind>: <message>`.
    pub fn print(&self) -> (r: String)
        ensures
            r@ == err_type_name(self.err_type) + ": "@ + self.message@,
    {
        let mut s = match self.err_type {
            ParseErrType::InvalidArg => "InvalidArg".to_string(),
            ParseErrType::Incomplete => "Incomplete".to_string(),
            ParseErrType::BulkParseError => "BulkParseError".to_string(),
        };
        s.append(": ");
        s.append(self.message.as_str());
        s
    }
}

} // verus!
