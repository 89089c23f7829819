//! The command line: its options and how its words are read.

pub mod types;
pub mod get;

use vstd::prelude::*;
use vstd::string::StringExecFns;
use crate::render::decimal_chars;
use crate::parser::{digits_value, is_digit, is_digit_char, lemma_digits_value_mono};
use crate::args::get::{GetModel, get_result, get_words, model_of, opt_view, read_word, run_words, views};
use crate::args::types::{
    AudioFormat, DownloadMode, FilenamePattern, Help, Method, ParseErrType, ParseError, VideoCodec,
};
use crate::text::{chars_of, contains_spec, has_part, is_word, lines, lines_spec, string_of, trim_chars, trim_spec};

verus! {

broadcast use vstd::string::group_string_axioms;

/// What `str::to_lowercase` makes of a string.
pub uninterp spec fn lower_of(s: Seq<char>) -> Seq<char>;

/// Relies on `str::to_lowercase`: the result depends on the characters alone.
#[verifier::external_body]
fn lowercase(s: &str) -> (r: String)
    ensures
        r@ == lower_of(s@),
{
    s.to_lowercase()
}

/// The lower-case form of a string, as `str::to_lowercase` gives it.
pub(crate) fn lowercase_string(s: &String) -> (r: String)
    ensures
        r@ == lower_of(s@),
{
    lowercase(s.as_str())
}

/// A word of the command line as it is read: lower case, unless it holds a
/// URL.
pub open spec fn norm(w: Seq<char>) -> Seq<char> {
    if contains_spec(w, "https://"@) {
        w
    } else {
        lower_of(w)
    }
}

/// The words of a command line as they are read.
pub open spec fn norm_words(raw: Seq<String>) -> Seq<Seq<char>> {
    Seq::new(raw.len(), |i: int| norm(raw[i]@))
}

/// An option that waits for its value in the next word.
#[derive(Clone, Copy, Debug, PartialEq, Eq, Structural)]
pub enum ExpectedFlag {
    VideoCodec,
    VideoQuality,
    AudioFormat,
    Output,
    FilenamePattern,
    Picker,
    Language,
    Instance,
    Bitrate,
}

pub open spec fn codec_spec(t: Seq<char>) -> Option<VideoCodec> {
    if t == "h264"@ {
        Some(VideoCodec::H264)
    } else if t == "av1"@ {
        Some(VideoCodec::AV1)
    } else if t == "vp9"@ {
        Some(VideoCodec::VP9)
    } else {
        None
    }
}

pub open spec fn quality_spec(t: Seq<char>) -> Option<u16> {
    if t == "144"@ {
        Some(144u16)
    } else if t == "480"@ {
        Some(480u16)
    } else if t == "720"@ {
        Some(720u16)
    } else if t == "1080"@ {
        Some(1080u16)
    } else if t == "1440"@ {
        Some(1440u16)
    } else if t == "2160"@ {
        Some(2160u16)
    } else {
        None
    }
}

pub open spec fn format_spec(t: Seq<char>) -> Option<AudioFormat> {
    if t == "best"@ {
        Some(AudioFormat::BEST)
    } else if t == "mp3"@ {
        Some(AudioFormat::MP3)
    } else if t == "ogg"@ {
        Some(AudioFormat::OGG)
    } else if t == "wav"@ {
        Some(AudioFormat::WAV)
    } else if t == "opus"@ {
        Some(AudioFormat::OPUS)
    } else {
        None
    }
}

pub open spec fn pattern_spec(t: Seq<char>) -> Option<FilenamePattern> {
    if t == "classic"@ || t == "c"@ {
        Some(FilenamePattern::Classic)
    } else if t == "pretty"@ || t == "p"@ {
        Some(FilenamePattern::Pretty)
    } else if t == "basic"@ || t == "b"@ {
        Some(FilenamePattern::Basic)
    } else if t == "nerdy"@ || t == "n"@ {
        Some(FilenamePattern::Nerdy)
    } else {
        None
    }
}

pub open spec fn bitrate_spec(t: Seq<char>) -> Option<u16> {
    if t == "320"@ {
        Some(320u16)
    } else if t == "256"@ {
        Some(256u16)
    } else if t == "128"@ {
        Some(128u16)
    } else if t == "96"@ {
        Some(96u16)
    } else if t == "64"@ {
        Some(64u16)
    } else if t == "8"@ {
        Some(8u16)
    } else {
        None
    }
}

/// A file name with an extension of a media type the service can deliver.
pub open spec fn media_name(t: Seq<char>) -> bool {
    contains_spec(t, ".mp3"@) || contains_spec(t, ".ogg"@) || contains_spec(t, ".wav"@) || contains_spec(
        t,
        ".opus"@,
    ) || contains_spec(t, ".mp4"@) || contains_spec(t, ".webm"@) || contains_spec(t, ".gif"@)
}

pub open spec fn help_topic_spec(t: Seq<char>) -> Help {
    if t == "get"@ || t == "g"@ {
        Help::Get
    } else if t == "list"@ || t == "l"@ {
        Help::List
    } else if t == "bulk"@ || t == "b"@ {
        Help::Bulk
    } else if t == "examples"@ || t == "e"@ {
        Help::Examples
    } else if t == "gen-config"@ || t == "gc"@ {
        Help::GenConfig
    } else if t == "config"@ || t == "c"@ {
        Help::Config
    } else {
        Help::Help
    }
}

pub open spec fn is_digit_seq(t: Seq<char>) -> bool {
    forall|j: int| 0 <= j < t.len() ==> is_digit(#[trigger] t[j])
}

/// What `u8::from_str` accepts: an optional `+`, then one or more digits
/// denoting at most 255.
pub open spec fn u8_spec(t: Seq<char>) -> Option<u8> {
    let d = if t.len() > 0 && t[0] == '+' {
        t.drop_first()
    } else {
        t
    };
    if d.len() > 0 && is_digit_seq(d) && digits_value(d) <= 255 {
        Some(digits_value(d) as u8)
    } else {
        None
    }
}

pub(crate) fn codec_of(t: &Vec<char>) -> (r: Option<VideoCodec>)
    ensures
        r == codec_spec(t@),
{
    if is_word(t, "h264") {
        Some(VideoCodec::H264)
    } else if is_word(t, "av1") {
        Some(VideoCodec::AV1)
    } else if is_word(t, "vp9") {
        Some(VideoCodec::VP9)
    } else {
        None
    }
}

pub(crate) fn quality_of(t: &Vec<char>) -> (r: Option<u16>)
    ensures
        r == quality_spec(t@),
{
    if is_word(t, "144") {
        Some(144)
    } else if is_word(t, "480") {
        Some(480)
    } else if is_word(t, "720") {
        Some(720)
    } else if is_word(t, "1080") {
        Some(1080)
    } else if is_word(t, "1440") {
        Some(1440)
    } else if is_word(t, "2160") {
        Some(2160)
    } else {
        None
    }
}

pub(crate) fn format_of(t: &Vec<char>) -> (r: Option<AudioFormat>)
    ensures
        r == format_spec(t@),
{
    if is_word(t, "best") {
        Some(AudioFormat::BEST)
    } else if is_word(t, "mp3") {
        Some(AudioFormat::MP3)
    } else if is_word(t, "ogg") {
        Some(AudioFormat::OGG)
    } else if is_word(t, "wav") {
        Some(AudioFormat::WAV)
    } else if is_word(t, "opus") {
        Some(AudioFormat::OPUS)
    } else {
        None
    }
}

pub(crate) fn pattern_of(t: &Vec<char>) -> (r: Option<FilenamePattern>)
    ensures
        r == pattern_spec(t@),
{
    if is_word(t, "classic") || is_word(t, "c") {
        Some(FilenamePattern::Classic)
    } else if is_word(t, "pretty") || is_word(t, "p") {
        Some(FilenamePattern::Pretty)
    } else if is_word(t, "basic") || is_word(t, "b") {
        Some(FilenamePattern::Basic)
    } else if is_word(t, "nerdy") || is_word(t, "n") {
        Some(FilenamePattern::Nerdy)
    } else {
        None
    }
}

pub(crate) fn bitrate_of(t: &Vec<char>) -> (r: Option<u16>)
    ensures
        r == bitrate_spec(t@),
{
    if is_word(t, "320") {
        Some(320)
    } else if is_word(t, "256") {
        Some(256)
    } else if is_word(t, "128") {
        Some(128)
    } else if is_word(t, "96") {
        Some(96)
    } else if is_word(t, "64") {
        Some(64)
    } else if is_word(t, "8") {
        Some(8)
    } else {
        None
    }
}

pub(crate) fn is_media_name(t: &Vec<char>) -> (r: bool)
    ensures
        r == media_name(t@),
{
    has_part(t, ".mp3") || has_part(t, ".ogg") || has_part(t, ".wav") || has_part(t, ".opus") || has_part(
        t,
        ".mp4",
    ) || has_part(t, ".webm") || has_part(t, ".gif")
}

pub(crate) fn help_topic(t: &Vec<char>) -> (r: Help)
    ensures
        r == help_topic_spec(t@),
{
    if is_word(t, "get") || is_word(t, "g") {
        Help::Get
    } else if is_word(t, "list") || is_word(t, "l") {
        Help::List
    } else if is_word(t, "bulk") || is_word(t, "b") {
        Help::Bulk
    } else if is_word(t, "examples") || is_word(t, "e") {
        Help::Examples
    } else if is_word(t, "gen-config") || is_word(t, "gc") {
        Help::GenConfig
    } else if is_word(t, "config") || is_word(t, "c") {
        Help::Config
    } else {
        Help::Help
    }
}

/// Reads a number from 0 to 255 as `u8::from_str` does.
pub fn parse_u8(t: &Vec<char>) -> (r: Option<u8>)
    ensures
        r == u8_spec(t@),
{
    let start: usize = if t.len() > 0 && t[0] == '+' { 1 } else { 0 };
    let ghost d = if t@.len() > 0 && t@[0] == '+' { t@.drop_first() } else { t@ };
    proof {
        assert(d =~= t@.subrange(start as int, t@.len() as int));
    }
    if start >= t.len() {
        return None;
    }
    let mut acc: u32 = 0;
    let mut i: usize = start;
    while i < t.len()
        invariant
            start <= i <= t@.len(),
            d == t@.subrange(start as int, t@.len() as int),
            d == (if t@.len() > 0 && t@[0] == '+' {
                t@.drop_first()
            } else {
                t@
            }),
            is_digit_seq(t@.subrange(start as int, i as int)),
            acc as int == digits_value(t@.subrange(start as int, i as int)),
            acc <= 255,
        decreases t@.len() - i,
    {
        let c = t[i];
        let ghost pre = t@.subrange(start as int, i as int);
        let ghost next = t@.subrange(start as int, i + 1);
        proof {
            assert(next.drop_last() =~= pre);
        }
        if !is_digit_char(c) {
            proof {
                assert(d[i - start] == c);
            }
            return None;
        }
        let v = acc * 10 + (c as u32 - '0' as u32);
        if v > 255 {
            proof {
                assert(digits_value(next) > 255);
                assert(d.take(i - start + 1) =~= next);
                if is_digit_seq(d) {
                    lemma_digits_value_mono(d, i - start + 1);
                }
            }
            return None;
        }
        acc = v;
        i = i + 1;
    }
    proof {
        assert(t@.subrange(start as int, i as int) =~= d);
    }
    Some(acc as u8)
}

/// `a` followed by `b`.
pub(crate) fn join(a: &str, b: &str) -> (r: String)
    ensures
        r@ == a@ + b@,
{
    let mut s = a.to_string();
    s.append(b);
    s
}

/// The command line, and the options read from it.
#[derive(Debug, PartialEq)]
pub struct Args {
    pub raw: Vec<String>,
    pub parsed: bool,
    pub method: Option<Method>,
    pub c_url: Option<String>,
    pub bulk_array: Option<Vec<Args>>,
    pub c_video_codec: VideoCodec,
    pub c_video_quality: u16,
    pub c_audio_format: AudioFormat,
    pub c_audio_bitrate: u16,
    pub c_download_mode: DownloadMode,
    pub c_twitter_gif: bool,
    pub c_tt_full_audio: bool,
    pub c_tt_h265: bool,
    pub c_disable_metadata: bool,
    pub accept_language: String,
    pub out_filename: Option<String>,
    pub c_fname_style: FilenamePattern,
    pub same_filenames: bool,
    pub picker_choice: u8,
    pub cobalt_instance: String,
    pub help_flag: Option<Help>,
    pub c_proxy: bool,
    /// The URL is to be read from standard input (the `+` flag).
    pub read_stdin: bool,
    /// The file whose lines are the commands of a bulk run.
    pub bulk_file: Option<String>,
}

/// Every option at its default.
pub open spec fn defaults(a: Args) -> bool {
    &&& !a.parsed
    &&& a.method is None
    &&& a.c_url is None
    &&& a.bulk_array is None
    &&& a.c_video_codec == VideoCodec::H264
    &&& a.c_video_quality == 1080
    &&& a.c_audio_format == AudioFormat::MP3
    &&& a.c_audio_bitrate == 128
    &&& a.c_download_mode == DownloadMode::Auto
    &&& !a.c_twitter_gif && !a.c_tt_full_audio && !a.c_tt_h265 && !a.c_disable_metadata
    &&& a.accept_language@ == "en"@
    &&& a.out_filename is None
    &&& a.c_fname_style == FilenamePattern::Classic
    &&& !a.same_filenames
    &&& a.picker_choice == 0
    &&& a.cobalt_instance@ == "api.cobalt.tools"@
    &&& a.help_flag is None
    &&& !a.c_proxy
    &&& !a.read_stdin
    &&& a.bulk_file is None
}

pub open spec fn is_help_word(w: Seq<char>) -> bool {
    w == "help"@ || w == "-h"@ || w == "--help"@ || w == "h"@
}

pub open spec fn is_get_word(w: Seq<char>) -> bool {
    w == "get"@ || w == "g"@
}

pub open spec fn is_bulk_word(w: Seq<char>) -> bool {
    w == "bulk"@ || w == "b"@
}

pub open spec fn is_list_word(w: Seq<char>) -> bool {
    w == "list"@ || w == "l"@
}

pub open spec fn is_version_word(w: Seq<char>) -> bool {
    w == "version"@ || w == "v"@ || w == "-v"@ || w == "--version"@
}

pub open spec fn is_cobalt_version_word(w: Seq<char>) -> bool {
    w == "cobalt-version"@ || w == "cv"@ || w == "c"@
}

pub open spec fn is_gen_config_word(w: Seq<char>) -> bool {
    w == "gen-config"@ || w == "gc"@
}

fn copy_method(m: &Method) -> (r: Method)
    ensures
        r == *m,
{
    match m {
        Method::Get => Method::Get,
        Method::List => Method::List,
        Method::Bulk => Method::Bulk,
        Method::Help => Method::Help,
        Method::Version => Method::Version,
        Method::CobaltVersion(s) => Method::CobaltVersion(s.clone()),
        Method::GenConfig => Method::GenConfig,
    }
}

fn copy_opt_string(s: &Option<String>) -> (r: Option<String>)
    ensures
        r == *s,
{
    match s {
        Some(t) => Some(t.clone()),
        None => None,
    }
}

fn copy_strings(v: &Vec<String>) -> (r: Vec<String>)
    ensures
        r@ == v@,
{
    let mut out: Vec<String> = Vec::new();
    let mut i: usize = 0;
    while i < v.len()
        invariant
            i <= v@.len(),
            out@ == v@.take(i as int),
        decreases v@.len() - i,
    {
        out.push(v[i].clone());
        i = i + 1;
        proof {
            assert(out@ =~= v@.take(i as int));
        }
    }
    proof {
        assert(v@.take(i as int) =~= v@);
    }
    out
}

impl Args {
    /// The given words of a command line (the program's name first), with
    /// every option at its default.
    pub fn from_raw(raw: Vec<String>) -> (r: Args)
        ensures
            r.raw@ == raw@,
            defaults(r),
    {
        Args {
            raw,
            parsed: false,
            method: None,
            c_url: None,
            bulk_array: None,
            c_video_codec: VideoCodec::H264,
            c_video_quality: 1080,
            c_audio_format: AudioFormat::MP3,
            c_audio_bitrate: 128,
            c_download_mode: DownloadMode::Auto,
            c_twitter_gif: false,
            c_tt_full_audio: false,
            c_tt_h265: false,
            c_disable_metadata: false,
            accept_language: "en".to_string(),
            out_filename: None,
            c_fname_style: FilenamePattern::Classic,
            same_filenames: false,
            picker_choice: 0,
            cobalt_instance: "api.cobalt.tools".to_string(),
            help_flag: None,
            c_proxy: false,
            read_stdin: false,
            bulk_file: None,
        }
    }

    /// A command line made of the given words, after the program's name
    /// `tcb`.
    pub fn override_args(args: &[&str]) -> (r: Args)
        ensures
            r.raw@.len() == args@.len() + 1,
            r.raw@[0]@ == "tcb"@,
            forall|i: int| 0 <= i < args@.len() ==> #[trigger] r.raw@[i + 1]@ == args@[i]@,
            defaults(r),
    {
        let mut raw: Vec<String> = Vec::new();
        raw.push("tcb".to_string());
        let mut i: usize = 0;
        while i < args.len()
            invariant
                i <= args@.len(),
                raw@.len() == i + 1,
                raw@[0]@ == "tcb"@,
                forall|k: int| 0 <= k < i ==> #[trigger] raw@[k + 1]@ == args@[k]@,
            decreases args@.len() - i,
        {
            raw.push(args[i].to_string());
            i = i + 1;
        }
        Args::from_raw(raw)
    }

    /// A copy of the options, without the commands of a bulk run.
    pub fn duplicate(&self) -> (r: Args)
        ensures
            r.raw@ == self.raw@,
            r.parsed == self.parsed,
            r.method == self.method,
            r.help_flag == self.help_flag,
            r.same_filenames == self.same_filenames,
            r.bulk_file == self.bulk_file,
            r.c_url == self.c_url,
            r.out_filename == self.out_filename,
            model_of(r) == model_of(*self),
            r.bulk_array is None,
    {
        Args {
            raw: copy_strings(&self.raw),
            parsed: self.parsed,
            method: match &self.method {
                Some(m) => Some(copy_method(m)),
                None => None,
            },
            c_url: copy_opt_string(&self.c_url),
            bulk_array: None,
            c_video_codec: self.c_video_codec,
            c_video_quality: self.c_video_quality,
            c_audio_format: self.c_audio_format,
            c_audio_bitrate: self.c_audio_bitrate,
            c_download_mode: self.c_download_mode,
            c_twitter_gif: self.c_twitter_gif,
            c_tt_full_audio: self.c_tt_full_audio,
            c_tt_h265: self.c_tt_h265,
            c_disable_metadata: self.c_disable_metadata,
            accept_language: self.accept_language.clone(),
            out_filename: copy_opt_string(&self.out_filename),
            c_fname_style: self.c_fname_style,
            same_filenames: self.same_filenames,
            picker_choice: self.picker_choice,
            cobalt_instance: self.cobalt_instance.clone(),
            help_flag: self.help_flag,
            c_proxy: self.c_proxy,
            read_stdin: self.read_stdin,
            bulk_file: copy_opt_string(&self.bulk_file),
        }
    }

    /// Reads the command line with no configured defaults.
    pub fn parse(self) -> (r: Result<Args, ParseError>)
        ensures
            r is Ok ==> r->Ok_0.parsed && r->Ok_0.method is Some,
            self.raw@.len() < 2 ==> r is Err,
            self.raw@.len() >= 2 ==> method_outcome(norm(self.raw@[1]@), self.raw@.len() >= 3, if self.raw@.len() >= 3 {
                norm(self.raw@[2]@)
            } else {
                Seq::empty()
            }, r),
            self.raw@.len() >= 2 && !is_help_word(norm(self.raw@[1]@)) && is_get_word(norm(self.raw@[1]@)) ==> match get_result(
                model_of(self),
                get_words(norm_words(self.raw@), Seq::empty()),
                Seq::empty(),
            ) {
                Ok(m) => r is Ok && model_of(r->Ok_0) == m,
                Err(k) => r is Err && r->Err_0.err_type == k,
            },
    {
        let none: Vec<String> = Vec::new();
        proof {
            assert(views(none@) =~= Seq::<Seq<char>>::empty());
        }
        self.parse_with(&none, &none)
    }

    /// Reads the command line. `config` holds the words that the
    /// configuration file adds before those of a `get` command, `instances`
    /// the hosts that `--instance <n>` picks from.
    pub fn parse_with(self, config: &Vec<String>, instances: &Vec<String>) -> (r: Result<Args, ParseError>)
        ensures
            r is Ok ==> r->Ok_0.parsed && r->Ok_0.method is Some,
            self.raw@.len() < 2 ==> r is Err,
            self.raw@.len() >= 2 ==> method_outcome(norm(self.raw@[1]@), self.raw@.len() >= 3, if self.raw@.len() >= 3 {
                norm(self.raw@[2]@)
            } else {
                Seq::empty()
            }, r),
            self.raw@.len() >= 2 && !is_help_word(norm(self.raw@[1]@)) && !is_get_word(norm(self.raw@[1]@))
                && is_bulk_word(norm(self.raw@[1]@)) ==> bulk_outcome(
                norm_words(self.raw@),
                views(config@),
                views(instances@),
                self.same_filenames,
                r,
            ),
            self.raw@.len() >= 2 && !is_help_word(norm(self.raw@[1]@)) && is_get_word(norm(self.raw@[1]@)) ==> match get_result(
                model_of(self),
                get_words(norm_words(self.raw@), views(config@)),
                views(instances@),
            ) {
                Ok(m) => r is Ok && model_of(r->Ok_0) == m,
                Err(k) => r is Err && r->Err_0.err_type == k,
            },
    {
        let mut a = self;
        a.parsed = true;
        let ghost old_raw = a.raw@;
        let mut norm_raw: Vec<String> = Vec::new();
        let mut i: usize = 0;
        while i < a.raw.len()
            invariant
                a.raw@ == old_raw,
                i <= old_raw.len(),
                norm_raw@.len() == i,
                forall|k: int| 0 <= k < i ==> #[trigger] norm_raw@[k]@ == norm(old_raw[k]@),
            decreases old_raw.len() - i,
        {
            let t = chars_of(a.raw[i].as_str());
            if has_part(&t, "https://") {
                norm_raw.push(a.raw[i].clone());
            } else {
                norm_raw.push(lowercase(a.raw[i].as_str()));
            }
            i = i + 1;
        }
        proof {
            assert(views(norm_raw@) =~= norm_words(old_raw));
        }
        a.raw = norm_raw;
        if a.raw.len() < 2 {
            return Err(ParseError::throw_incomplete("Missing method"));
        }
        let m = chars_of(a.raw[1].as_str());
        if is_word(&m, "help") || is_word(&m, "-h") || is_word(&m, "--help") || is_word(&m, "h") {
            a.method = Some(Method::Help);
            if a.raw.len() > 2 {
                let t = chars_of(a.raw[2].as_str());
                a.help_flag = Some(help_topic(&t));
            } else {
                a.help_flag = Some(Help::Help);
            }
            Ok(a)
        } else if is_word(&m, "get") || is_word(&m, "g") {
            a.parse_get(config, instances)
        } else if is_word(&m, "bulk") || is_word(&m, "b") {
            a.parse_bulk(config, instances)
        } else if is_word(&m, "list") || is_word(&m, "l") {
            a.method = Some(Method::List);
            Ok(a)
        } else if is_word(&m, "version") || is_word(&m, "v") || is_word(&m, "-v") || is_word(&m, "--version") {
            a.method = Some(Method::Version);
            Ok(a)
        } else if is_word(&m, "cobalt-version") || is_word(&m, "cv") || is_word(&m, "c") {
            if a.raw.len() > 2 {
                a.method = Some(Method::CobaltVersion(a.raw[2].clone()));
            } else {
                a.method = Some(Method::CobaltVersion("api.cobalt.tools".to_string()));
            }
            Ok(a)
        } else if is_word(&m, "gen-config") || is_word(&m, "gc") {
            a.method = Some(Method::GenConfig);
            Ok(a)
        } else {
            let msg = join("Unrecognized tcobalt method: ", a.raw[1].as_str());
            Err(ParseError::throw_invalid(msg.as_str()))
        }
    }

    /// Reads the words of a `get` command.
    fn parse_get(self, config: &Vec<String>, instances: &Vec<String>) -> (r: Result<Args, ParseError>)
        requires
            self.raw@.len() >= 2,
            self.parsed,
        ensures
            match get_result(model_of(self), get_words(views(self.raw@), views(config@)), views(instances@)) {
                Ok(m) => r is Ok && model_of(r->Ok_0) == m && r->Ok_0.parsed && r->Ok_0.method == Some(Method::Get)
                    && views(r->Ok_0.raw@) == get_words(views(self.raw@), views(config@)),
                Err(k) => r is Err && r->Err_0.err_type == k,
            },
    {
        let ghost w = get_words(views(self.raw@), views(config@));
        let ghost inst = views(instances@);
        let ghost m0 = model_of(self);
        let mut a = self;
        a.method = Some(Method::Get);
        let mut words: Vec<String> = Vec::new();
        words.push(a.raw[0].clone());
        words.push(a.raw[1].clone());
        proof {
            assert(views(words@) =~= views(a.raw@).take(2));
        }
        let mut k: usize = 0;
        while k < config.len()
            invariant
                k <= config@.len(),
                a.raw@.len() >= 2,
                views(words@) == views(a.raw@).take(2) + views(config@).take(k as int),
            decreases config@.len() - k,
        {
            let ghost old_w = words@;
            words.push(config[k].clone());
            proof {
                assert(views(words@) =~= views(old_w).push(config@[k as int]@));
                assert(views(config@).take(k + 1) =~= views(config@).take(k as int).push(config@[k as int]@));
            }
            k = k + 1;
            proof {
                assert(views(words@) =~= views(a.raw@).take(2) + views(config@).take(k as int));
            }
        }
        proof {
            assert(views(config@).take(k as int) =~= views(config@));
        }
        k = 2;
        while k < a.raw.len()
            invariant
                2 <= k <= a.raw@.len(),
                views(words@) == views(a.raw@).take(2) + views(config@) + views(a.raw@).subrange(2, k as int),
            decreases a.raw@.len() - k,
        {
            let ghost old_w = words@;
            words.push(a.raw[k].clone());
            proof {
                assert(views(words@) =~= views(old_w).push(a.raw@[k as int]@));
                assert(views(a.raw@).subrange(2, k + 1) =~= views(a.raw@).subrange(2, k as int).push(
                    a.raw@[k as int]@,
                ));
            }
            k = k + 1;
            proof {
                assert(views(words@) =~= views(a.raw@).take(2) + views(config@) + views(a.raw@).subrange(
                    2,
                    k as int,
                ));
            }
        }
        proof {
            assert(views(a.raw@).subrange(2, k as int) =~= views(a.raw@).skip(2));
        }
        a.raw = words;
        let ghost raw0 = a.raw;
        let mut expected: Vec<ExpectedFlag> = Vec::new();
        let mut idx: usize = 2;
        proof {
            assert(expected@ =~= Seq::<ExpectedFlag>::empty());
        }
        while idx < a.raw.len()
            invariant
                a.raw == raw0,
                views(raw0@) == w,
                2 <= idx <= raw0@.len(),
                a.parsed,
                a.method == Some(Method::Get),
                inst == views(instances@),
                m0 == model_of(self),
                w == get_words(views(self.raw@), views(config@)),
                run_words(model_of(a), expected@, w, idx as int, inst) == run_words(m0, Seq::empty(), w, 2, inst),
            decreases raw0@.len() - idx,
        {
            let arg = a.raw[idx].clone();
            proof {
                assert(arg@ == w[idx as int]);
                assert(views(instances@) =~= Seq::new(instances@.len(), |i: int| instances@[i]@));
            }
            let ghost ma = model_of(a);
            let ghost exa = expected@;
            match read_word(&mut a, &mut expected, arg, instances) {
                Ok(()) => {},
                Err(e) => {
                    proof {
                        assert(run_words(ma, exa, w, idx as int, inst) == Err::<
                            (crate::args::get::GetModel, Seq<ExpectedFlag>),
                            ParseErrType,
                        >(e.err_type));
                    }
                    return Err(e);
                },
            }
            proof {
                assert(run_words(ma, exa, w, idx as int, inst) == run_words(model_of(a), expected@, w, idx + 1, inst));
            }
            idx = idx + 1;
        }
        if a.read_stdin && a.c_url.is_some() {
            return Err(ParseError::throw_invalid("You cannot have 2 URLs in the same GET command"));
        }
        if a.c_url.is_none() && !a.read_stdin {
            return Err(ParseError::throw_incomplete("Missing URL from GET method"));
        }
        if expected.len() > 0 {
            let mut missing = String::new();
            let mut e: usize = 0;
            while e < expected.len()
                invariant
                    e <= expected@.len(),
                decreases expected@.len() - e,
            {
                if e > 0 {
                    missing.append(", ");
                }
                let name = match expected[e] {
                    ExpectedFlag::VideoCodec => "VideoCodec",
                    ExpectedFlag::VideoQuality => "VideoQuality",
                    ExpectedFlag::AudioFormat => "AudioFormat",
                    ExpectedFlag::Output => "Output",
                    ExpectedFlag::FilenamePattern => "FilenamePattern",
                    ExpectedFlag::Picker => "Picker",
                    ExpectedFlag::Language => "Language",
                    ExpectedFlag::Instance => "Instance",
                    ExpectedFlag::Bitrate => "Bitrate",
                };
                missing.append(name);
                e = e + 1;
            }
            let msg = join("The following flags were specified but their values were not: ", missing.as_str());
            return Err(ParseError::throw_incomplete(msg.as_str()));
        }
        Ok(a)
    }

    /// Reads the words of a `bulk` command.
    fn parse_bulk(self, config: &Vec<String>, instances: &Vec<String>) -> (r: Result<Args, ParseError>)
        requires
            self.raw@.len() >= 2,
            self.parsed,
        ensures
            r is Ok ==> r->Ok_0.parsed && r->Ok_0.method == Some(Method::Bulk),
            bulk_outcome(views(self.raw@), views(config@), views(instances@), self.same_filenames, r),
    {
        let ghost raw = views(self.raw@);
        let mut a = self;
        if a.raw.len() < 3 {
            return Err(ParseError::throw_incomplete("Action is missing for bulk download"));
        }
        a.method = Some(Method::Bulk);
        let action = chars_of(a.raw[2].as_str());
        if is_word(&action, "get") || is_word(&action, "g") {
            let mut urls: Vec<String> = Vec::new();
            let mut i: usize = a.raw.len();
            proof {
                assert(views(urls@) =~= rev_urls(raw, i as int));
            }
            while i > 0
                invariant
                    i <= a.raw@.len(),
                    raw == views(a.raw@),
                    views(urls@) == rev_urls(raw, i as int),
                decreases i,
            {
                i = i - 1;
                let t = chars_of(a.raw[i].as_str());
                proof {
                    assert(t@ == raw[i as int]);
                }
                let ghost before = urls@;
                if has_part(&t, "https://") {
                    urls.push(a.raw[i].clone());
                    proof {
                        assert(views(urls@) =~= views(before).push(raw[i as int]));
                    }
                }
                proof {
                    assert(views(urls@) =~= rev_urls(raw, i as int));
                }
            }
            let mut rest: Vec<String> = Vec::new();
            rest.push("tcb".to_string());
            rest.push("get".to_string());
            rest.push("https://".to_string());
            let mut k: usize = 0;
            let mut kept: usize = 0;
            proof {
                assert(views(rest@) =~= seq!["tcb"@, "get"@, "https://"@] + drop3(plain_words(raw, 0)));
            }
            while k < a.raw.len()
                invariant
                    k <= a.raw@.len(),
                    raw == views(a.raw@),
                    kept as int == if plain_words(raw, k as int).len() < 3 {
                        plain_words(raw, k as int).len() as int
                    } else {
                        3
                    },
                    views(rest@) == seq!["tcb"@, "get"@, "https://"@] + drop3(plain_words(raw, k as int)),
                decreases a.raw@.len() - k,
            {
                let t = chars_of(a.raw[k].as_str());
                proof {
                    assert(t@ == raw[k as int]);
                }
                let ghost before = rest@;
                if !has_part(&t, "https://") {
                    if kept >= 3 {
                        rest.push(a.raw[k].clone());
                        proof {
                            assert(views(rest@) =~= views(before).push(raw[k as int]));
                            assert(drop3(plain_words(raw, k + 1)) =~= drop3(plain_words(raw, k as int)).push(raw[k as int]));
                        }
                    } else {
                        kept = kept + 1;
                        proof {
                            assert(drop3(plain_words(raw, k + 1)) =~= Seq::<Seq<char>>::empty());
                            assert(drop3(plain_words(raw, k as int)) =~= Seq::<Seq<char>>::empty());
                        }
                    }
                }
                k = k + 1;
                proof {
                    assert(views(rest@) =~= seq!["tcb"@, "get"@, "https://"@] + drop3(plain_words(raw, k as int)));
                }
            }
            if urls.len() == 0 {
                return Err(ParseError::throw_incomplete("Bulk get action is missing at least 1 URL"));
            }
            let mut template = Args::from_raw(rest);
            template.parsed = true;
            proof {
                assert(model_of(template) == default_model());
            }
            match template.parse_get(config, instances) {
                Ok(flags) => {
                    let mut arr: Vec<Args> = Vec::new();
                    let mut u: usize = 0;
                    while u < urls.len()
                        invariant
                            u <= urls@.len(),
                            arr@.len() == u,
                            forall|j: int|
                                0 <= j < u ==> model_of(#[trigger] arr@[j]) == (GetModel { url: Some(urls@[j]@), ..model_of(flags) }),
                        decreases urls@.len() - u,
                    {
                        let mut one = flags.duplicate();
                        one.c_url = Some(urls[u].clone());
                        arr.push(one);
                        u = u + 1;
                    }
                    if flags.out_filename.is_some() {
                        a.same_filenames = true;
                    }
                    a.bulk_array = Some(arr);
                    Ok(a)
                },
                Err(e) => {
                    let msg = join("Invalid flags | ", e.print().as_str());
                    Err(ParseError::throw_bulkerr(msg.as_str()))
                },
            }
        } else if is_word(&action, "execute") || is_word(&action, "exe") || is_word(&action, "e") {
            if a.raw.len() > 3 {
                a.bulk_file = Some(a.raw[3].clone());
                proof {
                    assert(raw[3] == a.raw@[3]@);
                }
                Ok(a)
            } else {
                Err(
                    ParseError::throw_incomplete(
                        "Bulk execute action is missing the filename to execute commands from",
                    ),
                )
            }
        } else {
            let msg = join("Invalid action: ", a.raw[2].as_str());
            Err(ParseError::throw_invalid(msg.as_str()))
        }
    }

    /// Takes the URL of a `get` command from standard input, when its `+`
    /// flag asked for that; otherwise the options stay as they are.
    pub fn take_stdin(self, input: &str) -> (r: Result<Args, ParseError>)
        ensures
            !self.read_stdin ==> r is Ok && r->Ok_0 == self,
            self.read_stdin && self.c_url is None && contains_spec(input@, "https://"@) ==> r is Ok
                && !r->Ok_0.read_stdin && r->Ok_0.c_url is Some && r->Ok_0.c_url->Some_0@ == trim_spec(input@),
            self.read_stdin && (self.c_url is Some || !contains_spec(input@, "https://"@)) ==> r is Err
                && r->Err_0.err_type == ParseErrType::InvalidArg,
    {
        if !self.read_stdin {
            return Ok(self);
        }
        let buf = chars_of(input);
        if self.c_url.is_none() && has_part(&buf, "https://") {
            let mut a = self;
            let trimmed = trim_chars(&buf);
            a.c_url = Some(string_of(&trimmed));
            a.read_stdin = false;
            Ok(a)
        } else if self.c_url.is_some() {
            Err(ParseError::throw_invalid("You cannot have 2 URLs in the same GET command"))
        } else {
            Err(ParseError::throw_invalid("URL from STDIN is invalid."))
        }
    }

    /// Reads the commands of a bulk run, one `get` command per line of
    /// `contents` (none when the file could not be read).
    pub fn load_bulk(self, contents: Option<&str>, config: &Vec<String>, instances: &Vec<String>) -> (r: Result<
        Args,
        ParseError,
    >)
        ensures
            contents is None ==> r is Err && r->Err_0.err_type == ParseErrType::InvalidArg,
            contents is Some ==> match bulk_lines(
                lines_spec(contents->Some_0@),
                lines_spec(contents->Some_0@).len() as int,
                views(config@),
                views(instances@),
            ) {
                Some(ms) => r is Ok && r->Ok_0.bulk_array is Some && r->Ok_0.bulk_array->Some_0@.len() == ms.len()
                    && forall|i: int| 0 <= i < ms.len() ==> model_of(#[trigger] r->Ok_0.bulk_array->Some_0@[i]) == ms[i],
                None => r is Err && r->Err_0.err_type == ParseErrType::BulkParseError,
            },
    {
        let text = match contents {
            Some(t) => t,
            None => {
                let m1 = match &self.bulk_file {
                    Some(f) => join("The file \"", f.as_str()),
                    None => "The file \"".to_string(),
                };
                let msg = join(m1.as_str(), "\" either doesnt exist, or doesn't have proper permissions");
                return Err(ParseError::throw_invalid(msg.as_str()));
            },
        };
        let ghost cf = views(config@);
        let ghost inst = views(instances@);
        let ls = lines(text);
        let ghost sls = lines_spec(text@);
        let mut arr: Vec<Args> = Vec::new();
        let mut i: usize = 0;
        while i < ls.len()
            invariant
                i <= ls@.len(),
                contents == Some(text),
                ls@.len() == sls.len(),
                sls == lines_spec(text@),
                forall|j: int| 0 <= j < ls@.len() ==> #[trigger] ls@[j]@ == sls[j],
                cf == views(config@),
                inst == views(instances@),
                bulk_lines(sls, i as int, cf, inst) is Some,
                arr@.len() == bulk_lines(sls, i as int, cf, inst)->Some_0.len(),
                forall|j: int|
                    0 <= j < arr@.len() ==> model_of(#[trigger] arr@[j]) == bulk_lines(sls, i as int, cf, inst)->Some_0[j],
            decreases ls@.len() - i,
        {
            let words = split_spaces(&ls[i]);
            let ghost parts = space_parts(sls[i as int]);
            let mut raw: Vec<String> = Vec::new();
            raw.push("tcb".to_string());
            raw.push("get".to_string());
            let mut k: usize = 0;
            while k < words.len()
                invariant
                    k <= words@.len(),
                    words@.len() == parts.len(),
                    forall|j: int| 0 <= j < words@.len() ==> #[trigger] words@[j]@ == parts[j],
                    views(raw@) == seq!["tcb"@, "get"@] + Seq::new(k as nat, |j: int| norm(parts[j])),
                decreases words@.len() - k,
            {
                let w = norm_word(&words[k]);
                let ghost old_raw = raw@;
                raw.push(w);
                proof {
                    assert(views(raw@) =~= views(old_raw).push(norm(parts[k as int])));
                }
                k = k + 1;
                proof {
                    assert(views(raw@) =~= seq!["tcb"@, "get"@] + Seq::new(k as nat, |j: int| norm(parts[j])));
                }
            }
            proof {
                assert(views(raw@) =~= line_words(sls[i as int]));
            }
            let mut one = Args::from_raw(raw);
            one.parsed = true;
            proof {
                assert(model_of(one) == default_model());
            }
            match one.parse_get(config, instances) {
                Ok(parsed) => {
                    let ghost old_arr = arr@;
                    arr.push(parsed);
                    proof {
                        assert(arr@ =~= old_arr.push(parsed));
                    }
                },
                Err(e) => {
                    proof {
                        assert(bulk_lines(sls, i + 1, cf, inst) is None);
                        lemma_bulk_none(sls, i + 1, sls.len() as int, cf, inst);
                    }
                    let line_no = if i < usize::MAX { i + 1 } else { i };
                    let digits = string_of(&decimal_chars(line_no as u64));
                    let m1 = join("On line ", digits.as_str());
                    let m2 = join(m1.as_str(), " | ");
                    let msg = join(m2.as_str(), e.print().as_str());
                    return Err(ParseError::throw_bulkerr(msg.as_str()));
                },
            }
            i = i + 1;
        }
        let mut a = self;
        a.bulk_array = Some(arr);
        Ok(a)
    }
}

/// What reading a command line with method word `w` gives, the word after
/// it being `sub` (if `has_sub`); the words are tried in this order.
pub open spec fn method_outcome(w: Seq<char>, has_sub: bool, sub: Seq<char>, r: Result<Args, ParseError>) -> bool {
    if is_help_word(w) {
        r is Ok && r->Ok_0.method == Some(Method::Help) && r->Ok_0.help_flag == Some(
            if has_sub {
                help_topic_spec(sub)
            } else {
                Help::Help
            },
        )
    } else if is_get_word(w) {
        r is Ok ==> r->Ok_0.method == Some(Method::Get) && (r->Ok_0.c_url is Some || r->Ok_0.read_stdin)
    } else if is_bulk_word(w) {
        r is Ok ==> r->Ok_0.method == Some(Method::Bulk)
    } else if is_list_word(w) {
        r is Ok && r->Ok_0.method == Some(Method::List)
    } else if is_version_word(w) {
        r is Ok && r->Ok_0.method == Some(Method::Version)
    } else if is_cobalt_version_word(w) {
        r is Ok && r->Ok_0.method is Some && r->Ok_0.method->Some_0 is CobaltVersion
    } else if is_gen_config_word(w) {
        r is Ok && r->Ok_0.method == Some(Method::GenConfig)
    } else {
        r is Err && r->Err_0.err_type == ParseErrType::InvalidArg
    }
}

/// The URL words of `raw` from index `i` on, the last first.
pub open spec fn rev_urls(raw: Seq<Seq<char>>, i: int) -> Seq<Seq<char>>
    decreases raw.len() - i,
{
    if i < 0 || i >= raw.len() {
        Seq::empty()
    } else if contains_spec(raw[i], "https://"@) {
        rev_urls(raw, i + 1).push(raw[i])
    } else {
        rev_urls(raw, i + 1)
    }
}

/// The words among the first `n` of `raw` that hold no URL.
pub open spec fn plain_words(raw: Seq<Seq<char>>, n: int) -> Seq<Seq<char>>
    decreases n,
{
    if n <= 0 {
        Seq::empty()
    } else if contains_spec(raw[n - 1], "https://"@) {
        plain_words(raw, n - 1)
    } else {
        plain_words(raw, n - 1).push(raw[n - 1])
    }
}

pub open spec fn drop3(s: Seq<Seq<char>>) -> Seq<Seq<char>> {
    if s.len() <= 3 {
        Seq::empty()
    } else {
        s.subrange(3, s.len() as int)
    }
}

/// The `get` command that carries the flags of a `bulk get` command: its
/// words other than URLs, after the first three.
pub open spec fn template_words(raw: Seq<Seq<char>>) -> Seq<Seq<char>> {
    seq!["tcb"@, "get"@, "https://"@] + drop3(plain_words(raw, raw.len() as int))
}

/// What reading a `bulk` command with words `raw` gives (`same` telling
/// whether downloads were already to be numbered).
pub open spec fn bulk_outcome(
    raw: Seq<Seq<char>>,
    config: Seq<Seq<char>>,
    inst: Seq<Seq<char>>,
    same: bool,
    r: Result<Args, ParseError>,
) -> bool {
    if raw.len() < 3 {
        r is Err && r->Err_0.err_type == ParseErrType::Incomplete
    } else if is_get_word(raw[2]) {
        let urls = rev_urls(raw, 0);
        if urls.len() == 0 {
            r is Err && r->Err_0.err_type == ParseErrType::Incomplete
        } else {
            match get_result(default_model(), get_words(template_words(raw), config), inst) {
                Ok(m) => r is Ok && r->Ok_0.method == Some(Method::Bulk) && r->Ok_0.bulk_array is Some
                    && r->Ok_0.bulk_array->Some_0@.len() == urls.len() && (forall|i: int|
                    0 <= i < urls.len() ==> model_of(#[trigger] r->Ok_0.bulk_array->Some_0@[i]) == (GetModel {
                        url: Some(urls[i]),
                        ..m
                    })) && r->Ok_0.same_filenames == (same || m.out is Some),
                Err(_) => r is Err && r->Err_0.err_type == ParseErrType::BulkParseError,
            }
        }
    } else if raw[2] == "execute"@ || raw[2] == "exe"@ || raw[2] == "e"@ {
        if raw.len() > 3 {
            r is Ok && r->Ok_0.method == Some(Method::Bulk) && opt_view(r->Ok_0.bulk_file) == Some(raw[3])
        } else {
            r is Err && r->Err_0.err_type == ParseErrType::Incomplete
        }
    } else {
        r is Err && r->Err_0.err_type == ParseErrType::InvalidArg
    }
}

/// The parts of `s` between its spaces: those finished, and the one being
/// read.
pub open spec fn space_fold(s: Seq<char>) -> (Seq<Seq<char>>, Seq<char>)
    decreases s.len(),
{
    if s.len() == 0 {
        (Seq::empty(), Seq::empty())
    } else {
        let (done, cur) = space_fold(s.drop_last());
        if s.last() == ' ' {
            (done.push(cur), Seq::empty())
        } else {
            (done, cur.push(s.last()))
        }
    }
}

/// The parts of a line between its spaces, as `str::split(" ")` gives them.
pub open spec fn space_parts(s: Seq<char>) -> Seq<Seq<char>> {
    space_fold(s).0.push(space_fold(s).1)
}

/// The command line that a line of a bulk file stands for.
pub open spec fn line_words(line: Seq<char>) -> Seq<Seq<char>> {
    seq!["tcb"@, "get"@] + Seq::new(space_parts(line).len(), |i: int| norm(space_parts(line)[i]))
}

/// The options of a command line before any word is read.
pub open spec fn default_model() -> GetModel {
    GetModel {
        url: None,
        codec: VideoCodec::H264,
        quality: 1080,
        format: AudioFormat::MP3,
        bitrate: 128,
        mode: DownloadMode::Auto,
        gif: false,
        full_audio: false,
        h265: false,
        no_meta: false,
        lang: "en"@,
        out: None,
        style: FilenamePattern::Classic,
        pick: 0,
        instance: "api.cobalt.tools"@,
        proxy: false,
        stdin: false,
    }
}

/// The options of the `get` commands on the first `n` lines, or none if one
/// of them is not accepted.
pub open spec fn bulk_lines(ls: Seq<Seq<char>>, n: int, config: Seq<Seq<char>>, inst: Seq<Seq<char>>) -> Option<
    Seq<GetModel>,
>
    decreases n,
{
    if n <= 0 {
        Some(Seq::empty())
    } else {
        match bulk_lines(ls, n - 1, config, inst) {
            None => None,
            Some(ms) => match get_result(default_model(), get_words(line_words(ls[n - 1]), config), inst) {
                Ok(m) => Some(ms.push(m)),
                Err(_) => None,
            },
        }
    }
}

proof fn lemma_bulk_none(ls: Seq<Seq<char>>, i: int, n: int, config: Seq<Seq<char>>, inst: Seq<Seq<char>>)
    requires
        0 <= i <= n,
        bulk_lines(ls, i, config, inst) is None,
    ensures
        bulk_lines(ls, n, config, inst) is None,
    decreases n - i,
{
    if i < n {
        lemma_bulk_none(ls, i + 1, n, config, inst);
    }
}

fn split_spaces(line: &Vec<char>) -> (r: Vec<Vec<char>>)
    ensures
        r@.len() == space_parts(line@).len(),
        forall|i: int| 0 <= i < r@.len() ==> #[trigger] r@[i]@ == space_parts(line@)[i],
{
    let mut out: Vec<Vec<char>> = Vec::new();
    let mut cur: Vec<char> = Vec::new();
    let mut i: usize = 0;
    while i < line.len()
        invariant
            i <= line@.len(),
            out@.len() == space_fold(line@.take(i as int)).0.len(),
            forall|j: int| 0 <= j < out@.len() ==> #[trigger] out@[j]@ == space_fold(line@.take(i as int)).0[j],
            cur@ == space_fold(line@.take(i as int)).1,
        decreases line@.len() - i,
    {
        proof {
            assert(line@.take(i + 1).drop_last() =~= line@.take(i as int));
        }
        if line[i] == ' ' {
            out.push(cur);
            cur = Vec::new();
        } else {
            cur.push(line[i]);
        }
        i = i + 1;
    }
    proof {
        assert(line@.take(i as int) =~= line@);
    }
    out.push(cur);
    out
}

/// A word as the command line reads it: lower case, unless it holds a URL.
fn norm_word(w: &Vec<char>) -> (r: String)
    ensures
        r@ == norm(w@),
{
    let s = string_of(w);
    if has_part(w, "https://") {
        s
    } else {
        lowercase(s.as_str())
    }
}

} // verus!
