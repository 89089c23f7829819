//! Reading the words of a `get` command, one at a time.
//!
//! Options that take a value (`--vcodec av1`, or `c` in `-cq av1 720`) are
//! queued; each following word is the value of the first queued option.

use vstd::prelude::*;
use crate::args::{
    Args, ExpectedFlag, bitrate_of, bitrate_spec, codec_of, codec_spec, format_of, format_spec,
    is_media_name, join, media_name, parse_u8, pattern_of, pattern_spec, quality_of, quality_spec, u8_spec,
};
use crate::args::types::{AudioFormat, DownloadMode, FilenamePattern, ParseErrType, ParseError, VideoCodec};
use crate::text::{
    before_first, before_first_chars, chars_of, contains_spec, has_part, is_word, remove_all, remove_all_chars,
    string_of,
};

verus! {

broadcast use vstd::string::group_string_axioms;

/// The options that a `get` command sets.
pub struct GetModel {
    pub url: Option<Seq<char>>,
    pub codec: VideoCodec,
    pub quality: u16,
    pub format: AudioFormat,
    pub bitrate: u16,
    pub mode: DownloadMode,
    pub gif: bool,
    pub full_audio: bool,
    pub h265: bool,
    pub no_meta: bool,
    pub lang: Seq<char>,
    pub out: Option<Seq<char>>,
    pub style: FilenamePattern,
    pub pick: u8,
    pub instance: Seq<char>,
    pub proxy: bool,
    pub stdin: bool,
}

pub open spec fn opt_view(o: Option<String>) -> Option<Seq<char>> {
    match o {
        Some(s) => Some(s@),
        None => None,
    }
}

pub open spec fn model_of(a: Args) -> GetModel {
    GetModel {
        url: opt_view(a.c_url),
        codec: a.c_video_codec,
        quality: a.c_video_quality,
        format: a.c_audio_format,
        bitrate: a.c_audio_bitrate,
        mode: a.c_download_mode,
        gif: a.c_twitter_gif,
        full_audio: a.c_tt_full_audio,
        h265: a.c_tt_h265,
        no_meta: a.c_disable_metadata,
        lang: a.accept_language@,
        out: opt_view(a.out_filename),
        style: a.c_fname_style,
        pick: a.picker_choice,
        instance: a.cobalt_instance@,
        proxy: a.c_proxy,
        stdin: a.read_stdin,
    }
}

/// The options, and the queue of options waiting for their values.
pub type Reading = (GetModel, Seq<ExpectedFlag>);

/// What an option without a value does, or that it queues an option that
/// waits for its value.
#[derive(Clone, Copy, Debug, PartialEq, Eq, Structural)]
pub enum Action {
    Expect(ExpectedFlag),
    Mode(DownloadMode),
    Gif,
    FullAudio,
    H265,
    NoMetadata,
    Proxy,
}

pub open spec fn apply(m: GetModel, ex: Seq<ExpectedFlag>, act: Action) -> Reading {
    match act {
        Action::Expect(f) => (m, ex.push(f)),
        Action::Mode(d) => (GetModel { mode: d, ..m }, ex),
        Action::Gif => (GetModel { gif: !m.gif, ..m }, ex),
        Action::FullAudio => (GetModel { full_audio: !m.full_audio, ..m }, ex),
        Action::H265 => (GetModel { h265: !m.h265, ..m }, ex),
        Action::NoMetadata => (GetModel { no_meta: !m.no_meta, ..m }, ex),
        Action::Proxy => (GetModel { proxy: !m.proxy, ..m }, ex),
    }
}

/// The long option (`--...`) that a word is, if any.
pub open spec fn long_action(w: Seq<char>) -> Option<Action> {
    if w == "--vcodec"@ {
        Some(Action::Expect(ExpectedFlag::VideoCodec))
    } else if w == "--vquality"@ {
        Some(Action::Expect(ExpectedFlag::VideoQuality))
    } else if w == "--aformat"@ {
        Some(Action::Expect(ExpectedFlag::AudioFormat))
    } else if w == "--audio-only"@ {
        Some(Action::Mode(DownloadMode::Audio))
    } else if w == "--mute-audio"@ {
        Some(Action::Mode(DownloadMode::Mute))
    } else if w == "--auto"@ {
        Some(Action::Mode(DownloadMode::Auto))
    } else if w == "--twitter-gif"@ {
        Some(Action::Gif)
    } else if w == "--tt-full-audio"@ {
        Some(Action::FullAudio)
    } else if w == "--tt-h265"@ {
        Some(Action::H265)
    } else if w == "--dublang"@ {
        Some(Action::Expect(ExpectedFlag::Language))
    } else if w == "--no-metadata"@ {
        Some(Action::NoMetadata)
    } else if w == "--output"@ {
        Some(Action::Expect(ExpectedFlag::Output))
    } else if w == "--fname-style"@ {
        Some(Action::Expect(ExpectedFlag::FilenamePattern))
    } else if w == "--pick"@ {
        Some(Action::Expect(ExpectedFlag::Picker))
    } else if w == "--instance"@ {
        Some(Action::Expect(ExpectedFlag::Instance))
    } else if w == "--bitrate"@ {
        Some(Action::Expect(ExpectedFlag::Bitrate))
    } else if w == "--proxy"@ {
        Some(Action::Proxy)
    } else {
        None
    }
}

/// The short option that a character stands for, if any.
pub open spec fn short_action(c: char) -> Option<Action> {
    if c == 'c' {
        Some(Action::Expect(ExpectedFlag::VideoCodec))
    } else if c == 'q' {
        Some(Action::Expect(ExpectedFlag::VideoQuality))
    } else if c == 'f' {
        Some(Action::Expect(ExpectedFlag::AudioFormat))
    } else if c == 'a' {
        Some(Action::Mode(DownloadMode::Audio))
    } else if c == 'm' {
        Some(Action::Mode(DownloadMode::Mute))
    } else if c == 'g' {
        Some(Action::Gif)
    } else if c == 'u' {
        Some(Action::FullAudio)
    } else if c == 'h' {
        Some(Action::H265)
    } else if c == 'l' {
        Some(Action::Expect(ExpectedFlag::Language))
    } else if c == 'n' {
        Some(Action::NoMetadata)
    } else if c == 'o' {
        Some(Action::Expect(ExpectedFlag::Output))
    } else if c == 's' {
        Some(Action::Expect(ExpectedFlag::FilenamePattern))
    } else if c == 'p' {
        Some(Action::Expect(ExpectedFlag::Picker))
    } else if c == 'i' {
        Some(Action::Expect(ExpectedFlag::Instance))
    } else if c == 'x' {
        Some(Action::Proxy)
    } else if c == '=' {
        Some(Action::Mode(DownloadMode::Auto))
    } else if c == 'b' {
        Some(Action::Expect(ExpectedFlag::Bitrate))
    } else {
        None
    }
}

/// One character of a word of short options such as `-cqm`; a leading `-`
/// opens them, a leading `+` asks for the URL on standard input.
pub open spec fn short_char(m: GetModel, ex: Seq<ExpectedFlag>, short: bool, c: char) -> Result<
    (GetModel, Seq<ExpectedFlag>, bool),
    ParseErrType,
> {
    if !short {
        if c == '-' {
            Ok((m, ex, true))
        } else if c == '+' {
            Ok((GetModel { stdin: true, ..m }, ex, false))
        } else {
            Err(ParseErrType::InvalidArg)
        }
    } else {
        match short_action(c) {
            Some(act) => Ok((apply(m, ex, act).0, apply(m, ex, act).1, true)),
            None => Err(ParseErrType::InvalidArg),
        }
    }
}

/// The characters of `w` from index `j` on, read as short options.
pub open spec fn short_run(m: GetModel, ex: Seq<ExpectedFlag>, short: bool, w: Seq<char>, j: int) -> Result<
    Reading,
    ParseErrType,
>
    decreases w.len() - j,
{
    if j < 0 || j >= w.len() {
        Ok((m, ex))
    } else {
        match short_char(m, ex, short, w[j]) {
            Ok((m2, ex2, s2)) => short_run(m2, ex2, s2, w, j + 1),
            Err(k) => Err(k),
        }
    }
}

/// The host that an `--instance` value names: a host, a URL, or the number of
/// an entry of `inst` (from 1).
pub open spec fn instance_value(w: Seq<char>, inst: Seq<Seq<char>>) -> Result<Seq<char>, ParseErrType> {
    let chosen = match u8_spec(w) {
        Some(n) => if 1 <= n && n - 1 < inst.len() {
            Ok(inst[n - 1])
        } else {
            Err(ParseErrType::InvalidArg)
        },
        None => Ok(w),
    };
    match chosen {
        Ok(c) => Ok(before_first(remove_all(c, "https://"@), '/')),
        Err(k) => Err(k),
    }
}

/// The word `w` as the value of the option `f`.
pub open spec fn value_step(m: GetModel, f: ExpectedFlag, w: Seq<char>, inst: Seq<Seq<char>>) -> Result<
    GetModel,
    ParseErrType,
> {
    match f {
        ExpectedFlag::VideoCodec => match codec_spec(w) {
            Some(v) => Ok(GetModel { codec: v, ..m }),
            None => Err(ParseErrType::InvalidArg),
        },
        ExpectedFlag::VideoQuality => match quality_spec(w) {
            Some(v) => Ok(GetModel { quality: v, ..m }),
            None => Err(ParseErrType::InvalidArg),
        },
        ExpectedFlag::AudioFormat => match format_spec(w) {
            Some(v) => Ok(GetModel { format: v, ..m }),
            None => Err(ParseErrType::InvalidArg),
        },
        ExpectedFlag::Output => if media_name(w) {
            Ok(GetModel { out: Some(w), ..m })
        } else {
            Err(ParseErrType::InvalidArg)
        },
        ExpectedFlag::FilenamePattern => match pattern_spec(w) {
            Some(v) => Ok(GetModel { style: v, ..m }),
            None => Err(ParseErrType::InvalidArg),
        },
        ExpectedFlag::Picker => match u8_spec(w) {
            Some(v) => Ok(GetModel { pick: v, ..m }),
            None => Err(ParseErrType::InvalidArg),
        },
        ExpectedFlag::Language => Ok(GetModel { lang: w, ..m }),
        ExpectedFlag::Instance => match instance_value(w, inst) {
            Ok(h) => Ok(GetModel { instance: h, ..m }),
            Err(k) => Err(k),
        },
        ExpectedFlag::Bitrate => match bitrate_spec(w) {
            Some(v) => Ok(GetModel { bitrate: v, ..m }),
            None => Err(ParseErrType::InvalidArg),
        },
    }
}

/// One word of a `get` command.
pub open spec fn word_step(m: GetModel, ex: Seq<ExpectedFlag>, w: Seq<char>, inst: Seq<Seq<char>>) -> Result<
    Reading,
    ParseErrType,
> {
    if ex.len() == 0 {
        match long_action(w) {
            Some(act) => Ok(apply(m, ex, act)),
            None => if contains_spec(w, "https://"@) {
                if m.url is None {
                    Ok((GetModel { url: Some(w), ..m }, ex))
                } else {
                    Err(ParseErrType::InvalidArg)
                }
            } else {
                short_run(m, ex, false, w, 0)
            },
        }
    } else {
        match value_step(m, ex[0], w, inst) {
            Ok(m2) => Ok((m2, ex.drop_first())),
            Err(k) => Err(k),
        }
    }
}

/// The words from index `i` on.
pub open spec fn run_words(m: GetModel, ex: Seq<ExpectedFlag>, words: Seq<Seq<char>>, i: int, inst: Seq<Seq<char>>) -> Result<
    Reading,
    ParseErrType,
>
    decreases words.len() - i,
{
    if i < 0 || i >= words.len() {
        Ok((m, ex))
    } else {
        match word_step(m, ex, words[i], inst) {
            Ok((m2, ex2)) => run_words(m2, ex2, words, i + 1, inst),
            Err(k) => Err(k),
        }
    }
}

/// After the last word: a URL is owed (on the command line or, with `+`, on
/// standard input, not both), and no option may still wait for its value.
pub open spec fn finish_get(m: GetModel, ex: Seq<ExpectedFlag>) -> Result<GetModel, ParseErrType> {
    if m.stdin && m.url is Some {
        Err(ParseErrType::InvalidArg)
    } else if m.url is None && !m.stdin {
        Err(ParseErrType::Incomplete)
    } else if ex.len() > 0 {
        Err(ParseErrType::Incomplete)
    } else {
        Ok(m)
    }
}

/// What the words of a `get` command (from the third on) make of the
/// options `m`.
pub open spec fn get_result(m: GetModel, words: Seq<Seq<char>>, inst: Seq<Seq<char>>) -> Result<GetModel, ParseErrType> {
    match run_words(m, Seq::empty(), words, 2, inst) {
        Ok((m2, ex)) => finish_get(m2, ex),
        Err(k) => Err(k),
    }
}

pub open spec fn views(v: Seq<String>) -> Seq<Seq<char>> {
    Seq::new(v.len(), |i: int| v[i]@)
}

/// The words of a `get` command with the configured words put after the
/// method word.
pub open spec fn get_words(raw: Seq<Seq<char>>, config: Seq<Seq<char>>) -> Seq<Seq<char>> {
    raw.take(2) + config + raw.skip(2)
}

/// The fields that reading a word leaves as they are.
pub open spec fn same_frame(a: Args, b: Args) -> bool {
    &&& a.raw == b.raw
    &&& a.parsed == b.parsed
    &&& a.method == b.method
    &&& a.bulk_array == b.bulk_array
    &&& a.same_filenames == b.same_filenames
    &&& a.help_flag == b.help_flag
    &&& a.bulk_file == b.bulk_file
}

fn apply_action(a: &mut Args, ex: &mut Vec<ExpectedFlag>, act: Action)
    ensures
        same_frame(*old(a), *final(a)),
        (model_of(*final(a)), final(ex)@) == apply(model_of(*old(a)), old(ex)@, act),
{
    match act {
        Action::Expect(f) => ex.push(f),
        Action::Mode(d) => a.c_download_mode = d,
        Action::Gif => a.c_twitter_gif = !a.c_twitter_gif,
        Action::FullAudio => a.c_tt_full_audio = !a.c_tt_full_audio,
        Action::H265 => a.c_tt_h265 = !a.c_tt_h265,
        Action::NoMetadata => a.c_disable_metadata = !a.c_disable_metadata,
        Action::Proxy => a.c_proxy = !a.c_proxy,
    }
}

fn long_action_of(t: &Vec<char>) -> (r: Option<Action>)
    ensures
        r == long_action(t@),
{
    if is_word(t, "--vcodec") {
        Some(Action::Expect(ExpectedFlag::VideoCodec))
    } else if is_word(t, "--vquality") {
        Some(Action::Expect(ExpectedFlag::VideoQuality))
    } else if is_word(t, "--aformat") {
        Some(Action::Expect(ExpectedFlag::AudioFormat))
    } else if is_word(t, "--audio-only") {
        Some(Action::Mode(DownloadMode::Audio))
    } else if is_word(t, "--mute-audio") {
        Some(Action::Mode(DownloadMode::Mute))
    } else if is_word(t, "--auto") {
        Some(Action::Mode(DownloadMode::Auto))
    } else if is_word(t, "--twitter-gif") {
        Some(Action::Gif)
    } else if is_word(t, "--tt-full-audio") {
        Some(Action::FullAudio)
    } else if is_word(t, "--tt-h265") {
        Some(Action::H265)
    } else if is_word(t, "--dublang") {
        Some(Action::Expect(ExpectedFlag::Language))
    } else if is_word(t, "--no-metadata") {
        Some(Action::NoMetadata)
    } else if is_word(t, "--output") {
        Some(Action::Expect(ExpectedFlag::Output))
    } else if is_word(t, "--fname-style") {
        Some(Action::Expect(ExpectedFlag::FilenamePattern))
    } else if is_word(t, "--pick") {
        Some(Action::Expect(ExpectedFlag::Picker))
    } else if is_word(t, "--instance") {
        Some(Action::Expect(ExpectedFlag::Instance))
    } else if is_word(t, "--bitrate") {
        Some(Action::Expect(ExpectedFlag::Bitrate))
    } else if is_word(t, "--proxy") {
        Some(Action::Proxy)
    } else {
        None
    }
}

fn short_action_of(c: char) -> (r: Option<Action>)
    ensures
        r == short_action(c),
{
    if c == 'c' {
        Some(Action::Expect(ExpectedFlag::VideoCodec))
    } else if c == 'q' {
        Some(Action::Expect(ExpectedFlag::VideoQuality))
    } else if c == 'f' {
        Some(Action::Expect(ExpectedFlag::AudioFormat))
    } else if c == 'a' {
        Some(Action::Mode(DownloadMode::Audio))
    } else if c == 'm' {
        Some(Action::Mode(DownloadMode::Mute))
    } else if c == 'g' {
        Some(Action::Gif)
    } else if c == 'u' {
        Some(Action::FullAudio)
    } else if c == 'h' {
        Some(Action::H265)
    } else if c == 'l' {
        Some(Action::Expect(ExpectedFlag::Language))
    } else if c == 'n' {
        Some(Action::NoMetadata)
    } else if c == 'o' {
        Some(Action::Expect(ExpectedFlag::Output))
    } else if c == 's' {
        Some(Action::Expect(ExpectedFlag::FilenamePattern))
    } else if c == 'p' {
        Some(Action::Expect(ExpectedFlag::Picker))
    } else if c == 'i' {
        Some(Action::Expect(ExpectedFlag::Instance))
    } else if c == 'x' {
        Some(Action::Proxy)
    } else if c == '=' {
        Some(Action::Mode(DownloadMode::Auto))
    } else if c == 'b' {
        Some(Action::Expect(ExpectedFlag::Bitrate))
    } else {
        None
    }
}

/// Applies one character of a word of short options.
fn read_short_char(a: &mut Args, ex: &mut Vec<ExpectedFlag>, short: &mut bool, c: char) -> (r: bool)
    ensures
        same_frame(*old(a), *final(a)),
        match short_char(model_of(*old(a)), old(ex)@, *old(short), c) {
            Ok((m, e, s)) => r && model_of(*final(a)) == m && final(ex)@ == e && *final(short) == s,
            Err(_) => !r,
        },
{
    if !*short {
        if c == '-' {
            *short = true;
            true
        } else if c == '+' {
            a.read_stdin = true;
            true
        } else {
            false
        }
    } else {
        match short_action_of(c) {
            Some(act) => {
                apply_action(a, ex, act);
                true
            },
            None => false,
        }
    }
}

/// Reads a word of short options.
fn read_short_word(a: &mut Args, ex: &mut Vec<ExpectedFlag>, t: &Vec<char>, arg: &String) -> (r: Result<(), ParseError>)
    ensures
        same_frame(*old(a), *final(a)),
        match short_run(model_of(*old(a)), old(ex)@, false, t@, 0) {
            Ok((m, e)) => r is Ok && model_of(*final(a)) == m && final(ex)@ == e,
            Err(k) => r is Err && r->Err_0.err_type == k,
        },
{
    let mut short = false;
    let mut j: usize = 0;
    while j < t.len()
        invariant
            j <= t@.len(),
            same_frame(*old(a), *a),
            short_run(model_of(*old(a)), old(ex)@, false, t@, 0) == short_run(model_of(*a), ex@, short, t@, j as int),
        decreases t@.len() - j,
    {
        let c = t[j];
        if !read_short_char(a, ex, &mut short, c) {
            let (first, extra) = if short {
                ("Invalid character ", true)
            } else {
                ("Unrecognized argument: ", false)
            };
            let msg = if extra {
                let mut cs: Vec<char> = Vec::new();
                cs.push(c);
                let m1 = join(first, string_of(&cs).as_str());
                let m2 = join(m1.as_str(), " in multi-flag argument: ");
                join(m2.as_str(), arg.as_str())
            } else {
                join(first, arg.as_str())
            };
            return Err(ParseError::throw_invalid(msg.as_str()));
        }
        j = j + 1;
    }
    Ok(())
}

/// The host that an `--instance` value names.
fn instance_of(t: Vec<char>, instances: &Vec<String>) -> (r: Result<String, ParseError>)
    ensures
        match instance_value(t@, Seq::new(instances@.len(), |i: int| instances@[i]@)) {
            Ok(h) => r is Ok && r->Ok_0@ == h,
            Err(k) => r is Err && r->Err_0.err_type == k,
        },
{
    let chosen = match parse_u8(&t) {
        Some(n) => {
            if n >= 1 && ((n - 1) as usize) < instances.len() {
                chars_of(instances[(n - 1) as usize].as_str())
            } else {
                return Err(ParseError::throw_invalid("Invalid instance quick-choice"));
            }
        },
        None => t,
    };
    let scheme = chars_of("https://");
    let bare = remove_all_chars(&chosen, &scheme);
    let host = before_first_chars(&bare, '/');
    Ok(string_of(&host))
}

/// Reads `t` (the characters of `arg`) as the value of the option `f`.
#[verifier::rlimit(40)]
fn read_value(a: &mut Args, f: ExpectedFlag, t: Vec<char>, arg: String, instances: &Vec<String>) -> (r: Result<(), ParseError>)
    ensures
        same_frame(*old(a), *final(a)),
        match value_step(model_of(*old(a)), f, t@, Seq::new(instances@.len(), |i: int| instances@[i]@)) {
            Ok(m) => r is Ok && model_of(*final(a)) == m,
            Err(k) => r is Err && r->Err_0.err_type == k,
        },
{
    match f {
        ExpectedFlag::VideoCodec => match codec_of(&t) {
            Some(v) => {
                a.c_video_codec = v;
                Ok(())
            },
            None => Err(ParseError::throw_invalid(join("Invalid video codec: ", arg.as_str()).as_str())),
        },
        ExpectedFlag::VideoQuality => match quality_of(&t) {
            Some(v) => {
                a.c_video_quality = v;
                Ok(())
            },
            None => Err(ParseError::throw_invalid(join("Invalid video quality: ", arg.as_str()).as_str())),
        },
        ExpectedFlag::AudioFormat => match format_of(&t) {
            Some(v) => {
                a.c_audio_format = v;
                Ok(())
            },
            None => Err(ParseError::throw_invalid(join("Invalid audio format: ", arg.as_str()).as_str())),
        },
        ExpectedFlag::Output => {
            if is_media_name(&t) {
                a.out_filename = Some(string_of(&t));
                Ok(())
            } else {
                Err(
                    ParseError::throw_invalid(
                        "Output filename must be a video file type (supported: mp4/webm/gif), or an audio file type (supported: mp3/ogg/wav/opus)\nMake sure you choose the right file type for the chosen codec/format!",
                    ),
                )
            }
        },
        ExpectedFlag::FilenamePattern => match pattern_of(&t) {
            Some(v) => {
                a.c_fname_style = v;
                Ok(())
            },
            None => Err(ParseError::throw_invalid(join("Invalid filename style: ", arg.as_str()).as_str())),
        },
        ExpectedFlag::Picker => match parse_u8(&t) {
            Some(v) => {
                a.picker_choice = v;
                Ok(())
            },
            None => Err(ParseError::throw_invalid("Picker choice must be an integer between 0 and 255")),
        },
        ExpectedFlag::Language => {
            a.accept_language = string_of(&t);
            Ok(())
        },
        ExpectedFlag::Instance => match instance_of(t, instances) {
            Ok(host) => {
                a.cobalt_instance = host;
                Ok(())
            },
            Err(e) => Err(e),
        },
        ExpectedFlag::Bitrate => match bitrate_of(&t) {
            Some(v) => {
                a.c_audio_bitrate = v;
                Ok(())
            },
            None => Err(ParseError::throw_invalid("Make sure you select a valid bitrate! (320/256/128/96/64/8)")),
        },
    }
}

/// Reads one word of a `get` command.
pub(crate) fn read_word(a: &mut Args, ex: &mut Vec<ExpectedFlag>, arg: String, instances: &Vec<String>) -> (r: Result<
    (),
    ParseError,
>)
    ensures
        same_frame(*old(a), *final(a)),
        match word_step(model_of(*old(a)), old(ex)@, arg@, Seq::new(instances@.len(), |i: int| instances@[i]@)) {
            Ok((m, e)) => r is Ok && model_of(*final(a)) == m && final(ex)@ == e,
            Err(k) => r is Err && r->Err_0.err_type == k,
        },
{
    let t = chars_of(arg.as_str());
    if ex.len() == 0 {
        if let Some(act) = long_action_of(&t) {
            apply_action(a, ex, act);
            return Ok(());
        }
        let is_url = has_part(&t, "https://");
        if is_url {
            if a.c_url.is_none() {
                a.c_url = Some(arg);
                Ok(())
            } else {
                Err(ParseError::throw_invalid("You cannot have 2 URLs in the same GET command"))
            }
        } else {
            read_short_word(a, ex, &t, &arg)
        }
    } else {
        let f = ex.remove(0);
        proof {
            assert(ex@ =~= old(ex)@.drop_first());
        }
        read_value(a, f, t, arg, instances)
    }
}

} // verus!
