//! Talking to the service: the request body for a download, the URL to
//! fetch from its answer, and the message for an answer that is not JSON.

use vstd::prelude::*;
use crate::args::Args;
use crate::args::join;
use crate::args::types::{codec_name, format_name, mode_name, pattern_name};
use crate::json::{JValue, JsonObject, JsonValue, obj_get};
use crate::render::{decimal, decimal_chars};
use crate::text::{chars_of, is_word, string_of};

verus! {

broadcast use vstd::string::group_string_axioms;

pub open spec fn bool_text(b: bool) -> Seq<char> {
    if b {
        "true"@
    } else {
        "false"@
    }
}

fn bool_str(b: bool) -> (r: &'static str)
    ensures
        r@ == bool_text(b),
{
    if b {
        "true"
    } else {
        "false"
    }
}

/// The JSON body of a download request for the options `a` (whose URL is
/// set). Values are written as they are, without escapes.
pub open spec fn post_body(a: Args) -> Seq<char> {
    "{\n    \"url\": \""@ + a.c_url->Some_0@ + "\",\n    \"youtubeVideoCodec\": \""@ + codec_name(a.c_video_codec)
        + "\",\n    \"videoQuality\": \""@ + decimal(a.c_video_quality as nat) + "\",\n    \"audioFormat\": \""@
        + format_name(a.c_audio_format) + "\",\n    \"audioBitrate\": \""@ + decimal(a.c_audio_bitrate as nat)
        + "\",\n    \"filenameStyle\": \""@ + pattern_name(a.c_fname_style) + "\",\n    \"downloadMode\": \""@
        + mode_name(a.c_download_mode) + "\",\n    \"tiktokFullAudio\": "@ + bool_text(a.c_tt_full_audio)
        + ",\n    \"tiktokH265\": "@ + bool_text(a.c_tt_h265) + ",\n    \"youtubeDubLang\": \""@
        + a.accept_language@ + "\",\n    \"disableMetadata\": "@ + bool_text(a.c_disable_metadata)
        + ",\n    \"twitterGif\": "@ + bool_text(a.c_twitter_gif) + ",\n    \"alwaysProxy\": "@ + bool_text(
        a.c_proxy,
    ) + "\n    }"@
}

/// The body of the download request for the options of a `get` command.
pub fn cobalt_args(args_in: &Args) -> (r: String)
    requires
        args_in.c_url is Some,
    ensures
        r@ == post_body(*args_in),
{
    let url = match &args_in.c_url {
        Some(u) => u.as_str(),
        None => "",
    };
    let quality = string_of(&decimal_chars(args_in.c_video_quality as u64));
    let bitrate = string_of(&decimal_chars(args_in.c_audio_bitrate as u64));
    let s = join("{\n    \"url\": \"", url);
    let s = join(s.as_str(), "\",\n    \"youtubeVideoCodec\": \"");
    let s = join(s.as_str(), args_in.c_video_codec.print().as_str());
    let s = join(s.as_str(), "\",\n    \"videoQuality\": \"");
    let s = join(s.as_str(), quality.as_str());
    let s = join(s.as_str(), "\",\n    \"audioFormat\": \"");
    let s = join(s.as_str(), args_in.c_audio_format.print().as_str());
    let s = join(s.as_str(), "\",\n    \"audioBitrate\": \"");
    let s = join(s.as_str(), bitrate.as_str());
    let s = join(s.as_str(), "\",\n    \"filenameStyle\": \"");
    let s = join(s.as_str(), args_in.c_fname_style.print().as_str());
    let s = join(s.as_str(), "\",\n    \"downloadMode\": \"");
    let s = join(s.as_str(), args_in.c_download_mode.print().as_str());
    let s = join(s.as_str(), "\",\n    \"tiktokFullAudio\": ");
    let s = join(s.as_str(), bool_str(args_in.c_tt_full_audio));
    let s = join(s.as_str(), ",\n    \"tiktokH265\": ");
    let s = join(s.as_str(), bool_str(args_in.c_tt_h265));
    let s = join(s.as_str(), ",\n    \"youtubeDubLang\": \"");
    let s = join(s.as_str(), args_in.accept_language.as_str());
    let s = join(s.as_str(), "\",\n    \"disableMetadata\": ");
    let s = join(s.as_str(), bool_str(args_in.c_disable_metadata));
    let s = join(s.as_str(), ",\n    \"twitterGif\": ");
    let s = join(s.as_str(), bool_str(args_in.c_twitter_gif));
    let s = join(s.as_str(), ",\n    \"alwaysProxy\": ");
    let s = join(s.as_str(), bool_str(args_in.c_proxy));
    join(s.as_str(), "\n    }")
}

/// The URL that one item of a picker offers: `Ok(Some(url))` for a video or
/// a gif, `Ok(None)` for another type, `Err(())` for an item of another
/// shape.
pub open spec fn item_url(v: JValue) -> Result<Option<Seq<char>>, ()> {
    match v {
        JValue::Object(es) => match obj_get(es, "type"@) {
            Some(JValue::Str(t)) => if t == "video"@ || t == "gif"@ {
                match obj_get(es, "url"@) {
                    Some(JValue::Str(u)) => Ok(Some(u)),
                    _ => Err(()),
                }
            } else {
                Ok(None)
            },
            _ => Err(()),
        },
        _ => Err(()),
    }
}

/// The URLs that the first `n` picker items offer, in order.
pub open spec fn collect_urls(items: Seq<JValue>, n: int) -> Option<Seq<Seq<char>>>
    decreases n,
{
    if n <= 0 {
        Some(Seq::empty())
    } else {
        match collect_urls(items, n - 1) {
            None => None,
            Some(acc) => match item_url(items[n - 1]) {
                Ok(Some(u)) => Some(acc.push(u)),
                Ok(None) => Some(acc),
                Err(()) => None,
            },
        }
    }
}

/// The URLs of the videos and gifs in an answer's `picker` array; none if
/// the answer has another shape.
pub open spec fn picker_spec(answer: Seq<(Seq<char>, JValue)>) -> Option<Seq<Seq<char>>> {
    match obj_get(answer, "picker"@) {
        Some(JValue::Array(items)) => collect_urls(items, items.len() as int),
        _ => None,
    }
}

fn item_url_of(v: &JsonValue) -> (r: Result<Option<String>, ()>)
    ensures
        match item_url(v@) {
            Ok(Some(u)) => r matches Ok(Some(x)) && x@ == u,
            Ok(None) => r == Ok::<Option<String>, ()>(None),
            Err(()) => r is Err,
        },
{
    match v {
        JsonValue::Object(o) => match o.get("type") {
            Some(JsonValue::Str(t)) => {
                let tc = chars_of(t.as_str());
                if is_word(&tc, "video") || is_word(&tc, "gif") {
                    match o.get("url") {
                        Some(JsonValue::Str(u)) => Ok(Some(u.clone())),
                        _ => Err(()),
                    }
                } else {
                    Ok(None)
                }
            },
            _ => Err(()),
        },
        _ => Err(()),
    }
}

proof fn lemma_collect_none(items: Seq<JValue>, i: int, n: int)
    requires
        0 <= i <= n,
        collect_urls(items, i) is None,
    ensures
        collect_urls(items, n) is None,
    decreases n - i,
{
    if i < n {
        lemma_collect_none(items, i + 1, n);
    }
}

/// The URLs that an answer's picker offers (videos and gifs, in order).
pub fn picker_urls(json: &JsonObject) -> (r: Option<Vec<String>>)
    ensures
        match picker_spec(json@) {
            Some(us) => r is Some && r->Some_0@.len() == us.len() && forall|i: int|
                0 <= i < us.len() ==> #[trigger] r->Some_0@[i]@ == us[i],
            None => r is None,
        },
{
    match json.get("picker") {
        Some(v) => match v {
            JsonValue::Array(items) => {
                let ghost model = values_of(items@);
                proof {
                    assert(v@->Array_0 =~= model);
                    assert(picker_spec(json@) == collect_urls(model, model.len() as int));
                }
                let mut urls: Vec<String> = Vec::new();
                let mut i: usize = 0;
                while i < items.len()
                    invariant
                        i <= items@.len(),
                        model == values_of(items@),
                        picker_spec(json@) == collect_urls(model, model.len() as int),
                        collect_urls(model, i as int) is Some,
                        urls@.len() == collect_urls(model, i as int)->Some_0.len(),
                        forall|k: int|
                            0 <= k < urls@.len() ==> #[trigger] urls@[k]@ == collect_urls(model, i as int)->Some_0[k],
                    decreases items@.len() - i,
                {
                    proof {
                        assert(model[i as int] == items@[i as int]@);
                    }
                    match item_url_of(&items[i]) {
                        Ok(Some(u)) => urls.push(u),
                        Ok(None) => {},
                        Err(()) => {
                            proof {
                                assert(collect_urls(model, i + 1) is None);
                                lemma_collect_none(model, i + 1, model.len() as int);
                            }
                            return None;
                        },
                    }
                    i = i + 1;
                }
                Some(urls)
            },
            _ => None,
        },
        None => None,
    }
}

pub open spec fn values_of(items: Seq<JsonValue>) -> Seq<JValue> {
    Seq::new(items.len(), |i: int| items[i]@)
}

/// The URL picked: the `choice`-th (counting from 1) if there is one, else
/// the first; none if there are no URLs.
pub fn choose_url(urls: &Vec<String>, choice: u8) -> (r: Option<String>)
    ensures
        urls@.len() == 0 ==> r is None,
        1 <= choice <= urls@.len() ==> r is Some && r->Some_0@ == urls@[choice - 1]@,
        urls@.len() > 0 && !(1 <= choice <= urls@.len()) ==> r is Some && r->Some_0@ == urls@[0]@,
{
    if urls.len() == 0 {
        None
    } else if choice >= 1 && (choice as usize) <= urls.len() {
        Some(urls[(choice - 1) as usize].clone())
    } else {
        Some(urls[0].clone())
    }
}

/// The URL to download from: for a `picker` answer the `choice`-th of its
/// videos and gifs, otherwise the answer's `url`; none if the answer has
/// another shape.
pub fn get_url(status: &str, json: &JsonObject, choice: u8) -> (r: Option<String>)
    ensures
        status@ != "picker"@ ==> match obj_get(json@, "url"@) {
            Some(JValue::Str(u)) => r is Some && r->Some_0@ == u,
            _ => r is None,
        },
        status@ == "picker"@ && picker_spec(json@) is None ==> r is None,
        status@ == "picker"@ && picker_spec(json@) is Some ==> ({
            let us = picker_spec(json@)->Some_0;
            &&& us.len() == 0 ==> r is None
            &&& 1 <= choice <= us.len() ==> r is Some && r->Some_0@ == us[choice - 1]
            &&& us.len() > 0 && !(1 <= choice <= us.len()) ==> r is Some && r->Some_0@ == us[0]
        }),
{
    let picker = "picker".to_string();
    let st = status.to_string();
    if st == picker {
        match picker_urls(json) {
            Some(urls) => choose_url(&urls, choice),
            None => None,
        }
    } else {
        match json.get("url") {
            Some(JsonValue::Str(u)) => Some(u.clone()),
            _ => None,
        }
    }
}

/// The message for an answer that is not JSON; with `debug`, the answer
/// itself is shown too.
pub fn print_json_error(error: &str, body: &str, debug: bool) -> (r: String)
    ensures
        !debug ==> r@ == "Cobalt server returned improper JSON\nJSON parse error: "@ + error@ + "\n"@
            + "Contact wukko about this error. Run with TCOBALT_DEBUG=1 to see the incorrect response."@,
        debug ==> r@ == "Cobalt server returned improper JSON\nJSON parse error: "@ + error@ + "\n"@
            + "\n[DEBUG] Cobalt returned response:\n"@ + body@ + "\n\n"@
            + "[DEBUG] If this response isn't proper JSON, please contact wukko about this error.\n"@
            + "[DEBUG] If this looks like proper json, contact khyernet/khyerdev about his json parser not functioning right."@,
{
    let s = join("Cobalt server returned improper JSON\nJSON parse error: ", error);
    let s = join(s.as_str(), "\n");
    if debug {
        let s = join(s.as_str(), "\n[DEBUG] Cobalt returned response:\n");
        let s = join(s.as_str(), body);
        let s = join(s.as_str(), "\n\n");
        let s = join(s.as_str(), "[DEBUG] If this response isn't proper JSON, please contact wukko about this error.\n");
        join(
            s.as_str(),
            "[DEBUG] If this looks like proper json, contact khyernet/khyerdev about his json parser not functioning right.",
        )
    } else {
        join(s.as_str(), "Contact wukko about this error. Run with TCOBALT_DEBUG=1 to see the incorrect response.")
    }
}

} // verus!
