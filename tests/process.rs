use tcobalt::args::Args;
use tcobalt::json::parse;
use tcobalt::process::{choose_url, cobalt_args, get_url, picker_urls, print_json_error};
use tcobalt::strings::{get_help, get_str};
use tcobalt::text::remove_trailing_whitespace;

#[test]
fn request_body_for_defaults() {
    let a = Args::override_args(&["get", "https://example.com/v"]).parse().unwrap();
    let body = cobalt_args(&a);
    let expected = "{
    \"url\": \"https://example.com/v\",
    \"youtubeVideoCodec\": \"h264\",
    \"videoQuality\": \"1080\",
    \"audioFormat\": \"mp3\",
    \"audioBitrate\": \"128\",
    \"filenameStyle\": \"classic\",
    \"downloadMode\": \"auto\",
    \"tiktokFullAudio\": false,
    \"tiktokH265\": false,
    \"youtubeDubLang\": \"en\",
    \"disableMetadata\": false,
    \"twitterGif\": false,
    \"alwaysProxy\": false
    }";
    assert_eq!(body, expected);
    let parsed = parse(&body).unwrap();
    assert_eq!(parsed.get("videoQuality").unwrap().get_str().unwrap(), "1080");
}

#[test]
fn picker_answers() {
    let answer = parse(
        "{\"status\":\"picker\",\"picker\":[{\"type\":\"photo\",\"url\":\"p\"},{\"type\":\"video\",\"url\":\"v1\"},{\"type\":\"gif\",\"url\":\"g1\"}]}",
    )
    .unwrap();
    let urls = picker_urls(&answer).unwrap();
    assert_eq!(urls, vec!["v1".to_string(), "g1".to_string()]);
    assert_eq!(choose_url(&urls, 2), Some("g1".to_string()));
    assert_eq!(choose_url(&urls, 9), Some("v1".to_string()));
    assert_eq!(choose_url(&Vec::new(), 1), None);
    assert_eq!(get_url("picker", &answer, 1), Some("v1".to_string()));
    let plain = parse("{\"status\":\"tunnel\",\"url\":\"https://x/y\"}").unwrap();
    assert_eq!(get_url("tunnel", &plain, 0), Some("https://x/y".to_string()));
    let odd = parse("{\"status\":\"tunnel\",\"url\":3}").unwrap();
    assert_eq!(get_url("tunnel", &odd, 0), None);
    let broken = parse("{\"picker\":[{\"type\":\"video\"}]}").unwrap();
    assert_eq!(picker_urls(&broken), None);
}

#[test]
fn json_error_messages() {
    let plain = print_json_error("bad", "body", false);
    assert_eq!(
        plain,
        "Cobalt server returned improper JSON\nJSON parse error: bad\nContact wukko about this error. Run with TCOBALT_DEBUG=1 to see the incorrect response."
    );
    let debug = print_json_error("bad", "body", true);
    assert!(debug.contains("[DEBUG] Cobalt returned response:\nbody\n\n"));
}

#[test]
fn sectioned_texts() {
    let text = "usage: tcb <method>\n\n[get]\nget <url>\n  flags\n\n[list]\nlist things\n";
    assert_eq!(get_help(text), "usage: tcb <method>");
    assert_eq!(get_str(text, "get"), "get <url>\n  flags");
    assert_eq!(get_str(text, "list"), "list things");
    assert_eq!(get_str(text, "none"), "");
    assert_eq!(remove_trailing_whitespace("a b \n \n"), "a b");
    assert_eq!(remove_trailing_whitespace(" \n"), "");
    assert_eq!(remove_trailing_whitespace(""), "");
}
