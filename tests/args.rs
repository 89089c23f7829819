use tcobalt::args::types::{AudioFormat, DownloadMode, FilenamePattern, Help, Method, ParseErrType, ParseError, VideoCodec};
use tcobalt::args::Args;

#[test]
fn args_help() {
    let help_args = Args::override_args(&["help"]).parse().unwrap();
    let help_get_args = Args::override_args(&["help", "get"]).parse().unwrap();
    let help_list_args = Args::override_args(&["help", "list"]).parse().unwrap();
    let help_bulk_args = Args::override_args(&["help", "bulk"]).parse().unwrap();
    let help_examples = Args::override_args(&["help", "examples"]).parse().unwrap();

    assert_eq!(help_args.help_flag, Some(Help::Help));
    assert_eq!(help_get_args.help_flag, Some(Help::Get));
    assert_eq!(help_list_args.help_flag, Some(Help::List));
    assert_eq!(help_bulk_args.help_flag, Some(Help::Bulk));
    assert_eq!(help_examples.help_flag, Some(Help::Examples));
}

#[test]
fn args_get() {
    let url = "https://www.youtube.com/watch?v=zn5sTDXSp8E";

    let args1 = Args::override_args(&["get", url]).parse().unwrap();
    let args2 = Args::override_args(&["get", url, "--vcodec", "av1"]).parse().unwrap();
    let args3 = Args::override_args(&["get", "--vquality", "1440", url]).parse().unwrap();
    let args4 = Args::override_args(&["get", "-cq", "vp9", "720", url]).parse().unwrap();
    let args5 = Args::override_args(&["get", url, "-af", "ogg", "--output", "foo.ogg"]).parse().unwrap();
    let args6 = Args::override_args(&["get", url, "-gmo", "bar.gif"]).parse().unwrap();

    assert_eq!(args1.method, Some(Method::Get));
    assert_eq!(args1.c_url, Some(url.to_string()));
    assert_eq!(args1.c_video_codec, VideoCodec::H264);
    assert_eq!(args1.c_video_quality, 1080);
    assert_eq!(args1.c_audio_format, AudioFormat::MP3);
    assert_eq!(args1.c_download_mode == DownloadMode::Audio, false);
    assert_eq!(args1.c_download_mode == DownloadMode::Mute, false);
    assert_eq!(args1.c_twitter_gif, false);

    assert_eq!(args2.c_video_codec, VideoCodec::AV1);
    assert_eq!(args3.c_video_quality, 1440);
    assert_eq!(args3.c_url, Some(url.to_string()));
    assert_eq!(args4.c_video_codec, VideoCodec::VP9);
    assert_eq!(args4.c_video_quality, 720);
    assert_eq!(args5.c_download_mode == DownloadMode::Audio, true);
    assert_eq!(args5.c_audio_format, AudioFormat::OGG);
    assert_eq!(args5.out_filename, Some("foo.ogg".into()));
    assert_eq!(args6.c_twitter_gif, true);
    assert_eq!(args6.c_download_mode == DownloadMode::Mute, true);
    assert_eq!(args6.out_filename, Some("bar.gif".into()));
}

#[test]
fn args_get_incorrect() {
    let url = "https://www.youtube.com/watch?v=zn5sTDXSp8E";

    Args::override_args(&["get", url, url]).parse().unwrap_err();
    Args::override_args(&["get", "-q", "1080"]).parse().unwrap_err();
    Args::override_args(&["get", "-q", "1081", url]).parse().unwrap_err();
    Args::override_args(&["get", "-q", url]).parse().unwrap_err();
    Args::override_args(&["get", url, "-af"]).parse().unwrap_err();
    Args::override_args(&["get", url, "-cafamgo"]).parse().unwrap_err();
    Args::override_args(&["get"]).parse().unwrap_err();
}

#[test]
fn args_bulk_get() {
    let url1 = "https://www.youtube.com/watch?v=zn5sTDXSp8E";
    let url2 = "https://www.youtube.com/watch?v=OnrbdAAokS0";

    let bulk1 = Args::override_args(&["bulk", "get", url2, url1]).parse().unwrap();
    let mut dummy_get_1 = Args::override_args(&["get", "https://"]).parse().unwrap();
    dummy_get_1.c_url = Some(url1.into());
    let mut dummy_get_2 = Args::override_args(&["get", "https://"]).parse().unwrap();
    dummy_get_2.c_url = Some(url2.into());
    assert_eq!(bulk1.bulk_array.as_ref().unwrap()[0], dummy_get_1);
    assert_eq!(bulk1.bulk_array.as_ref().unwrap()[1], dummy_get_2);

    let bulk2 = Args::override_args(&["bulk", "get", url2, "-cqm", "av1", "1440", url1]).parse().unwrap();
    let mut dummy_get_1 = Args::override_args(&["get", "https://", "-cqm", "av1", "1440"]).parse().unwrap();
    dummy_get_1.c_url = Some(url1.into());
    let mut dummy_get_2 = Args::override_args(&["get", "https://", "-cqm", "av1", "1440"]).parse().unwrap();
    dummy_get_2.c_url = Some(url2.into());
    assert_eq!(bulk2.bulk_array.as_ref().unwrap()[0], dummy_get_1);
    assert_eq!(bulk2.bulk_array.as_ref().unwrap()[1], dummy_get_2);
}

#[test]
fn methods_are_recognised() {
    let list = Args::override_args(&["list"]).parse().unwrap();
    assert_eq!(list.method, Some(Method::List));
    let version = Args::override_args(&["--version"]).parse().unwrap();
    assert_eq!(version.method, Some(Method::Version));
    let cv = Args::override_args(&["cv"]).parse().unwrap();
    assert_eq!(cv.method, Some(Method::CobaltVersion("api.cobalt.tools".to_string())));
    let cv2 = Args::override_args(&["cv", "example.org"]).parse().unwrap();
    assert_eq!(cv2.method, Some(Method::CobaltVersion("example.org".to_string())));
    let gc = Args::override_args(&["gc"]).parse().unwrap();
    assert_eq!(gc.method, Some(Method::GenConfig));
    let e = Args::override_args(&["fetch"]).parse().unwrap_err();
    assert_eq!(e.err_type, ParseErrType::InvalidArg);
    assert_eq!(e.print(), "InvalidArg: Unrecognized tcobalt method: fetch");
    let e = Args::from_raw(vec!["tcb".to_string()]).parse().unwrap_err();
    assert_eq!(e.err_type, ParseErrType::Incomplete);
}

#[test]
fn words_are_read_in_lower_case() {
    let url = "https://example.com/Video";
    let a = Args::override_args(&["GET", url, "--VCODEC", "VP9"]).parse().unwrap();
    assert_eq!(a.method, Some(Method::Get));
    assert_eq!(a.c_video_codec, VideoCodec::VP9);
    assert_eq!(a.c_url, Some(url.to_string()));
}

#[test]
fn get_flags_with_values() {
    let url = "https://example.com/v";
    let a = Args::override_args(&[
        "get", url, "--fname-style", "nerdy", "--pick", "3", "--bitrate", "320", "--dublang", "de", "-x",
    ])
    .parse()
    .unwrap();
    assert_eq!(a.c_fname_style, FilenamePattern::Nerdy);
    assert_eq!(a.picker_choice, 3);
    assert_eq!(a.c_audio_bitrate, 320);
    assert_eq!(a.accept_language, "de");
    assert!(a.c_proxy);
    let e = Args::override_args(&["get", url, "--pick", "256"]).parse().unwrap_err();
    assert_eq!(e.err_type, ParseErrType::InvalidArg);
    let e = Args::override_args(&["get", url, "--output", "clip.txt"]).parse().unwrap_err();
    assert_eq!(e.err_type, ParseErrType::InvalidArg);
    let e = Args::override_args(&["get", url, "-q"]).parse().unwrap_err();
    assert_eq!(e.print(), "Incomplete: The following flags were specified but their values were not: VideoQuality");
}

#[test]
fn instances_from_the_list_and_by_name() {
    let url = "https://example.com/v";
    let config: Vec<String> = Vec::new();
    let instances = vec!["one.example\n".to_string(), "two.example".to_string()];
    let a = Args::override_args(&["get", url, "-i", "2"]).parse_with(&config, &instances).unwrap();
    assert_eq!(a.cobalt_instance, "two.example");
    let b = Args::override_args(&["get", url, "--instance", "https://api.example.org/path"]).parse().unwrap();
    assert_eq!(b.cobalt_instance, "api.example.org");
    let e = Args::override_args(&["get", url, "-i", "3"]).parse_with(&config, &instances).unwrap_err();
    assert_eq!(e.err_type, ParseErrType::InvalidArg);
}

#[test]
fn configured_defaults_come_first() {
    let url = "https://example.com/v";
    let config = vec!["-c".to_string(), "av1".to_string()];
    let a = Args::override_args(&["get", url]).parse_with(&config, &Vec::new()).unwrap();
    assert_eq!(a.c_video_codec, VideoCodec::AV1);
    let b = Args::override_args(&["get", url, "-c", "vp9"]).parse_with(&config, &Vec::new()).unwrap();
    assert_eq!(b.c_video_codec, VideoCodec::VP9);
}

#[test]
fn url_from_standard_input() {
    let a = Args::override_args(&["get", "+"]).parse().unwrap();
    assert!(a.read_stdin);
    let b = a.take_stdin("  https://example.com/v \n").unwrap();
    assert_eq!(b.c_url, Some("https://example.com/v".to_string()));
    assert!(!b.read_stdin);
    let c = Args::override_args(&["get", "+"]).parse().unwrap();
    assert!(c.take_stdin("nothing here").is_err());
    let e = Args::override_args(&["get", "+", "https://example.com/v"]).parse().unwrap_err();
    assert_eq!(e.err_type, ParseErrType::InvalidArg);
}

#[test]
fn bulk_execute_reads_lines() {
    let a = Args::override_args(&["bulk", "execute", "list.txt"]).parse().unwrap();
    assert_eq!(a.bulk_file, Some("list.txt".to_string()));
    let none: Vec<String> = Vec::new();
    let text = "https://example.com/a -c av1\nhttps://example.com/b\n";
    let b = a.load_bulk(Some(text), &none, &none).unwrap();
    let arr = b.bulk_array.as_ref().unwrap();
    assert_eq!(arr.len(), 2);
    assert_eq!(arr[0].c_video_codec, VideoCodec::AV1);
    assert_eq!(arr[1].c_url, Some("https://example.com/b".to_string()));
    let c = Args::override_args(&["bulk", "execute", "list.txt"]).parse().unwrap();
    let e = c.load_bulk(Some("https://example.com/a -q 1\n"), &none, &none).unwrap_err();
    assert_eq!(e.err_type, ParseErrType::BulkParseError);
    assert!(e.print().starts_with("BulkParseError: On line 1 | "));
    let d = Args::override_args(&["bulk", "execute", "list.txt"]).parse().unwrap();
    assert!(d.load_bulk(None, &none, &none).is_err());
    let e = Args::override_args(&["bulk", "get"]).parse().unwrap_err();
    assert_eq!(e.err_type, ParseErrType::Incomplete);
}

#[test]
fn parse_errors_print_their_kind() {
    assert_eq!(ParseError::throw_incomplete("x").print(), "Incomplete: x");
    assert_eq!(ParseError::throw_invalid("y").print(), "InvalidArg: y");
    assert_eq!(ParseError::throw_bulkerr("z").print(), "BulkParseError: z");
    assert_eq!(VideoCodec::AV1.print(), "av1");
    assert_eq!(AudioFormat::OPUS.print(), "opus");
    assert_eq!(FilenamePattern::Pretty.print(), "pretty");
    assert_eq!(DownloadMode::Mute.print(), "mute");
    assert_eq!(VideoCodec::default(), VideoCodec::H264);
    assert_eq!(AudioFormat::default(), AudioFormat::MP3);
}
