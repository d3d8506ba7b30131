use ytmux::{
    download_command, mux_command, output_file_name, parse_format, parse_formats, part_file_name,
    plan_download, plan_for_candidates, FormatCandidate, Metadata, MissingField, ParseError,
    PlanError, RawFormat, SelectedFormat, VideoInfo,
};

fn raw(id: &str, vcodec: &str, acodec: &str, ext: &str, bitrate: u64) -> RawFormat {
    let video = vcodec != "none";
    RawFormat {
        format_id: Some(id.to_string()),
        vcodec: Some(vcodec.to_string()),
        acodec: Some(acodec.to_string()),
        ext: Some(ext.to_string()),
        bitrate: Some(bitrate),
        width: if video { Some(1920) } else { None },
        height: if video { Some(1080) } else { None },
    }
}

fn cand(id: &str, ext: &str, video: bool, audio: bool, bitrate: u64) -> FormatCandidate {
    FormatCandidate {
        id: id.to_string(),
        bitrate,
        extension: ext.to_string(),
        has_video: video,
        has_audio: audio,
        width: None,
        height: None,
    }
}

#[test]
fn parse_reads_codecs() {
    let c = parse_format(&raw("137", "avc1", "none", "mp4", 2500)).unwrap();
    assert_eq!(c.id, "137");
    assert_eq!(c.extension, "mp4");
    assert_eq!(c.bitrate, 2500);
    assert!(c.has_video);
    assert!(!c.has_audio);
    assert_eq!(c.width, Some(1920));
    let c = parse_format(&raw("140", "none", "mp4a", "m4a", 128)).unwrap();
    assert!(!c.has_video);
    assert!(c.has_audio);
}

#[test]
fn parse_reports_each_missing_field() {
    let mut r = raw("137", "avc1", "none", "mp4", 2500);
    r.format_id = None;
    assert_eq!(
        parse_format(&r),
        Err(ParseError { field: MissingField::FormatId, format_id: None })
    );
    let some_id = Some("137".to_string());
    let mut r = raw("137", "avc1", "none", "mp4", 2500);
    r.vcodec = None;
    assert_eq!(
        parse_format(&r),
        Err(ParseError { field: MissingField::VideoCodec, format_id: some_id.clone() })
    );
    let mut r = raw("137", "avc1", "none", "mp4", 2500);
    r.acodec = None;
    assert_eq!(
        parse_format(&r),
        Err(ParseError { field: MissingField::AudioCodec, format_id: some_id.clone() })
    );
    let mut r = raw("137", "avc1", "none", "mp4", 2500);
    r.ext = None;
    assert_eq!(
        parse_format(&r),
        Err(ParseError { field: MissingField::Extension, format_id: some_id.clone() })
    );
    let mut r = raw("137", "avc1", "none", "mp4", 2500);
    r.bitrate = None;
    assert_eq!(
        parse_format(&r),
        Err(ParseError { field: MissingField::Bitrate, format_id: some_id })
    );
}

#[test]
fn parse_takes_dimensions_as_optional() {
    let mut r = raw("137", "avc1", "none", "mp4", 2500);
    r.width = None;
    r.height = None;
    let c = parse_format(&r).unwrap();
    assert!(c.has_video);
    assert_eq!(c.width, None);
    assert_eq!(c.height, None);
}

#[test]
fn parse_formats_stops_at_first_incomplete() {
    let mut bad = raw("251", "none", "opus", "webm", 160);
    bad.bitrate = None;
    let mut worse = raw("x", "none", "opus", "webm", 160);
    worse.ext = None;
    let raws = vec![raw("140", "none", "mp4a", "m4a", 128), bad, worse];
    assert_eq!(
        parse_formats(&raws),
        Err(ParseError { field: MissingField::Bitrate, format_id: Some("251".to_string()) })
    );
    let ok = parse_formats(&vec![raw("140", "none", "mp4a", "m4a", 128)]).unwrap();
    assert_eq!(ok, vec![cand("140", "m4a", false, true, 128)]);
}

#[test]
fn file_names_and_commands() {
    let f = SelectedFormat { id: "137".to_string(), bitrate: 2500, extension: "mp4".to_string() };
    assert_eq!(part_file_name("Song (Live) - Band", &f), "Song (Live) - Band_137.mp4");
    assert_eq!(output_file_name(" A/B ", &"webm".to_string()), "A-B .webm");
    assert_eq!(output_file_name("\u{3000}Clip", &"mp4".to_string()), "Clip.mp4");
    let odd = SelectedFormat { id: "a/b".to_string(), bitrate: 1, extension: "m:p4".to_string() };
    assert_eq!(part_file_name("T ", &odd), "T _a-b.mp4");
    assert_eq!(
        download_command(&"137".to_string(), &"v.mp4".to_string(), &"http://h/w?v=1".to_string()),
        "youtube-dl -f 137 --continue -o \"v.mp4\" \"http://h/w?v=1\""
    );
    assert_eq!(
        mux_command(&"v.mp4".to_string(), &"a.m4a".to_string(), &"o.mp4".to_string()),
        "ffmpeg -i \"v.mp4\" -i \"a.m4a\" -c:v copy -c:a copy \"o.mp4\" < /dev/null"
    );
}

#[test]
fn plan_for_scenario_pair() {
    let cands = vec![
        cand("137", "mp4", true, false, 2500),
        cand("140", "m4a", false, true, 128),
    ];
    let url = "https://youtu.be/x".to_string();
    let p = plan_for_candidates(&"Clip".to_string(), &cands, &url).unwrap();
    assert_eq!(p.video.id, "137");
    assert_eq!(p.video.bitrate, 2500);
    assert_eq!(p.audio.id, "140");
    assert_eq!(p.audio.extension, "m4a");
    assert_eq!(p.video_part, "Clip_137.mp4");
    assert_eq!(p.audio_part, "Clip_140.m4a");
    assert_eq!(p.output, "Clip.mp4");
    assert_eq!(
        p.video_command,
        "youtube-dl -f 137 --continue -o \"Clip_137.mp4\" \"https://youtu.be/x\""
    );
    assert_eq!(
        p.audio_command,
        "youtube-dl -f 140 --continue -o \"Clip_140.m4a\" \"https://youtu.be/x\""
    );
    assert_eq!(
        p.mux_command,
        "ffmpeg -i \"Clip_137.mp4\" -i \"Clip_140.m4a\" -c:v copy -c:a copy \"Clip.mp4\" < /dev/null"
    );
}

#[test]
fn plan_errors_without_video_or_matching_audio() {
    let url = "u".to_string();
    let t = "T".to_string();
    let only_audio = vec![cand("140", "m4a", false, true, 128)];
    assert_eq!(plan_for_candidates(&t, &only_audio, &url), Err(PlanError::NoVideoFormat));
    let webm_video = vec![
        cand("248", "webm", true, false, 3000),
        cand("140", "m4a", false, true, 128),
    ];
    assert_eq!(
        plan_for_candidates(&t, &webm_video, &url),
        Err(PlanError::NoAudioFormat("webm".to_string()))
    );
    let flv_video = vec![cand("5", "flv", true, true, 300)];
    assert_eq!(
        plan_for_candidates(&t, &flv_video, &url),
        Err(PlanError::NoAudioFormat(String::new()))
    );
}

#[test]
fn plan_refuses_shell_specials() {
    let t = "T".to_string();
    let cands = vec![
        cand("137", "mp4", true, false, 2500),
        cand("140", "m4a", false, true, 128),
    ];
    assert_eq!(
        plan_for_candidates(&t, &cands, &"https://h/$(id)".to_string()),
        Err(PlanError::UnsafeUrl)
    );
    let odd = vec![
        cand("1`x`", "mp4", true, false, 2500),
        cand("140", "m4a", false, true, 128),
    ];
    assert_eq!(
        plan_for_candidates(&t, &odd, &"u".to_string()),
        Err(PlanError::UnsafeFormatId("1`x`".to_string()))
    );
    let odd_audio = vec![
        cand("137", "mp4", true, false, 2500),
        cand("$a", "m4a", false, true, 128),
    ];
    assert_eq!(
        plan_for_candidates(&t, &odd_audio, &"u".to_string()),
        Err(PlanError::UnsafeFormatId("$a".to_string()))
    );
    let spaced = vec![
        cand("13 7", "mp4", true, false, 2500),
        cand("140", "m4a", false, true, 128),
    ];
    assert_eq!(
        plan_for_candidates(&t, &spaced, &"u".to_string()),
        Err(PlanError::UnsafeFormatId("13 7".to_string()))
    );
    let dashed = vec![
        cand("hls-1080p", "mp4", true, false, 2500),
        cand("140", "m4a", false, true, 128),
    ];
    let p = plan_for_candidates(&t, &dashed, &"u".to_string()).unwrap();
    assert_eq!(p.video_command, "youtube-dl -f hls-1080p --continue -o \"T_hls-1080p.mp4\" \"u\"");
}

#[test]
fn plan_title_with_trailing_space() {
    let cands = vec![
        cand("137", "mp4", true, false, 2500),
        cand("140", "m4a", false, true, 128),
    ];
    let p = plan_for_candidates(&"T ".to_string(), &cands, &"https://youtu.be/abc".to_string())
        .unwrap();
    assert_eq!(p.video_part, "T _137.mp4");
    assert_eq!(
        p.video_command,
        "youtube-dl -f 137 --continue -o \"T _137.mp4\" \"https://youtu.be/abc\""
    );
}

#[test]
fn playlist_is_refused_cleanly() {
    let url = "https://www.youtube.com/playlist?list=PL1".to_string();
    assert_eq!(plan_download(&Metadata::Playlist, &url), Err(PlanError::Playlist));
}

#[test]
fn plan_download_checks_metadata() {
    let url = "u".to_string();
    let no_title = Metadata::SingleVideo(VideoInfo { title: None, formats: Some(vec![]) });
    assert_eq!(plan_download(&no_title, &url), Err(PlanError::MissingTitle));
    let no_formats = Metadata::SingleVideo(VideoInfo { title: Some("T".to_string()), formats: None });
    assert_eq!(plan_download(&no_formats, &url), Err(PlanError::MissingFormats));
    let mut bad = raw("137", "avc1", "none", "mp4", 2500);
    bad.acodec = None;
    let bad_meta = Metadata::SingleVideo(VideoInfo {
        title: Some("T".to_string()),
        formats: Some(vec![bad]),
    });
    assert_eq!(
        plan_download(&bad_meta, &url),
        Err(PlanError::InvalidFormat(ParseError {
            field: MissingField::AudioCodec,
            format_id: Some("137".to_string()),
        }))
    );
    let good = Metadata::SingleVideo(VideoInfo {
        title: Some("My: Title".to_string()),
        formats: Some(vec![
            raw("18", "avc1", "mp4a", "mp4", 600),
            raw("137", "avc1", "none", "mp4", 2500),
            raw("139", "none", "mp4a", "m4a", 48),
            raw("140", "none", "mp4a", "m4a", 128),
            raw("251", "none", "opus", "webm", 160),
        ]),
    });
    let p = plan_download(&good, &url).unwrap();
    assert_eq!(p.video.id, "137");
    assert_eq!(p.audio.id, "140");
    assert_eq!(p.output, "My Title.mp4");
}
