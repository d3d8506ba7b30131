use ytmux::{
    audio_extension_for, best_audio, best_video, find_extension, FormatCandidate, SelectedFormat,
};

fn cand(id: &str, ext: &str, video: bool, audio: bool, bitrate: u64) -> FormatCandidate {
    FormatCandidate {
        id: id.to_string(),
        bitrate,
        extension: ext.to_string(),
        has_video: video,
        has_audio: audio,
        width: if video { Some(1920) } else { None },
        height: if video { Some(1080) } else { None },
    }
}

fn sel(id: &str, ext: &str, bitrate: u64) -> SelectedFormat {
    SelectedFormat { id: id.to_string(), bitrate, extension: ext.to_string() }
}

#[test]
fn scenario_video_and_audio_pair() {
    let cands = vec![
        cand("137", "mp4", true, false, 2500),
        cand("140", "m4a", false, true, 128),
    ];
    assert_eq!(best_video(&cands), Some(sel("137", "mp4", 2500)));
    assert_eq!(best_audio(&cands), vec![sel("140", "m4a", 128)]);
    let aext = audio_extension_for(&"mp4".to_string());
    assert_eq!(aext, "m4a");
    assert_eq!(find_extension(&best_audio(&cands), &aext), Some(0));
}

#[test]
fn equal_video_bitrates_keep_the_first() {
    let cands = vec![
        cand("a", "mp4", true, false, 1000),
        cand("b", "webm", true, false, 1000),
    ];
    assert_eq!(best_video(&cands), Some(sel("a", "mp4", 1000)));
}

#[test]
fn best_video_is_the_maximum() {
    let cands = vec![
        cand("1", "mp4", true, false, 300),
        cand("2", "m4a", false, true, 900),
        cand("3", "webm", true, true, 700),
        cand("4", "mp4", true, false, 500),
        cand("5", "mp4", true, false, 700),
    ];
    assert_eq!(best_video(&cands), Some(sel("3", "webm", 700)));
}

#[test]
fn no_video_candidate_gives_none() {
    let cands = vec![cand("140", "m4a", false, true, 128)];
    assert_eq!(best_video(&cands), None);
    assert_eq!(best_video(&vec![]), None);
}

#[test]
fn best_audio_per_extension() {
    let cands = vec![
        cand("249", "webm", false, true, 50),
        cand("139", "m4a", false, true, 48),
        cand("251", "webm", false, true, 160),
        cand("18", "mp4", true, true, 600),
        cand("140", "m4a", false, true, 128),
        cand("250", "webm", false, true, 160),
        cand("x", "ogg", false, false, 999),
    ];
    let table = best_audio(&cands);
    assert_eq!(table.len(), 2);
    let webm = find_extension(&table, &"webm".to_string()).unwrap();
    let m4a = find_extension(&table, &"m4a".to_string()).unwrap();
    assert_eq!(table[webm], sel("251", "webm", 160));
    assert_eq!(table[m4a], sel("140", "m4a", 128));
    assert_eq!(find_extension(&table, &"mp4".to_string()), None);
    assert_eq!(find_extension(&table, &"ogg".to_string()), None);
}

#[test]
fn best_audio_of_no_candidates_is_empty() {
    assert!(best_audio(&vec![]).is_empty());
}

#[test]
fn audio_extension_rule() {
    assert_eq!(audio_extension_for(&"mp4".to_string()), "m4a");
    assert_eq!(audio_extension_for(&"webm".to_string()), "webm");
    assert_eq!(audio_extension_for(&"flv".to_string()), "");
    assert_eq!(audio_extension_for(&"".to_string()), "");
    assert_eq!(audio_extension_for(&"MP4".to_string()), "");
}
