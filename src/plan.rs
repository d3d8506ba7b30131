use vstd::prelude::*;
use vstd::string::*;

use crate::parse::{all_complete, all_parsed, is_first_incomplete, parse_formats, reports, ParseError, RawFormat};
use crate::select::{
    audio_extension_for, audio_extension_of, best_audio, best_video, find_extension,
    has_video_candidate, is_audio_only, is_best_audio, is_best_audio_entry, is_best_audio_in, is_best_video,
    selected_from, FormatCandidate, SelectedFormat,
};
use crate::text::{bare_word, escape, is_bare_word, is_quotable, quotable, sanitized};

verus! {

/// What the metadata source returned for a URL.
#[derive(Clone, Debug, PartialEq, Eq)]
pub enum Metadata {
    Playlist,
    SingleVideo(VideoInfo),
}

/// A single video: its title and its format entries, as reported.
#[derive(Clone, Debug, PartialEq, Eq)]
pub struct VideoInfo {
    pub title: Option<String>,
    pub formats: Option<Vec<RawFormat>>,
}

/// Why no download can be planned.
#[derive(Clone, Debug, PartialEq, Eq)]
pub enum PlanError {
    /// The URL names a playlist, which is not supported.
    Playlist,
    /// The video has no title.
    MissingTitle,
    /// The video has no list of formats.
    MissingFormats,
    /// A format entry lacks a required field.
    InvalidFormat(ParseError),
    /// No format has a video track.
    NoVideoFormat,
    /// No audio-only format has the extension that goes with the chosen video.
    NoAudioFormat(String),
    /// The URL holds a character that a shell expands inside double quotes.
    UnsafeUrl,
    /// A chosen format id is not a single plain shell word.
    UnsafeFormatId(String),
}

/// The chosen formats, the file names and the three command lines.
#[derive(Clone, Debug, PartialEq, Eq)]
pub struct DownloadPlan {
    pub video: SelectedFormat,
    pub audio: SelectedFormat,
    pub video_part: String,
    pub audio_part: String,
    pub output: String,
    pub video_command: String,
    pub audio_command: String,
    pub mux_command: String,
}

/// Name of a downloaded part: title, format id and extension, sanitized as
/// one name.
pub open spec fn part_name(title: Seq<char>, id: Seq<char>, ext: Seq<char>) -> Seq<char> {
    sanitized(title + seq!['_'] + id + seq!['.'] + ext)
}

/// Name of the muxed file: title and the video's extension, sanitized as one
/// name.
pub open spec fn output_name(title: Seq<char>, ext: Seq<char>) -> Seq<char> {
    sanitized(title + seq!['.'] + ext)
}

pub open spec fn download_command_of(id: Seq<char>, output: Seq<char>, url: Seq<char>) -> Seq<char> {
    "youtube-dl -f "@ + id + " --continue -o \""@ + output + "\" \""@ + url + "\""@
}

pub open spec fn mux_command_of(video: Seq<char>, audio: Seq<char>, output: Seq<char>) -> Seq<char> {
    "ffmpeg -i \""@ + video + "\" -i \""@ + audio + "\" -c:v copy -c:a copy \""@ + output
        + "\" < /dev/null"@
}

/// Some audio-only candidate has extension `ext`.
pub open spec fn has_audio_of(cands: Seq<FormatCandidate>, ext: Seq<char>) -> bool {
    exists|k: int|
        0 <= k < cands.len() && is_audio_only(#[trigger] cands[k]) && cands[k].extension@ == ext
}

/// `p` downloads candidate `i` as the video and candidate `k` as the audio,
/// under the names and commands built from them.
pub open spec fn is_plan_for(
    p: DownloadPlan,
    cands: Seq<FormatCandidate>,
    i: int,
    k: int,
    title: Seq<char>,
    url: Seq<char>,
) -> bool {
    &&& selected_from(p.video, cands[i])
    &&& selected_from(p.audio, cands[k])
    &&& p.video_part@ == part_name(title, p.video.id@, p.video.extension@)
    &&& p.audio_part@ == part_name(title, p.audio.id@, p.audio.extension@)
    &&& p.output@ == output_name(title, p.video.extension@)
    &&& p.video_command@ == download_command_of(p.video.id@, p.video_part@, url)
    &&& p.audio_command@ == download_command_of(p.audio.id@, p.audio_part@, url)
    &&& p.mux_command@ == mux_command_of(p.video_part@, p.audio_part@, p.output@)
}

/// What planning over `cands` gives: an unsafe URL, no video, no matching
/// audio, a format id that is no plain shell word, or the plan for the best video `i` and the
/// best audio-only candidate `k` of the matching extension.
pub open spec fn is_outcome(
    r: Result<DownloadPlan, PlanError>,
    cands: Seq<FormatCandidate>,
    title: Seq<char>,
    url: Seq<char>,
) -> bool {
    if !is_quotable(url) {
        r == Err::<DownloadPlan, PlanError>(PlanError::UnsafeUrl)
    } else if !has_video_candidate(cands) {
        r == Err::<DownloadPlan, PlanError>(PlanError::NoVideoFormat)
    } else {
        exists|i: int|
            is_best_video(cands, i) && {
                let aext = audio_extension_of(cands[i].extension@);
                if !has_audio_of(cands, aext) {
                    r is Err && r->Err_0 is NoAudioFormat && r->Err_0->NoAudioFormat_0@ == aext
                } else {
                    exists|k: int|
                        is_best_audio(cands, k) && cands[k].extension@ == aext && if !is_bare_word(
                            cands[i].id@,
                        ) {
                            r is Err && r->Err_0 is UnsafeFormatId && r->Err_0->UnsafeFormatId_0@
                                == cands[i].id@
                        } else if !is_bare_word(cands[k].id@) {
                            r is Err && r->Err_0 is UnsafeFormatId && r->Err_0->UnsafeFormatId_0@
                                == cands[k].id@
                        } else {
                            r is Ok && is_plan_for(r->Ok_0, cands, i, k, title, url)
                        }
                }
            }
    }
}

fn copy_selected(s: &SelectedFormat) -> (r: SelectedFormat)
    ensures
        r.id@ == s.id@,
        r.bitrate == s.bitrate,
        r.extension@ == s.extension@,
{
    SelectedFormat { id: s.id.clone(), bitrate: s.bitrate, extension: s.extension.clone() }
}

/// Name of a downloaded part of the video titled `title`.
pub fn part_file_name(title: &str, format: &SelectedFormat) -> (r: String)
    ensures
        r@ == part_name(title@, format.id@, format.extension@),
{
    let mut s = String::from_str(title);
    s.append("_");
    s.append(format.id.as_str());
    s.append(".");
    s.append(format.extension.as_str());
    proof {
        reveal_strlit("_");
        reveal_strlit(".");
        assert("_"@ =~= seq!['_']);
        assert("."@ =~= seq!['.']);
    }
    escape(s)
}

/// Name of the muxed file of the video titled `title`.
pub fn output_file_name(title: &str, video_ext: &String) -> (r: String)
    ensures
        r@ == output_name(title@, video_ext@),
{
    let mut s = String::from_str(title);
    s.append(".");
    s.append(video_ext.as_str());
    proof {
        reveal_strlit(".");
        assert("."@ =~= seq!['.']);
    }
    escape(s)
}

/// Shell command that downloads format `id` of `url` into `output`.
pub fn download_command(id: &String, output: &String, url: &String) -> (r: String)
    ensures
        r@ == download_command_of(id@, output@, url@),
{
    let mut s = String::from_str("youtube-dl -f ");
    s.append(id.as_str());
    s.append(" --continue -o \"");
    s.append(output.as_str());
    s.append("\" \"");
    s.append(url.as_str());
    s.append("\"");
    s
}

/// Shell command that muxes `video` and `audio` into `output` without
/// re-encoding.
pub fn mux_command(video: &String, audio: &String, output: &String) -> (r: String)
    ensures
        r@ == mux_command_of(video@, audio@, output@),
{
    let mut s = String::from_str("ffmpeg -i \"");
    s.append(video.as_str());
    s.append("\" -i \"");
    s.append(audio.as_str());
    s.append("\" -c:v copy -c:a copy \"");
    s.append(output.as_str());
    s.append("\" < /dev/null");
    s
}

/// Chooses the formats for the video titled `title` among `cands` and builds
/// the file names and commands that fetch `url`.
pub fn plan_for_candidates(title: &String, cands: &Vec<FormatCandidate>, url: &String) -> (r: Result<
    DownloadPlan,
    PlanError,
>)
    ensures
        is_outcome(r, cands@, title@, url@),
{
    if !quotable(url.as_str()) {
        return Err(PlanError::UnsafeUrl);
    }
    let video = match best_video(cands) {
        None => {
            return Err(PlanError::NoVideoFormat);
        },
        Some(v) => v,
    };
    let ghost i = choose|i: int| is_best_video(cands@, i) && selected_from(video, cands@[i]);
    let aext = audio_extension_for(&video.extension);
    let table = best_audio(cands);
    let k = match find_extension(&table, &aext) {
        None => {
            proof {
                if has_audio_of(cands@, aext@) {
                    let j = choose|j: int|
                        0 <= j < cands@.len() && is_audio_only(#[trigger] cands@[j])
                            && cands@[j].extension@ == aext@;
                    assert(is_audio_only(cands@[j]));
                }
            }
            return Err(PlanError::NoAudioFormat(aext));
        },
        Some(k) => k,
    };
    let audio = copy_selected(&table[k]);
    let ghost j = choose|j: int|
        is_best_audio_in(cands@, cands@.len() as int, j) && selected_from(table@[k as int], cands@[j]);
    proof {
        assert(is_best_audio_entry(cands@, cands@.len() as int, table@[k as int]));
        assert(is_best_audio(cands@, j));
        assert(selected_from(audio, cands@[j]));
        assert(has_audio_of(cands@, aext@)) by {
            assert(is_audio_only(cands@[j]));
        }
    }
    if !bare_word(video.id.as_str()) {
        return Err(PlanError::UnsafeFormatId(video.id));
    }
    if !bare_word(audio.id.as_str()) {
        return Err(PlanError::UnsafeFormatId(audio.id));
    }
    let video_part = part_file_name(title.as_str(), &video);
    let audio_part = part_file_name(title.as_str(), &audio);
    let output = output_file_name(title.as_str(), &video.extension);
    let video_command = download_command(&video.id, &video_part, url);
    let audio_command = download_command(&audio.id, &audio_part, url);
    let mux = mux_command(&video_part, &audio_part, &output);
    let p = DownloadPlan {
        video,
        audio,
        video_part,
        audio_part,
        output,
        video_command,
        audio_command,
        mux_command: mux,
    };
    assert(is_plan_for(p, cands@, i, j, title@, url@));
    Ok(p)
}

/// Plans the download of the video that `meta` describes, fetched from `url`.
/// A playlist is refused before any format is looked at.
pub fn plan_download(meta: &Metadata, url: &String) -> (r: Result<DownloadPlan, PlanError>)
    ensures
        match *meta {
            Metadata::Playlist => r == Err::<DownloadPlan, PlanError>(PlanError::Playlist),
            Metadata::SingleVideo(info) => {
                if info.title is None {
                    r == Err::<DownloadPlan, PlanError>(PlanError::MissingTitle)
                } else if info.formats is None {
                    r == Err::<DownloadPlan, PlanError>(PlanError::MissingFormats)
                } else if !all_complete(info.formats->0@) {
                    r is Err && r->Err_0 is InvalidFormat && exists|i: int|
                        is_first_incomplete(info.formats->0@, i) && reports(
                            r->Err_0->InvalidFormat_0,
                            #[trigger] info.formats->0@[i],
                        )
                } else {
                    exists|cands: Seq<FormatCandidate>|
                        all_parsed(cands, info.formats->0@) && is_outcome(
                            r,
                            cands,
                            info.title->0@,
                            url@,
                        )
                }
            },
        },
{
    match meta {
        Metadata::Playlist => Err(PlanError::Playlist),
        Metadata::SingleVideo(info) => match (&info.title, &info.formats) {
            (None, _) => Err(PlanError::MissingTitle),
            (Some(_), None) => Err(PlanError::MissingFormats),
            (Some(title), Some(raws)) => match parse_formats(raws) {
                Err(e) => Err(PlanError::InvalidFormat(e)),
                Ok(cands) => {
                    let r = plan_for_candidates(title, &cands, url);
                    assert(all_parsed(cands@, raws@) && is_outcome(r, cands@, title@, url@));
                    r
                },
            },
        },
    }
}

} // verus!
