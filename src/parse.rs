use vstd::prelude::*;
use vstd::string::*;

use crate::select::FormatCandidate;

verus! {

/// A format entry as the metadata source reports it, every field optional.
#[derive(Clone, Debug, PartialEq, Eq)]
pub struct RawFormat {
    pub format_id: Option<String>,
    pub vcodec: Option<String>,
    pub acodec: Option<String>,
    pub ext: Option<String>,
    pub bitrate: Option<u64>,
    pub width: Option<u64>,
    pub height: Option<u64>,
}

/// A field that a format entry must have.
#[derive(Clone, Copy, Debug, PartialEq, Eq)]
pub enum MissingField {
    FormatId,
    VideoCodec,
    AudioCodec,
    Extension,
    Bitrate,
}

/// A format entry lacks a required field; `format_id` is the entry's id when
/// it has one.
#[derive(Clone, Debug, PartialEq, Eq)]
pub struct ParseError {
    pub field: MissingField,
    pub format_id: Option<String>,
}

/// A codec field names a track unless it is `none`.
pub open spec fn codec_present(codec: Option<String>) -> bool {
    codec is Some && codec->0@ != seq!['n', 'o', 'n', 'e']
}

/// The first required field, in the order checked, that `raw` lacks. Width
/// and height are optional.
pub open spec fn first_missing(raw: RawFormat) -> Option<MissingField> {
    if raw.format_id is None {
        Some(MissingField::FormatId)
    } else if raw.vcodec is None {
        Some(MissingField::VideoCodec)
    } else if raw.acodec is None {
        Some(MissingField::AudioCodec)
    } else if raw.ext is None {
        Some(MissingField::Extension)
    } else if raw.bitrate is None {
        Some(MissingField::Bitrate)
    } else {
        None
    }
}

/// `c` is the candidate that `raw` describes.
pub open spec fn parsed_from(c: FormatCandidate, raw: RawFormat) -> bool {
    &&& raw.format_id is Some && c.id@ == raw.format_id->0@
    &&& raw.ext is Some && c.extension@ == raw.ext->0@
    &&& raw.bitrate == Some(c.bitrate)
    &&& c.has_video == codec_present(raw.vcodec)
    &&& c.has_audio == codec_present(raw.acodec)
    &&& c.width == raw.width
    &&& c.height == raw.height
}

/// `e` reports the first missing field of `raw`, under `raw`'s id.
pub open spec fn reports(e: ParseError, raw: RawFormat) -> bool {
    &&& first_missing(raw) == Some(e.field)
    &&& (e.format_id is Some <==> raw.format_id is Some)
    &&& raw.format_id is Some ==> e.format_id->0@ == raw.format_id->0@
}

fn copy_opt(s: &Option<String>) -> (r: Option<String>)
    ensures
        r is Some <==> s is Some,
        s is Some ==> r->0@ == s->0@,
{
    match s {
        Some(v) => Some(v.clone()),
        None => None,
    }
}

fn codec_is_present(codec: &Option<String>) -> (r: bool)
    ensures
        r == codec_present(*codec),
{
    proof {
        reveal_strlit("none");
        assert("none"@ =~= seq!['n', 'o', 'n', 'e']);
    }
    match codec {
        Some(t) => !(*t == String::from_str("none")),
        None => false,
    }
}

/// Checks that `raw` has every required field and reads it as a candidate.
pub fn parse_format(raw: &RawFormat) -> (r: Result<FormatCandidate, ParseError>)
    ensures
        r is Ok <==> first_missing(*raw) is None,
        r is Ok ==> parsed_from(r->Ok_0, *raw),
        r is Err ==> reports(r->Err_0, *raw),
{
    let has_video = codec_is_present(&raw.vcodec);
    let has_audio = codec_is_present(&raw.acodec);
    let missing = if raw.format_id.is_none() {
        Some(MissingField::FormatId)
    } else if raw.vcodec.is_none() {
        Some(MissingField::VideoCodec)
    } else if raw.acodec.is_none() {
        Some(MissingField::AudioCodec)
    } else if raw.ext.is_none() {
        Some(MissingField::Extension)
    } else if raw.bitrate.is_none() {
        Some(MissingField::Bitrate)
    } else {
        None
    };
    match (missing, &raw.format_id, &raw.ext, raw.bitrate) {
        (None, Some(id), Some(ext), Some(bitrate)) => Ok(
            FormatCandidate {
                id: id.clone(),
                bitrate,
                extension: ext.clone(),
                has_video,
                has_audio,
                width: raw.width,
                height: raw.height,
            },
        ),
        (Some(field), _, _, _) => Err(ParseError { field, format_id: copy_opt(&raw.format_id) }),
        _ => Err(ParseError { field: MissingField::FormatId, format_id: None }),
    }
}

/// Every entry of `raws` read as a candidate, in order.
pub open spec fn all_parsed(cands: Seq<FormatCandidate>, raws: Seq<RawFormat>) -> bool {
    &&& cands.len() == raws.len()
    &&& forall|i: int| 0 <= i < raws.len() ==> parsed_from(#[trigger] cands[i], raws[i])
}

pub open spec fn all_complete(raws: Seq<RawFormat>) -> bool {
    forall|i: int| 0 <= i < raws.len() ==> (#[trigger] first_missing(raws[i])) is None
}

/// Entry `i` is the first of `raws` that lacks a field.
pub open spec fn is_first_incomplete(raws: Seq<RawFormat>, i: int) -> bool {
    &&& 0 <= i < raws.len()
    &&& first_missing(raws[i]) is Some
    &&& forall|j: int| 0 <= j < i ==> (#[trigger] first_missing(raws[j])) is None
}

/// Reads every entry of `raws` as a candidate; fails on the first entry that
/// lacks a required field.
pub fn parse_formats(raws: &Vec<RawFormat>) -> (r: Result<Vec<FormatCandidate>, ParseError>)
    ensures
        r is Ok <==> all_complete(raws@),
        r is Ok ==> all_parsed(r->Ok_0@, raws@),
        r is Err ==> exists|i: int|
            is_first_incomplete(raws@, i) && reports(r->Err_0, #[trigger] raws@[i]),
{
    let mut out: Vec<FormatCandidate> = Vec::new();
    let n = raws.len();
    let mut i: usize = 0;
    while i < n
        invariant
            n == raws@.len(),
            i <= n,
            out@.len() == i,
            forall|j: int| 0 <= j < i ==> (#[trigger] first_missing(raws@[j])) is None,
            forall|j: int| 0 <= j < i ==> parsed_from(#[trigger] out@[j], raws@[j]),
        decreases n - i,
    {
        match parse_format(&raws[i]) {
            Ok(c) => {
                out.push(c);
            },
            Err(e) => {
                assert(is_first_incomplete(raws@, i as int));
                return Err(e);
            },
        }
        i = i + 1;
    }
    Ok(out)
}

} // verus!
