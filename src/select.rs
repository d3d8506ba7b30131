use vstd::prelude::*;
use vstd::string::*;

verus! {

/// One selectable encoding of a remote video.
#[derive(Clone, Debug, PartialEq, Eq)]
pub struct FormatCandidate {
    pub id: String,
    /// Total bitrate; only its order among candidates matters.
    pub bitrate: u64,
    pub extension: String,
    pub has_video: bool,
    pub has_audio: bool,
    pub width: Option<u64>,
    pub height: Option<u64>,
}

/// A chosen format: what the downloader and the file names need of it.
#[derive(Clone, Debug, PartialEq, Eq)]
pub struct SelectedFormat {
    pub id: String,
    pub bitrate: u64,
    pub extension: String,
}

pub open spec fn is_audio_only(c: FormatCandidate) -> bool {
    c.has_audio && !c.has_video
}

/// `s` carries the id, bitrate and extension of `c`.
pub open spec fn selected_from(s: SelectedFormat, c: FormatCandidate) -> bool {
    s.id@ == c.id@ && s.bitrate == c.bitrate && s.extension@ == c.extension@
}

pub open spec fn has_video_candidate(cands: Seq<FormatCandidate>) -> bool {
    exists|i: int| 0 <= i < cands.len() && (#[trigger] cands[i]).has_video
}

/// Candidate `i` has a video track, no video candidate has a higher bitrate,
/// and every video candidate before it has a lower one.
pub open spec fn is_best_video(cands: Seq<FormatCandidate>, i: int) -> bool {
    &&& 0 <= i < cands.len()
    &&& cands[i].has_video
    &&& forall|j: int|
        0 <= j < cands.len() && (#[trigger] cands[j]).has_video ==> cands[j].bitrate
            <= cands[i].bitrate
    &&& forall|j: int|
        0 <= j < i && (#[trigger] cands[j]).has_video ==> cands[j].bitrate < cands[i].bitrate
}

/// Among the first `n` candidates, candidate `i` is audio-only, no audio-only
/// candidate of its extension has a higher bitrate, and every such candidate
/// before it has a lower one.
pub open spec fn is_best_audio_in(cands: Seq<FormatCandidate>, n: int, i: int) -> bool {
    &&& 0 <= i < n <= cands.len()
    &&& is_audio_only(cands[i])
    &&& forall|j: int|
        0 <= j < n && is_audio_only(#[trigger] cands[j]) && cands[j].extension@
            == cands[i].extension@ ==> cands[j].bitrate <= cands[i].bitrate
    &&& forall|j: int|
        0 <= j < i && is_audio_only(#[trigger] cands[j]) && cands[j].extension@
            == cands[i].extension@ ==> cands[j].bitrate < cands[i].bitrate
}

pub open spec fn is_best_audio(cands: Seq<FormatCandidate>, i: int) -> bool {
    is_best_audio_in(cands, cands.len() as int, i)
}

/// No two entries share an extension.
pub open spec fn extensions_distinct(best: Seq<SelectedFormat>) -> bool {
    forall|k1: int, k2: int|
        0 <= k1 < best.len() && 0 <= k2 < best.len() && k1 != k2 ==> (#[trigger] best[k1]).extension@
            != (#[trigger] best[k2]).extension@
}

/// `s` is the best audio-only candidate of its extension among the first `n`.
pub open spec fn is_best_audio_entry(cands: Seq<FormatCandidate>, n: int, s: SelectedFormat) -> bool {
    exists|i: int| is_best_audio_in(cands, n, i) && selected_from(s, cands[i])
}

/// Some entry of `best` has extension `ext`.
pub open spec fn has_extension(best: Seq<SelectedFormat>, ext: Seq<char>) -> bool {
    exists|k: int| 0 <= k < best.len() && (#[trigger] best[k]).extension@ == ext
}

/// `best` holds, once for each extension of an audio-only candidate, the best
/// audio-only candidate of that extension among the first `n`.
pub open spec fn is_audio_table_in(
    cands: Seq<FormatCandidate>,
    n: int,
    best: Seq<SelectedFormat>,
) -> bool {
    &&& extensions_distinct(best)
    &&& forall|k: int| 0 <= k < best.len() ==> is_best_audio_entry(cands, n, #[trigger] best[k])
    &&& forall|i: int|
        0 <= i < n && is_audio_only(#[trigger] cands[i]) ==> has_extension(best, cands[i].extension@)
}

pub open spec fn is_audio_table(cands: Seq<FormatCandidate>, best: Seq<SelectedFormat>) -> bool {
    is_audio_table_in(cands, cands.len() as int, best)
}

/// At most one candidate is the best video.
pub proof fn lemma_best_video_unique(cands: Seq<FormatCandidate>, i: int, j: int)
    requires
        is_best_video(cands, i),
        is_best_video(cands, j),
    ensures
        i == j,
{
    if i < j {
        assert(cands[i].has_video);
    } else if j < i {
        assert(cands[j].has_video);
    }
}

/// At most one candidate is the best audio-only candidate of an extension.
pub proof fn lemma_best_audio_unique(cands: Seq<FormatCandidate>, i: int, j: int)
    requires
        is_best_audio(cands, i),
        is_best_audio(cands, j),
        cands[i].extension@ == cands[j].extension@,
    ensures
        i == j,
{
    if i < j {
        assert(is_audio_only(cands[i]));
    } else if j < i {
        assert(is_audio_only(cands[j]));
    }
}

fn select(c: &FormatCandidate) -> (r: SelectedFormat)
    ensures
        selected_from(r, *c),
{
    SelectedFormat { id: c.id.clone(), bitrate: c.bitrate, extension: c.extension.clone() }
}

/// The video candidate with the highest bitrate; of several with that
/// bitrate, the first. `None` when no candidate has a video track.
pub fn best_video(cands: &Vec<FormatCandidate>) -> (r: Option<SelectedFormat>)
    ensures
        r is None <==> !has_video_candidate(cands@),
        r is Some ==> exists|i: int| is_best_video(cands@, i) && selected_from(r->0, cands@[i]),
{
    let mut best: Option<usize> = None;
    let n = cands.len();
    let mut i: usize = 0;
    while i < n
        invariant
            n == cands@.len(),
            i <= n,
            best is None ==> forall|j: int| 0 <= j < i ==> !(#[trigger] cands@[j]).has_video,
            best is Some ==> {
                let b = best->0 as int;
                &&& b < i
                &&& cands@[b].has_video
                &&& forall|j: int|
                    0 <= j < i && (#[trigger] cands@[j]).has_video ==> cands@[j].bitrate
                        <= cands@[b].bitrate
                &&& forall|j: int|
                    0 <= j < b && (#[trigger] cands@[j]).has_video ==> cands@[j].bitrate
                        < cands@[b].bitrate
            },
        decreases n - i,
    {
        if cands[i].has_video {
            match best {
                None => {
                    best = Some(i);
                },
                Some(b) => {
                    if cands[i].bitrate > cands[b].bitrate {
                        best = Some(i);
                    }
                },
            }
        }
        i = i + 1;
    }
    match best {
        None => None,
        Some(b) => {
            let r = select(&cands[b]);
            assert(is_best_video(cands@, b as int));
            Some(r)
        },
    }
}

/// The position of the entry of `best` with extension `ext`, if any.
pub fn find_extension(best: &Vec<SelectedFormat>, ext: &String) -> (r: Option<usize>)
    ensures
        r is None ==> forall|k: int| 0 <= k < best@.len() ==> (#[trigger] best@[k]).extension@ != ext@,
        r is Some ==> r->0 < best@.len() && best@[r->0 as int].extension@ == ext@,
        r is Some <==> has_extension(best@, ext@),
{
    let n = best.len();
    let mut k: usize = 0;
    while k < n
        invariant
            n == best@.len(),
            k <= n,
            forall|m: int| 0 <= m < k ==> (#[trigger] best@[m]).extension@ != ext@,
        decreases n - k,
    {
        if best[k].extension == *ext {
            return Some(k);
        }
        k = k + 1;
    }
    None
}


/// A best audio-only candidate among the first `i` stays best among the
/// first `i + 1` unless candidate `i` beats it.
proof fn lemma_best_audio_extend(cands: Seq<FormatCandidate>, i: int, b: int)
    requires
        is_best_audio_in(cands, i, b),
        i < cands.len(),
        is_audio_only(cands[i]) && cands[i].extension@ == cands[b].extension@ ==> cands[i].bitrate
            <= cands[b].bitrate,
    ensures
        is_best_audio_in(cands, i + 1, b),
{
    assert forall|j: int|
        0 <= j < i + 1 && is_audio_only(#[trigger] cands[j]) && cands[j].extension@
            == cands[b].extension@ implies cands[j].bitrate <= cands[b].bitrate by {
        if j < i {
        }
    }
}

/// For each extension of an audio-only candidate, the candidate of that
/// extension with the highest bitrate; of several with that bitrate, the
/// first. One entry per extension.
pub fn best_audio(cands: &Vec<FormatCandidate>) -> (r: Vec<SelectedFormat>)
    ensures
        is_audio_table(cands@, r@),
{
    let mut best: Vec<SelectedFormat> = Vec::new();
    let ghost mut idx: Seq<int> = Seq::empty();
    let n = cands.len();
    let mut i: usize = 0;
    while i < n
        invariant
            n == cands@.len(),
            i <= n,
            idx.len() == best@.len(),
            extensions_distinct(best@),
            forall|k: int|
                0 <= k < best@.len() ==> is_best_audio_in(cands@, i as int, #[trigger] idx[k])
                    && selected_from(best@[k], cands@[idx[k]]),
            forall|j: int|
                0 <= j < i && is_audio_only(#[trigger] cands@[j]) ==> exists|k: int|
                    0 <= k < best@.len() && (#[trigger] best@[k]).extension@
                        == cands@[j].extension@,
        decreases n - i,
    {
        let c = &cands[i];
        let ghost ci = cands@[i as int];
        let ghost old_best = best@;
        let ghost old_idx = idx;
        if c.has_audio && !c.has_video {
            match find_extension(&best, &c.extension) {
                None => {
                    best.push(select(c));
                    proof {
                        idx = idx.push(i as int);
                        assert forall|k: int| 0 <= k < old_best.len() implies is_best_audio_in(
                            cands@,
                            i + 1,
                            #[trigger] idx[k],
                        ) by {
                            assert(best@[k] == old_best[k]);
                            lemma_best_audio_extend(cands@, i as int, idx[k]);
                        }
                        assert forall|j: int|
                            0 <= j < i && is_audio_only(#[trigger] cands@[j]) && cands@[j].extension@
                                == ci.extension@ implies false by {
                            let k = choose|k: int|
                                0 <= k < old_best.len() && (#[trigger] old_best[k]).extension@
                                    == cands@[j].extension@;
                            assert(old_best[k].extension@ != ci.extension@);
                        }
                        assert(is_best_audio_in(cands@, i + 1, i as int));
                        assert forall|j: int|
                            0 <= j < i + 1 && is_audio_only(#[trigger] cands@[j]) implies exists|k: int|
                            0 <= k < best@.len() && (#[trigger] best@[k]).extension@
                                == cands@[j].extension@ by {
                            if j < i {
                                let k = choose|k: int|
                                    0 <= k < old_best.len() && (#[trigger] old_best[k]).extension@
                                        == cands@[j].extension@;
                                assert(best@[k] == old_best[k]);
                            } else {
                                assert(best@[old_best.len() as int].extension@ == cands@[j].extension@);
                            }
                        }
                    }
                },
                Some(k) => {
                    if c.bitrate > best[k].bitrate {
                        best.set(k, select(c));
                        proof {
                            let b = old_idx[k as int];
                            idx = idx.update(k as int, i as int);
                            assert forall|m: int| 0 <= m < best@.len() && m != k implies is_best_audio_in(
                                cands@,
                                i + 1,
                                #[trigger] idx[m],
                            ) by {
                                assert(best@[m] == old_best[m]);
                                assert(old_best[m].extension@ != old_best[k as int].extension@);
                                lemma_best_audio_extend(cands@, i as int, idx[m]);
                            }
                            assert forall|j: int|
                                0 <= j < i && is_audio_only(#[trigger] cands@[j])
                                    && cands@[j].extension@ == ci.extension@ implies cands@[j].bitrate
                                < ci.bitrate by {
                                assert(cands@[j].bitrate <= cands@[b].bitrate);
                            }
                            assert(is_best_audio_in(cands@, i + 1, i as int));
                            assert(idx[k as int] == i as int);
                            assert forall|j: int|
                                0 <= j < i + 1 && is_audio_only(#[trigger] cands@[j]) implies exists|m: int|
                                0 <= m < best@.len() && (#[trigger] best@[m]).extension@
                                    == cands@[j].extension@ by {
                                if j < i {
                                    let m = choose|m: int|
                                        0 <= m < old_best.len() && (#[trigger] old_best[m]).extension@
                                            == cands@[j].extension@;
                                    assert(best@[m].extension@ == old_best[m].extension@);
                                } else {
                                    assert(best@[k as int].extension@ == cands@[j].extension@);
                                }
                            }
                            assert(extensions_distinct(best@)) by {
                                assert forall|k1: int, k2: int|
                                    0 <= k1 < best@.len() && 0 <= k2 < best@.len() && k1 != k2 implies (
                                    #[trigger] best@[k1]).extension@ != (#[trigger] best@[k2]).extension@ by {
                                    assert(best@[k1].extension@ == old_best[k1].extension@);
                                    assert(best@[k2].extension@ == old_best[k2].extension@);
                                }
                            }
                        }
                    } else {
                        proof {
                            assert forall|m: int| 0 <= m < best@.len() implies is_best_audio_in(
                                cands@,
                                i + 1,
                                #[trigger] idx[m],
                            ) by {
                                if m != k {
                                    assert(old_best[m].extension@ != old_best[k as int].extension@);
                                }
                                lemma_best_audio_extend(cands@, i as int, idx[m]);
                            }
                            assert forall|j: int|
                                0 <= j < i + 1 && is_audio_only(#[trigger] cands@[j]) implies exists|m: int|
                                0 <= m < best@.len() && (#[trigger] best@[m]).extension@
                                    == cands@[j].extension@ by {
                                if j == i {
                                    assert(best@[k as int].extension@ == cands@[j].extension@);
                                }
                            }
                        }
                    }
                },
            }
        } else {
            proof {
                assert forall|m: int| 0 <= m < best@.len() implies is_best_audio_in(
                    cands@,
                    i + 1,
                    #[trigger] idx[m],
                ) by {
                    lemma_best_audio_extend(cands@, i as int, idx[m]);
                }
            }
        }
        i = i + 1;
    }
    proof {
        assert forall|k: int| 0 <= k < best@.len() implies is_best_audio_entry(
            cands@,
            n as int,
            #[trigger] best@[k],
        ) by {
            assert(is_best_audio_in(cands@, n as int, idx[k]));
        }
        assert forall|j: int| 0 <= j < n && is_audio_only(#[trigger] cands@[j]) implies has_extension(
            best@,
            cands@[j].extension@,
        ) by {
            let k = choose|k: int|
                0 <= k < best@.len() && (#[trigger] best@[k]).extension@ == cands@[j].extension@;
        }
    }
    best
}


/// The audio extension that goes with a video extension: `m4a` for `mp4`,
/// `webm` for `webm`, and empty for any other.
pub open spec fn audio_extension_of(video_ext: Seq<char>) -> Seq<char> {
    if video_ext == seq!['m', 'p', '4'] {
        seq!['m', '4', 'a']
    } else if video_ext == seq!['w', 'e', 'b', 'm'] {
        seq!['w', 'e', 'b', 'm']
    } else {
        Seq::empty()
    }
}

/// The audio extension to pair with a video of extension `video_ext`.
pub fn audio_extension_for(video_ext: &String) -> (r: String)
    ensures
        r@ == audio_extension_of(video_ext@),
{
    proof {
        reveal_strlit("mp4");
        reveal_strlit("m4a");
        reveal_strlit("webm");
        reveal_strlit("");
        assert("mp4"@ =~= seq!['m', 'p', '4']);
        assert("m4a"@ =~= seq!['m', '4', 'a']);
        assert("webm"@ =~= seq!['w', 'e', 'b', 'm']);
        assert(""@ =~= Seq::<char>::empty());
    }
    if *video_ext == String::from_str("mp4") {
        String::from_str("m4a")
    } else if *video_ext == String::from_str("webm") {
        String::from_str("webm")
    } else {
        String::new()
    }
}

} // verus!
