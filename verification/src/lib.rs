//! A verified Matroska/WebM container demuxer core.
//!
//! The crate works on a plain in-memory byte buffer and has two layers that
//! share one EBML primitive reader: a metadata parser that extracts the
//! segment title, duration and track list in one top-down pass, and a frame
//! demuxer that walks Cluster/Block elements one frame at a time and can be
//! reset to the start of the segment for further full passes. An
//! orchestration function combines the two and accumulates the raw payload
//! bytes of every audio track.

pub mod demux;
pub mod ebml;
pub mod error;
pub mod meta;

use vstd::prelude::*;
use vstd::utf8::encode_utf8;

use crate::demux::{payloads_concat, spec_run, track_frames, DemuxSession, SessionV};
use crate::error::ParseError;
use crate::meta::{
    parse_metadata, spec_locate_segment, spec_parse_metadata, tracks_view, SegmentInfo, TrackEntry,
    TrackEntryV, TrackType,
};

verus! {

/// The accumulated raw payload of one audio track: its number, its codec
/// identifier, and every payload byte of its frames, in stream order.
#[derive(Debug)]
pub struct AudioTrack {
    pub track_id: u64,
    pub codec: String,
    pub data: Vec<u8>,
}

/// Mathematical image of an `AudioTrack`.
#[verifier::ext_equal]
pub struct AudioTrackV {
    pub track_id: u64,
    pub codec_bytes: Seq<u8>,
    pub data: Seq<u8>,
}

impl View for AudioTrack {
    type V = AudioTrackV;

    open spec fn view(&self) -> AudioTrackV {
        AudioTrackV {
            track_id: self.track_id,
            codec_bytes: encode_utf8(self.codec@),
            data: self.data@,
        }
    }
}

pub open spec fn audio_view(ats: Seq<AudioTrack>) -> Seq<AudioTrackV> {
    ats.map_values(|a: AudioTrack| a@)
}

/// The complete result of one analysis pass: the segment info, every
/// declared track, and the accumulated payload of every audio track.
#[derive(Debug)]
pub struct Analysis {
    pub info: SegmentInfo,
    pub tracks: Vec<TrackEntry>,
    pub audio_tracks: Vec<AudioTrack>,
}

/// The session state every demuxing pass starts from: the cursor at the
/// start of the Segment payload (an empty range when no Segment exists).
pub open spec fn spec_base_session(s: Seq<u8>) -> SessionV {
    match spec_locate_segment(s) {
        Ok(Some((ps, pe))) => SessionV {
            data: s,
            seg_start: ps as int,
            seg_end: pe as int,
            pos: ps as int,
            cluster_end: None,
            cluster_tc: None,
            pending: Seq::empty(),
        },
        _ => SessionV {
            data: s,
            seg_start: 0,
            seg_end: 0,
            pos: 0,
            cluster_end: None,
            cluster_tc: None,
            pending: Seq::empty(),
        },
    }
}

/// Every payload byte of track `tn` over one full demuxing pass of the
/// container, concatenated in stream order.
pub open spec fn spec_track_data(s: Seq<u8>, tn: u64) -> Seq<u8> {
    payloads_concat(track_frames(spec_run(spec_base_session(s)), tn))
}

/// The audio-track results owed for a track list: one entry per Audio-typed
/// track, in declaration order, carrying that track's accumulated payload.
pub open spec fn spec_audio_list(s: Seq<u8>, tv: Seq<TrackEntryV>) -> Seq<AudioTrackV> {
    tv.filter(|t: TrackEntryV| t.track_type == TrackType::Audio).map_values(
        |t: TrackEntryV|
            AudioTrackV {
                track_id: t.track_number,
                codec_bytes: t.codec_bytes,
                data: spec_track_data(s, t.track_number),
            },
    )
}

proof fn lemma_audio_list_empty(s: Seq<u8>)
    ensures
        spec_audio_list(s, Seq::empty()) == Seq::<AudioTrackV>::empty(),
{
    reveal_with_fuel(Seq::<_>::filter, 1);
    assert(Seq::<TrackEntryV>::empty().filter(
        |t: TrackEntryV| t.track_type == TrackType::Audio,
    ) =~= Seq::<TrackEntryV>::empty());
    assert(spec_audio_list(s, Seq::empty()) =~= Seq::<AudioTrackV>::empty());
}

proof fn lemma_audio_list_push(s: Seq<u8>, tv: Seq<TrackEntryV>, t: TrackEntryV)
    ensures
        t.track_type == TrackType::Audio ==> spec_audio_list(s, tv.push(t)) == spec_audio_list(
            s,
            tv,
        ).push(
            AudioTrackV {
                track_id: t.track_number,
                codec_bytes: t.codec_bytes,
                data: spec_track_data(s, t.track_number),
            },
        ),
        t.track_type != TrackType::Audio ==> spec_audio_list(s, tv.push(t)) == spec_audio_list(
            s,
            tv,
        ),
{
    let pred = (|x: TrackEntryV| x.track_type == TrackType::Audio);
    reveal_with_fuel(Seq::<_>::filter, 2);
    assert(tv.push(t).drop_last() =~= tv);
    assert(tv.push(t).last() == t);
    if t.track_type == TrackType::Audio {
        assert(tv.push(t).filter(pred) =~= tv.filter(pred).push(t));
        assert(tv.filter(pred).push(t).map_values(
            |x: TrackEntryV|
                AudioTrackV {
                    track_id: x.track_number,
                    codec_bytes: x.codec_bytes,
                    data: spec_track_data(s, x.track_number),
                },
        ) =~= spec_audio_list(s, tv).push(
            AudioTrackV {
                track_id: t.track_number,
                codec_bytes: t.codec_bytes,
                data: spec_track_data(s, t.track_number),
            },
        ));
        assert(spec_audio_list(s, tv.push(t)) =~= spec_audio_list(s, tv).push(
            AudioTrackV {
                track_id: t.track_number,
                codec_bytes: t.codec_bytes,
                data: spec_track_data(s, t.track_number),
            },
        ));
    } else {
        assert(tv.push(t).filter(pred) =~= tv.filter(pred));
        assert(spec_audio_list(s, tv.push(t)) =~= spec_audio_list(s, tv));
    }
}

/// Analyzes a complete container: parses the metadata, then runs one
/// demuxing pass per Audio-typed track (rewinding between passes) to
/// accumulate that track's payload bytes. Fails exactly when the metadata
/// parse fails; a frame-read failure inside a pass ends that pass silently,
/// as the demuxer's conservative policy prescribes.
pub fn analyze(data: Vec<u8>) -> (r: Result<Analysis, ParseError>)
    ensures
        match (r, spec_parse_metadata(data@)) {
            (Ok(a), Ok((iv, tv))) => a.info@ == iv && tracks_view(a.tracks@) == tv && audio_view(
                a.audio_tracks@,
            ) == spec_audio_list(data@, tv),
            (Err(e1), Err(e2)) => e1 == e2,
            _ => false,
        },
{
    let ghost s = data@;
    let (info, tracks) = match parse_metadata(&data) {
        Ok(t) => t,
        Err(e) => return Err(e),
    };
    let mut sess = match DemuxSession::open(data) {
        Ok(sess) => sess,
        Err(e) => {
            proof {
                assert(false);
            }
            return Err(e);
        },
    };
    let ghost base = spec_base_session(s);
    proof {
        assert(sess@ =~= base);
    }
    let mut audio: Vec<AudioTrack> = Vec::new();
    let n = tracks.len();
    let mut i: usize = 0;
    proof {
        lemma_audio_list_empty(s);
        assert(audio_view(audio@) =~= Seq::<AudioTrackV>::empty());
        assert(tracks_view(tracks@).take(0) =~= Seq::<TrackEntryV>::empty());
    }
    while i < n
        invariant
            i <= n,
            n == tracks@.len(),
            sess.wf(),
            sess@.data == base.data,
            sess@.seg_start == base.seg_start,
            sess@.seg_end == base.seg_end,
            base == spec_base_session(s),
            audio_view(audio@) == spec_audio_list(s, tracks_view(tracks@).take(i as int)),
        decreases n - i,
    {
        let tn = tracks[i].track_number;
        let is_audio = tracks[i].track_type == TrackType::Audio;
        proof {
            assert(tracks_view(tracks@).take(i as int + 1) =~= tracks_view(tracks@).take(
                i as int,
            ).push(tracks_view(tracks@)[i as int]));
            lemma_audio_list_push(s, tracks_view(tracks@).take(i as int), tracks_view(tracks@)[
                i as int
            ]);
        }
        if is_audio {
            sess.seek_to_start();
            proof {
                assert(sess@ =~= base);
            }
            let d = sess.collect_track(tn);
            let codec = tracks[i].codec_id.clone();
            let at = AudioTrack { track_id: tn, codec, data: d };
            let ghost atv = at@;
            let ghost prev = audio@;
            audio.push(at);
            proof {
                assert(audio_view(audio@) =~= audio_view(prev).push(atv));
                assert(atv =~= AudioTrackV {
                    track_id: tracks_view(tracks@)[i as int].track_number,
                    codec_bytes: tracks_view(tracks@)[i as int].codec_bytes,
                    data: spec_track_data(s, tracks_view(tracks@)[i as int].track_number),
                });
            }
        }
        i = i + 1;
    }
    proof {
        assert(tracks_view(tracks@).take(n as int) =~= tracks_view(tracks@));
    }
    Ok(Analysis { info, tracks, audio_tracks: audio })
}

} // verus!
