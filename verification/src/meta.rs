use vstd::prelude::*;
use vstd::utf8::{encode_utf8, valid_utf8};

use crate::ebml::{
    bytes_range, read_head, spec_read_head, spec_uint_value, uint_value_at, SizeVal,
};
use crate::error::ParseError;

verus! {

pub const EBML_HEADER_ID: u64 = 0x1A45_DFA3;

pub const SEGMENT_ID: u64 = 0x1853_8067;

pub const INFO_ID: u64 = 0x1549_A966;

pub const TIMECODE_SCALE_ID: u64 = 0x2A_D7B1;

pub const DURATION_ID: u64 = 0x4489;

pub const TITLE_ID: u64 = 0x7BA9;

pub const TRACKS_ID: u64 = 0x1654_AE6B;

pub const TRACK_ENTRY_ID: u64 = 0xAE;

pub const TRACK_NUMBER_ID: u64 = 0xD7;

pub const TRACK_TYPE_ID: u64 = 0x83;

pub const CODEC_ID_ID: u64 = 0x86;

/// The nanoseconds-per-tick scale assumed when a segment declares none.
pub const DEFAULT_TIMECODE_SCALE: u64 = 1_000_000;

/// The kind of content a track carries; numeric codes outside the three
/// recognized ones map to `Other` rather than failing the parse.
#[derive(Clone, Copy, Debug, PartialEq, Eq, Structural)]
pub enum TrackType {
    Video,
    Audio,
    Subtitle,
    Other,
}

/// One declared track: its non-zero number (the join key with frames), its
/// kind, and its codec identifier.
#[derive(Debug)]
pub struct TrackEntry {
    pub track_number: u64,
    pub track_type: TrackType,
    pub codec_id: String,
}

/// Segment-level metadata. The duration is kept as the raw tick count; the
/// nanosecond value is `duration_ticks * timecode_scale` (see
/// `duration_nanos`), and a caller wanting seconds divides by 10^9 itself.
#[derive(Debug)]
pub struct SegmentInfo {
    pub title: Option<String>,
    pub timecode_scale: u64,
    pub duration_ticks: Option<u64>,
}

/// Mathematical image of a `TrackEntry`: the codec identifier as its UTF-8
/// bytes.
#[verifier::ext_equal]
pub struct TrackEntryV {
    pub track_number: u64,
    pub track_type: TrackType,
    pub codec_bytes: Seq<u8>,
}

/// Mathematical image of a `SegmentInfo`: the title as its UTF-8 bytes.
#[verifier::ext_equal]
pub struct SegmentInfoV {
    pub title: Option<Seq<u8>>,
    pub timecode_scale: u64,
    pub duration_ticks: Option<u64>,
}

impl View for TrackEntry {
    type V = TrackEntryV;

    open spec fn view(&self) -> TrackEntryV {
        TrackEntryV {
            track_number: self.track_number,
            track_type: self.track_type,
            codec_bytes: encode_utf8(self.codec_id@),
        }
    }
}

impl View for SegmentInfo {
    type V = SegmentInfoV;

    open spec fn view(&self) -> SegmentInfoV {
        SegmentInfoV {
            title: match self.title {
                Some(t) => Some(encode_utf8(t@)),
                None => None,
            },
            timecode_scale: self.timecode_scale,
            duration_ticks: self.duration_ticks,
        }
    }
}

pub open spec fn tracks_view(ts: Seq<TrackEntry>) -> Seq<TrackEntryV> {
    ts.map_values(|t: TrackEntry| t@)
}

/// View of an optional string as its UTF-8 bytes.
pub open spec fn str_opt_view(t: Option<String>) -> Option<Seq<u8>> {
    match t {
        Some(s) => Some(encode_utf8(s@)),
        None => None,
    }
}

pub open spec fn info_opt_view(i: Option<SegmentInfo>) -> Option<SegmentInfoV> {
    match i {
        Some(x) => Some(x@),
        None => None,
    }
}

pub open spec fn tracks_opt_view(t: Option<Vec<TrackEntry>>) -> Option<Seq<TrackEntryV>> {
    match t {
        Some(x) => Some(tracks_view(x@)),
        None => None,
    }
}

/// The track type for a raw numeric code (0 stands for "not declared").
pub open spec fn spec_track_type(raw: u64) -> TrackType {
    if raw == 1 {
        TrackType::Video
    } else if raw == 2 {
        TrackType::Audio
    } else if raw == 0x11 {
        TrackType::Subtitle
    } else {
        TrackType::Other
    }
}

pub fn track_type_of(raw: u64) -> (t: TrackType)
    ensures
        t == spec_track_type(raw),
{
    if raw == 1 {
        TrackType::Video
    } else if raw == 2 {
        TrackType::Audio
    } else if raw == 0x11 {
        TrackType::Subtitle
    } else {
        TrackType::Other
    }
}

/// The EBML header signature that every Matroska/WebM file opens with.
pub open spec fn spec_has_magic(s: Seq<u8>) -> bool {
    s.len() >= 4 && s[0] == 0x1a && s[1] == 0x45 && s[2] == 0xdf && s[3] == 0xa3
}

/// Scans the top-level elements after the EBML header for the Segment and
/// returns its payload range; `Ok(None)` when the file ends (or an element of
/// unknown extent stands in the way) before a Segment appears.
pub open spec fn spec_scan_top(s: Seq<u8>, pos: int) -> Result<
    Option<(usize, usize)>,
    ParseError,
>
    decreases s.len() - pos,
{
    if pos >= s.len() {
        Ok(None)
    } else {
        match spec_read_head(s, pos) {
            Err(e) => Err(e),
            Ok((id, sz, hl)) => {
                if id == SEGMENT_ID {
                    let ps = pos + hl;
                    let pe = match sz {
                        SizeVal::Unknown => s.len() as int,
                        SizeVal::Known(v) => ps + v,
                    };
                    if pe > s.len() {
                        Err(ParseError::Truncated)
                    } else {
                        Ok(Some((ps as usize, pe as usize)))
                    }
                } else {
                    match sz {
                        SizeVal::Unknown => Ok(None),
                        SizeVal::Known(v) => {
                            if pos + hl + v > s.len() {
                                Err(ParseError::Truncated)
                            } else {
                                spec_scan_top(s, pos + hl + v)
                            }
                        },
                    }
                }
            },
        }
    }
}

/// Validates the signature, skips the EBML header element, and locates the
/// Segment payload. `NotMatroska` when the signature is missing; `Truncated`
/// when the header element reaches past the buffer.
pub open spec fn spec_locate_segment(s: Seq<u8>) -> Result<Option<(usize, usize)>, ParseError> {
    if !spec_has_magic(s) {
        Err(ParseError::NotMatroska)
    } else {
        match spec_read_head(s, 0) {
            Err(e) => Err(e),
            Ok((id, sz, hl)) => match sz {
                SizeVal::Unknown => Err(ParseError::Truncated),
                SizeVal::Known(v) => {
                    if hl + v > s.len() {
                        Err(ParseError::Truncated)
                    } else {
                        spec_scan_top(s, hl + v)
                    }
                },
            },
        }
    }
}

pub open spec fn spec_default_info() -> SegmentInfoV {
    SegmentInfoV { title: None, timecode_scale: DEFAULT_TIMECODE_SCALE as u64, duration_ticks: None }
}

pub open spec fn spec_info_finish(
    title: Option<Seq<u8>>,
    scale: Option<u64>,
    ticks: Option<u64>,
) -> SegmentInfoV {
    SegmentInfoV {
        title,
        timecode_scale: match scale {
            Some(sc) => sc,
            None => DEFAULT_TIMECODE_SCALE as u64,
        },
        duration_ticks: ticks,
    }
}

/// Walks the children of an Info element, accumulating the title bytes, the
/// timecode scale and the raw duration ticks; a later duplicate child
/// replaces an earlier one, and a child of unknown extent ends the walk.
pub open spec fn spec_parse_info(
    s: Seq<u8>,
    pos: int,
    end: int,
    title: Option<Seq<u8>>,
    scale: Option<u64>,
    ticks: Option<u64>,
) -> Result<SegmentInfoV, ParseError>
    decreases end - pos,
{
    if pos >= end {
        Ok(spec_info_finish(title, scale, ticks))
    } else {
        match spec_read_head(s, pos) {
            Err(e) => Err(e),
            Ok((id, sz, hl)) => match sz {
                SizeVal::Unknown => Ok(spec_info_finish(title, scale, ticks)),
                SizeVal::Known(v) => {
                    let ps = pos + hl;
                    let pe = ps + v;
                    if pe > end {
                        Err(ParseError::Truncated)
                    } else if id == TIMECODE_SCALE_ID {
                        if v > 8 {
                            Err(ParseError::MalformedId)
                        } else {
                            spec_parse_info(
                                s,
                                pe,
                                end,
                                title,
                                Some(spec_uint_value(s, ps, v as int)),
                                ticks,
                            )
                        }
                    } else if id == DURATION_ID {
                        if v > 8 {
                            Err(ParseError::MalformedId)
                        } else {
                            spec_parse_info(
                                s,
                                pe,
                                end,
                                title,
                                scale,
                                Some(spec_uint_value(s, ps, v as int)),
                            )
                        }
                    } else if id == TITLE_ID {
                        let tb = s.subrange(ps, pe);
                        if !valid_utf8(tb) {
                            Err(ParseError::MalformedId)
                        } else {
                            spec_parse_info(s, pe, end, Some(tb), scale, ticks)
                        }
                    } else {
                        spec_parse_info(s, pe, end, title, scale, ticks)
                    }
                },
            },
        }
    }
}

/// What a finished TrackEntry yields: both TrackNumber and CodecID are
/// required and the number must be non-zero, else `MalformedTrack`; a missing
/// TrackType counts as code 0, which maps to `Other`.
pub open spec fn spec_entry_finish(
    num: Option<u64>,
    ty: Option<u64>,
    codec: Option<Seq<u8>>,
) -> Result<TrackEntryV, ParseError> {
    match (num, codec) {
        (Some(n), Some(c)) => {
            if n == 0 {
                Err(ParseError::MalformedTrack)
            } else {
                Ok(
                    TrackEntryV {
                        track_number: n,
                        track_type: spec_track_type(
                            match ty {
                                Some(t) => t,
                                None => 0,
                            },
                        ),
                        codec_bytes: c,
                    },
                )
            }
        },
        _ => Err(ParseError::MalformedTrack),
    }
}

/// Walks the children of one TrackEntry element.
pub open spec fn spec_parse_entry(
    s: Seq<u8>,
    pos: int,
    end: int,
    num: Option<u64>,
    ty: Option<u64>,
    codec: Option<Seq<u8>>,
) -> Result<TrackEntryV, ParseError>
    decreases end - pos,
{
    if pos >= end {
        spec_entry_finish(num, ty, codec)
    } else {
        match spec_read_head(s, pos) {
            Err(e) => Err(e),
            Ok((id, sz, hl)) => match sz {
                SizeVal::Unknown => spec_entry_finish(num, ty, codec),
                SizeVal::Known(v) => {
                    let ps = pos + hl;
                    let pe = ps + v;
                    if pe > end {
                        Err(ParseError::Truncated)
                    } else if id == TRACK_NUMBER_ID {
                        if v > 8 {
                            Err(ParseError::MalformedTrack)
                        } else {
                            spec_parse_entry(
                                s,
                                pe,
                                end,
                                Some(spec_uint_value(s, ps, v as int)),
                                ty,
                                codec,
                            )
                        }
                    } else if id == TRACK_TYPE_ID {
                        if v > 8 {
                            Err(ParseError::MalformedTrack)
                        } else {
                            spec_parse_entry(
                                s,
                                pe,
                                end,
                                num,
                                Some(spec_uint_value(s, ps, v as int)),
                                codec,
                            )
                        }
                    } else if id == CODEC_ID_ID {
                        let cb = s.subrange(ps, pe);
                        if !valid_utf8(cb) {
                            Err(ParseError::MalformedTrack)
                        } else {
                            spec_parse_entry(s, pe, end, num, ty, Some(cb))
                        }
                    } else {
                        spec_parse_entry(s, pe, end, num, ty, codec)
                    }
                },
            },
        }
    }
}

/// Walks the children of a Tracks element, one output entry per TrackEntry
/// child, in order of appearance.
pub open spec fn spec_parse_tracks(s: Seq<u8>, pos: int, end: int, acc: Seq<TrackEntryV>) -> Result<
    Seq<TrackEntryV>,
    ParseError,
>
    decreases end - pos,
{
    if pos >= end {
        Ok(acc)
    } else {
        match spec_read_head(s, pos) {
            Err(e) => Err(e),
            Ok((id, sz, hl)) => match sz {
                SizeVal::Unknown => Ok(acc),
                SizeVal::Known(v) => {
                    let ps = pos + hl;
                    let pe = ps + v;
                    if pe > end {
                        Err(ParseError::Truncated)
                    } else if id == TRACK_ENTRY_ID {
                        match spec_parse_entry(s, ps, pe, None, None, None) {
                            Err(e) => Err(e),
                            Ok(t) => spec_parse_tracks(s, pe, end, acc.push(t)),
                        }
                    } else {
                        spec_parse_tracks(s, pe, end, acc)
                    }
                },
            },
        }
    }
}

/// Walks the direct children of the Segment, parsing the first Info and the
/// first Tracks element and skipping everything else; a child of unknown
/// extent (a streamed Cluster) ends the walk.
pub open spec fn spec_scan_segment(
    s: Seq<u8>,
    pos: int,
    end: int,
    info: Option<SegmentInfoV>,
    tracks: Option<Seq<TrackEntryV>>,
) -> Result<(SegmentInfoV, Seq<TrackEntryV>), ParseError>
    decreases end - pos,
{
    if pos >= end {
        Ok(spec_segment_finish(info, tracks))
    } else {
        match spec_read_head(s, pos) {
            Err(e) => Err(e),
            Ok((id, sz, hl)) => match sz {
                SizeVal::Unknown => Ok(spec_segment_finish(info, tracks)),
                SizeVal::Known(v) => {
                    let ps = pos + hl;
                    let pe = ps + v;
                    if pe > end {
                        Err(ParseError::Truncated)
                    } else if id == INFO_ID && info is None {
                        match spec_parse_info(s, ps, pe, None, None, None) {
                            Err(e) => Err(e),
                            Ok(iv) => spec_scan_segment(s, pe, end, Some(iv), tracks),
                        }
                    } else if id == TRACKS_ID && tracks is None {
                        match spec_parse_tracks(s, ps, pe, Seq::empty()) {
                            Err(e) => Err(e),
                            Ok(tv) => spec_scan_segment(s, pe, end, info, Some(tv)),
                        }
                    } else {
                        spec_scan_segment(s, pe, end, info, tracks)
                    }
                },
            },
        }
    }
}

pub open spec fn spec_segment_finish(
    info: Option<SegmentInfoV>,
    tracks: Option<Seq<TrackEntryV>>,
) -> (SegmentInfoV, Seq<TrackEntryV>) {
    (
        match info {
            Some(iv) => iv,
            None => spec_default_info(),
        },
        match tracks {
            Some(tv) => tv,
            None => Seq::empty(),
        },
    )
}

/// Pairwise-distinct track numbers.
pub open spec fn spec_tracks_unique(ts: Seq<TrackEntryV>) -> bool {
    forall|i: int, j: int|
        0 <= i < j < ts.len() ==> #[trigger] ts[i].track_number != #[trigger] ts[j].track_number
}

/// What `parse_metadata` returns: the segment info and the declared tracks in
/// file order, one output entry per declared TrackEntry; a duplicate track
/// number anywhere in the list is `MalformedTrack`.
pub open spec fn spec_parse_metadata(s: Seq<u8>) -> Result<
    (SegmentInfoV, Seq<TrackEntryV>),
    ParseError,
> {
    match spec_locate_segment(s) {
        Err(e) => Err(e),
        Ok(None) => Ok((spec_default_info(), Seq::empty())),
        Ok(Some((ps, pe))) => match spec_scan_segment(s, ps as int, pe as int, None, None) {
            Err(e) => Err(e),
            Ok((info, tracks)) => {
                if spec_tracks_unique(tracks) {
                    Ok((info, tracks))
                } else {
                    Err(ParseError::MalformedTrack)
                }
            },
        },
    }
}

/// Relies on std's `String::from_utf8`: it returns `Ok` exactly when the
/// bytes are valid UTF-8, and the returned string consists of exactly the
/// input bytes.
#[verifier::external_body]
fn string_from_bytes(b: Vec<u8>) -> (r: Option<String>)
    ensures
        r is Some <==> valid_utf8(b@),
        match r {
            Some(st) => encode_utf8(st@) == b@,
            None => true,
        },
{
    String::from_utf8(b).ok()
}

/// Validates the EBML signature and finds the Segment payload byte range.
pub fn locate_segment(data: &Vec<u8>) -> (r: Result<Option<(usize, usize)>, ParseError>)
    ensures
        r == spec_locate_segment(data@),
        match r {
            Ok(Some((ps, pe))) => ps <= pe <= data@.len(),
            _ => true,
        },
{
    let len = data.len();
    if len < 4 || data[0] != 0x1a || data[1] != 0x45 || data[2] != 0xdf || data[3] != 0xa3 {
        return Err(ParseError::NotMatroska);
    }
    let (_id0, sz0, hl0) = match read_head(data, 0) {
        Ok(t) => t,
        Err(e) => return Err(e),
    };
    let v0 = match sz0 {
        SizeVal::Known(v) => v,
        SizeVal::Unknown => return Err(ParseError::Truncated),
    };
    if v0 > (len - hl0) as u64 {
        return Err(ParseError::Truncated);
    }
    let mut pos: usize = hl0 + v0 as usize;
    loop
        invariant
            len == data@.len(),
            pos <= len,
            spec_locate_segment(data@) == spec_scan_top(data@, pos as int),
        decreases len - pos,
    {
        if pos >= len {
            return Ok(None);
        }
        let (id, sz, hl) = match read_head(data, pos) {
            Ok(t) => t,
            Err(e) => return Err(e),
        };
        if id == SEGMENT_ID {
            let ps = pos + hl;
            match sz {
                SizeVal::Unknown => {
                    return Ok(Some((ps, len)));
                },
                SizeVal::Known(v) => {
                    if v > (len - ps) as u64 {
                        return Err(ParseError::Truncated);
                    }
                    return Ok(Some((ps, ps + v as usize)));
                },
            }
        }
        match sz {
            SizeVal::Unknown => {
                return Ok(None);
            },
            SizeVal::Known(v) => {
                if v > (len - (pos + hl)) as u64 {
                    return Err(ParseError::Truncated);
                }
                pos = pos + hl + v as usize;
            },
        }
    }
}

/// Parses the children of an Info element.
fn parse_info(data: &Vec<u8>, pstart: usize, end: usize) -> (r: Result<SegmentInfo, ParseError>)
    requires
        pstart <= end <= data@.len(),
    ensures
        match (r, spec_parse_info(data@, pstart as int, end as int, None, None, None)) {
            (Ok(info), Ok(iv)) => info@ == iv,
            (Err(e1), Err(e2)) => e1 == e2,
            _ => false,
        },
{
    let mut pos = pstart;
    let mut title: Option<String> = None;
    let mut scale: Option<u64> = None;
    let mut ticks: Option<u64> = None;
    loop
        invariant
            pstart <= pos <= end <= data@.len(),
            spec_parse_info(data@, pstart as int, end as int, None, None, None)
                == spec_parse_info(data@, pos as int, end as int, str_opt_view(title), scale, ticks),
        decreases end - pos,
    {
        if pos >= end {
            return Ok(SegmentInfo {
                title,
                timecode_scale: match scale {
                    Some(sc) => sc,
                    None => DEFAULT_TIMECODE_SCALE,
                },
                duration_ticks: ticks,
            });
        }
        let (id, sz, hl) = match read_head(data, pos) {
            Ok(t) => t,
            Err(e) => return Err(e),
        };
        let v = match sz {
            SizeVal::Unknown => {
                return Ok(SegmentInfo {
                    title,
                    timecode_scale: match scale {
                        Some(sc) => sc,
                        None => DEFAULT_TIMECODE_SCALE,
                    },
                    duration_ticks: ticks,
                });
            },
            SizeVal::Known(v) => v,
        };
        if hl > end - pos {
            return Err(ParseError::Truncated);
        }
        let ps = pos + hl;
        if v > (end - ps) as u64 {
            return Err(ParseError::Truncated);
        }
        let pe = ps + v as usize;
        if id == TIMECODE_SCALE_ID {
            if v > 8 {
                return Err(ParseError::MalformedId);
            }
            scale = Some(uint_value_at(data, ps, v as usize));
        } else if id == DURATION_ID {
            if v > 8 {
                return Err(ParseError::MalformedId);
            }
            ticks = Some(uint_value_at(data, ps, v as usize));
        } else if id == TITLE_ID {
            let tb = bytes_range(data, ps, pe);
            match string_from_bytes(tb) {
                Some(st) => {
                    title = Some(st);
                },
                None => {
                    return Err(ParseError::MalformedId);
                },
            }
        }
        pos = pe;
    }
}

/// Parses the children of one TrackEntry element.
fn parse_entry(data: &Vec<u8>, pstart: usize, end: usize) -> (r: Result<TrackEntry, ParseError>)
    requires
        pstart <= end <= data@.len(),
    ensures
        match (r, spec_parse_entry(data@, pstart as int, end as int, None, None, None)) {
            (Ok(t), Ok(tv)) => t@ == tv,
            (Err(e1), Err(e2)) => e1 == e2,
            _ => false,
        },
{
    let mut pos = pstart;
    let mut num: Option<u64> = None;
    let mut ty: Option<u64> = None;
    let mut codec: Option<String> = None;
    loop
        invariant
            pstart <= pos <= end <= data@.len(),
            spec_parse_entry(data@, pstart as int, end as int, None, None, None)
                == spec_parse_entry(data@, pos as int, end as int, num, ty, str_opt_view(codec)),
        decreases end - pos,
    {
        if pos >= end {
            return entry_finish(num, ty, codec);
        }
        let (id, sz, hl) = match read_head(data, pos) {
            Ok(t) => t,
            Err(e) => return Err(e),
        };
        let v = match sz {
            SizeVal::Unknown => {
                return entry_finish(num, ty, codec);
            },
            SizeVal::Known(v) => v,
        };
        if hl > end - pos {
            return Err(ParseError::Truncated);
        }
        let ps = pos + hl;
        if v > (end - ps) as u64 {
            return Err(ParseError::Truncated);
        }
        let pe = ps + v as usize;
        if id == TRACK_NUMBER_ID {
            if v > 8 {
                return Err(ParseError::MalformedTrack);
            }
            num = Some(uint_value_at(data, ps, v as usize));
        } else if id == TRACK_TYPE_ID {
            if v > 8 {
                return Err(ParseError::MalformedTrack);
            }
            ty = Some(uint_value_at(data, ps, v as usize));
        } else if id == CODEC_ID_ID {
            let cb = bytes_range(data, ps, pe);
            match string_from_bytes(cb) {
                Some(st) => {
                    codec = Some(st);
                },
                None => {
                    return Err(ParseError::MalformedTrack);
                },
            }
        }
        pos = pe;
    }
}

/// Builds the finished entry, checking the required children.
fn entry_finish(num: Option<u64>, ty: Option<u64>, codec: Option<String>) -> (r: Result<
    TrackEntry,
    ParseError,
>)
    ensures
        match (r, spec_entry_finish(num, ty, str_opt_view(codec))) {
            (Ok(t), Ok(tv)) => t@ == tv,
            (Err(e1), Err(e2)) => e1 == e2,
            _ => false,
        },
{
    match (num, codec) {
        (Some(n), Some(c)) => {
            if n == 0 {
                Err(ParseError::MalformedTrack)
            } else {
                Ok(TrackEntry {
                    track_number: n,
                    track_type: track_type_of(match ty {
                        Some(t) => t,
                        None => 0,
                    }),
                    codec_id: c,
                })
            }
        },
        _ => Err(ParseError::MalformedTrack),
    }
}

/// Parses the children of a Tracks element into the declared entries, in
/// file order.
fn parse_tracks(data: &Vec<u8>, pstart: usize, end: usize) -> (r: Result<
    Vec<TrackEntry>,
    ParseError,
>)
    requires
        pstart <= end <= data@.len(),
    ensures
        match (r, spec_parse_tracks(data@, pstart as int, end as int, Seq::empty())) {
            (Ok(ts), Ok(tv)) => tracks_view(ts@) == tv,
            (Err(e1), Err(e2)) => e1 == e2,
            _ => false,
        },
{
    let mut pos = pstart;
    let mut acc: Vec<TrackEntry> = Vec::new();
    proof {
        assert(tracks_view(acc@) =~= Seq::<TrackEntryV>::empty());
    }
    loop
        invariant
            pstart <= pos <= end <= data@.len(),
            spec_parse_tracks(data@, pstart as int, end as int, Seq::empty())
                == spec_parse_tracks(data@, pos as int, end as int, tracks_view(acc@)),
        decreases end - pos,
    {
        if pos >= end {
            return Ok(acc);
        }
        let (id, sz, hl) = match read_head(data, pos) {
            Ok(t) => t,
            Err(e) => return Err(e),
        };
        let v = match sz {
            SizeVal::Unknown => {
                return Ok(acc);
            },
            SizeVal::Known(v) => v,
        };
        if hl > end - pos {
            return Err(ParseError::Truncated);
        }
        let ps = pos + hl;
        if v > (end - ps) as u64 {
            return Err(ParseError::Truncated);
        }
        let pe = ps + v as usize;
        if id == TRACK_ENTRY_ID {
            match parse_entry(data, ps, pe) {
                Ok(t) => {
                    let ghost prev = acc@;
                    let ghost tv = t@;
                    acc.push(t);
                    proof {
                        assert(tracks_view(acc@) =~= tracks_view(prev).push(tv));
                    }
                },
                Err(e) => {
                    return Err(e);
                },
            }
        }
        pos = pe;
    }
}

/// Checks that no two entries share a track number.
fn tracks_are_unique(ts: &Vec<TrackEntry>) -> (b: bool)
    ensures
        b == spec_tracks_unique(tracks_view(ts@)),
{
    let n = ts.len();
    let mut i: usize = 1;
    while i < n
        invariant
            n == ts@.len(),
            1 <= i || n == 0,
            i <= n || (n == 0 && i == 1),
            forall|p: int, q: int|
                0 <= p < q < i && q < n ==> #[trigger] tracks_view(ts@)[p].track_number
                    != #[trigger] tracks_view(ts@)[q].track_number,
        decreases n - i,
    {
        let mut j: usize = 0;
        while j < i
            invariant
                0 <= j <= i < n,
                n == ts@.len(),
                forall|p: int, q: int|
                    0 <= p < q < i && q < n ==> #[trigger] tracks_view(ts@)[p].track_number
                        != #[trigger] tracks_view(ts@)[q].track_number,
                forall|q: int|
                    0 <= q < j ==> #[trigger] tracks_view(ts@)[q].track_number != tracks_view(
                        ts@,
                    )[i as int].track_number,
            decreases i - j,
        {
            if ts[j].track_number == ts[i].track_number {
                assert(tracks_view(ts@)[j as int].track_number == tracks_view(
                    ts@,
                )[i as int].track_number);
                return false;
            }
            j = j + 1;
        }
        i = i + 1;
    }
    true
}

/// Parses the container's metadata in one pass: the segment info (title,
/// timecode scale, raw duration ticks) and the declared tracks in file order.
///
/// The result equals `spec_parse_metadata` of the input bytes exactly: on
/// success there is one output entry per declared TrackEntry, in order of
/// appearance, each with a non-zero track number and a unique one among the
/// entries; on failure the error names what went wrong (`NotMatroska` for a
/// missing signature, `Truncated` for a size past the buffer, `Malformed*`
/// for invalid fields).
pub fn parse_metadata(data: &Vec<u8>) -> (r: Result<(SegmentInfo, Vec<TrackEntry>), ParseError>)
    ensures
        match (r, spec_parse_metadata(data@)) {
            (Ok((info, tracks)), Ok((iv, tv))) => info@ == iv && tracks_view(tracks@) == tv,
            (Err(e1), Err(e2)) => e1 == e2,
            _ => false,
        },
        (match r {
            Ok((info, tracks)) => spec_tracks_unique(tracks_view(tracks@)) && spec_tracks_nonzero(
                tracks_view(tracks@),
            ),
            Err(_) => true,
        }),
{
    proof {
        lemma_metadata_tracks_valid(data@);
    }
    let range = match locate_segment(data) {
        Ok(rg) => rg,
        Err(e) => return Err(e),
    };
    let (ps, pe) = match range {
        Some(r) => r,
        None => {
            return Ok(
                (
                    SegmentInfo {
                        title: None,
                        timecode_scale: DEFAULT_TIMECODE_SCALE,
                        duration_ticks: None,
                    },
                    Vec::new(),
                ),
            );
        },
    };
    let (info, tracks) = match scan_segment(data, ps, pe) {
        Ok(t) => t,
        Err(e) => return Err(e),
    };
    if !tracks_are_unique(&tracks) {
        return Err(ParseError::MalformedTrack);
    }
    Ok((info, tracks))
}

/// Walks the Segment's direct children for the first Info and Tracks.
fn scan_segment(data: &Vec<u8>, pstart: usize, end: usize) -> (r: Result<
    (SegmentInfo, Vec<TrackEntry>),
    ParseError,
>)
    requires
        pstart <= end <= data@.len(),
    ensures
        match (r, spec_scan_segment(data@, pstart as int, end as int, None, None)) {
            (Ok((info, tracks)), Ok((iv, tv))) => info@ == iv && tracks_view(tracks@) == tv,
            (Err(e1), Err(e2)) => e1 == e2,
            _ => false,
        },
{
    let mut pos = pstart;
    let mut info: Option<SegmentInfo> = None;
    let mut tracks: Option<Vec<TrackEntry>> = None;
    loop
        invariant
            pstart <= pos <= end <= data@.len(),
            spec_scan_segment(data@, pstart as int, end as int, None, None) == spec_scan_segment(
                data@,
                pos as int,
                end as int,
                info_opt_view(info),
                tracks_opt_view(tracks),
            ),
        decreases end - pos,
    {
        if pos >= end {
            return Ok(segment_finish(info, tracks));
        }
        let (id, sz, hl) = match read_head(data, pos) {
            Ok(t) => t,
            Err(e) => return Err(e),
        };
        let v = match sz {
            SizeVal::Unknown => {
                return Ok(segment_finish(info, tracks));
            },
            SizeVal::Known(v) => v,
        };
        if hl > end - pos {
            return Err(ParseError::Truncated);
        }
        let ps = pos + hl;
        if v > (end - ps) as u64 {
            return Err(ParseError::Truncated);
        }
        let pe = ps + v as usize;
        if id == INFO_ID && info.is_none() {
            match parse_info(data, ps, pe) {
                Ok(iv) => {
                    info = Some(iv);
                },
                Err(e) => {
                    return Err(e);
                },
            }
        } else if id == TRACKS_ID && tracks.is_none() {
            match parse_tracks(data, ps, pe) {
                Ok(tv) => {
                    tracks = Some(tv);
                },
                Err(e) => {
                    return Err(e);
                },
            }
        }
        pos = pe;
    }
}

/// Builds the finished metadata pair, with defaults for a missing Info or
/// Tracks element.
fn segment_finish(info: Option<SegmentInfo>, tracks: Option<Vec<TrackEntry>>) -> (r: (
    SegmentInfo,
    Vec<TrackEntry>,
))
    ensures
        (r.0@, tracks_view(r.1@)) == spec_segment_finish(info_opt_view(info), tracks_opt_view(tracks)),
{
    let i = match info {
        Some(iv) => iv,
        None => SegmentInfo {
            title: None,
            timecode_scale: DEFAULT_TIMECODE_SCALE,
            duration_ticks: None,
        },
    };
    let t = match tracks {
        Some(tv) => tv,
        None => Vec::new(),
    };
    proof {
        assert(tracks_view(Seq::<TrackEntry>::empty()) =~= Seq::<TrackEntryV>::empty());
    }
    (i, t)
}

impl SegmentInfo {
    /// The duration in nanoseconds: raw ticks times the timecode scale, or
    /// `None` when no duration was declared or the product leaves `u64`.
    pub fn duration_nanos(&self) -> (r: Option<u64>)
        ensures
            r == spec_duration_nanos(self@),
    {
        match self.duration_ticks {
            None => None,
            Some(t) => t.checked_mul(self.timecode_scale),
        }
    }
}

/// Nanosecond duration of a segment: ticks times scale when both exist and
/// the product fits in 64 bits.
pub open spec fn spec_duration_nanos(info: SegmentInfoV) -> Option<u64> {
    match info.duration_ticks {
        None => None,
        Some(t) => {
            if t * info.timecode_scale <= u64::MAX {
                Some((t * info.timecode_scale) as u64)
            } else {
                None
            }
        },
    }
}

pub open spec fn spec_tracks_nonzero(ts: Seq<TrackEntryV>) -> bool {
    forall|i: int| 0 <= i < ts.len() ==> #[trigger] ts[i].track_number != 0
}

proof fn lemma_entry_nonzero(
    s: Seq<u8>,
    pos: int,
    end: int,
    num: Option<u64>,
    ty: Option<u64>,
    codec: Option<Seq<u8>>,
)
    ensures
        match spec_parse_entry(s, pos, end, num, ty, codec) {
            Ok(t) => t.track_number != 0,
            Err(_) => true,
        },
    decreases end - pos,
{
    if pos >= end {
    } else {
        match spec_read_head(s, pos) {
            Err(_) => {},
            Ok((id, sz, hl)) => match sz {
                SizeVal::Unknown => {},
                SizeVal::Known(v) => {
                    let ps = pos + hl;
                    let pe = ps + v;
                    if pe > end {
                    } else if id == TRACK_NUMBER_ID {
                        if v <= 8 {
                            lemma_entry_nonzero(
                                s,
                                pe,
                                end,
                                Some(spec_uint_value(s, ps, v as int)),
                                ty,
                                codec,
                            );
                        }
                    } else if id == TRACK_TYPE_ID {
                        if v <= 8 {
                            lemma_entry_nonzero(
                                s,
                                pe,
                                end,
                                num,
                                Some(spec_uint_value(s, ps, v as int)),
                                codec,
                            );
                        }
                    } else if id == CODEC_ID_ID {
                        if valid_utf8(s.subrange(ps, pe)) {
                            lemma_entry_nonzero(s, pe, end, num, ty, Some(s.subrange(ps, pe)));
                        }
                    } else {
                        lemma_entry_nonzero(s, pe, end, num, ty, codec);
                    }
                },
            },
        }
    }
}

proof fn lemma_tracks_nonzero(s: Seq<u8>, pos: int, end: int, acc: Seq<TrackEntryV>)
    requires
        spec_tracks_nonzero(acc),
    ensures
        match spec_parse_tracks(s, pos, end, acc) {
            Ok(ts) => spec_tracks_nonzero(ts),
            Err(_) => true,
        },
    decreases end - pos,
{
    if pos >= end {
    } else {
        match spec_read_head(s, pos) {
            Err(_) => {},
            Ok((id, sz, hl)) => match sz {
                SizeVal::Unknown => {},
                SizeVal::Known(v) => {
                    let ps = pos + hl;
                    let pe = ps + v;
                    if pe > end {
                    } else if id == TRACK_ENTRY_ID {
                        match spec_parse_entry(s, ps, pe, None, None, None) {
                            Err(_) => {},
                            Ok(t) => {
                                lemma_entry_nonzero(s, ps, pe, None, None, None);
                                assert(spec_tracks_nonzero(acc.push(t)));
                                lemma_tracks_nonzero(s, pe, end, acc.push(t));
                            },
                        }
                    } else {
                        lemma_tracks_nonzero(s, pe, end, acc);
                    }
                },
            },
        }
    }
}

proof fn lemma_scan_nonzero(
    s: Seq<u8>,
    pos: int,
    end: int,
    info: Option<SegmentInfoV>,
    tracks: Option<Seq<TrackEntryV>>,
)
    requires
        match tracks {
            Some(ts) => spec_tracks_nonzero(ts),
            None => true,
        },
    ensures
        match spec_scan_segment(s, pos, end, info, tracks) {
            Ok((iv, ts)) => spec_tracks_nonzero(ts),
            Err(_) => true,
        },
    decreases end - pos,
{
    if pos >= end {
    } else {
        match spec_read_head(s, pos) {
            Err(_) => {},
            Ok((id, sz, hl)) => match sz {
                SizeVal::Unknown => {},
                SizeVal::Known(v) => {
                    let ps = pos + hl;
                    let pe = ps + v;
                    if pe > end {
                    } else if id == INFO_ID && info is None {
                        match spec_parse_info(s, ps, pe, None, None, None) {
                            Err(_) => {},
                            Ok(iv) => {
                                lemma_scan_nonzero(s, pe, end, Some(iv), tracks);
                            },
                        }
                    } else if id == TRACKS_ID && tracks is None {
                        match spec_parse_tracks(s, ps, pe, Seq::empty()) {
                            Err(_) => {},
                            Ok(tv) => {
                                lemma_tracks_nonzero(s, ps, pe, Seq::empty());
                                lemma_scan_nonzero(s, pe, end, info, Some(tv));
                            },
                        }
                    } else {
                        lemma_scan_nonzero(s, pe, end, info, tracks);
                    }
                },
            },
        }
    }
}

/// Every successful metadata parse yields one entry per declared TrackEntry
/// in file order (by construction of `spec_parse_tracks`), and those entries
/// carry non-zero, pairwise-distinct track numbers.
pub proof fn lemma_metadata_tracks_valid(s: Seq<u8>)
    ensures
        match spec_parse_metadata(s) {
            Ok((iv, ts)) => spec_tracks_unique(ts) && spec_tracks_nonzero(ts),
            Err(_) => true,
        },
{
    match spec_locate_segment(s) {
        Err(_) => {},
        Ok(None) => {},
        Ok(Some((ps, pe))) => {
            lemma_scan_nonzero(s, ps as int, pe as int, None, None);
        },
    }
}

} // verus!
