use vstd::prelude::*;

use crate::ebml::{
    bytes_range, read_head, size_value_at, spec_read_head, spec_size_value, spec_uint_value,
    spec_vint_width, uint_value_at, vint_width, SizeVal,
};
use crate::error::ParseError;
use crate::meta::{spec_locate_segment, locate_segment};

verus! {

pub const CLUSTER_ID: u64 = 0x1F43_B675;

pub const TIMECODE_ID: u64 = 0xE7;

pub const SIMPLE_BLOCK_ID: u64 = 0xA3;

pub const BLOCK_GROUP_ID: u64 = 0xA0;

pub const BLOCK_ID: u64 = 0xA1;

/// One demuxed frame: the track it belongs to, its raw payload bytes, and
/// the absolute timestamp in timecode ticks when the enclosing cluster
/// declared one (and the sum stays within `u64`).
#[derive(Debug)]
pub struct Frame {
    pub track_number: u64,
    pub payload: Vec<u8>,
    pub timestamp: Option<u64>,
}

/// Mathematical image of a `Frame`.
#[verifier::ext_equal]
pub struct FrameV {
    pub track_number: u64,
    pub payload: Seq<u8>,
    pub timestamp: Option<u64>,
}

impl View for Frame {
    type V = FrameV;

    open spec fn view(&self) -> FrameV {
        FrameV {
            track_number: self.track_number,
            payload: self.payload@,
            timestamp: self.timestamp,
        }
    }
}

pub open spec fn frames_view(fs: Seq<Frame>) -> Seq<FrameV> {
    fs.map_values(|f: Frame| f@)
}

pub open spec fn sizes_view(sz: Seq<u64>) -> Seq<int> {
    sz.map_values(|x: u64| x as int)
}

/// The signed value of a block's 16-bit relative timecode.
pub open spec fn spec_rel_signed(raw: u16) -> int {
    if raw >= 0x8000 {
        raw - 0x10000
    } else {
        raw as int
    }
}

/// Absolute timestamp of a block: the cluster timecode plus the signed
/// relative timecode, when a cluster timecode exists and the sum stays in
/// `u64`.
pub open spec fn spec_timestamp(tc: Option<u64>, raw: u16) -> Option<u64> {
    match tc {
        None => None,
        Some(t) => {
            let a = t + spec_rel_signed(raw);
            if 0 <= a <= u64::MAX {
                Some(a as u64)
            } else {
                None
            }
        },
    }
}

pub fn timestamp_of(tc: Option<u64>, raw: u16) -> (r: Option<u64>)
    ensures
        r == spec_timestamp(tc, raw),
{
    match tc {
        None => None,
        Some(t) => {
            if raw >= 0x8000 {
                let d: u64 = (0x10000u32 - raw as u32) as u64;
                t.checked_sub(d)
            } else {
                t.checked_add(raw as u64)
            }
        },
    }
}

/// One Xiph-coded lace size at `p`: a run of 255 bytes plus a terminator
/// byte, accumulated onto `acc`. A run that reaches `limit`, or a value that
/// leaves `u64`, is `MalformedBlock`.
pub open spec fn spec_xiph_one(s: Seq<u8>, p: int, limit: int, acc: u64) -> Result<
    (u64, int),
    ParseError,
>
    decreases limit - p,
{
    if p >= limit {
        Err(ParseError::MalformedBlock)
    } else if s[p] == 255 {
        if acc > u64::MAX - 255 {
            Err(ParseError::MalformedBlock)
        } else {
            spec_xiph_one(s, p + 1, limit, (acc + 255) as u64)
        }
    } else {
        if acc > u64::MAX - s[p] {
            Err(ParseError::MalformedBlock)
        } else {
            Ok(((acc + s[p]) as u64, p + 1))
        }
    }
}

/// The first `n` lace sizes of a Xiph-laced block, and the position after
/// them.
pub open spec fn spec_xiph_sizes(s: Seq<u8>, p: int, limit: int, n: int, acc: Seq<int>) -> Result<
    (Seq<int>, int),
    ParseError,
>
    decreases n,
{
    if n <= 0 {
        Ok((acc, p))
    } else {
        match spec_xiph_one(s, p, limit, 0) {
            Err(e) => Err(e),
            Ok((sz, np)) => spec_xiph_sizes(s, np, limit, n - 1, acc.push(sz as int)),
        }
    }
}

/// The bias subtracted from a `w`-byte signed lace-size delta:
/// 2^(7w - 1) - 1.
pub open spec fn spec_lace_bias(w: int) -> u64 {
    if w == 1 {
        63
    } else if w == 2 {
        8191
    } else if w == 3 {
        1048575
    } else if w == 4 {
        134217727
    } else if w == 5 {
        17179869183
    } else if w == 6 {
        2199023255551
    } else if w == 7 {
        281474976710655
    } else {
        36028797018963967
    }
}

/// The first `n` lace sizes of an EBML-laced block: the first size is an
/// unsigned variable-length integer, each later one the previous size plus a
/// signed delta. A size that leaves `[0, u64::MAX]` is `MalformedBlock`.
pub open spec fn spec_ebml_sizes(
    s: Seq<u8>,
    p: int,
    limit: int,
    n: int,
    prev: u64,
    first: bool,
    acc: Seq<int>,
) -> Result<(Seq<int>, int), ParseError>
    decreases n,
{
    if n <= 0 {
        Ok((acc, p))
    } else if p >= limit {
        Err(ParseError::MalformedBlock)
    } else {
        let w = spec_vint_width(s[p]);
        if w > 8 {
            Err(ParseError::MalformedBlock)
        } else if p + w > limit {
            Err(ParseError::MalformedBlock)
        } else {
            let raw = spec_size_value(s, p, w as int);
            let val: int = if first {
                raw as int
            } else {
                prev + raw - spec_lace_bias(w as int)
            };
            if val < 0 || val > u64::MAX {
                Err(ParseError::MalformedBlock)
            } else {
                spec_ebml_sizes(s, p + w, limit, n - 1, val as u64, false, acc.push(val))
            }
        }
    }
}

/// The frames cut out of the byte range `[p, pe)`: one frame per listed lace
/// size, in order, and one final frame holding the remainder. A size that
/// reaches past `pe` is `MalformedBlock`.
pub open spec fn spec_frames_laced(
    s: Seq<u8>,
    p: int,
    pe: int,
    sizes: Seq<int>,
    track: u64,
    ts: Option<u64>,
) -> Result<Seq<FrameV>, ParseError>
    decreases sizes.len(),
{
    if sizes.len() == 0 {
        Ok(seq![FrameV { track_number: track, payload: s.subrange(p, pe), timestamp: ts }])
    } else if sizes[0] < 0 || p + sizes[0] > pe {
        Err(ParseError::MalformedBlock)
    } else {
        match spec_frames_laced(s, p + sizes[0], pe, sizes.drop_first(), track, ts) {
            Err(e) => Err(e),
            Ok(rest) => Ok(
                seq![
                    FrameV {
                        track_number: track,
                        payload: s.subrange(p, p + sizes[0]),
                        timestamp: ts,
                    },
                ] + rest,
            ),
        }
    }
}

/// Decodes one Block or SimpleBlock payload `[ps, pe)` into its frames: the
/// track number as a variable-length integer, a 16-bit relative timecode, a
/// flags byte whose bits 0x06 select the lacing mode, then the lace sizes
/// and the frame data. Every laced sub-frame becomes its own frame, all
/// sharing the block's track number and timestamp.
pub open spec fn spec_block_frames(s: Seq<u8>, ps: int, pe: int, tc: Option<u64>) -> Result<
    Seq<FrameV>,
    ParseError,
> {
    if ps >= pe {
        Err(ParseError::MalformedBlock)
    } else {
        let w = spec_vint_width(s[ps]) as int;
        if w > 8 {
            Err(ParseError::MalformedBlock)
        } else if ps + w + 3 > pe {
            Err(ParseError::MalformedBlock)
        } else {
            let track = spec_size_value(s, ps, w);
            let raw = (((s[ps + w] as u16) << 8) | (s[ps + w + 1] as u16)) as u16;
            let flags = s[ps + w + 2];
            let ts = spec_timestamp(tc, raw);
            let bs = ps + w + 3;
            let lacing = (flags >> 1) & 3;
            if lacing == 0 {
                spec_frames_laced(s, bs, pe, Seq::empty(), track, ts)
            } else if bs >= pe {
                Err(ParseError::MalformedBlock)
            } else {
                let cnt = s[bs] as int;
                let p1 = bs + 1;
                if lacing == 2 {
                    let total = pe - p1;
                    if total % (cnt + 1) != 0 {
                        Err(ParseError::MalformedBlock)
                    } else {
                        spec_frames_laced(
                            s,
                            p1,
                            pe,
                            Seq::new(cnt as nat, |i: int| total / (cnt + 1)),
                            track,
                            ts,
                        )
                    }
                } else if lacing == 1 {
                    match spec_xiph_sizes(s, p1, pe, cnt, Seq::empty()) {
                        Err(e) => Err(e),
                        Ok((sizes, dp)) => spec_frames_laced(s, dp, pe, sizes, track, ts),
                    }
                } else {
                    match spec_ebml_sizes(s, p1, pe, cnt, 0, true, Seq::empty()) {
                        Err(e) => Err(e),
                        Ok((sizes, dp)) => spec_frames_laced(s, dp, pe, sizes, track, ts),
                    }
                }
            }
        }
    }
}

/// Reads the first `n` Xiph lace sizes.
fn xiph_sizes(data: &Vec<u8>, p0: usize, limit: usize, n: usize) -> (r: Result<
    (Vec<u64>, usize),
    ParseError,
>)
    requires
        p0 <= limit <= data@.len(),
    ensures
        match (r, spec_xiph_sizes(data@, p0 as int, limit as int, n as int, Seq::empty())) {
            (Ok((sizes, dp)), Ok((sv, sdp))) => sizes_view(sizes@) == sv && dp == sdp && p0 <= dp
                <= limit,
            (Err(e1), Err(e2)) => e1 == e2,
            _ => false,
        },
{
    let mut p = p0;
    let mut i: usize = 0;
    let mut acc: Vec<u64> = Vec::new();
    proof {
        assert(sizes_view(acc@) =~= Seq::<int>::empty());
    }
    while i < n
        invariant
            p0 <= p <= limit <= data@.len(),
            i <= n,
            spec_xiph_sizes(data@, p0 as int, limit as int, n as int, Seq::empty())
                == spec_xiph_sizes(data@, p as int, limit as int, (n - i) as int, sizes_view(acc@)),
        decreases n - i,
    {
        // one size: a run of 255 bytes, then the closing byte
        let ghost pstart = p as int;
        let mut sz: u64 = 0;
        loop
            invariant_except_break
                p0 <= p <= limit <= data@.len(),
                i < n,
                spec_xiph_sizes(data@, p0 as int, limit as int, n as int, Seq::empty())
                    == spec_xiph_sizes(data@, pstart, limit as int, (n - i) as int, sizes_view(acc@)),
                spec_xiph_one(data@, pstart, limit as int, 0) == spec_xiph_one(
                    data@,
                    p as int,
                    limit as int,
                    sz,
                ),
            ensures
                p0 <= p <= limit <= data@.len(),
                i < n,
                spec_xiph_sizes(data@, p0 as int, limit as int, n as int, Seq::empty())
                    == spec_xiph_sizes(data@, pstart, limit as int, (n - i) as int, sizes_view(acc@)),
                spec_xiph_one(data@, pstart, limit as int, 0) == Ok::<(u64, int), ParseError>(
                    (sz, p as int),
                ),
            decreases limit - p,
        {
            if p >= limit {
                proof {
                    assert(spec_xiph_one(data@, p as int, limit as int, sz) == Err::<
                        (u64, int),
                        ParseError,
                    >(ParseError::MalformedBlock));
                }
                return Err(ParseError::MalformedBlock);
            }
            let b = data[p];
            if b == 255 {
                if sz > u64::MAX - 255 {
                    return Err(ParseError::MalformedBlock);
                }
                sz = sz + 255;
                p = p + 1;
            } else {
                if sz > u64::MAX - b as u64 {
                    return Err(ParseError::MalformedBlock);
                }
                sz = sz + b as u64;
                p = p + 1;
                break ;
            }
        }
        let ghost prev = acc@;
        acc.push(sz);
        proof {
            assert(sizes_view(acc@) =~= sizes_view(prev).push(sz as int));
        }
        i = i + 1;
    }
    Ok((acc, p))
}

/// Reads the first `n` EBML lace sizes.
fn ebml_sizes(data: &Vec<u8>, p0: usize, limit: usize, n: usize) -> (r: Result<
    (Vec<u64>, usize),
    ParseError,
>)
    requires
        p0 <= limit <= data@.len(),
    ensures
        match (r, spec_ebml_sizes(data@, p0 as int, limit as int, n as int, 0, true, Seq::empty())) {
            (Ok((sizes, dp)), Ok((sv, sdp))) => sizes_view(sizes@) == sv && dp == sdp && p0 <= dp
                <= limit,
            (Err(e1), Err(e2)) => e1 == e2,
            _ => false,
        },
{
    let mut p = p0;
    let mut i: usize = 0;
    let mut prev: u64 = 0;
    let mut first: bool = true;
    let mut acc: Vec<u64> = Vec::new();
    proof {
        assert(sizes_view(acc@) =~= Seq::<int>::empty());
    }
    while i < n
        invariant
            p0 <= p <= limit <= data@.len(),
            i <= n,
            spec_ebml_sizes(data@, p0 as int, limit as int, n as int, 0, true, Seq::empty())
                == spec_ebml_sizes(
                data@,
                p as int,
                limit as int,
                (n - i) as int,
                prev,
                first,
                sizes_view(acc@),
            ),
        decreases n - i,
    {
        if p >= limit {
            return Err(ParseError::MalformedBlock);
        }
        let w = vint_width(data[p]);
        if w > 8 {
            return Err(ParseError::MalformedBlock);
        }
        if w as usize > limit - p {
            return Err(ParseError::MalformedBlock);
        }
        let raw = size_value_at(data, p, w);
        let val: u64 = if first {
            raw
        } else {
            let bias: u64 = if w == 1 {
                63
            } else if w == 2 {
                8191
            } else if w == 3 {
                1048575
            } else if w == 4 {
                134217727
            } else if w == 5 {
                17179869183
            } else if w == 6 {
                2199023255551
            } else if w == 7 {
                281474976710655
            } else {
                36028797018963967
            };
            let sum: u128 = prev as u128 + raw as u128;
            if sum < bias as u128 {
                return Err(ParseError::MalformedBlock);
            }
            let v = sum - bias as u128;
            if v > u64::MAX as u128 {
                return Err(ParseError::MalformedBlock);
            }
            v as u64
        };
        let ghost prevacc = acc@;
        acc.push(val);
        proof {
            assert(sizes_view(acc@) =~= sizes_view(prevacc).push(val as int));
        }
        p = p + w as usize;
        prev = val;
        first = false;
        i = i + 1;
    }
    Ok((acc, p))
}

/// Cuts the frames out of `[p0, pe)` following the lace-size list.
fn frames_laced(
    data: &Vec<u8>,
    p0: usize,
    pe: usize,
    sizes: &Vec<u64>,
    track: u64,
    ts: Option<u64>,
) -> (r: Result<Vec<Frame>, ParseError>)
    requires
        p0 <= pe <= data@.len(),
    ensures
        match (r, spec_frames_laced(data@, p0 as int, pe as int, sizes_view(sizes@), track, ts)) {
            (Ok(fs), Ok(fv)) => frames_view(fs@) == fv,
            (Err(e1), Err(e2)) => e1 == e2,
            _ => false,
        },
{
    let n = sizes.len();
    let mut p = p0;
    let mut i: usize = 0;
    let mut acc: Vec<Frame> = Vec::new();
    proof {
        assert(sizes_view(sizes@).skip(0) =~= sizes_view(sizes@));
        assert(frames_view(acc@) =~= Seq::<FrameV>::empty());
        assert(Seq::<FrameV>::empty() + spec_laced_ok_part(
            data@,
            p0 as int,
            pe as int,
            sizes_view(sizes@),
            track,
            ts,
        ) =~= spec_laced_ok_part(data@, p0 as int, pe as int, sizes_view(sizes@), track, ts));
    }
    while i < n
        invariant
            p0 <= p <= pe <= data@.len(),
            i <= n,
            n == sizes@.len(),
            (match spec_frames_laced(
                data@,
                p as int,
                pe as int,
                sizes_view(sizes@).skip(i as int),
                track,
                ts,
            ) {
                Ok(rest) => spec_frames_laced(
                    data@,
                    p0 as int,
                    pe as int,
                    sizes_view(sizes@),
                    track,
                    ts,
                ) == Ok::<Seq<FrameV>, ParseError>(frames_view(acc@) + rest),
                Err(e) => spec_frames_laced(
                    data@,
                    p0 as int,
                    pe as int,
                    sizes_view(sizes@),
                    track,
                    ts,
                ) == Err::<Seq<FrameV>, ParseError>(e),
            }),
        decreases n - i,
    {
        let sz = sizes[i];
        proof {
            assert(sizes_view(sizes@).skip(i as int)[0] == sz as int);
            assert(sizes_view(sizes@).skip(i as int).drop_first() =~= sizes_view(sizes@).skip(
                i as int + 1,
            ));
        }
        if sz > (pe - p) as u64 {
            return Err(ParseError::MalformedBlock);
        }
        let fsize = sz as usize;
        let payload = bytes_range(data, p, p + fsize);
        let f = Frame { track_number: track, payload, timestamp: ts };
        let ghost fv = f@;
        let ghost prev = acc@;
        acc.push(f);
        proof {
            assert(frames_view(acc@) =~= frames_view(prev).push(fv));
            assert(frames_view(prev).push(fv) =~= frames_view(prev) + seq![fv]);
            let rest2 = spec_laced_ok_part(
                data@,
                p as int + sz,
                pe as int,
                sizes_view(sizes@).skip(i as int + 1),
                track,
                ts,
            );
            assert((frames_view(prev) + seq![fv]) + rest2 =~= frames_view(prev) + (seq![fv]
                + rest2));
        }
        p = p + fsize;
        i = i + 1;
    }
    proof {
        assert(sizes_view(sizes@).skip(n as int) =~= Seq::<int>::empty());
    }
    let payload = bytes_range(data, p, pe);
    let f = Frame { track_number: track, payload, timestamp: ts };
    let ghost fv = f@;
    let ghost prev = acc@;
    acc.push(f);
    proof {
        assert(frames_view(acc@) =~= frames_view(prev).push(fv));
        assert(frames_view(prev).push(fv) =~= frames_view(prev) + seq![fv]);
    }
    Ok(acc)
}

/// The frame list of a successful laced cut (the `Ok` payload of
/// `spec_frames_laced`); meaningful only where that result is `Ok`.
pub open spec fn spec_laced_ok_part(
    s: Seq<u8>,
    p: int,
    pe: int,
    sizes: Seq<int>,
    track: u64,
    ts: Option<u64>,
) -> Seq<FrameV> {
    match spec_frames_laced(s, p, pe, sizes, track, ts) {
        Ok(fs) => fs,
        Err(_) => Seq::empty(),
    }
}

/// Decodes one Block or SimpleBlock payload into its frames.
pub fn block_frames(data: &Vec<u8>, ps: usize, pe: usize, tc: Option<u64>) -> (r: Result<
    Vec<Frame>,
    ParseError,
>)
    requires
        ps <= pe <= data@.len(),
    ensures
        match (r, spec_block_frames(data@, ps as int, pe as int, tc)) {
            (Ok(fs), Ok(fv)) => frames_view(fs@) == fv,
            (Err(e1), Err(e2)) => e1 == e2,
            _ => false,
        },
{
    if ps >= pe {
        return Err(ParseError::MalformedBlock);
    }
    let w = vint_width(data[ps]);
    if w > 8 {
        return Err(ParseError::MalformedBlock);
    }
    if (pe - ps) < w as usize + 3 {
        return Err(ParseError::MalformedBlock);
    }
    let track = size_value_at(data, ps, w);
    let wi = w as usize;
    let raw: u16 = ((data[ps + wi] as u16) << 8) | (data[ps + wi + 1] as u16);
    let flags = data[ps + wi + 2];
    let ts = timestamp_of(tc, raw);
    let bs = ps + wi + 3;
    let lacing = (flags >> 1) & 3;
    if lacing == 0 {
        let empty: Vec<u64> = Vec::new();
        proof {
            assert(sizes_view(empty@) =~= Seq::<int>::empty());
        }
        return frames_laced(data, bs, pe, &empty, track, ts);
    }
    if bs >= pe {
        return Err(ParseError::MalformedBlock);
    }
    let cnt = data[bs] as usize;
    let p1 = bs + 1;
    if lacing == 2 {
        let total = pe - p1;
        if total % (cnt + 1) != 0 {
            return Err(ParseError::MalformedBlock);
        }
        let each = total / (cnt + 1);
        let mut sizes: Vec<u64> = Vec::new();
        let mut i: usize = 0;
        proof {
            assert(sizes_view(sizes@) =~= Seq::new(0, |j: int| (pe - p1) / (cnt + 1) as int));
        }
        while i < cnt
            invariant
                i <= cnt,
                each == (pe - p1) as int / (cnt + 1) as int,
                p1 <= pe,
                sizes_view(sizes@) =~= Seq::new(i as nat, |j: int| (pe - p1) as int / (cnt
                    + 1) as int),
            decreases cnt - i,
        {
            let ghost prev = sizes@;
            sizes.push(each as u64);
            proof {
                assert(sizes_view(sizes@) =~= sizes_view(prev).push(each as int));
                assert(sizes_view(sizes@) =~= Seq::new((i + 1) as nat, |j: int| (pe - p1) as int / (
                cnt + 1) as int));
            }
            i = i + 1;
        }
        return frames_laced(data, p1, pe, &sizes, track, ts);
    }
    if lacing == 1 {
        let (sizes, dp) = match xiph_sizes(data, p1, pe, cnt) {
            Ok(t) => t,
            Err(e) => return Err(e),
        };
        return frames_laced(data, dp, pe, &sizes, track, ts);
    }
    let (sizes, dp) = match ebml_sizes(data, p1, pe, cnt) {
        Ok(t) => t,
        Err(e) => return Err(e),
    };
    frames_laced(data, dp, pe, &sizes, track, ts)
}

/// The frames of all Block children of one BlockGroup, in order.
pub open spec fn spec_group_frames(
    s: Seq<u8>,
    pos: int,
    end: int,
    tc: Option<u64>,
    acc: Seq<FrameV>,
) -> Result<Seq<FrameV>, ParseError>
    decreases end - pos,
{
    if pos >= end {
        Ok(acc)
    } else {
        match spec_read_head(s, pos) {
            Err(e) => Err(e),
            Ok((id, sz, hl)) => match sz {
                SizeVal::Unknown => Ok(acc),
                SizeVal::Known(x) => {
                    let ps = pos + hl;
                    let pe = ps + x;
                    if pe > end {
                        Err(ParseError::Truncated)
                    } else if id == BLOCK_ID {
                        match spec_block_frames(s, ps, pe, tc) {
                            Err(e) => Err(e),
                            Ok(fs) => spec_group_frames(s, pe, end, tc, acc + fs),
                        }
                    } else {
                        spec_group_frames(s, pe, end, tc, acc)
                    }
                },
            },
        }
    }
}

/// Collects the frames of every Block inside a BlockGroup payload.
fn group_frames(data: &Vec<u8>, pstart: usize, end: usize, tc: Option<u64>) -> (r: Result<
    Vec<Frame>,
    ParseError,
>)
    requires
        pstart <= end <= data@.len(),
    ensures
        match (r, spec_group_frames(data@, pstart as int, end as int, tc, Seq::empty())) {
            (Ok(fs), Ok(fv)) => frames_view(fs@) == fv,
            (Err(e1), Err(e2)) => e1 == e2,
            _ => false,
        },
{
    let mut pos = pstart;
    let mut acc: Vec<Frame> = Vec::new();
    proof {
        assert(frames_view(acc@) =~= Seq::<FrameV>::empty());
    }
    loop
        invariant
            pstart <= pos <= end <= data@.len(),
            spec_group_frames(data@, pstart as int, end as int, tc, Seq::empty())
                == spec_group_frames(data@, pos as int, end as int, tc, frames_view(acc@)),
        decreases end - pos,
    {
        if pos >= end {
            return Ok(acc);
        }
        let (id, sz, hl) = match read_head(data, pos) {
            Ok(t) => t,
            Err(e) => return Err(e),
        };
        let x = match sz {
            SizeVal::Unknown => {
                return Ok(acc);
            },
            SizeVal::Known(x) => x,
        };
        if hl > end - pos {
            return Err(ParseError::Truncated);
        }
        let ps = pos + hl;
        if x > (end - ps) as u64 {
            return Err(ParseError::Truncated);
        }
        let pe = ps + x as usize;
        if id == BLOCK_ID {
            let mut fs = match block_frames(data, ps, pe, tc) {
                Ok(fs) => fs,
                Err(e) => return Err(e),
            };
            let ghost prev = acc@;
            let ghost fsv = fs@;
            acc.append(&mut fs);
            proof {
                assert(frames_view(acc@) =~= frames_view(prev) + frames_view(fsv));
            }
        }
        pos = pe;
    }
}

/// The read state of a frame-demuxing pass: the container bytes, the Segment
/// payload range, the cursor, the current cluster's extent and timecode, and
/// the laced frames still queued from the last decoded block.
#[verifier::ext_equal]
pub struct SessionV {
    pub data: Seq<u8>,
    pub seg_start: int,
    pub seg_end: int,
    pub pos: int,
    pub cluster_end: Option<int>,
    pub cluster_tc: Option<u64>,
    pub pending: Seq<FrameV>,
}

pub open spec fn spec_wf(v: SessionV) -> bool {
    &&& 0 <= v.seg_start <= v.seg_end <= v.data.len()
    &&& v.seg_start <= v.pos <= v.seg_end
    &&& match v.cluster_end {
        Some(ce) => v.pos <= ce <= v.seg_end,
        None => true,
    }
}

pub open spec fn spec_depth(v: SessionV) -> int {
    if v.cluster_end is Some {
        1
    } else {
        0
    }
}

pub open spec fn spec_limit(v: SessionV) -> int {
    match v.cluster_end {
        Some(ce) => ce,
        None => v.seg_end,
    }
}

/// The state after a fatal parse error: the pass is over.
pub open spec fn spec_dead(v: SessionV) -> SessionV {
    SessionV { pos: v.seg_end, cluster_end: None, cluster_tc: None, pending: Seq::empty(), ..v }
}

/// The state after `seek_to_start`: the cursor back at the Segment payload
/// start, with no cluster entered and no queued lacing state.
pub open spec fn spec_restart(v: SessionV) -> SessionV {
    SessionV { pos: v.seg_start, cluster_end: None, cluster_tc: None, pending: Seq::empty(), ..v }
}

/// One step of the frame demuxer: what `next_frame` returns and the state it
/// leaves behind. A queued laced frame is yielded first; otherwise the walk
/// skips foreign elements, enters Clusters, notes cluster Timecodes, decodes
/// SimpleBlocks and BlockGroups, and ends with `Ok(None)` when the Segment
/// range is exhausted. On an error the state is dead: every later step
/// returns `Ok(None)`.
pub open spec fn spec_next(v: SessionV) -> (Result<Option<FrameV>, ParseError>, SessionV)
    decreases v.seg_end - v.pos, spec_depth(v), v.pending.len()
        when spec_wf(v)
{
    if v.pending.len() > 0 {
        (Ok(Some(v.pending[0])), SessionV { pending: v.pending.drop_first(), ..v })
    } else {
        let limit = spec_limit(v);
        if v.pos >= limit {
            if v.cluster_end is Some {
                spec_next(SessionV { cluster_end: None, ..v })
            } else {
                (Ok(None), v)
            }
        } else {
            match spec_read_head(v.data, v.pos) {
                Err(e) => (Err(e), spec_dead(v)),
                Ok((id, sz, hl)) => {
                    proof {
                        lemma_head_len(v.data, v.pos);
                    }
                    let ps = v.pos + hl;
                    if id == CLUSTER_ID {
                        let pe = match sz {
                            SizeVal::Unknown => v.seg_end,
                            SizeVal::Known(x) => ps + x,
                        };
                        if ps > v.seg_end || pe > v.seg_end {
                            (Err(ParseError::Truncated), spec_dead(v))
                        } else {
                            spec_next(
                                SessionV { pos: ps, cluster_end: Some(pe), cluster_tc: None, ..v },
                            )
                        }
                    } else {
                        match sz {
                            SizeVal::Unknown => spec_next(SessionV { pos: limit, ..v }),
                            SizeVal::Known(x) => {
                                let pe = ps + x;
                                if pe > limit {
                                    (Err(ParseError::Truncated), spec_dead(v))
                                } else if v.cluster_end is Some && id == TIMECODE_ID {
                                    if x > 8 {
                                        (Err(ParseError::MalformedId), spec_dead(v))
                                    } else {
                                        spec_next(
                                            SessionV {
                                                pos: pe,
                                                cluster_tc: Some(
                                                    spec_uint_value(v.data, ps, x as int),
                                                ),
                                                ..v
                                            },
                                        )
                                    }
                                } else if v.cluster_end is Some && id == SIMPLE_BLOCK_ID {
                                    match spec_block_frames(v.data, ps, pe, v.cluster_tc) {
                                        Err(e) => (Err(e), spec_dead(v)),
                                        Ok(fs) => {
                                            if fs.len() == 0 {
                                                spec_next(SessionV { pos: pe, ..v })
                                            } else {
                                                (
                                                    Ok(Some(fs[0])),
                                                    SessionV {
                                                        pos: pe,
                                                        pending: fs.drop_first(),
                                                        ..v
                                                    },
                                                )
                                            }
                                        },
                                    }
                                } else if v.cluster_end is Some && id == BLOCK_GROUP_ID {
                                    match spec_group_frames(
                                        v.data,
                                        ps,
                                        pe,
                                        v.cluster_tc,
                                        Seq::empty(),
                                    ) {
                                        Err(e) => (Err(e), spec_dead(v)),
                                        Ok(fs) => {
                                            if fs.len() == 0 {
                                                spec_next(SessionV { pos: pe, ..v })
                                            } else {
                                                (
                                                    Ok(Some(fs[0])),
                                                    SessionV {
                                                        pos: pe,
                                                        pending: fs.drop_first(),
                                                        ..v
                                                    },
                                                )
                                            }
                                        },
                                    }
                                } else {
                                    spec_next(SessionV { pos: pe, ..v })
                                }
                            },
                        }
                    }
                },
            }
        }
    }
}

/// A successfully read element header is at least two bytes long and lies
/// within the buffer.
pub proof fn lemma_head_len(s: Seq<u8>, pos: int)
    ensures
        match spec_read_head(s, pos) {
            Ok((id, sz, hl)) => 2 <= hl && pos + hl <= s.len(),
            Err(_) => true,
        },
{
}

/// What `DemuxSession::open` yields: the session poised at the start of the
/// Segment payload (an empty range when the file has no Segment).
pub open spec fn spec_open(s: Seq<u8>) -> Result<SessionV, ParseError> {
    match spec_locate_segment(s) {
        Err(e) => Err(e),
        Ok(None) => Ok(
            SessionV {
                data: s,
                seg_start: 0,
                seg_end: 0,
                pos: 0,
                cluster_end: None,
                cluster_tc: None,
                pending: Seq::empty(),
            },
        ),
        Ok(Some((ps, pe))) => Ok(
            SessionV {
                data: s,
                seg_start: ps as int,
                seg_end: pe as int,
                pos: ps as int,
                cluster_end: None,
                cluster_tc: None,
                pending: Seq::empty(),
            },
        ),
    }
}

/// A frame-demuxing pass over one container. The session owns the bytes and
/// a cursor; `next_frame` yields one frame at a time and `seek_to_start`
/// rewinds the cursor for another full pass.
#[derive(Debug)]
pub struct DemuxSession {
    data: Vec<u8>,
    seg_start: usize,
    seg_end: usize,
    pos: usize,
    cluster_end: Option<usize>,
    cluster_tc: Option<u64>,
    pending: Vec<Frame>,
}

impl View for DemuxSession {
    type V = SessionV;

    closed spec fn view(&self) -> SessionV {
        SessionV {
            data: self.data@,
            seg_start: self.seg_start as int,
            seg_end: self.seg_end as int,
            pos: self.pos as int,
            cluster_end: match self.cluster_end {
                Some(ce) => Some(ce as int),
                None => None,
            },
            cluster_tc: self.cluster_tc,
            pending: frames_view(self.pending@),
        }
    }
}

impl DemuxSession {
    pub open spec fn wf(&self) -> bool {
        spec_wf(self@)
    }

    /// Validates the EBML header, locates the Segment, and returns a session
    /// whose cursor stands at the start of the Segment payload. No Cluster
    /// is parsed yet.
    pub fn open(data: Vec<u8>) -> (r: Result<DemuxSession, ParseError>)
        ensures
            match (r, spec_open(data@)) {
                (Ok(sess), Ok(sv)) => sess@ == sv && sess.wf(),
                (Err(e1), Err(e2)) => e1 == e2,
                _ => false,
            },
    {
        let range = match locate_segment(&data) {
            Ok(rg) => rg,
            Err(e) => return Err(e),
        };
        let (ps, pe) = match range {
            Some(r) => r,
            None => (0, 0),
        };
        let sess = DemuxSession {
            data,
            seg_start: ps,
            seg_end: pe,
            pos: ps,
            cluster_end: None,
            cluster_tc: None,
            pending: Vec::new(),
        };
        proof {
            assert(frames_view(Seq::<Frame>::empty()) =~= Seq::<FrameV>::empty());
        }
        Ok(sess)
    }

    /// Rewinds the cursor to the start of the Segment payload, leaving any
    /// cluster and lacing state behind, so the whole stream can be walked
    /// again.
    pub fn seek_to_start(&mut self)
        requires
            old(self).wf(),
        ensures
            final(self)@ == spec_restart(old(self)@),
            final(self).wf(),
    {
        self.pos = self.seg_start;
        self.cluster_end = None;
        self.cluster_tc = None;
        self.pending = Vec::new();
        proof {
            assert(frames_view(Seq::<Frame>::empty()) =~= Seq::<FrameV>::empty());
            assert(self@ =~= spec_restart(old(self)@));
        }
    }

    /// Puts the session into the dead state used after a fatal error.
    fn fail_state(&mut self)
        requires
            old(self).wf(),
        ensures
            final(self)@ == spec_dead(old(self)@),
            final(self).wf(),
    {
        self.pos = self.seg_end;
        self.cluster_end = None;
        self.cluster_tc = None;
        self.pending = Vec::new();
        proof {
            assert(frames_view(Seq::<Frame>::empty()) =~= Seq::<FrameV>::empty());
            assert(self@ =~= spec_dead(old(self)@));
        }
    }

    /// Yields the next frame of the stream, `Ok(None)` at clean end of
    /// stream, or the error that ended the pass. The result and the new
    /// state are exactly one `spec_next` step of the old state.
    pub fn next_frame(&mut self) -> (r: Result<Option<Frame>, ParseError>)
        requires
            old(self).wf(),
        ensures
            final(self).wf(),
            final(self)@ == spec_next(old(self)@).1,
            (match (r, spec_next(old(self)@).0) {
                (Ok(Some(f)), Ok(Some(fv))) => f@ == fv,
                (Ok(None), Ok(None)) => true,
                (Err(e1), Err(e2)) => e1 == e2,
                _ => false,
            }),
    {
        if self.pending.len() > 0 {
            let f = self.pending.remove(0);
            proof {
                assert(frames_view(self.pending@) =~= frames_view(
                    old(self).pending@,
                ).drop_first());
                assert(self@ =~= spec_next(old(self)@).1);
            }
            return Ok(Some(f));
        }
        loop
            invariant
                self.wf(),
                self@.pending.len() == 0,
                self@.data == old(self)@.data,
                self@.seg_start == old(self)@.seg_start,
                self@.seg_end == old(self)@.seg_end,
                spec_next(self@) == spec_next(old(self)@),
            decreases self@.seg_end - self@.pos, spec_depth(self@),
        {
            let ghost vcur = self@;
            let limit = match self.cluster_end {
                Some(ce) => ce,
                None => self.seg_end,
            };
            if self.pos >= limit {
                match self.cluster_end {
                    Some(_) => {
                        self.cluster_end = None;
                        proof {
                            assert(spec_next(self@) == spec_next(vcur));
                        }
                    },
                    None => {
                        return Ok(None);
                    },
                }
            } else {
                let (id, sz, hl) = match read_head(&self.data, self.pos) {
                    Ok(t) => t,
                    Err(e) => {
                        self.fail_state();
                        return Err(e);
                    },
                };
                proof {
                    lemma_head_len(self@.data, self@.pos);
                }
                if id == CLUSTER_ID {
                    if hl > self.seg_end - self.pos {
                        self.fail_state();
                        return Err(ParseError::Truncated);
                    }
                    let ps = self.pos + hl;
                    let pe = match sz {
                        SizeVal::Unknown => self.seg_end,
                        SizeVal::Known(x) => {
                            if x > (self.seg_end - ps) as u64 {
                                self.fail_state();
                                return Err(ParseError::Truncated);
                            }
                            ps + x as usize
                        },
                    };
                    self.pos = ps;
                    self.cluster_end = Some(pe);
                    self.cluster_tc = None;
                    proof {
                        assert(spec_next(self@) == spec_next(vcur));
                    }
                } else {
                    match sz {
                        SizeVal::Unknown => {
                            self.pos = limit;
                            proof {
                                assert(spec_next(self@) == spec_next(vcur));
                            }
                        },
                        SizeVal::Known(x) => {
                            if hl > limit - self.pos {
                                self.fail_state();
                                return Err(ParseError::Truncated);
                            }
                            let ps = self.pos + hl;
                            if x > (limit - ps) as u64 {
                                self.fail_state();
                                return Err(ParseError::Truncated);
                            }
                            let pe = ps + x as usize;
                            let in_cluster = self.cluster_end.is_some();
                            if in_cluster && id == TIMECODE_ID {
                                if x > 8 {
                                    self.fail_state();
                                    return Err(ParseError::MalformedId);
                                }
                                let tc = uint_value_at(&self.data, ps, x as usize);
                                self.pos = pe;
                                self.cluster_tc = Some(tc);
                                proof {
                                    assert(spec_next(self@) == spec_next(vcur));
                                }
                            } else if in_cluster && (id == SIMPLE_BLOCK_ID || id
                                == BLOCK_GROUP_ID) {
                                let fr = if id == SIMPLE_BLOCK_ID {
                                    block_frames(&self.data, ps, pe, self.cluster_tc)
                                } else {
                                    group_frames(&self.data, ps, pe, self.cluster_tc)
                                };
                                let mut fs = match fr {
                                    Ok(fs) => fs,
                                    Err(e) => {
                                        self.fail_state();
                                        return Err(e);
                                    },
                                };
                                if fs.len() == 0 {
                                    self.pos = pe;
                                    proof {
                                        assert(spec_next(self@) == spec_next(vcur));
                                    }
                                } else {
                                    let f = fs.remove(0);
                                    let ghost fsv = frames_view(fs@);
                                    self.pending = fs;
                                    self.pos = pe;
                                    proof {
                                        assert(frames_view(self.pending@) =~= fsv);
                                        assert(self@ =~= spec_next(vcur).1);
                                    }
                                    return Ok(Some(f));
                                }
                            } else {
                                self.pos = pe;
                                proof {
                                    assert(spec_next(self@) == spec_next(vcur));
                                }
                            }
                        },
                    }
                }
            }
        }
    }
}

/// Strict lexicographic order on the demuxer's progress measure: bytes left
/// in the segment, then cluster nesting, then queued frames.
pub open spec fn spec_progress_lt(a: SessionV, b: SessionV) -> bool {
    ||| a.seg_end - a.pos < b.seg_end - b.pos
    ||| (a.seg_end - a.pos == b.seg_end - b.pos && spec_depth(a) < spec_depth(b))
    ||| (a.seg_end - a.pos == b.seg_end - b.pos && spec_depth(a) == spec_depth(b)
        && a.pending.len() < b.pending.len())
}

/// One demuxer step keeps the state well formed, never touches the bytes or
/// the segment bounds, and strictly advances the progress measure whenever it
/// yields a frame.
pub proof fn lemma_next_decreases(v: SessionV)
    requires
        spec_wf(v),
    ensures
        spec_wf(spec_next(v).1),
        spec_next(v).1.data == v.data,
        spec_next(v).1.seg_start == v.seg_start,
        spec_next(v).1.seg_end == v.seg_end,
        spec_next(v).0 matches Ok(Some(_)) ==> spec_progress_lt(spec_next(v).1, v),
    decreases v.seg_end - v.pos, spec_depth(v), v.pending.len(),
{
    if v.pending.len() > 0 {
    } else {
        let limit = spec_limit(v);
        if v.pos >= limit {
            if v.cluster_end is Some {
                let v2 = SessionV { cluster_end: None, ..v };
                lemma_next_decreases(v2);
            }
        } else {
            match spec_read_head(v.data, v.pos) {
                Err(_) => {},
                Ok((id, sz, hl)) => {
                    lemma_head_len(v.data, v.pos);
                    let ps = v.pos + hl;
                    if id == CLUSTER_ID {
                        let pe = match sz {
                            SizeVal::Unknown => v.seg_end,
                            SizeVal::Known(x) => ps + x,
                        };
                        if ps > v.seg_end || pe > v.seg_end {
                        } else {
                            lemma_next_decreases(
                                SessionV { pos: ps, cluster_end: Some(pe), cluster_tc: None, ..v },
                            );
                        }
                    } else {
                        match sz {
                            SizeVal::Unknown => {
                                lemma_next_decreases(SessionV { pos: limit, ..v });
                            },
                            SizeVal::Known(x) => {
                                let pe = ps + x;
                                if pe > limit {
                                } else if v.cluster_end is Some && id == TIMECODE_ID {
                                    if x > 8 {
                                    } else {
                                        lemma_next_decreases(
                                            SessionV {
                                                pos: pe,
                                                cluster_tc: Some(
                                                    spec_uint_value(v.data, ps, x as int),
                                                ),
                                                ..v
                                            },
                                        );
                                    }
                                } else if v.cluster_end is Some && id == SIMPLE_BLOCK_ID {
                                    match spec_block_frames(v.data, ps, pe, v.cluster_tc) {
                                        Err(_) => {},
                                        Ok(fs) => {
                                            if fs.len() == 0 {
                                                lemma_next_decreases(SessionV { pos: pe, ..v });
                                            }
                                        },
                                    }
                                } else if v.cluster_end is Some && id == BLOCK_GROUP_ID {
                                    match spec_group_frames(
                                        v.data,
                                        ps,
                                        pe,
                                        v.cluster_tc,
                                        Seq::empty(),
                                    ) {
                                        Err(_) => {},
                                        Ok(fs) => {
                                            if fs.len() == 0 {
                                                lemma_next_decreases(SessionV { pos: pe, ..v });
                                            }
                                        },
                                    }
                                } else {
                                    lemma_next_decreases(SessionV { pos: pe, ..v });
                                }
                            },
                        }
                    }
                },
            }
        }
    }
}

/// The whole remaining frame sequence of a pass: what repeated `next_frame`
/// calls yield until `Ok(None)` or an error ends the pass.
pub open spec fn spec_run(v: SessionV) -> Seq<FrameV>
    decreases v.seg_end - v.pos, spec_depth(v), v.pending.len()
        when spec_wf(v)
{
    match spec_next(v) {
        (Ok(Some(f)), v2) => {
            proof {
                lemma_next_decreases(v);
            }
            seq![f] + spec_run(v2)
        },
        _ => Seq::empty(),
    }
}

/// The frames of a sequence that belong to track `t`, in order.
pub open spec fn track_frames(fs: Seq<FrameV>, t: u64) -> Seq<FrameV> {
    fs.filter(|f: FrameV| f.track_number == t)
}

/// The payload bytes of a frame sequence, concatenated in order.
pub open spec fn payloads_concat(fs: Seq<FrameV>) -> Seq<u8>
    decreases fs.len(),
{
    if fs.len() == 0 {
        Seq::empty()
    } else {
        fs[0].payload + payloads_concat(fs.drop_first())
    }
}

/// The summed payload length of a frame sequence.
pub open spec fn payloads_len(fs: Seq<FrameV>) -> int
    decreases fs.len(),
{
    if fs.len() == 0 {
        0
    } else {
        fs[0].payload.len() + payloads_len(fs.drop_first())
    }
}

/// The summed payload length of a frame sequence equals the length of its
/// concatenated payload bytes.
pub proof fn lemma_payloads_len(fs: Seq<FrameV>)
    ensures
        payloads_len(fs) == payloads_concat(fs).len(),
    decreases fs.len(),
{
    if fs.len() == 0 {
    } else {
        lemma_payloads_len(fs.drop_first());
    }
}

/// The frames of one laced cut all carry the given track number and
/// timestamp, and their payloads concatenate to exactly the byte range
/// `[p, pe)`: every body byte of the block lands in exactly one sub-frame,
/// in order, so the summed sub-frame lengths equal the block's frame data
/// length.
pub proof fn lemma_laced_exact(
    s: Seq<u8>,
    p: int,
    pe: int,
    sizes: Seq<int>,
    track: u64,
    ts: Option<u64>,
)
    requires
        0 <= p <= pe <= s.len(),
    ensures
        match spec_frames_laced(s, p, pe, sizes, track, ts) {
            Ok(fs) => {
                &&& fs.len() == sizes.len() + 1
                &&& forall|i: int|
                    0 <= i < fs.len() ==> (#[trigger] fs[i]).track_number == track && fs[i].timestamp
                        == ts
                &&& payloads_concat(fs) == s.subrange(p, pe)
            },
            Err(_) => true,
        },
    decreases sizes.len(),
{
    if sizes.len() == 0 {
        let fs = seq![FrameV { track_number: track, payload: s.subrange(p, pe), timestamp: ts }];
        assert(fs.drop_first() =~= Seq::<FrameV>::empty());
        assert(payloads_concat(Seq::<FrameV>::empty()) =~= Seq::<u8>::empty());
        assert(payloads_concat(fs) == fs[0].payload + payloads_concat(fs.drop_first()));
        assert(s.subrange(p, pe) + Seq::<u8>::empty() =~= s.subrange(p, pe));
        assert(payloads_concat(fs) =~= s.subrange(p, pe));
    } else if sizes[0] < 0 || p + sizes[0] > pe {
    } else {
        lemma_laced_exact(s, p + sizes[0], pe, sizes.drop_first(), track, ts);
        match spec_frames_laced(s, p + sizes[0], pe, sizes.drop_first(), track, ts) {
            Err(_) => {},
            Ok(rest) => {
                let f0 = FrameV {
                    track_number: track,
                    payload: s.subrange(p, p + sizes[0]),
                    timestamp: ts,
                };
                let fs = seq![f0] + rest;
                assert(fs.drop_first() =~= rest);
                assert(payloads_concat(fs) == f0.payload + payloads_concat(rest));
                assert(s.subrange(p, p + sizes[0]) + s.subrange(p + sizes[0], pe) =~= s.subrange(
                    p,
                    pe,
                ));
                assert forall|i: int| 0 <= i < fs.len() implies (#[trigger] fs[i]).track_number
                    == track && fs[i].timestamp == ts by {
                    if i > 0 {
                        assert(fs[i] == rest[i - 1]);
                    }
                }
            },
        }
    }
}

/// Every frame of one decoded Block or SimpleBlock carries the track number
/// written in the block's own header, the frames share one timestamp, and
/// their payloads concatenate to one contiguous byte range ending at the
/// block's end: the laced sub-frames, counted individually, account for the
/// block's frame data exactly.
pub proof fn lemma_block_exact(s: Seq<u8>, ps: int, pe: int, tc: Option<u64>)
    requires
        0 <= ps <= pe <= s.len(),
    ensures
        match spec_block_frames(s, ps, pe, tc) {
            Ok(fs) => {
                let track = spec_size_value(s, ps, spec_vint_width(s[ps]) as int);
                &&& fs.len() >= 1
                &&& forall|i: int|
                    0 <= i < fs.len() ==> (#[trigger] fs[i]).track_number == track
                &&& exists|ds: int|
                    ps <= ds <= pe && payloads_concat(fs) == s.subrange(ds, pe)
            },
            Err(_) => true,
        },
{
    if ps >= pe {
    } else {
        let w = spec_vint_width(s[ps]) as int;
        if w > 8 || ps + w + 3 > pe {
        } else {
            let track = spec_size_value(s, ps, w);
            let raw = (((s[ps + w] as u16) << 8) | (s[ps + w + 1] as u16)) as u16;
            let ts = spec_timestamp(tc, raw);
            let bs = ps + w + 3;
            let flags = s[ps + w + 2];
            let lacing = (flags >> 1) & 3;
            if lacing == 0 {
                lemma_laced_exact(s, bs, pe, Seq::empty(), track, ts);
            } else if bs >= pe {
            } else {
                let cnt = s[bs] as int;
                let p1 = bs + 1;
                if lacing == 2 {
                    let total = pe - p1;
                    if total % (cnt + 1) == 0 {
                        lemma_laced_exact(
                            s,
                            p1,
                            pe,
                            Seq::new(cnt as nat, |i: int| total / (cnt + 1)),
                            track,
                            ts,
                        );
                    }
                } else if lacing == 1 {
                    match spec_xiph_sizes(s, p1, pe, cnt, Seq::empty()) {
                        Err(_) => {},
                        Ok((sizes, dp)) => {
                            lemma_xiph_sizes_pos(s, p1, pe, cnt, Seq::empty());
                            lemma_laced_exact(s, dp, pe, sizes, track, ts);
                        },
                    }
                } else {
                    match spec_ebml_sizes(s, p1, pe, cnt, 0, true, Seq::empty()) {
                        Err(_) => {},
                        Ok((sizes, dp)) => {
                            lemma_ebml_sizes_pos(s, p1, pe, cnt, 0, true, Seq::empty());
                            lemma_laced_exact(s, dp, pe, sizes, track, ts);
                        },
                    }
                }
            }
        }
    }
}

proof fn lemma_xiph_one_pos(s: Seq<u8>, p: int, limit: int, acc: u64)
    requires
        p >= 0,
    ensures
        match spec_xiph_one(s, p, limit, acc) {
            Ok((sz, np)) => p < np <= limit,
            Err(_) => true,
        },
    decreases limit - p,
{
    if p >= limit {
    } else if s[p] == 255 {
        if acc <= u64::MAX - 255 {
            lemma_xiph_one_pos(s, p + 1, limit, (acc + 255) as u64);
        }
    } else {
    }
}

proof fn lemma_xiph_sizes_pos(s: Seq<u8>, p: int, limit: int, n: int, acc: Seq<int>)
    requires
        0 <= p <= limit,
    ensures
        match spec_xiph_sizes(s, p, limit, n, acc) {
            Ok((sizes, dp)) => p <= dp <= limit,
            Err(_) => true,
        },
    decreases n,
{
    if n <= 0 {
    } else {
        match spec_xiph_one(s, p, limit, 0) {
            Err(_) => {},
            Ok((sz, np)) => {
                lemma_xiph_one_pos(s, p, limit, 0);
                lemma_xiph_sizes_pos(s, np, limit, n - 1, acc.push(sz as int));
            },
        }
    }
}

proof fn lemma_ebml_sizes_pos(
    s: Seq<u8>,
    p: int,
    limit: int,
    n: int,
    prev: u64,
    first: bool,
    acc: Seq<int>,
)
    requires
        0 <= p <= limit,
    ensures
        match spec_ebml_sizes(s, p, limit, n, prev, first, acc) {
            Ok((sizes, dp)) => p <= dp <= limit,
            Err(_) => true,
        },
    decreases n,
{
    if n <= 0 {
    } else if p >= limit {
    } else {
        let w = spec_vint_width(s[p]);
        if w > 8 || p + w > limit {
        } else {
            let raw = spec_size_value(s, p, w as int);
            let val: int = if first {
                raw as int
            } else {
                prev + raw - spec_lace_bias(w as int)
            };
            if 0 <= val <= u64::MAX {
                lemma_ebml_sizes_pos(s, p + w, limit, n - 1, val as u64, false, acc.push(val));
            }
        }
    }
}

/// Restarting a pass erases every difference but the container bytes and
/// the segment bounds: two sessions over the same bytes, once rewound with
/// `seek_to_start`, yield the identical frame sequence — the same tracks,
/// payloads and order on every full re-iteration.
pub proof fn lemma_restart_replay(v1: SessionV, v2: SessionV)
    requires
        v1.data == v2.data,
        v1.seg_start == v2.seg_start,
        v1.seg_end == v2.seg_end,
    ensures
        spec_run(spec_restart(v1)) == spec_run(spec_restart(v2)),
{
    assert(spec_restart(v1) =~= spec_restart(v2));
}

proof fn lemma_filter_empty(t: u64)
    ensures
        track_frames(Seq::empty(), t) == Seq::<FrameV>::empty(),
{
    reveal_with_fuel(Seq::<_>::filter, 1);
    assert(track_frames(Seq::empty(), t) =~= Seq::<FrameV>::empty());
}

proof fn lemma_filter_one(f: FrameV, rest: Seq<FrameV>, t: u64)
    ensures
        f.track_number == t ==> track_frames(seq![f] + rest, t) == seq![f] + track_frames(rest, t),
        f.track_number != t ==> track_frames(seq![f] + rest, t) == track_frames(rest, t),
{
    let pred = (|fr: FrameV| fr.track_number == t);
    Seq::<FrameV>::filter_distributes_over_add(seq![f], rest, pred);
    reveal_with_fuel(Seq::<_>::filter, 2);
    assert(seq![f].drop_last() =~= Seq::<FrameV>::empty());
    if f.track_number == t {
        assert(seq![f].filter(pred) =~= seq![f]);
        assert(seq![f] + rest.filter(pred) =~= seq![f] + track_frames(rest, t));
    } else {
        assert(seq![f].filter(pred) =~= Seq::<FrameV>::empty());
        assert(Seq::<FrameV>::empty() + rest.filter(pred) =~= track_frames(rest, t));
    }
}

impl DemuxSession {
    /// Runs the pass to its end, concatenating the payloads of every frame
    /// on track `t` in stream order. A frame-read failure ends the pass
    /// exactly as a clean end of stream does: what was collected before it
    /// is kept.
    pub fn collect_track(&mut self, t: u64) -> (out: Vec<u8>)
        requires
            old(self).wf(),
        ensures
            final(self).wf(),
            final(self)@.data == old(self)@.data,
            final(self)@.seg_start == old(self)@.seg_start,
            final(self)@.seg_end == old(self)@.seg_end,
            out@ == payloads_concat(track_frames(spec_run(old(self)@), t)),
    {
        let mut out: Vec<u8> = Vec::new();
        loop
            invariant
                self.wf(),
                self@.data == old(self)@.data,
                self@.seg_start == old(self)@.seg_start,
                self@.seg_end == old(self)@.seg_end,
                out@ + payloads_concat(track_frames(spec_run(self@), t)) == payloads_concat(
                    track_frames(spec_run(old(self)@), t),
                ),
            decreases self@.seg_end - self@.pos, spec_depth(self@), self@.pending.len(),
        {
            let ghost vcur = self@;
            match self.next_frame() {
                Ok(Some(f)) => {
                    proof {
                        lemma_next_decreases(vcur);
                        lemma_filter_one(f@, spec_run(self@), t);
                    }
                    if f.track_number == t {
                        let mut pl = f.payload;
                        proof {
                            assert(seq![f@].drop_first() =~= Seq::<FrameV>::empty());
                            assert(f@.payload + payloads_concat(Seq::<FrameV>::empty())
                                =~= f@.payload);
                            assert(payloads_concat(seq![f@]) =~= f@.payload);
                            assert((out@ + f@.payload) + payloads_concat(
                                track_frames(spec_run(self@), t),
                            ) =~= out@ + (f@.payload + payloads_concat(
                                track_frames(spec_run(self@), t),
                            )));
                            assert(f@.payload + payloads_concat(track_frames(spec_run(self@), t))
                                =~= payloads_concat(seq![f@] + track_frames(spec_run(self@), t)))
                                by {
                                assert((seq![f@] + track_frames(spec_run(self@), t)).drop_first()
                                    =~= track_frames(spec_run(self@), t));
                            }
                        }
                        out.append(&mut pl);
                    }
                },
                Ok(None) => {
                    proof {
                        lemma_next_decreases(vcur);
                        lemma_filter_empty(t);
                        assert(out@ + Seq::<u8>::empty() =~= out@);
                    }
                    return out;
                },
                Err(_) => {
                    proof {
                        lemma_next_decreases(vcur);
                        lemma_filter_empty(t);
                        assert(out@ + Seq::<u8>::empty() =~= out@);
                    }
                    return out;
                },
            }
        }
    }
}

} // verus!
