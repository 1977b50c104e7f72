use mkv_demux::analyze;
use mkv_demux::demux::DemuxSession;
use mkv_demux::error::ParseError;
use mkv_demux::meta::{parse_metadata, TrackType};

// ---- container builders ----------------------------------------------------

fn vint_size(n: usize) -> Vec<u8> {
    if n < 0x7f {
        vec![0x80 | n as u8]
    } else {
        assert!(n < 0x3fff);
        vec![0x40 | (n >> 8) as u8, (n & 0xff) as u8]
    }
}

fn elem(id: &[u8], payload: &[u8]) -> Vec<u8> {
    let mut out = Vec::new();
    out.extend_from_slice(id);
    out.extend_from_slice(&vint_size(payload.len()));
    out.extend_from_slice(payload);
    out
}

const EBML_ID: &[u8] = &[0x1a, 0x45, 0xdf, 0xa3];
const SEGMENT_ID: &[u8] = &[0x18, 0x53, 0x80, 0x67];
const INFO_ID: &[u8] = &[0x15, 0x49, 0xa9, 0x66];
const TIMECODE_SCALE_ID: &[u8] = &[0x2a, 0xd7, 0xb1];
const DURATION_ID: &[u8] = &[0x44, 0x89];
const TITLE_ID: &[u8] = &[0x7b, 0xa9];
const TRACKS_ID: &[u8] = &[0x16, 0x54, 0xae, 0x6b];
const TRACK_ENTRY_ID: &[u8] = &[0xae];
const TRACK_NUMBER_ID: &[u8] = &[0xd7];
const TRACK_TYPE_ID: &[u8] = &[0x83];
const CODEC_ID_ID: &[u8] = &[0x86];
const CLUSTER_ID: &[u8] = &[0x1f, 0x43, 0xb6, 0x75];
const TIMECODE_ID: &[u8] = &[0xe7];
const SIMPLE_BLOCK_ID: &[u8] = &[0xa3];
const BLOCK_GROUP_ID: &[u8] = &[0xa0];
const BLOCK_ID: &[u8] = &[0xa1];

fn mk_file(segment_children: &[u8]) -> Vec<u8> {
    let mut out = elem(EBML_ID, &[]);
    out.extend_from_slice(&elem(SEGMENT_ID, segment_children));
    out
}

fn track_entry(number: u8, ty: u8, codec: &str) -> Vec<u8> {
    let mut body = elem(TRACK_NUMBER_ID, &[number]);
    body.extend_from_slice(&elem(TRACK_TYPE_ID, &[ty]));
    body.extend_from_slice(&elem(CODEC_ID_ID, codec.as_bytes()));
    elem(TRACK_ENTRY_ID, &body)
}

fn simple_block(track: u8, rel: i16, payload: &[u8]) -> Vec<u8> {
    let mut body = vec![0x80 | track];
    body.extend_from_slice(&(rel as u16).to_be_bytes());
    body.push(0x80); // keyframe, no lacing
    body.extend_from_slice(payload);
    elem(SIMPLE_BLOCK_ID, &body)
}

// ---- metadata --------------------------------------------------------------

#[test]
fn two_tracks_in_order_nonzero_unique() {
    let mut seg = Vec::new();
    let mut tracks = track_entry(1, 1, "V_VP9");
    tracks.extend_from_slice(&track_entry(2, 2, "A_OPUS"));
    seg.extend_from_slice(&elem(TRACKS_ID, &tracks));
    let data = mk_file(&seg);
    let (_, ts) = parse_metadata(&data).unwrap();
    assert_eq!(ts.len(), 2);
    assert_eq!(ts[0].track_number, 1);
    assert_eq!(ts[0].track_type, TrackType::Video);
    assert_eq!(ts[0].codec_id, "V_VP9");
    assert_eq!(ts[1].track_number, 2);
    assert_eq!(ts[1].track_type, TrackType::Audio);
    assert_eq!(ts[1].codec_id, "A_OPUS");
    assert!(ts[0].track_number != 0 && ts[1].track_number != 0);
    assert!(ts[0].track_number != ts[1].track_number);
}

#[test]
fn duration_seconds_exact() {
    let mut info = elem(TIMECODE_SCALE_ID, &[0x0f, 0x42, 0x40]); // 1_000_000
    info.extend_from_slice(&elem(DURATION_ID, &[0x13, 0x88])); // 5_000 ticks
    let seg = elem(INFO_ID, &info);
    let data = mk_file(&seg);
    let (si, _) = parse_metadata(&data).unwrap();
    assert_eq!(si.timecode_scale, 1_000_000);
    assert_eq!(si.duration_ticks, Some(5_000));
    assert_eq!(si.duration_nanos(), Some(5_000_000_000));
    let secs = si.duration_nanos().unwrap() as f64 / 1e9;
    assert_eq!(secs, 5.0);
}

#[test]
fn missing_title_is_absent_not_empty() {
    let info = elem(TIMECODE_SCALE_ID, &[0x0f, 0x42, 0x40]);
    let seg = elem(INFO_ID, &info);
    let data = mk_file(&seg);
    let (si, _) = parse_metadata(&data).unwrap();
    assert!(si.title.is_none());
}

#[test]
fn present_title_is_returned() {
    let info = elem(TITLE_ID, "A small song".as_bytes());
    let seg = elem(INFO_ID, &info);
    let data = mk_file(&seg);
    let (si, _) = parse_metadata(&data).unwrap();
    assert_eq!(si.title.as_deref(), Some("A small song"));
}

#[test]
fn defaults_without_info() {
    let data = mk_file(&[]);
    let (si, ts) = parse_metadata(&data).unwrap();
    assert!(si.title.is_none());
    assert_eq!(si.timecode_scale, 1_000_000);
    assert!(si.duration_ticks.is_none());
    assert!(si.duration_nanos().is_none());
    assert!(ts.is_empty());
}

#[test]
fn not_matroska_signature() {
    let data = vec![0x00, 0x01, 0x02, 0x03, 0x04, 0x05];
    assert_eq!(parse_metadata(&data).unwrap_err(), ParseError::NotMatroska);
    assert_eq!(parse_metadata(&Vec::new()).unwrap_err(), ParseError::NotMatroska);
}

#[test]
fn truncated_segment_fails() {
    // valid header, then a Segment whose declared size reaches past the end
    let mut data = elem(EBML_ID, &[]);
    data.extend_from_slice(SEGMENT_ID);
    data.extend_from_slice(&vint_size(100));
    data.extend_from_slice(&[0x00, 0x01]);
    assert_eq!(parse_metadata(&data).unwrap_err(), ParseError::Truncated);
}

#[test]
fn truncated_child_fails() {
    // Tracks child declares more bytes than the Segment holds
    let mut seg = Vec::new();
    seg.extend_from_slice(TRACKS_ID);
    seg.extend_from_slice(&vint_size(50));
    seg.push(0xae);
    let data = mk_file(&seg);
    assert_eq!(parse_metadata(&data).unwrap_err(), ParseError::Truncated);
}

#[test]
fn track_without_number_is_malformed() {
    let body = elem(CODEC_ID_ID, b"A_OPUS");
    let entry = elem(TRACK_ENTRY_ID, &body);
    let seg = elem(TRACKS_ID, &entry);
    let data = mk_file(&seg);
    assert_eq!(parse_metadata(&data).unwrap_err(), ParseError::MalformedTrack);
}

#[test]
fn track_without_codec_is_malformed() {
    let body = elem(TRACK_NUMBER_ID, &[1]);
    let entry = elem(TRACK_ENTRY_ID, &body);
    let seg = elem(TRACKS_ID, &entry);
    let data = mk_file(&seg);
    assert_eq!(parse_metadata(&data).unwrap_err(), ParseError::MalformedTrack);
}

#[test]
fn zero_track_number_is_malformed() {
    let entry = track_entry(0, 2, "A_OPUS");
    let seg = elem(TRACKS_ID, &entry);
    let data = mk_file(&seg);
    assert_eq!(parse_metadata(&data).unwrap_err(), ParseError::MalformedTrack);
}

#[test]
fn duplicate_track_numbers_are_malformed() {
    let mut tracks = track_entry(3, 1, "V_VP9");
    tracks.extend_from_slice(&track_entry(3, 2, "A_OPUS"));
    let seg = elem(TRACKS_ID, &tracks);
    let data = mk_file(&seg);
    assert_eq!(parse_metadata(&data).unwrap_err(), ParseError::MalformedTrack);
}

#[test]
fn invalid_utf8_title_is_malformed() {
    let info = elem(TITLE_ID, &[0xff, 0xfe, 0xfd]);
    let seg = elem(INFO_ID, &info);
    let data = mk_file(&seg);
    assert_eq!(parse_metadata(&data).unwrap_err(), ParseError::MalformedId);
}

#[test]
fn invalid_utf8_codec_is_malformed() {
    let mut body = elem(TRACK_NUMBER_ID, &[1]);
    body.extend_from_slice(&elem(CODEC_ID_ID, &[0xc0, 0x00]));
    let entry = elem(TRACK_ENTRY_ID, &body);
    let seg = elem(TRACKS_ID, &entry);
    let data = mk_file(&seg);
    assert_eq!(parse_metadata(&data).unwrap_err(), ParseError::MalformedTrack);
}

#[test]
fn zero_id_byte_is_malformed() {
    // a child whose ID byte is zero has no marker bit anywhere
    let mut seg = vec![0x00];
    seg.extend_from_slice(&vint_size(0));
    let data = mk_file(&seg);
    assert_eq!(parse_metadata(&data).unwrap_err(), ParseError::MalformedId);
}

#[test]
fn oversized_scale_field_is_malformed() {
    // a TimecodeScale payload longer than eight bytes is no integer
    let info = elem(TIMECODE_SCALE_ID, &[1, 2, 3, 4, 5, 6, 7, 8, 9]);
    let seg = elem(INFO_ID, &info);
    let data = mk_file(&seg);
    assert_eq!(parse_metadata(&data).unwrap_err(), ParseError::MalformedId);
}

#[test]
fn unknown_track_type_maps_to_other() {
    let entry = track_entry(1, 0x42, "S_TEXT");
    let seg = elem(TRACKS_ID, &entry);
    let data = mk_file(&seg);
    let (_, ts) = parse_metadata(&data).unwrap();
    assert_eq!(ts[0].track_type, TrackType::Other);
}

// ---- frame demuxing --------------------------------------------------------

fn collect_all_frames(sess: &mut DemuxSession) -> Vec<(u64, Vec<u8>, Option<u64>)> {
    let mut out = Vec::new();
    while let Ok(Some(f)) = sess.next_frame() {
        out.push((f.track_number, f.payload, f.timestamp));
    }
    out
}

#[test]
fn simple_blocks_in_order_with_timestamps() {
    let mut cl = elem(TIMECODE_ID, &[0x64]); // cluster timecode 100
    cl.extend_from_slice(&simple_block(1, 5, &[0xaa, 0xbb]));
    cl.extend_from_slice(&simple_block(2, 7, &[0xcc]));
    cl.extend_from_slice(&simple_block(1, -3, &[0xdd]));
    let seg = elem(CLUSTER_ID, &cl);
    let data = mk_file(&seg);
    let mut sess = DemuxSession::open(data).unwrap();
    let frames = collect_all_frames(&mut sess);
    assert_eq!(
        frames,
        vec![
            (1, vec![0xaa, 0xbb], Some(105)),
            (2, vec![0xcc], Some(107)),
            (1, vec![0xdd], Some(97)),
        ]
    );
    // exhausted stream keeps answering None
    assert!(matches!(sess.next_frame(), Ok(None)));
    assert!(matches!(sess.next_frame(), Ok(None)));
}

#[test]
fn block_group_yields_frames() {
    let mut blk = vec![0x81, 0x00, 0x02, 0x00]; // track 1, rel 2, no lacing
    blk.extend_from_slice(&[0x11, 0x22, 0x33]);
    let group = elem(BLOCK_GROUP_ID, &elem(BLOCK_ID, &blk));
    let mut cl = elem(TIMECODE_ID, &[0x0a]);
    cl.extend_from_slice(&group);
    let seg = elem(CLUSTER_ID, &cl);
    let data = mk_file(&seg);
    let mut sess = DemuxSession::open(data).unwrap();
    let frames = collect_all_frames(&mut sess);
    assert_eq!(frames, vec![(1, vec![0x11, 0x22, 0x33], Some(12))]);
}

#[test]
fn xiph_lacing_yields_separate_frames() {
    // three sub-frames of sizes 2, 1, 3 on track 1
    let mut body = vec![0x81, 0x00, 0x00, 0x02]; // flags: xiph lacing
    body.push(2); // frame count - 1
    body.push(2); // size of first
    body.push(1); // size of second
    body.extend_from_slice(&[0x01, 0x02, 0x03, 0x04, 0x05, 0x06]);
    let cl = elem(SIMPLE_BLOCK_ID, &body);
    let seg = elem(CLUSTER_ID, &cl);
    let data = mk_file(&seg);
    let mut sess = DemuxSession::open(data).unwrap();
    let frames = collect_all_frames(&mut sess);
    assert_eq!(
        frames,
        vec![
            (1, vec![0x01, 0x02], None),
            (1, vec![0x03], None),
            (1, vec![0x04, 0x05, 0x06], None),
        ]
    );
}

#[test]
fn xiph_lacing_long_size() {
    // first sub-frame of size 255 + 2 = 257, second the remainder
    let mut body = vec![0x81, 0x00, 0x00, 0x02];
    body.push(1);
    body.push(255);
    body.push(2);
    body.extend_from_slice(&vec![0x55; 257]);
    body.extend_from_slice(&[0x66, 0x66]);
    let cl = elem(SIMPLE_BLOCK_ID, &body);
    let seg = elem(CLUSTER_ID, &cl);
    let data = mk_file(&seg);
    let mut sess = DemuxSession::open(data).unwrap();
    let frames = collect_all_frames(&mut sess);
    assert_eq!(frames.len(), 2);
    assert_eq!(frames[0].1, vec![0x55; 257]);
    assert_eq!(frames[1].1, vec![0x66, 0x66]);
}

#[test]
fn fixed_lacing_splits_evenly() {
    let mut body = vec![0x81, 0x00, 0x00, 0x04]; // flags: fixed lacing
    body.push(2); // three sub-frames
    body.extend_from_slice(&[1, 2, 3, 4, 5, 6]);
    let cl = elem(SIMPLE_BLOCK_ID, &body);
    let seg = elem(CLUSTER_ID, &cl);
    let data = mk_file(&seg);
    let mut sess = DemuxSession::open(data).unwrap();
    let frames = collect_all_frames(&mut sess);
    assert_eq!(
        frames,
        vec![(1, vec![1, 2], None), (1, vec![3, 4], None), (1, vec![5, 6], None)]
    );
}

#[test]
fn fixed_lacing_uneven_is_malformed() {
    let mut body = vec![0x81, 0x00, 0x00, 0x04];
    body.push(2); // three sub-frames over 7 bytes: uneven
    body.extend_from_slice(&[1, 2, 3, 4, 5, 6, 7]);
    let cl = elem(SIMPLE_BLOCK_ID, &body);
    let seg = elem(CLUSTER_ID, &cl);
    let data = mk_file(&seg);
    let mut sess = DemuxSession::open(data).unwrap();
    assert_eq!(sess.next_frame().unwrap_err(), ParseError::MalformedBlock);
}

#[test]
fn ebml_lacing_yields_separate_frames() {
    // sizes 2, then delta -1 (= 1), remainder 3
    let mut body = vec![0x81, 0x00, 0x00, 0x06]; // flags: ebml lacing
    body.push(2); // frame count - 1
    body.push(0x82); // first size: 2
    body.push(0x80 | 62); // signed vint: 62 - 63 = -1, so size 1
    body.extend_from_slice(&[0x01, 0x02, 0x03, 0x04, 0x05, 0x06]);
    let cl = elem(SIMPLE_BLOCK_ID, &body);
    let seg = elem(CLUSTER_ID, &cl);
    let data = mk_file(&seg);
    let mut sess = DemuxSession::open(data).unwrap();
    let frames = collect_all_frames(&mut sess);
    assert_eq!(
        frames,
        vec![
            (1, vec![0x01, 0x02], None),
            (1, vec![0x03], None),
            (1, vec![0x04, 0x05, 0x06], None),
        ]
    );
}

#[test]
fn truncated_block_is_malformed() {
    let body = vec![0x81, 0x00]; // track vint, then cut mid-header
    let cl = elem(SIMPLE_BLOCK_ID, &body);
    let seg = elem(CLUSTER_ID, &cl);
    let data = mk_file(&seg);
    let mut sess = DemuxSession::open(data).unwrap();
    assert_eq!(sess.next_frame().unwrap_err(), ParseError::MalformedBlock);
}

#[test]
fn open_rejects_bad_signature() {
    assert_eq!(
        DemuxSession::open(vec![1, 2, 3, 4, 5]).unwrap_err(),
        ParseError::NotMatroska
    );
}

#[test]
fn seek_to_start_replays_identically() {
    let mut cl = elem(TIMECODE_ID, &[0x10]);
    cl.extend_from_slice(&simple_block(1, 1, &[0x01, 0x02]));
    cl.extend_from_slice(&simple_block(2, 2, &[0x03]));
    cl.extend_from_slice(&simple_block(1, 3, &[0x04, 0x05]));
    let mut seg = elem(CLUSTER_ID, &cl);
    let cl2 = simple_block(2, 9, &[0x06]);
    seg.extend_from_slice(&elem(CLUSTER_ID, &cl2));
    let data = mk_file(&seg);
    let mut sess = DemuxSession::open(data).unwrap();
    let first = collect_all_frames(&mut sess);
    sess.seek_to_start();
    let second = collect_all_frames(&mut sess);
    assert_eq!(first, second);
    assert_eq!(first.len(), 4);
}

#[test]
fn per_track_payload_sums_match_blocks() {
    // track 1 appears in a plain block (2 bytes) and a laced block (1 + 3
    // bytes, counted individually); track 2 holds 4 bytes
    let mut cl = elem(TIMECODE_ID, &[0x00]);
    cl.extend_from_slice(&simple_block(1, 0, &[0x01, 0x02]));
    cl.extend_from_slice(&simple_block(2, 0, &[0x09, 0x0a, 0x0b, 0x0c]));
    let mut laced = vec![0x81, 0x00, 0x00, 0x02];
    laced.push(1);
    laced.push(1);
    laced.extend_from_slice(&[0x03, 0x04, 0x05, 0x06]);
    cl.extend_from_slice(&elem(SIMPLE_BLOCK_ID, &laced));
    let seg = elem(CLUSTER_ID, &cl);
    let data = mk_file(&seg);
    let mut sess = DemuxSession::open(data).unwrap();
    let frames = collect_all_frames(&mut sess);
    let sum = |t: u64| -> usize {
        frames.iter().filter(|f| f.0 == t).map(|f| f.1.len()).sum()
    };
    assert_eq!(sum(1), 2 + 1 + 3);
    assert_eq!(sum(2), 4);
    assert_eq!(frames.iter().filter(|f| f.0 == 1).count(), 3);
}

// ---- orchestration ---------------------------------------------------------

#[test]
fn analyze_minimal_audio_container() {
    let mut seg = Vec::new();
    let entry = track_entry(1, 2, "A_OPUS");
    seg.extend_from_slice(&elem(TRACKS_ID, &entry));
    let mut cl = elem(TIMECODE_ID, &[0x00]);
    cl.extend_from_slice(&simple_block(1, 0, &[0x01, 0x02]));
    cl.extend_from_slice(&simple_block(1, 1, &[0x03]));
    cl.extend_from_slice(&simple_block(1, 2, &[0x04, 0x05, 0x06]));
    seg.extend_from_slice(&elem(CLUSTER_ID, &cl));
    let data = mk_file(&seg);
    let a = analyze(data).unwrap();
    assert_eq!(a.tracks.len(), 1);
    assert_eq!(a.audio_tracks.len(), 1);
    assert_eq!(a.audio_tracks[0].track_id, 1);
    assert_eq!(a.audio_tracks[0].codec, "A_OPUS");
    assert_eq!(a.audio_tracks[0].data, vec![0x01, 0x02, 0x03, 0x04, 0x05, 0x06]);
}

#[test]
fn analyze_filters_by_track_and_skips_video() {
    let mut seg = Vec::new();
    let mut tracks = track_entry(1, 1, "V_VP9");
    tracks.extend_from_slice(&track_entry(2, 2, "A_OPUS"));
    seg.extend_from_slice(&elem(TRACKS_ID, &tracks));
    let mut cl = elem(TIMECODE_ID, &[0x00]);
    cl.extend_from_slice(&simple_block(1, 0, &[0xf0, 0xf1]));
    cl.extend_from_slice(&simple_block(2, 0, &[0x10]));
    cl.extend_from_slice(&simple_block(2, 1, &[0x11, 0x12]));
    seg.extend_from_slice(&elem(CLUSTER_ID, &cl));
    let data = mk_file(&seg);
    let a = analyze(data).unwrap();
    assert_eq!(a.audio_tracks.len(), 1);
    assert_eq!(a.audio_tracks[0].track_id, 2);
    assert_eq!(a.audio_tracks[0].data, vec![0x10, 0x11, 0x12]);
}

#[test]
fn analyze_propagates_metadata_errors() {
    assert_eq!(analyze(vec![0, 1, 2, 3]).unwrap_err(), ParseError::NotMatroska);
    let mut data = elem(EBML_ID, &[]);
    data.extend_from_slice(SEGMENT_ID);
    data.extend_from_slice(&vint_size(90));
    assert_eq!(analyze(data).unwrap_err(), ParseError::Truncated);
}

#[test]
fn analyze_carries_title_and_duration() {
    let mut info = elem(TITLE_ID, b"Voice memo");
    info.extend_from_slice(&elem(TIMECODE_SCALE_ID, &[0x0f, 0x42, 0x40]));
    info.extend_from_slice(&elem(DURATION_ID, &[0x13, 0x88]));
    let mut seg = elem(INFO_ID, &info);
    let entry = track_entry(1, 2, "A_OPUS");
    seg.extend_from_slice(&elem(TRACKS_ID, &entry));
    let data = mk_file(&seg);
    let a = analyze(data).unwrap();
    assert_eq!(a.info.title.as_deref(), Some("Voice memo"));
    assert_eq!(a.info.duration_nanos(), Some(5_000_000_000));
    assert_eq!(a.tracks[0].codec_id, "A_OPUS");
    assert_eq!(a.audio_tracks[0].data, Vec::<u8>::new());
}

#[test]
fn foreign_elements_are_skipped() {
    // a Void element before Tracks and an unrecognized child inside the
    // cluster must not disturb the walk
    let mut seg = elem(&[0xec], &[0x00, 0x00, 0x00]);
    let entry = track_entry(1, 2, "A_OPUS");
    seg.extend_from_slice(&elem(TRACKS_ID, &entry));
    let mut cl = elem(TIMECODE_ID, &[0x00]);
    cl.extend_from_slice(&elem(&[0xec], &[0xff]));
    cl.extend_from_slice(&simple_block(1, 0, &[0x33, 0x44]));
    seg.extend_from_slice(&elem(CLUSTER_ID, &cl));
    let data = mk_file(&seg);
    let a = analyze(data).unwrap();
    assert_eq!(a.tracks.len(), 1);
    assert_eq!(a.audio_tracks[0].data, vec![0x33, 0x44]);
}

#[test]
fn frames_with_unknown_tracks_are_ignored_by_accumulation() {
    // a frame on an undeclared track is not an error, just of no interest
    let mut seg = Vec::new();
    let entry = track_entry(1, 2, "A_OPUS");
    seg.extend_from_slice(&elem(TRACKS_ID, &entry));
    let mut cl = elem(TIMECODE_ID, &[0x00]);
    cl.extend_from_slice(&simple_block(7, 0, &[0xee]));
    cl.extend_from_slice(&simple_block(1, 0, &[0x42]));
    seg.extend_from_slice(&elem(CLUSTER_ID, &cl));
    let data = mk_file(&seg);
    let a = analyze(data).unwrap();
    assert_eq!(a.audio_tracks[0].data, vec![0x42]);
}
