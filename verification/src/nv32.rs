//! NV32 object-file container: the byte-exact segmented binary format the
//! assembler emits and the loader reads.
//!
//! ```text
//! File header (12 bytes): magic "NV32", version u16 LE (= 1),
//!                         seg_count u16 LE, reserved u32 LE (= 0).
//! Segment (16-byte header, then payload):
//!   kind u8 (0 = code/data, 1 = BSS), flags u8 (= 0), reserved u16 LE,
//!   base_addr u32 LE, length_words u32 LE, reserved2 u32 LE,
//!   payload: length_words x u32 LE (absent for BSS).
//! ```

use vstd::prelude::*;
use crate::vram::le32;

verus! {

/// What a segment holds: initialised words, or zero-filled reservation.
#[derive(Debug, Clone, Copy, PartialEq, Eq, Structural)]
pub enum SegmentKind {
    CodeData,
    Bss,
}

/// One segment of an NV32 image.
#[derive(Debug, Clone, PartialEq, Eq)]
pub struct NvSegment {
    pub kind: SegmentKind,
    pub base_addr: u32,
    pub length_words: u32,
    /// Empty for BSS.
    pub words: Vec<u32>,
}

/// A segment as contracts see it.
#[verifier::ext_equal]
pub ghost struct SegView {
    pub kind: SegmentKind,
    pub base_addr: u32,
    pub length_words: u32,
    pub words: Seq<u32>,
}

impl View for NvSegment {
    type V = SegView;

    open spec fn view(&self) -> SegView {
        SegView {
            kind: self.kind,
            base_addr: self.base_addr,
            length_words: self.length_words,
            words: self.words@,
        }
    }
}

/// Errors reading an NV32 image.
#[derive(Debug, Clone, Copy, PartialEq, Eq, Structural)]
pub enum Nv32Error {
    /// The bytes end before the structure they promise.
    Truncated,
    /// The file does not start with "NV32".
    BadMagic,
    /// A version this reader does not know.
    BadVersion,
    /// A segment kind this reader does not know.
    UnknownKind(u8),
}

/// The two little-endian bytes of a 16-bit value.
pub open spec fn le16_bytes(x: u16) -> Seq<u8> {
    seq![(x & 0xFF) as u8, ((x >> 8) & 0xFF) as u8]
}

/// The four little-endian bytes of a 32-bit value.
pub open spec fn le32_bytes(x: u32) -> Seq<u8> {
    seq![
        (x & 0xFF) as u8,
        ((x >> 8) & 0xFF) as u8,
        ((x >> 16) & 0xFF) as u8,
        ((x >> 24) & 0xFF) as u8,
    ]
}

/// Two bytes read back little-endian.
pub open spec fn le16_val(b0: u8, b1: u8) -> u16 {
    (b0 as u16) | ((b1 as u16) << 8)
}

/// The word stored little-endian in `b` at `i`.
pub open spec fn le32_at(b: Seq<u8>, i: int) -> u32 {
    le32(b[i], b[i + 1], b[i + 2], b[i + 3])
}

/// The 16-bit value stored little-endian in `b` at `i`.
pub open spec fn le16_at(b: Seq<u8>, i: int) -> u16 {
    le16_val(b[i], b[i + 1])
}

/// A word sequence laid out little-endian.
pub open spec fn words_bytes(ws: Seq<u32>) -> Seq<u8>
    decreases ws.len(),
{
    if ws.len() == 0 {
        Seq::empty()
    } else {
        le32_bytes(ws[0]) + words_bytes(ws.drop_first())
    }
}

/// One encoded segment: the 16-byte header, then the payload for code/data.
pub open spec fn seg_bytes(s: SegView) -> Seq<u8> {
    let kind_byte: u8 = if s.kind is CodeData {
        0
    } else {
        1
    };
    seq![kind_byte, 0u8, 0u8, 0u8] + le32_bytes(s.base_addr) + le32_bytes(s.length_words)
        + le32_bytes(0) + (if s.kind is CodeData {
        words_bytes(s.words)
    } else {
        Seq::empty()
    })
}

/// The encoded segment list.
pub open spec fn segs_bytes(ss: Seq<SegView>) -> Seq<u8>
    decreases ss.len(),
{
    if ss.len() == 0 {
        Seq::empty()
    } else {
        seg_bytes(ss[0]) + segs_bytes(ss.drop_first())
    }
}

/// A whole NV32 image.
pub open spec fn nv32_bytes(ss: Seq<SegView>) -> Seq<u8> {
    seq![0x4Eu8, 0x56u8, 0x33u8, 0x32u8] + le16_bytes(1) + le16_bytes(ss.len() as u16)
        + le32_bytes(0) + segs_bytes(ss)
}

/// A segment whose header and payload agree: code/data carries exactly
/// `length_words` words, BSS carries none.
pub open spec fn seg_wf(s: SegView) -> bool {
    match s.kind {
        SegmentKind::CodeData => s.words.len() == s.length_words,
        SegmentKind::Bss => s.words.len() == 0,
    }
}

pub open spec fn segs_wf(ss: Seq<SegView>) -> bool {
    forall|i: int| 0 <= i < ss.len() ==> seg_wf(#[trigger] ss[i])
}

/// The encodings of the constant zero fields.
proof fn lemma_zero_bytes()
    ensures
        le16_bytes(0) == seq![0u8, 0u8],
        le32_bytes(0) == seq![0u8, 0u8, 0u8, 0u8],
{
    assert(0u16 & 0xFF == 0 && (0u16 >> 8) & 0xFF == 0) by (bit_vector);
    assert(0u32 & 0xFF == 0 && (0u32 >> 8) & 0xFF == 0 && (0u32 >> 16) & 0xFF == 0 && (0u32 >> 24)
        & 0xFF == 0) by (bit_vector);
    assert(le16_bytes(0) =~= seq![0u8, 0u8]);
    assert(le32_bytes(0) =~= seq![0u8, 0u8, 0u8, 0u8]);
}

/// Append the two little-endian bytes of `x`.
fn push_u16(out: &mut Vec<u8>, x: u16)
    ensures
        final(out)@ == old(out)@ + le16_bytes(x),
{
    out.push((x & 0xFF) as u8);
    out.push(((x >> 8) & 0xFF) as u8);
    proof {
        assert(out@ =~= old(out)@ + le16_bytes(x));
    }
}

/// Append the four little-endian bytes of `x`.
fn push_u32(out: &mut Vec<u8>, x: u32)
    ensures
        final(out)@ == old(out)@ + le32_bytes(x),
{
    out.push((x & 0xFF) as u8);
    out.push(((x >> 8) & 0xFF) as u8);
    out.push(((x >> 16) & 0xFF) as u8);
    out.push(((x >> 24) & 0xFF) as u8);
    proof {
        assert(out@ =~= old(out)@ + le32_bytes(x));
    }
}

/// Encode a segment list as a byte-exact NV32 image.
pub fn write_nv32(segments: &Vec<NvSegment>) -> (out: Vec<u8>)
    requires
        segments@.len() <= 0xFFFF,
    ensures
        out@ == nv32_bytes(segments@.map_values(|s: NvSegment| s@)),
{
    let ghost views = segments@.map_values(|s: NvSegment| s@);
    let mut out: Vec<u8> = Vec::new();
    out.push(0x4E);
    out.push(0x56);
    out.push(0x33);
    out.push(0x32);
    push_u16(&mut out, 1);
    push_u16(&mut out, segments.len() as u16);
    push_u32(&mut out, 0);
    proof {
        assert(out@ =~= seq![0x4Eu8, 0x56u8, 0x33u8, 0x32u8] + le16_bytes(1) + le16_bytes(
            views.len() as u16,
        ) + le32_bytes(0));
        assert(views.skip(0) =~= views);
    }
    let n = segments.len();
    let ghost header = out@;
    let mut i: usize = 0;
    while i < n
        invariant
            n == segments@.len(),
            0 <= i <= n,
            views == segments@.map_values(|s: NvSegment| s@),
            nv32_bytes(views) == header + segs_bytes(views),
            out@ + segs_bytes(views.skip(i as int)) == header + segs_bytes(views),
        decreases n - i,
    {
        let seg = &segments[i];
        let kind_byte: u8 = match seg.kind {
            SegmentKind::CodeData => 0,
            SegmentKind::Bss => 1,
        };
        let ghost before = out@;
        out.push(kind_byte);
        out.push(0);
        push_u16(&mut out, 0);
        push_u32(&mut out, seg.base_addr);
        push_u32(&mut out, seg.length_words);
        push_u32(&mut out, 0);
        proof {
            lemma_zero_bytes();
            assert(out@ =~= before + seq![kind_byte, 0u8, 0u8, 0u8] + le32_bytes(seg.base_addr)
                + le32_bytes(seg.length_words) + le32_bytes(0));
        }
        match seg.kind {
            SegmentKind::CodeData => {
                let ghost wstart = out@;
                let m = seg.words.len();
                proof {
                    assert(seg.words@.skip(0) =~= seg.words@);
                }
                let mut j: usize = 0;
                while j < m
                    invariant
                        m == seg.words@.len(),
                        0 <= j <= m,
                        out@ + words_bytes(seg.words@.skip(j as int)) == wstart + words_bytes(
                            seg.words@,
                        ),
                    decreases m - j,
                {
                    push_u32(&mut out, seg.words[j]);
                    proof {
                        assert(seg.words@.skip(j as int).drop_first() =~= seg.words@.skip(
                            j as int + 1,
                        ));
                        assert(words_bytes(seg.words@.skip(j as int)) =~= le32_bytes(
                            seg.words@[j as int],
                        ) + words_bytes(seg.words@.skip(j as int + 1)));
                    }
                    j = j + 1;
                }
                proof {
                    assert(seg.words@.skip(m as int) =~= Seq::<u32>::empty());
                    assert(words_bytes(seg.words@.skip(m as int)) =~= Seq::<u8>::empty());
                    assert(out@ =~= wstart + words_bytes(seg.words@));
                }
            },
            SegmentKind::Bss => {},
        }
        proof {
            assert(out@ =~= before + seg_bytes(views[i as int]));
            assert(views.skip(i as int).drop_first() =~= views.skip(i as int + 1));
            assert(segs_bytes(views.skip(i as int)) =~= seg_bytes(views[i as int]) + segs_bytes(
                views.skip(i as int + 1),
            ));
            assert(out@ + segs_bytes(views.skip(i as int + 1)) =~= header + segs_bytes(views));
        }
        i = i + 1;
    }
    proof {
        assert(views.skip(n as int) =~= Seq::<SegView>::empty());
        assert(segs_bytes(views.skip(n as int)) =~= Seq::<u8>::empty());
        assert(out@ =~= nv32_bytes(views));
    }
    out
}

/// Reading one segment from the front of `b`: the segment and the bytes it
/// used. A 16-byte header, then for code/data a payload of `length_words`
/// words.
pub open spec fn spec_parse_seg(b: Seq<u8>) -> Result<(SegView, int), Nv32Error> {
    if b.len() < 16 {
        Err(Nv32Error::Truncated)
    } else {
        let kind = b[0];
        let base = le32_at(b, 4);
        let lw = le32_at(b, 8);
        if kind == 0 {
            if b.len() < 16 + 4 * lw {
                Err(Nv32Error::Truncated)
            } else {
                Ok(
                    (
                        SegView {
                            kind: SegmentKind::CodeData,
                            base_addr: base,
                            length_words: lw,
                            words: Seq::new(lw as nat, |j: int| le32_at(b, 16 + 4 * j)),
                        },
                        16 + 4 * lw,
                    ),
                )
            }
        } else if kind == 1 {
            Ok(
                (
                    SegView {
                        kind: SegmentKind::Bss,
                        base_addr: base,
                        length_words: lw,
                        words: Seq::empty(),
                    },
                    16,
                ),
            )
        } else {
            Err(Nv32Error::UnknownKind(kind))
        }
    }
}

/// Reading `count` segments in sequence from the front of `b`. Bytes after
/// the last segment are left unread, as a stream reader would leave them.
pub open spec fn spec_parse_segs(b: Seq<u8>, count: nat) -> Result<Seq<SegView>, Nv32Error>
    decreases count,
{
    if count == 0 {
        Ok(Seq::empty())
    } else {
        match spec_parse_seg(b) {
            Err(e) => Err(e),
            Ok(first) => match spec_parse_segs(b.skip(first.1), (count - 1) as nat) {
                Err(e) => Err(e),
                Ok(rest) => Ok(seq![first.0] + rest),
            },
        }
    }
}

/// Reading a whole image: the magic, the version, then as many segments as
/// the header promises.
pub open spec fn spec_parse_nv32(b: Seq<u8>) -> Result<Seq<SegView>, Nv32Error> {
    if b.len() < 12 {
        Err(Nv32Error::Truncated)
    } else if !(b[0] == 0x4E && b[1] == 0x56 && b[2] == 0x33 && b[3] == 0x32) {
        Err(Nv32Error::BadMagic)
    } else if le16_at(b, 4) != 1 {
        Err(Nv32Error::BadVersion)
    } else {
        spec_parse_segs(b.skip(12), le16_at(b, 6) as nat)
    }
}

/// The 16-bit value stored little-endian at `i`.
fn read_u16_at(bytes: &[u8], i: usize) -> (r: u16)
    requires
        i + 2 <= bytes@.len(),
    ensures
        r == le16_at(bytes@, i as int),
{
    (bytes[i] as u16) | ((bytes[i + 1] as u16) << 8)
}

/// The word stored little-endian at `i`.
fn read_u32_at(bytes: &[u8], i: usize) -> (r: u32)
    requires
        i + 4 <= bytes@.len(),
    ensures
        r == le32_at(bytes@, i as int),
{
    (bytes[i] as u32) | ((bytes[i + 1] as u32) << 8) | ((bytes[i + 2] as u32) << 16) | ((bytes[i
        + 3] as u32) << 24)
}

/// Decode an NV32 image: exactly what `spec_parse_nv32` reads from the
/// bytes, segment for segment, or its error.
pub fn parse_nv32(bytes: &[u8]) -> (r: Result<Vec<NvSegment>, Nv32Error>)
    ensures
        match r {
            Ok(segs) => spec_parse_nv32(bytes@) == Ok::<Seq<SegView>, Nv32Error>(
                segs@.map_values(|s: NvSegment| s@),
            ),
            Err(e) => spec_parse_nv32(bytes@) == Err::<Seq<SegView>, Nv32Error>(e),
        },
{
    if bytes.len() < 12 {
        return Err(Nv32Error::Truncated);
    }
    if !(bytes[0] == 0x4E && bytes[1] == 0x56 && bytes[2] == 0x33 && bytes[3] == 0x32) {
        return Err(Nv32Error::BadMagic);
    }
    if read_u16_at(bytes, 4) != 1 {
        return Err(Nv32Error::BadVersion);
    }
    let count = read_u16_at(bytes, 6) as usize;
    let blen = bytes.len();
    let mut segs: Vec<NvSegment> = Vec::new();
    let mut pos: usize = 12;
    let mut k: usize = 0;
    proof {
        assert(segs@.map_values(|s: NvSegment| s@) =~= Seq::<SegView>::empty());
    }
    while k < count
        invariant
            blen == bytes@.len(),
            12 <= pos <= bytes@.len(),
            0 <= k <= count,
            spec_parse_nv32(bytes@) == (match spec_parse_segs(
                bytes@.skip(pos as int),
                (count - k) as nat,
            ) {
                Ok(rest) => Ok::<Seq<SegView>, Nv32Error>(
                    segs@.map_values(|s: NvSegment| s@) + rest,
                ),
                Err(e) => Err::<Seq<SegView>, Nv32Error>(e),
            }),
        decreases count - k,
    {
        let ghost tail = bytes@.skip(pos as int);
        let rem = bytes.len() - pos;
        if rem < 16 {
            return Err(Nv32Error::Truncated);
        }
        let kind = bytes[pos];
        let base_addr = read_u32_at(bytes, pos + 4);
        let length_words = read_u32_at(bytes, pos + 8);
        proof {
            assert(tail[0] == bytes@[pos as int]);
            assert(le32_at(tail, 4) == le32_at(bytes@, pos as int + 4));
            assert(le32_at(tail, 8) == le32_at(bytes@, pos as int + 8));
        }
        if kind == 0 {
            if ((rem - 16) as u64) < 4 * (length_words as u64) {
                return Err(Nv32Error::Truncated);
            }
            let mut words: Vec<u32> = Vec::new();
            let data = pos + 16;
            let mut j: usize = 0;
            proof {
                assert(words@ =~= Seq::new(0, |t: int| le32_at(tail, 16 + 4 * t)));
            }
            while j < length_words as usize
                invariant
                    blen == bytes@.len(),
                    0 <= j <= length_words,
                    data == pos + 16,
                    12 <= pos,
                    pos + 16 + 4 * (length_words as int) <= bytes@.len(),
                    tail == bytes@.skip(pos as int),
                    words@ == Seq::new(j as nat, |t: int| le32_at(tail, 16 + 4 * t)),
                decreases length_words - j,
            {
                let w = read_u32_at(bytes, data + 4 * j);
                words.push(w);
                proof {
                    assert(le32_at(tail, 16 + 4 * (j as int)) == le32_at(
                        bytes@,
                        pos as int + 16 + 4 * (j as int),
                    ));
                    assert(words@ =~= Seq::new((j + 1) as nat, |t: int| le32_at(tail, 16 + 4 * t)));
                }
                j = j + 1;
            }
            let ghost prev = segs@.map_values(|s: NvSegment| s@);
            let seg = NvSegment { kind: SegmentKind::CodeData, base_addr, length_words, words };
            let ghost segv = seg@;
            proof {
                assert(spec_parse_seg(tail) == Ok::<(SegView, int), Nv32Error>(
                    (segv, 16 + 4 * (length_words as int)),
                ));
            }
            segs.push(seg);
            pos = pos + 16 + 4 * (length_words as usize);
            k = k + 1;
            proof {
                assert(tail.skip(16 + 4 * (length_words as int)) =~= bytes@.skip(pos as int));
                assert(segs@.map_values(|s: NvSegment| s@) =~= prev + seq![segv]);
                match spec_parse_segs(bytes@.skip(pos as int), (count - k) as nat) {
                    Ok(rest) => {
                        assert(prev + (seq![segv] + rest) =~= (prev + seq![segv]) + rest);
                    },
                    Err(e) => {},
                }
            }
        } else if kind == 1 {
            let ghost prev = segs@.map_values(|s: NvSegment| s@);
            let seg = NvSegment {
                kind: SegmentKind::Bss,
                base_addr,
                length_words,
                words: Vec::new(),
            };
            let ghost segv = seg@;
            proof {
                assert(segv.words =~= Seq::<u32>::empty());
                assert(spec_parse_seg(tail) == Ok::<(SegView, int), Nv32Error>((segv, 16)));
            }
            segs.push(seg);
            pos = pos + 16;
            k = k + 1;
            proof {
                assert(tail.skip(16) =~= bytes@.skip(pos as int));
                assert(segs@.map_values(|s: NvSegment| s@) =~= prev + seq![segv]);
                match spec_parse_segs(bytes@.skip(pos as int), (count - k) as nat) {
                    Ok(rest) => {
                        assert(prev + (seq![segv] + rest) =~= (prev + seq![segv]) + rest);
                    },
                    Err(e) => {},
                }
            }
        } else {
            return Err(Nv32Error::UnknownKind(kind));
        }
    }
    proof {
        assert(segs@.map_values(|s: NvSegment| s@) + Seq::<SegView>::empty() =~= segs@.map_values(
            |s: NvSegment| s@,
        ));
    }
    Ok(segs)
}

/// Little-endian split and read-back are inverses, 16-bit.
proof fn lemma_le16_round(x: u16)
    by (bit_vector)
    ensures
        le16_val((x & 0xFF) as u8, ((x >> 8) & 0xFF) as u8) == x,
{
}

/// Little-endian split and read-back are inverses, 32-bit.
proof fn lemma_le32_round(x: u32)
    by (bit_vector)
    ensures
        le32(
            (x & 0xFF) as u8,
            ((x >> 8) & 0xFF) as u8,
            ((x >> 16) & 0xFF) as u8,
            ((x >> 24) & 0xFF) as u8,
        ) == x,
{
}

/// The little-endian layout of `n` words takes `4·n` bytes.
proof fn lemma_words_bytes_len(ws: Seq<u32>)
    ensures
        words_bytes(ws).len() == 4 * ws.len(),
    decreases ws.len(),
{
    if ws.len() > 0 {
        lemma_words_bytes_len(ws.drop_first());
    }
}

/// Reading word `j` back out of the little-endian layout gives `ws[j]`.
proof fn lemma_words_bytes_index(ws: Seq<u32>, j: int)
    requires
        0 <= j < ws.len(),
    ensures
        le32_at(words_bytes(ws), 4 * j) == ws[j],
    decreases j,
{
    lemma_words_bytes_len(ws.drop_first());
    if j == 0 {
        lemma_le32_round(ws[0]);
        assert(le32_at(words_bytes(ws), 0) == le32_val_of(ws[0]));
    } else {
        lemma_words_bytes_index(ws.drop_first(), j - 1);
        assert(le32_at(words_bytes(ws), 4 * j) == le32_at(words_bytes(ws.drop_first()), 4 * (j - 1)));
    }
}

/// The word whose little-endian bytes `le32_bytes` gives.
spec fn le32_val_of(x: u32) -> u32 {
    le32(
        (x & 0xFF) as u8,
        ((x >> 8) & 0xFF) as u8,
        ((x >> 16) & 0xFF) as u8,
        ((x >> 24) & 0xFF) as u8,
    )
}

/// Reading one well-formed encoded segment back gives the segment, however
/// the byte stream continues.
proof fn lemma_parse_seg_round(s: SegView, tail: Seq<u8>)
    requires
        seg_wf(s),
    ensures
        spec_parse_seg(seg_bytes(s) + tail) == Ok::<(SegView, int), Nv32Error>(
            (s, seg_bytes(s).len() as int),
        ),
{
    let b = seg_bytes(s) + tail;
    lemma_words_bytes_len(s.words);
    lemma_le32_round(s.base_addr);
    lemma_le32_round(s.length_words);
    assert(le32_at(b, 4) == s.base_addr);
    assert(le32_at(b, 8) == s.length_words);
    match s.kind {
        SegmentKind::CodeData => {
            assert(b[0] == 0u8);
            let parsed_words = Seq::new(
                s.length_words as nat,
                |j: int| le32_at(b, 16 + 4 * j),
            );
            assert forall|j: int| 0 <= j < s.words.len() implies le32_at(b, 16 + 4 * j)
                == s.words[j] by {
                lemma_words_bytes_index(s.words, j);
                assert(le32_at(b, 16 + 4 * j) == le32_at(words_bytes(s.words), 4 * j));
            }
            assert(parsed_words =~= s.words);
            assert(spec_parse_seg(b)->Ok_0.0 =~= s);
        },
        SegmentKind::Bss => {
            assert(b[0] == 1u8);
            assert(spec_parse_seg(b)->Ok_0.0 =~= s);
        },
    }
}

/// Reading a well-formed encoded segment list back gives the list.
proof fn lemma_parse_segs_round(ss: Seq<SegView>, tail: Seq<u8>)
    requires
        segs_wf(ss),
    ensures
        spec_parse_segs(segs_bytes(ss) + tail, ss.len()) == Ok::<Seq<SegView>, Nv32Error>(ss),
    decreases ss.len(),
{
    if ss.len() == 0 {
        assert(Seq::<SegView>::empty() =~= ss);
    } else {
        let rest = ss.drop_first();
        let b = segs_bytes(ss) + tail;
        assert(b =~= seg_bytes(ss[0]) + (segs_bytes(rest) + tail));
        lemma_parse_seg_round(ss[0], segs_bytes(rest) + tail);
        assert(b.skip(seg_bytes(ss[0]).len() as int) =~= segs_bytes(rest) + tail);
        assert(segs_wf(rest));
        lemma_parse_segs_round(rest, tail);
        assert(seq![ss[0]] + rest =~= ss);
    }
}

/// Law: the NV32 round trip. Emitting any well-formed segment list — each
/// code/data segment carrying exactly `length_words` words, each BSS
/// segment none — and re-reading the bytes preserves every segment's kind,
/// base address, length and words.
pub proof fn lemma_nv32_round_trip(ss: Seq<SegView>)
    requires
        ss.len() <= 0xFFFF,
        segs_wf(ss),
    ensures
        spec_parse_nv32(nv32_bytes(ss)) == Ok::<Seq<SegView>, Nv32Error>(ss),
{
    let b = nv32_bytes(ss);
    lemma_le16_round(1);
    lemma_le16_round(ss.len() as u16);
    assert(le16_at(b, 4) == 1u16);
    assert(le16_at(b, 6) == ss.len() as u16);
    assert(b.skip(12) =~= segs_bytes(ss) + Seq::<u8>::empty());
    lemma_parse_segs_round(ss, Seq::empty());
}

} // verus!
