use vstd::prelude::*;
use vstd::slice::slice_subrange;
use vstd::slice::slice_to_vec;

verus! {

/// Size of the fixed frame header in bytes.
pub const HEADER_SIZE: usize = 15;

/// Largest payload a frame may carry on the wire.
pub const MAX_PAYLOAD: usize = 65536;

/// Largest encoded frame: header plus the largest payload.
pub const MAX_FRAME: usize = 65551;

/// Payloads at or below this size are never compressed.
pub const COMPRESS_THRESHOLD: usize = 256;

/// Flags bit marking a zstd-compressed payload.
pub const FLAG_COMPRESSED: u16 = 1;

/// zstd level used for compressed payloads.
const ZSTD_LEVEL: i32 = 3;

// ── Big-endian integers ─────────────────────────────────────────────────

pub open spec fn u16_bytes(v: u16) -> Seq<u8> {
    seq![(v >> 8u16) as u8, v as u8]
}

pub open spec fn u32_bytes(v: u32) -> Seq<u8> {
    seq![(v >> 24u32) as u8, (v >> 16u32) as u8, (v >> 8u32) as u8, v as u8]
}

pub open spec fn u64_bytes(v: u64) -> Seq<u8> {
    seq![
        (v >> 56u64) as u8, (v >> 48u64) as u8, (v >> 40u64) as u8, (v >> 32u64) as u8,
        (v >> 24u64) as u8, (v >> 16u64) as u8, (v >> 8u64) as u8, v as u8,
    ]
}

pub open spec fn be_u16(a: u8, b: u8) -> u16 {
    ((a as u16) << 8u16) | (b as u16)
}

pub open spec fn be_u32(a: u8, b: u8, c: u8, d: u8) -> u32 {
    ((a as u32) << 24u32) | ((b as u32) << 16u32) | ((c as u32) << 8u32) | (d as u32)
}

pub open spec fn be_u64(s: Seq<u8>, i: int) -> u64 {
    ((s[i] as u64) << 56u64) | ((s[i + 1] as u64) << 48u64) | ((s[i + 2] as u64) << 40u64)
        | ((s[i + 3] as u64) << 32u64) | ((s[i + 4] as u64) << 24u64) | ((s[i + 5] as u64)
        << 16u64) | ((s[i + 6] as u64) << 8u64) | (s[i + 7] as u64)
}

/// Reading back the big-endian bytes of a `u16` gives the value.
pub proof fn lemma_be_u16(v: u16)
    ensures
        be_u16(u16_bytes(v)[0], u16_bytes(v)[1]) == v,
{
    assert(((((v >> 8u16) as u8) as u16) << 8u16) | ((v as u8) as u16) == v) by (bit_vector);
}

/// Reading back the big-endian bytes of a `u32` gives the value.
pub proof fn lemma_be_u32(v: u32)
    ensures
        be_u32(u32_bytes(v)[0], u32_bytes(v)[1], u32_bytes(v)[2], u32_bytes(v)[3]) == v,
{
    assert(((((v >> 24u32) as u8) as u32) << 24u32) | ((((v >> 16u32) as u8) as u32) << 16u32)
        | ((((v >> 8u32) as u8) as u32) << 8u32) | ((v as u8) as u32) == v) by (bit_vector);
}

/// Reading back the big-endian bytes of a `u64` gives the value.
pub proof fn lemma_be_u64(v: u64)
    ensures
        be_u64(u64_bytes(v), 0) == v,
{
    assert(((((v >> 56u64) as u8) as u64) << 56u64) | ((((v >> 48u64) as u8) as u64) << 48u64)
        | ((((v >> 40u64) as u8) as u64) << 40u64) | ((((v >> 32u64) as u8) as u64) << 32u64)
        | ((((v >> 24u64) as u8) as u64) << 24u64) | ((((v >> 16u64) as u8) as u64) << 16u64)
        | ((((v >> 8u64) as u8) as u64) << 8u64) | ((v as u8) as u64) == v) by (bit_vector);
}

// ── Frame types ─────────────────────────────────────────────────────────

#[derive(Debug, Clone, Copy, PartialEq, Eq, Structural)]
pub enum FrameType {
    Data,
    Resize,
    Heartbeat,
    Close,
    Scrollback,
    WindowUpdate,
}

impl FrameType {
    /// The type byte on the wire.
    pub open spec fn code(self) -> u8 {
        match self {
            FrameType::Data => 1,
            FrameType::Resize => 2,
            FrameType::Heartbeat => 3,
            FrameType::Close => 4,
            FrameType::Scrollback => 5,
            FrameType::WindowUpdate => 6,
        }
    }

    pub fn as_u8(self) -> (r: u8)
        ensures
            r == self.code(),
    {
        match self {
            FrameType::Data => 1,
            FrameType::Resize => 2,
            FrameType::Heartbeat => 3,
            FrameType::Close => 4,
            FrameType::Scrollback => 5,
            FrameType::WindowUpdate => 6,
        }
    }

    fn from_u8(v: u8) -> (r: Result<FrameType, FrameError>)
        ensures
            valid_type_code(v) ==> r == Ok::<FrameType, FrameError>(type_of_code(v)),
            !valid_type_code(v) ==> (r matches Err(FrameError::UnknownType(b)) && b == v),
    {
        match v {
            1 => Ok(FrameType::Data),
            2 => Ok(FrameType::Resize),
            3 => Ok(FrameType::Heartbeat),
            4 => Ok(FrameType::Close),
            5 => Ok(FrameType::Scrollback),
            6 => Ok(FrameType::WindowUpdate),
            _ => Err(FrameError::UnknownType(v)),
        }
    }
}

pub open spec fn valid_type_code(v: u8) -> bool {
    1 <= v <= 6
}

pub open spec fn type_of_code(v: u8) -> FrameType {
    if v == 1 {
        FrameType::Data
    } else if v == 2 {
        FrameType::Resize
    } else if v == 3 {
        FrameType::Heartbeat
    } else if v == 4 {
        FrameType::Close
    } else if v == 5 {
        FrameType::Scrollback
    } else {
        FrameType::WindowUpdate
    }
}

// ── Errors ──────────────────────────────────────────────────────────────

#[derive(Debug)]
pub enum FrameError {
    UnknownType(u8),
    PayloadTooLarge(usize),
    IncompleteHeader(usize),
    IncompletePayload { need: usize, got: usize },
    Compress(String),
    Decompress(String),
}

// ── Frame ───────────────────────────────────────────────────────────────

#[derive(Debug, Clone)]
pub struct Frame {
    pub frame_type: FrameType,
    pub sequence: u64,
    pub payload: Vec<u8>,
}

impl PartialEq for Frame {
    fn eq(&self, o: &Frame) -> (r: bool) {
        if self.frame_type != o.frame_type || self.sequence != o.sequence || self.payload.len()
            != o.payload.len() {
            return false;
        }
        let n = self.payload.len();
        let mut i: usize = 0;
        while i < n
            invariant
                n == self.payload@.len(),
                n == o.payload@.len(),
                i <= n,
                forall|k: int| 0 <= k < i ==> self.payload@[k] == o.payload@[k],
            decreases n - i,
        {
            if self.payload[i] != o.payload[i] {
                return false;
            }
            i = i + 1;
        }
        assert(self.payload@ =~= o.payload@);
        true
    }
}

impl vstd::std_specs::cmp::PartialEqSpecImpl for Frame {
    open spec fn obeys_eq_spec() -> bool {
        true
    }

    open spec fn eq_spec(&self, o: &Frame) -> bool {
        self.frame_type == o.frame_type && self.sequence == o.sequence && self.payload@
            == o.payload@
    }
}

impl Frame {
    pub fn data(seq: u64, payload: Vec<u8>) -> (r: Frame)
        ensures
            r.frame_type == FrameType::Data,
            r.sequence == seq,
            r.payload@ == payload@,
    {
        Frame { frame_type: FrameType::Data, sequence: seq, payload }
    }

    pub fn resize(seq: u64, cols: u16, rows: u16) -> (r: Frame)
        ensures
            r.frame_type == FrameType::Resize,
            r.sequence == seq,
            r.payload@ == u16_bytes(cols) + u16_bytes(rows),
    {
        let mut payload: Vec<u8> = Vec::with_capacity(4);
        payload.push((cols >> 8u16) as u8);
        payload.push(cols as u8);
        payload.push((rows >> 8u16) as u8);
        payload.push(rows as u8);
        assert(payload@ =~= u16_bytes(cols) + u16_bytes(rows));
        Frame { frame_type: FrameType::Resize, sequence: seq, payload }
    }

    pub fn heartbeat(seq: u64) -> (r: Frame)
        ensures
            r.frame_type == FrameType::Heartbeat,
            r.sequence == seq,
            r.payload@ == Seq::<u8>::empty(),
    {
        Frame { frame_type: FrameType::Heartbeat, sequence: seq, payload: Vec::new() }
    }

    pub fn close(seq: u64) -> (r: Frame)
        ensures
            r.frame_type == FrameType::Close,
            r.sequence == seq,
            r.payload@ == Seq::<u8>::empty(),
    {
        Frame { frame_type: FrameType::Close, sequence: seq, payload: Vec::new() }
    }

    pub fn scrollback(seq: u64, payload: Vec<u8>) -> (r: Frame)
        ensures
            r.frame_type == FrameType::Scrollback,
            r.sequence == seq,
            r.payload@ == payload@,
    {
        Frame { frame_type: FrameType::Scrollback, sequence: seq, payload }
    }

    pub fn window_update(seq: u64, window: u64) -> (r: Frame)
        ensures
            r.frame_type == FrameType::WindowUpdate,
            r.sequence == seq,
            r.payload@ == u64_bytes(window),
    {
        let mut payload: Vec<u8> = Vec::with_capacity(8);
        push_u64(&mut payload, window);
        assert(payload@ =~= u64_bytes(window));
        Frame { frame_type: FrameType::WindowUpdate, sequence: seq, payload }
    }

    /// Reads `(cols, rows)` out of a resize frame.
    pub fn parse_resize(&self) -> (r: Option<(u16, u16)>)
        ensures
            self.frame_type != FrameType::Resize || self.payload@.len() < 4 ==> r is None,
            self.frame_type == FrameType::Resize && self.payload@.len() >= 4 ==> r == Some(
                (
                    be_u16(self.payload@[0], self.payload@[1]),
                    be_u16(self.payload@[2], self.payload@[3]),
                ),
            ),
    {
        if self.frame_type != FrameType::Resize || self.payload.len() < 4 {
            return None;
        }
        let p = &self.payload;
        let cols = ((p[0] as u16) << 8u16) | (p[1] as u16);
        let rows = ((p[2] as u16) << 8u16) | (p[3] as u16);
        Some((cols, rows))
    }

    /// Reads the window size out of a window-update frame.
    pub fn parse_window_update(&self) -> (r: Option<u64>)
        ensures
            self.frame_type != FrameType::WindowUpdate || self.payload@.len() < 8 ==> r is None,
            self.frame_type == FrameType::WindowUpdate && self.payload@.len() >= 8 ==> r == Some(
                be_u64(self.payload@, 0),
            ),
    {
        if self.frame_type != FrameType::WindowUpdate || self.payload.len() < 8 {
            return None;
        }
        Some(read_u64(self.payload.as_slice(), 0))
    }
}

fn push_u64(buf: &mut Vec<u8>, v: u64)
    ensures
        final(buf)@ == old(buf)@ + u64_bytes(v),
{
    let ghost start = buf@;
    buf.push((v >> 56u64) as u8);
    buf.push((v >> 48u64) as u8);
    buf.push((v >> 40u64) as u8);
    buf.push((v >> 32u64) as u8);
    buf.push((v >> 24u64) as u8);
    buf.push((v >> 16u64) as u8);
    buf.push((v >> 8u64) as u8);
    buf.push(v as u8);
    assert(buf@ =~= start + u64_bytes(v));
}

fn read_u64(s: &[u8], i: usize) -> (r: u64)
    requires
        i + 8 <= s@.len(),
    ensures
        r == be_u64(s@, i as int),
{
    ((s[i] as u64) << 56u64) | ((s[i + 1] as u64) << 48u64) | ((s[i + 2] as u64) << 40u64) | ((s[i
        + 3] as u64) << 32u64) | ((s[i + 4] as u64) << 24u64) | ((s[i + 5] as u64) << 16u64) | ((s[i
        + 6] as u64) << 8u64) | (s[i + 7] as u64)
}


// ── zstd ────────────────────────────────────────────────────────────────

/// What zstd's bulk compressor at level 3 produces for `data`.
pub uninterp spec fn zstd_compressed(data: Seq<u8>) -> Seq<u8>;

/// What zstd's bulk decompressor, bounded at `MAX_PAYLOAD` bytes, produces for
/// `data`; `None` when it rejects the data.
pub uninterp spec fn zstd_decompressed(data: Seq<u8>) -> Option<Seq<u8>>;

/// Relies on zstd::bulk::compress at level 3: the bytes depend on the input
/// alone. Level 3 is valid and the output buffer is sized by `compress_bound`, so
/// the call fails only if zstd cannot allocate its context.
#[verifier::external_body]
fn zstd_compress(data: &[u8]) -> (r: Vec<u8>)
    ensures
        r@ == zstd_compressed(data@),
{
    zstd::bulk::compress(data, ZSTD_LEVEL).expect("zstd could not allocate a compression context")
}

/// Relies on zstd::bulk::decompress with a capacity of `MAX_PAYLOAD`: whether it
/// succeeds and what it yields depend on the input alone, the output is at most
/// that long, and zstd is lossless, so a frame that its compressor made
/// decompresses to the bytes it was made from.
#[verifier::external_body]
fn zstd_decompress(data: &[u8]) -> (r: Result<Vec<u8>, String>)
    ensures
        r is Ok <==> zstd_decompressed(data@) is Some,
        r is Ok ==> r->Ok_0@ == zstd_decompressed(data@)->Some_0 && r->Ok_0@.len() <= MAX_PAYLOAD,
        forall|p: Seq<u8>|
            zstd_compressed(p) == data@ && p.len() <= MAX_PAYLOAD ==> (r is Ok && r->Ok_0@ == p),
{
    zstd::bulk::decompress(data, MAX_PAYLOAD).map_err(|e| e.to_string())
}

// ── Encoder ─────────────────────────────────────────────────────────────

/// The wire image of a frame with the given header fields and body.
pub open spec fn wire(code: u8, seq: u64, flags: u16, body: Seq<u8>) -> Seq<u8> {
    seq![code] + u32_bytes(body.len() as u32) + u64_bytes(seq) + u16_bytes(flags) + body
}

/// Whether `encode` tries zstd on this payload.
pub open spec fn tries_compression(payload: Seq<u8>, compress: bool) -> bool {
    compress && payload.len() > COMPRESS_THRESHOLD
}

/// Whether `encode` sends the compressed form of this payload.
pub open spec fn uses_compression(payload: Seq<u8>, compress: bool) -> bool {
    tries_compression(payload, compress) && zstd_compressed(payload).len() < payload.len()
}

/// The body that `encode` puts on the wire.
pub open spec fn encoded_body(payload: Seq<u8>, compress: bool) -> Seq<u8> {
    if uses_compression(payload, compress) {
        zstd_compressed(payload)
    } else {
        payload
    }
}

/// The flags that `encode` puts on the wire.
pub open spec fn encoded_flags(payload: Seq<u8>, compress: bool) -> u16 {
    if uses_compression(payload, compress) {
        FLAG_COMPRESSED
    } else {
        0
    }
}

/// The bytes of a successful `encode`.
pub open spec fn encoding(f: Frame, compress: bool) -> Seq<u8> {
    wire(
        f.frame_type.code(),
        f.sequence,
        encoded_flags(f.payload@, compress),
        encoded_body(f.payload@, compress),
    )
}

/// Frames a body that is already in its wire form.
pub fn encode_body(frame: &Frame, body: &[u8], flags: u16) -> (r: Result<Vec<u8>, FrameError>)
    ensures
        body@.len() <= MAX_PAYLOAD ==> r is Ok && r->Ok_0@ == wire(
            frame.frame_type.code(),
            frame.sequence,
            flags,
            body@,
        ),
        body@.len() > MAX_PAYLOAD ==> (r matches Err(FrameError::PayloadTooLarge(n)) && n
            == body@.len()),
{
    if body.len() > MAX_PAYLOAD {
        return Err(FrameError::PayloadTooLarge(body.len()));
    }
    let mut buf: Vec<u8> = Vec::with_capacity(HEADER_SIZE + body.len());
    let len = body.len() as u32;
    buf.push(frame.frame_type.as_u8());
    buf.push((len >> 24u32) as u8);
    buf.push((len >> 16u32) as u8);
    buf.push((len >> 8u32) as u8);
    buf.push(len as u8);
    push_u64(&mut buf, frame.sequence);
    buf.push((flags >> 8u16) as u8);
    buf.push(flags as u8);
    buf.extend_from_slice(body);
    assert(buf@ =~= wire(frame.frame_type.code(), frame.sequence, flags, body@));
    Ok(buf)
}

/// Encodes a frame, compressing its payload when asked to, when it is longer
/// than `COMPRESS_THRESHOLD` and when zstd makes it strictly shorter.
pub fn encode(frame: &Frame, compress: bool) -> (r: Result<Vec<u8>, FrameError>)
    ensures
        r is Ok <==> encoded_body(frame.payload@, compress).len() <= MAX_PAYLOAD,
        r is Ok ==> r->Ok_0@ == encoding(*frame, compress),
        r is Err ==> (r matches Err(FrameError::PayloadTooLarge(n)) && n == encoded_body(
            frame.payload@,
            compress,
        ).len()),
{
    if compress && frame.payload.len() > COMPRESS_THRESHOLD {
        let c = zstd_compress(frame.payload.as_slice());
        if c.len() < frame.payload.len() {
            encode_body(frame, c.as_slice(), FLAG_COMPRESSED)
        } else {
            encode_body(frame, frame.payload.as_slice(), 0)
        }
    } else {
        encode_body(frame, frame.payload.as_slice(), 0)
    }
}

// ── Decoder ─────────────────────────────────────────────────────────────

/// The payload length that a header announces.
pub open spec fn announced_len(buf: Seq<u8>) -> u32 {
    be_u32(buf[1], buf[2], buf[3], buf[4])
}

/// The sequence number that a header carries.
pub open spec fn header_sequence(buf: Seq<u8>) -> u64 {
    be_u64(buf, 5)
}

/// The flags that a header carries.
pub open spec fn header_flags(buf: Seq<u8>) -> u16 {
    be_u16(buf[13], buf[14])
}

/// The length of the frame at the start of `buf`, header included.
pub open spec fn frame_len(buf: Seq<u8>) -> nat {
    HEADER_SIZE as nat + announced_len(buf) as nat
}

/// The raw payload bytes of the frame at the start of `buf`.
pub open spec fn raw_payload(buf: Seq<u8>) -> Seq<u8> {
    buf.subrange(HEADER_SIZE as int, frame_len(buf) as int)
}

/// The payload that the frame at the start of `buf` decodes to.
pub open spec fn decoded_payload(buf: Seq<u8>) -> Seq<u8> {
    if header_flags(buf) & FLAG_COMPRESSED != 0 {
        zstd_decompressed(raw_payload(buf))->Some_0
    } else {
        raw_payload(buf)
    }
}

/// Whether `buf` starts with a complete header of a known type and an
/// acceptable length, followed by the whole payload.
pub open spec fn holds_frame(buf: Seq<u8>) -> bool {
    buf.len() >= HEADER_SIZE && valid_type_code(buf[0]) && announced_len(buf) <= MAX_PAYLOAD
        && buf.len() >= frame_len(buf)
}

/// What `decode` returns for `buf`.
pub open spec fn decode_spec(buf: Seq<u8>, r: Result<Option<(Frame, usize)>, FrameError>) -> bool {
    if buf.len() < HEADER_SIZE {
        r matches Ok(None)
    } else if !valid_type_code(buf[0]) {
        r matches Err(FrameError::UnknownType(b)) && b == buf[0]
    } else if announced_len(buf) > MAX_PAYLOAD {
        r matches Err(FrameError::PayloadTooLarge(n)) && n == announced_len(buf)
    } else if buf.len() < frame_len(buf) {
        r matches Ok(None)
    } else {
        &&& r is Ok ==> r->Ok_0 is Some
        &&& r is Ok ==> {
            let (f, n) = r->Ok_0->Some_0;
            &&& f.frame_type == type_of_code(buf[0])
            &&& f.sequence == header_sequence(buf)
            &&& f.payload@ == decoded_payload(buf)
            &&& n == frame_len(buf)
        }
        &&& r is Err <==> (header_flags(buf) & FLAG_COMPRESSED != 0 && zstd_decompressed(
            raw_payload(buf),
        ) is None)
        &&& r is Err ==> r->Err_0 is Decompress
        &&& header_flags(buf) & FLAG_COMPRESSED != 0 ==> forall|p: Seq<u8>|
            zstd_compressed(p) == raw_payload(buf) && p.len() <= MAX_PAYLOAD ==> r is Ok
                && decoded_payload(buf) == p
    }
}

/// Decodes the frame at the start of `buf`, with the number of bytes it took;
/// `Ok(None)` when `buf` does not yet hold a whole frame.
pub fn decode(buf: &[u8]) -> (r: Result<Option<(Frame, usize)>, FrameError>)
    ensures
        decode_spec(buf@, r),
{
    if buf.len() < HEADER_SIZE {
        return Ok(None);
    }
    let frame_type = match FrameType::from_u8(buf[0]) {
        Ok(t) => t,
        Err(e) => return Err(e),
    };
    let payload_len = (((buf[1] as u32) << 24u32) | ((buf[2] as u32) << 16u32) | ((buf[3] as u32)
        << 8u32) | (buf[4] as u32)) as usize;
    let sequence = read_u64(buf, 5);
    let flags = ((buf[13] as u16) << 8u16) | (buf[14] as u16);
    if payload_len > MAX_PAYLOAD {
        return Err(FrameError::PayloadTooLarge(payload_len));
    }
    let total = HEADER_SIZE + payload_len;
    if buf.len() < total {
        return Ok(None);
    }
    let raw = slice_subrange(buf, HEADER_SIZE, total);
    let payload = if flags & FLAG_COMPRESSED != 0 {
        match zstd_decompress(raw) {
            Ok(p) => p,
            Err(e) => return Err(FrameError::Decompress(e)),
        }
    } else {
        slice_to_vec(raw)
    };
    Ok(Some((Frame { frame_type, sequence, payload }, total)))
}


// ── Streaming decoder ───────────────────────────────────────────────────

/// Accumulates bytes and yields complete frames.
pub struct FrameDecoder {
    buf: Vec<u8>,
    start: usize,
}

impl FrameDecoder {
    pub closed spec fn wf(&self) -> bool {
        self.start <= self.buf@.len()
    }

    /// The bytes fed and not yet consumed.
    pub closed spec fn pending(&self) -> Seq<u8> {
        self.buf@.subrange(self.start as int, self.buf@.len() as int)
    }

    pub fn new() -> (r: FrameDecoder)
        ensures
            r.wf(),
            r.pending() == Seq::<u8>::empty(),
    {
        let r = FrameDecoder { buf: Vec::new(), start: 0 };
        assert(r.pending() =~= Seq::<u8>::empty());
        r
    }

    /// Feeds bytes into the decoder.
    pub fn feed(&mut self, data: &[u8])
        requires
            old(self).wf(),
        ensures
            final(self).wf(),
            final(self).pending() == old(self).pending() + data@,
    {
        self.buf.extend_from_slice(data);
        assert(self.pending() =~= old(self).pending() + data@);
    }

    /// Decodes the next complete frame; `Ok(None)` when more bytes are needed.
    /// A decoded frame's bytes leave the pending input; otherwise it is unchanged.
    pub fn decode_next(&mut self) -> (r: Result<Option<Frame>, FrameError>)
        requires
            old(self).wf(),
        ensures
            final(self).wf(),
            r is Ok && r->Ok_0 is Some ==> decode_spec(
                old(self).pending(),
                Ok(Some((r->Ok_0->Some_0, frame_len(old(self).pending()) as usize))),
            ) && final(self).pending() == old(self).pending().subrange(
                frame_len(old(self).pending()) as int,
                old(self).pending().len() as int,
            ),
            r is Ok && r->Ok_0 is None ==> decode_spec(old(self).pending(), Ok(None))
                && final(self).pending() == old(self).pending(),
            r is Err ==> decode_spec(old(self).pending(), Err(r->Err_0)) && final(self).pending()
                == old(self).pending(),
    {
        let ghost before = self.pending();
        let pending = slice_subrange(self.buf.as_slice(), self.start, self.buf.len());
        match decode(pending) {
            Ok(Some((frame, consumed))) => {
                assert(consumed as nat == frame_len(before));
                self.start = self.start + consumed;
                self.compact();
                assert(self.pending() =~= before.subrange(consumed as int, before.len() as int));
                Ok(Some(frame))
            },
            Ok(None) => Ok(None),
            Err(e) => Err(e),
        }
    }

    /// Drops consumed bytes once they make up at least half of the buffer, so
    /// each byte is moved at most once on average.
    fn compact(&mut self)
        requires
            old(self).wf(),
        ensures
            final(self).wf(),
            final(self).pending() == old(self).pending(),
    {
        if self.start == self.buf.len() {
            self.buf.clear();
            self.start = 0;
            assert(self.pending() =~= old(self).pending());
        } else if self.start >= self.buf.len() - self.start {
            let rest = slice_to_vec(slice_subrange(self.buf.as_slice(), self.start, self.buf.len()));
            self.buf = rest;
            self.start = 0;
            assert(self.pending() =~= old(self).pending());
        }
    }
}

impl Default for FrameDecoder {
    fn default() -> (r: FrameDecoder)
        ensures
            r.wf(),
            r.pending() == Seq::<u8>::empty(),
    {
        FrameDecoder::new()
    }
}

// ── Control messages ────────────────────────────────────────────────────

/// Frames a JSON control message with its 4-byte big-endian length.
pub fn encode_message(json: &[u8]) -> (r: Vec<u8>)
    requires
        json@.len() <= u32::MAX,
    ensures
        r@ == u32_bytes(json@.len() as u32) + json@,
{
    let len = json.len() as u32;
    let mut buf: Vec<u8> = Vec::new();
    buf.push((len >> 24u32) as u8);
    buf.push((len >> 16u32) as u8);
    buf.push((len >> 8u32) as u8);
    buf.push(len as u8);
    buf.extend_from_slice(json);
    assert(buf@ =~= u32_bytes(json@.len() as u32) + json@);
    buf
}

/// Largest JSON body of a control message, in bytes.
pub const MAX_CONTROL_MESSAGE: usize = 65536;

/// Whether a control message body of this length is accepted.
pub fn control_message_fits(len: usize) -> (r: bool)
    ensures
        r == (len <= MAX_CONTROL_MESSAGE),
{
    len <= MAX_CONTROL_MESSAGE
}

/// Splits a length-prefixed control message off the front of `buf`, with the
/// number of bytes it took; `None` while it is incomplete.
pub fn decode_message(buf: &[u8]) -> (r: Option<(&[u8], usize)>)
    ensures
        buf@.len() < 4 ==> r is None,
        buf@.len() >= 4 ==> {
            let len = be_u32(buf@[0], buf@[1], buf@[2], buf@[3]) as int;
            &&& buf@.len() < 4 + len ==> r is None
            &&& buf@.len() >= 4 + len ==> r is Some && r->Some_0.0@ == buf@.subrange(4, 4 + len)
                && r->Some_0.1 == 4 + len
        },
{
    if buf.len() < 4 {
        return None;
    }
    let len = (((buf[0] as u32) << 24u32) | ((buf[1] as u32) << 16u32) | ((buf[2] as u32) << 8u32)
        | (buf[3] as u32)) as usize;
    if len > buf.len() - 4 {
        return None;
    }
    let total = 4 + len;
    Some((slice_subrange(buf, 4, total), total))
}

// ── Laws ────────────────────────────────────────────────────────────────

proof fn lemma_wire_header(code: u8, seq: u64, flags: u16, body: Seq<u8>)
    requires
        body.len() <= MAX_PAYLOAD,
    ensures
        ({
            let w = wire(code, seq, flags, body);
            &&& w.len() == HEADER_SIZE + body.len()
            &&& w[0] == code
            &&& announced_len(w) == body.len()
            &&& header_sequence(w) == seq
            &&& header_flags(w) == flags
            &&& frame_len(w) == w.len()
            &&& raw_payload(w) == body
        }),
{
    let w = wire(code, seq, flags, body);
    lemma_be_u16(flags);
    lemma_be_u32(body.len() as u32);
    lemma_be_u64(seq);
    assert(u64_bytes(seq) =~= w.subrange(5, 13));
    assert(be_u64(w, 5) == be_u64(u64_bytes(seq), 0));
    assert(raw_payload(w) =~= body);
}

/// Decoding a frame encoded without compression gives back the frame and
/// consumes the whole encoding.
pub proof fn lemma_plain_round_trip(f: Frame, r: Result<Option<(Frame, usize)>, FrameError>)
    requires
        f.payload@.len() <= MAX_PAYLOAD,
        decode_spec(encoding(f, false), r),
    ensures
        r is Ok && r->Ok_0 is Some,
        r->Ok_0->Some_0.0.frame_type == f.frame_type,
        r->Ok_0->Some_0.0.sequence == f.sequence,
        r->Ok_0->Some_0.0.payload@ == f.payload@,
        r->Ok_0->Some_0.1 == encoding(f, false).len(),
{
    let w = encoding(f, false);
    lemma_wire_header(f.frame_type.code(), f.sequence, 0, f.payload@);
    assert(0u16 & FLAG_COMPRESSED == 0) by (bit_vector);
    assert(type_of_code(f.frame_type.code()) == f.frame_type);
}

/// Decoding a data frame encoded with compression requested gives back its
/// payload, and the encoding is never longer than the uncompressed one.
pub proof fn lemma_compressed_round_trip(
    seq: u64,
    payload: Seq<u8>,
    f: Frame,
    r: Result<Option<(Frame, usize)>, FrameError>,
)
    requires
        payload.len() <= MAX_PAYLOAD,
        f.frame_type == FrameType::Data,
        f.sequence == seq,
        f.payload@ == payload,
        decode_spec(encoding(f, true), r),
    ensures
        r is Ok && r->Ok_0 is Some,
        r->Ok_0->Some_0.0.payload@ == payload,
        r->Ok_0->Some_0.0.sequence == seq,
        encoding(f, true).len() <= HEADER_SIZE + payload.len(),
{
    let body = encoded_body(payload, true);
    let flags = encoded_flags(payload, true);
    lemma_wire_header(1, seq, flags, body);
    if uses_compression(payload, true) {
        assert(1u16 & FLAG_COMPRESSED != 0) by (bit_vector);
    } else {
        assert(0u16 & FLAG_COMPRESSED == 0) by (bit_vector);
    }
}

/// Input fed in chunks.
pub open spec fn fed(start: Seq<u8>, chunks: Seq<Seq<u8>>) -> Seq<u8>
    decreases chunks.len(),
{
    if chunks.len() == 0 {
        start
    } else {
        fed(start, chunks.drop_last()) + chunks.last()
    }
}

proof fn lemma_fed_flatten(start: Seq<u8>, chunks: Seq<Seq<u8>>)
    ensures
        fed(start, chunks) == start + chunks.flatten(),
    decreases chunks.len(),
{
    if chunks.len() == 0 {
        assert(start + chunks.flatten() =~= start);
    } else {
        lemma_fed_flatten(start, chunks.drop_last());
        chunks.lemma_flatten_and_flatten_alt_are_equivalent();
        chunks.drop_last().lemma_flatten_and_flatten_alt_are_equivalent();
        assert(chunks.flatten() == chunks.drop_last().flatten() + chunks.last());
        assert(start + chunks.flatten() =~= start + chunks.drop_last().flatten() + chunks.last());
    }
}

/// Where the chunk boundaries fall does not matter: two ways of cutting the same
/// bytes into chunks leave the same pending input, so the next decode gives the
/// same frame (and a buffer that holds a frame always decodes when it is not compressed).
pub proof fn lemma_chunking_irrelevant(
    start: Seq<u8>,
    xs: Seq<Seq<u8>>,
    ys: Seq<Seq<u8>>,
    r1: Result<Option<(Frame, usize)>, FrameError>,
    r2: Result<Option<(Frame, usize)>, FrameError>,
)
    requires
        xs.flatten() == ys.flatten(),
        decode_spec(fed(start, xs), r1),
        decode_spec(fed(start, ys), r2),
        r1 is Ok,
        r2 is Ok,
    ensures
        fed(start, xs) == fed(start, ys),
        r1->Ok_0 is Some <==> r2->Ok_0 is Some,
        r1->Ok_0 is Some ==> {
            let (f1, n1) = r1->Ok_0->Some_0;
            let (f2, n2) = r2->Ok_0->Some_0;
            &&& f1.frame_type == f2.frame_type
            &&& f1.sequence == f2.sequence
            &&& f1.payload@ == f2.payload@
            &&& n1 == n2
        },
{
    lemma_fed_flatten(start, xs);
    lemma_fed_flatten(start, ys);
}

/// Frames encoded one after another, each with its own compression choice.
pub open spec fn stream(frames: Seq<(Frame, bool)>) -> Seq<u8>
    decreases frames.len(),
{
    if frames.len() == 0 {
        Seq::empty()
    } else {
        stream(frames.drop_last()) + encoding(frames.last().0, frames.last().1)
    }
}

/// Whether every frame's payload fits in one frame.
pub open spec fn encodable(frames: Seq<(Frame, bool)>) -> bool {
    forall|i: int| 0 <= i < frames.len() ==> (#[trigger] frames[i]).0.payload@.len() <= MAX_PAYLOAD
}

proof fn lemma_encoding_facts(f: Frame, c: bool)
    requires
        f.payload@.len() <= MAX_PAYLOAD,
    ensures
        ({
            let w = encoding(f, c);
            let body = encoded_body(f.payload@, c);
            &&& body.len() <= MAX_PAYLOAD
            &&& w.len() == HEADER_SIZE + body.len()
            &&& valid_type_code(w[0])
            &&& type_of_code(w[0]) == f.frame_type
            &&& announced_len(w) == body.len()
            &&& frame_len(w) == w.len()
            &&& header_sequence(w) == f.sequence
            &&& raw_payload(w) == body
            &&& (header_flags(w) & FLAG_COMPRESSED != 0) == uses_compression(f.payload@, c)
        }),
{
    let flags = encoded_flags(f.payload@, c);
    lemma_wire_header(f.frame_type.code(), f.sequence, flags, encoded_body(f.payload@, c));
    assert(1u16 & FLAG_COMPRESSED != 0) by (bit_vector);
    assert(0u16 & FLAG_COMPRESSED == 0) by (bit_vector);
}

proof fn lemma_header_agrees(w: Seq<u8>, buf: Seq<u8>)
    requires
        w.len() >= HEADER_SIZE,
        buf.len() >= HEADER_SIZE,
        forall|i: int| 0 <= i < HEADER_SIZE ==> buf[i] == w[i],
    ensures
        buf[0] == w[0],
        announced_len(buf) == announced_len(w),
        header_sequence(buf) == header_sequence(w),
        header_flags(buf) == header_flags(w),
{
    assert(buf[1] == w[1] && buf[2] == w[2] && buf[3] == w[3] && buf[4] == w[4]);
    assert(buf[5] == w[5] && buf[6] == w[6] && buf[7] == w[7] && buf[8] == w[8]);
    assert(buf[9] == w[9] && buf[10] == w[10] && buf[11] == w[11] && buf[12] == w[12]);
    assert(buf[13] == w[13] && buf[14] == w[14]);
}

/// Pending bytes that start with a whole encoded frame decode to exactly that
/// frame, whatever follows it.
pub proof fn lemma_frame_at_front(
    f: Frame,
    c: bool,
    rest: Seq<u8>,
    r: Result<Option<(Frame, usize)>, FrameError>,
)
    requires
        f.payload@.len() <= MAX_PAYLOAD,
        decode_spec(encoding(f, c) + rest, r),
    ensures
        r is Ok && r->Ok_0 is Some,
        r->Ok_0->Some_0.0.frame_type == f.frame_type,
        r->Ok_0->Some_0.0.sequence == f.sequence,
        r->Ok_0->Some_0.0.payload@ == f.payload@,
        r->Ok_0->Some_0.1 == encoding(f, c).len(),
{
    let w = encoding(f, c);
    let buf = w + rest;
    lemma_encoding_facts(f, c);
    lemma_header_agrees(w, buf);
    assert(raw_payload(buf) =~= raw_payload(w));
}

/// Pending bytes that hold only part of an encoded frame ask for more data.
pub proof fn lemma_partial_frame(f: Frame, c: bool, k: int, r: Result<Option<(Frame, usize)>, FrameError>)
    requires
        f.payload@.len() <= MAX_PAYLOAD,
        0 <= k < encoding(f, c).len(),
        decode_spec(encoding(f, c).take(k), r),
    ensures
        r matches Ok(None),
{
    let w = encoding(f, c);
    lemma_encoding_facts(f, c);
    if k >= HEADER_SIZE {
        lemma_header_agrees(w, w.take(k));
    }
}

proof fn lemma_stream_prefix(frames: Seq<(Frame, bool)>, j: int)
    requires
        0 <= j <= frames.len(),
    ensures
        stream(frames.take(j)).len() <= stream(frames).len(),
        stream(frames).take(stream(frames.take(j)).len() as int) == stream(frames.take(j)),
    decreases frames.len(),
{
    if j == frames.len() {
        assert(frames.take(j) =~= frames);
        assert(stream(frames).take(stream(frames).len() as int) =~= stream(frames));
    } else {
        let d = frames.drop_last();
        assert(frames.take(j) =~= d.take(j));
        lemma_stream_prefix(d, j);
        let a = stream(d.take(j)).len() as int;
        assert(stream(frames).take(a) =~= stream(d).take(a));
    }
}

/// Frames fed in any chunks come out whole and in order: at each frame boundary
/// of the stream, the pending bytes (however many of the rest have been fed)
/// decode to the next frame once it has fully arrived, ask for more data before
/// that, and never fail.
pub proof fn lemma_stream_in_order(
    frames: Seq<(Frame, bool)>,
    k: int,
    fed: int,
    r: Result<Option<(Frame, usize)>, FrameError>,
)
    requires
        encodable(frames),
        0 <= k <= frames.len(),
        stream(frames.take(k)).len() <= fed <= stream(frames).len(),
        decode_spec(stream(frames).subrange(stream(frames.take(k)).len() as int, fed), r),
    ensures
        k == frames.len() ==> r matches Ok(None),
        k < frames.len() && fed < stream(frames.take(k + 1)).len() ==> r matches Ok(None),
        k < frames.len() && fed >= stream(frames.take(k + 1)).len() ==> {
            &&& r is Ok && r->Ok_0 is Some
            &&& r->Ok_0->Some_0.0.frame_type == frames[k].0.frame_type
            &&& r->Ok_0->Some_0.0.sequence == frames[k].0.sequence
            &&& r->Ok_0->Some_0.0.payload@ == frames[k].0.payload@
            &&& r->Ok_0->Some_0.1 == encoding(frames[k].0, frames[k].1).len()
        },
{
    let s = stream(frames);
    let a = stream(frames.take(k)).len() as int;
    if k == frames.len() {
        assert(frames.take(k) =~= frames);
        assert(s.subrange(a, fed).len() == 0);
    } else {
        let (f, c) = frames[k];
        assert(frames[k].0.payload@.len() <= MAX_PAYLOAD);
        let w = encoding(f, c);
        assert(frames.take(k + 1).drop_last() =~= frames.take(k));
        assert(frames.take(k + 1).last() == frames[k]);
        let b = stream(frames.take(k + 1)).len() as int;
        lemma_stream_prefix(frames, k + 1);
        assert(b == a + w.len());
        assert(s.subrange(a, b) =~= w) by {
            assert forall|i: int| 0 <= i < w.len() implies s.subrange(a, b)[i] == w[i] by {
                assert(s.take(b)[a + i] == stream(frames.take(k + 1))[a + i]);
            }
        }
        let buf = s.subrange(a, fed);
        if fed >= b {
            assert(buf =~= w + s.subrange(b, fed));
            lemma_frame_at_front(f, c, s.subrange(b, fed), r);
        } else {
            assert(buf =~= w.take(fed - a));
            lemma_partial_frame(f, c, fed - a, r);
        }
    }
}

} // verus!
