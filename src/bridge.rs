use crate::frame::{be_u16, be_u64, Frame, FrameType, HEADER_SIZE, MAX_PAYLOAD};
use vstd::prelude::*;

verus! {

/// Credit the client grants before its first window update.
pub const DEFAULT_WINDOW: u64 = 262144;

/// Smallest and largest accepted terminal dimension.
pub const MIN_DIM: u16 = 1;

pub const MAX_DIM: u16 = 500;

/// Dimensions used when a create request leaves them out.
pub const DEFAULT_ROWS: u16 = 24;

pub const DEFAULT_COLS: u16 = 80;

pub open spec fn clamp_spec(v: u16) -> u16 {
    if v < MIN_DIM {
        MIN_DIM
    } else if v > MAX_DIM {
        MAX_DIM
    } else {
        v
    }
}

/// Clamps a terminal dimension into `[MIN_DIM, MAX_DIM]`.
pub fn clamp_dim(v: u16) -> (r: u16)
    ensures
        r == clamp_spec(v),
        MIN_DIM <= r <= MAX_DIM,
{
    if v < MIN_DIM {
        MIN_DIM
    } else if v > MAX_DIM {
        MAX_DIM
    } else {
        v
    }
}

/// A requested dimension clamped into `[MIN_DIM, MAX_DIM]`.
pub open spec fn clamp_request(x: u64) -> u16 {
    if x < MIN_DIM as u64 {
        MIN_DIM
    } else if x > MAX_DIM as u64 {
        MAX_DIM
    } else {
        x as u16
    }
}

/// A dimension as asked for in a create request: the default when absent,
/// else the requested number clamped into `[MIN_DIM, MAX_DIM]`.
pub fn requested_dim(v: Option<u64>, default: u16) -> (r: u16)
    ensures
        r == match v {
            Some(x) => clamp_request(x),
            None => clamp_spec(default),
        },
        MIN_DIM <= r <= MAX_DIM,
{
    match v {
        Some(x) => {
            if x < MIN_DIM as u64 {
                MIN_DIM
            } else if x > MAX_DIM as u64 {
                MAX_DIM
            } else {
                x as u16
            }
        },
        None => clamp_dim(default),
    }
}

// ── Control requests ────────────────────────────────────────────────────

/// The kinds of request a control stream serves.
#[derive(Debug, Clone, Copy, PartialEq, Eq, Structural)]
pub enum ControlRequest {
    /// Create a session and bridge this stream to it.
    Create,
    /// Attach to a session and bridge this stream to it.
    Attach,
    /// List the sessions.
    List,
    /// Destroy a session.
    Destroy,
    /// The device leaves; the stream ends.
    RemoveDevice,
    /// Anything else: answered with an error.
    Unknown,
}

/// Which request a control message's `type` names.
pub fn control_request(type_: &String) -> (r: ControlRequest)
    ensures
        r == if type_@ == "create_session"@ {
            ControlRequest::Create
        } else if type_@ == "attach_session"@ {
            ControlRequest::Attach
        } else if type_@ == "list_sessions"@ {
            ControlRequest::List
        } else if type_@ == "destroy_session"@ {
            ControlRequest::Destroy
        } else if type_@ == "remove_device"@ {
            ControlRequest::RemoveDevice
        } else {
            ControlRequest::Unknown
        },
{
    if *type_ == "create_session".to_owned() {
        ControlRequest::Create
    } else if *type_ == "attach_session".to_owned() {
        ControlRequest::Attach
    } else if *type_ == "list_sessions".to_owned() {
        ControlRequest::List
    } else if *type_ == "destroy_session".to_owned() {
        ControlRequest::Destroy
    } else if *type_ == "remove_device".to_owned() {
        ControlRequest::RemoveDevice
    } else {
        ControlRequest::Unknown
    }
}

/// Whether the stream stays in control mode after answering this request:
/// create and attach hand it to a bridge, and removal ends it.
pub fn stays_in_control(req: ControlRequest) -> (r: bool)
    ensures
        r == (req == ControlRequest::List || req == ControlRequest::Destroy || req
            == ControlRequest::Unknown),
{
    match req {
        ControlRequest::List | ControlRequest::Destroy | ControlRequest::Unknown => true,
        ControlRequest::Create | ControlRequest::Attach | ControlRequest::RemoveDevice => false,
    }
}

// ── Outbound ────────────────────────────────────────────────────────────

/// Flattened chunks.
pub open spec fn joined(chunks: Seq<Seq<u8>>) -> Seq<u8> {
    chunks.flatten()
}

/// Joins `first` with as many of the `queued` chunks, in order, as fit in one
/// payload of at most `MAX_PAYLOAD` bytes; returns the payload and how many
/// queued chunks it took. The chunk that would overflow is left queued.
pub fn coalesce(first: &Vec<u8>, queued: &Vec<Vec<u8>>) -> (r: (Vec<u8>, usize))
    requires
        first@.len() <= MAX_PAYLOAD,
    ensures
        r.1 <= queued@.len(),
        r.0@ == first@ + joined(Seq::new(r.1 as nat, |i: int| queued@[i]@)),
        r.0@.len() <= MAX_PAYLOAD,
        r.1 < queued@.len() ==> r.0@.len() + queued@[r.1 as int]@.len() > MAX_PAYLOAD,
{
    let mut data: Vec<u8> = Vec::new();
    data.extend_from_slice(first.as_slice());
    let mut k: usize = 0;
    let mut full = false;
    while k < queued.len() && !full
        invariant
            k <= queued@.len(),
            full ==> k < queued@.len() && data@.len() + queued@[k as int]@.len() > MAX_PAYLOAD,
            data@ == first@ + joined(Seq::new(k as nat, |i: int| queued@[i]@)),
            data@.len() <= MAX_PAYLOAD,
        decreases queued@.len() - k + if full { 0int } else { 1int },
    {
        let more = &queued[k];
        if more.len() > MAX_PAYLOAD - data.len() {
            full = true;
        } else {
            let ghost prev = Seq::new(k as nat, |i: int| queued@[i]@);
            let ghost next = Seq::new((k + 1) as nat, |i: int| queued@[i]@);
            data.extend_from_slice(more.as_slice());
            proof {
                assert(next.drop_last() =~= prev);
                next.lemma_flatten_and_flatten_alt_are_equivalent();
                prev.lemma_flatten_and_flatten_alt_are_equivalent();
                assert(next.flatten() == prev.flatten() + more@);
                assert(data@ =~= first@ + joined(next));
            }
            k = k + 1;
        }
    }
    (data, k)
}

/// Whether an outbound payload of this length is sent compressed when zstd shrinks it.
pub fn wants_compression(len: usize) -> (r: bool)
    ensures
        r == (len > 256),
{
    len > 256
}

/// Seconds the sender waits for window credit before sending anyway.
pub const WINDOW_WAIT_SECS: u64 = 5;

/// Whether the send window lets the next frame go without waiting.
pub fn window_open(window: u64) -> (r: bool)
    ensures
        r == (window > 0),
{
    window > 0
}

/// The send window after writing an encoded frame of `encoded_len` bytes: its
/// payload size on the wire is taken off, stopping at zero.
pub fn window_after_send(window: u64, encoded_len: usize) -> (r: u64)
    ensures
        r == if encoded_len <= HEADER_SIZE {
            window
        } else if (encoded_len - HEADER_SIZE) as int >= window as int {
            0
        } else {
            (window - (encoded_len - HEADER_SIZE)) as u64
        },
{
    let wire: usize = if encoded_len <= HEADER_SIZE {
        0
    } else {
        encoded_len - HEADER_SIZE
    };
    if wire as u128 >= window as u128 {
        if wire == 0 {
            window
        } else {
            0
        }
    } else {
        window - wire as u64
    }
}

// ── Inbound ─────────────────────────────────────────────────────────────

/// What the bridge does with a frame from the client.
#[derive(Debug, Clone, Copy, PartialEq, Eq, Structural)]
pub enum InboundAction {
    /// Write the payload to the terminal.
    WriteInput,
    /// Resize the terminal to these clamped dimensions.
    Resize { cols: u16, rows: u16 },
    /// Replace the send window with this credit.
    SetWindow(u64),
    /// End the bridge.
    Close,
    /// Nothing to do.
    Ignore,
}

/// Decides what an inbound frame asks of the bridge.
pub fn inbound_action(frame: &Frame) -> (r: InboundAction)
    ensures
        frame.frame_type == FrameType::Data ==> r == InboundAction::WriteInput,
        frame.frame_type == FrameType::Resize ==> r == if frame.payload@.len() >= 4 {
            InboundAction::Resize {
                cols: clamp_spec(be_u16(frame.payload@[0], frame.payload@[1])),
                rows: clamp_spec(be_u16(frame.payload@[2], frame.payload@[3])),
            }
        } else {
            InboundAction::Ignore
        },
        frame.frame_type == FrameType::WindowUpdate ==> r == if frame.payload@.len() >= 8 {
            InboundAction::SetWindow(be_u64(frame.payload@, 0))
        } else {
            InboundAction::Ignore
        },
        frame.frame_type == FrameType::Close ==> r == InboundAction::Close,
        frame.frame_type == FrameType::Heartbeat || frame.frame_type == FrameType::Scrollback
            ==> r == InboundAction::Ignore,
{
    match frame.frame_type {
        FrameType::Data => InboundAction::WriteInput,
        FrameType::Resize => match frame.parse_resize() {
            Some((cols, rows)) => InboundAction::Resize { cols: clamp_dim(cols), rows: clamp_dim(rows) },
            None => InboundAction::Ignore,
        },
        FrameType::WindowUpdate => match frame.parse_window_update() {
            Some(w) => InboundAction::SetWindow(w),
            None => InboundAction::Ignore,
        },
        FrameType::Close => InboundAction::Close,
        FrameType::Heartbeat => InboundAction::Ignore,
        FrameType::Scrollback => InboundAction::Ignore,
    }
}

} // verus!
