use vstd::prelude::*;
use vstd::string::StringSliceAdditionalSpecFns;
use vstd::utf8::encode_utf8;

verus! {

/// Concurrent admin connections allowed.
pub const MAX_CONNECTIONS: usize = 5;

/// Longest admin request line, in bytes.
pub const MAX_LINE_LENGTH: usize = 65536;

/// Requests allowed per admin connection per second.
pub const MAX_REQUESTS_PER_SEC: u32 = 20;

/// Port assumed when the bind address does not end in one.
pub const DEFAULT_PORT: u16 = 4433;

/// The methods of the admin interface.
#[derive(Debug, Clone, Copy, PartialEq, Eq, Structural)]
pub enum IpcMethod {
    Status,
    ListSessions,
    ListDevices,
    CreatePairing,
    RevokeDevice,
    DestroySession,
    Unknown,
}

/// Which method a request names.
pub fn ipc_method(name: &String) -> (r: IpcMethod)
    ensures
        r == if name@ == "status"@ {
            IpcMethod::Status
        } else if name@ == "list_sessions"@ {
            IpcMethod::ListSessions
        } else if name@ == "list_devices"@ {
            IpcMethod::ListDevices
        } else if name@ == "create_pairing"@ {
            IpcMethod::CreatePairing
        } else if name@ == "revoke_device"@ {
            IpcMethod::RevokeDevice
        } else if name@ == "destroy_session"@ {
            IpcMethod::DestroySession
        } else {
            IpcMethod::Unknown
        },
{
    if *name == "status".to_owned() {
        IpcMethod::Status
    } else if *name == "list_sessions".to_owned() {
        IpcMethod::ListSessions
    } else if *name == "list_devices".to_owned() {
        IpcMethod::ListDevices
    } else if *name == "create_pairing".to_owned() {
        IpcMethod::CreatePairing
    } else if *name == "revoke_device".to_owned() {
        IpcMethod::RevokeDevice
    } else if *name == "destroy_session".to_owned() {
        IpcMethod::DestroySession
    } else {
        IpcMethod::Unknown
    }
}

/// Whether a request line is short enough to be read.
pub fn line_fits(len: usize) -> (r: bool)
    ensures
        r == (len <= MAX_LINE_LENGTH),
{
    len <= MAX_LINE_LENGTH
}

/// Fixed one-second windows of requests on one admin connection.
pub struct RequestWindow {
    start_ms: u64,
    count: u32,
}

impl RequestWindow {
    pub closed spec fn start(&self) -> u64 {
        self.start_ms
    }

    pub closed spec fn count(&self) -> u32 {
        self.count
    }

    pub fn new(now_ms: u64) -> (r: RequestWindow)
        ensures
            r.start() == now_ms,
            r.count() == 0,
    {
        RequestWindow { start_ms: now_ms, count: 0 }
    }

    /// Counts a request at `now_ms`, opening a new window once a second has
    /// passed; tells whether it is within the limit.
    pub fn count_request(&mut self, now_ms: u64) -> (r: bool)
        ensures
            ({
                let fresh = now_ms >= old(self).start() && now_ms - old(self).start() >= 1000;
                let before = if fresh { 0 } else { old(self).count() };
                &&& final(self).start() == if fresh { now_ms } else { old(self).start() }
                &&& final(self).count() == if before == u32::MAX { u32::MAX } else { (before + 1) as u32 }
                &&& r == (final(self).count() <= MAX_REQUESTS_PER_SEC)
            }),
    {
        if now_ms >= self.start_ms && now_ms - self.start_ms >= 1000 {
            self.count = 0;
            self.start_ms = now_ms;
        }
        if self.count < u32::MAX {
            self.count = self.count + 1;
        }
        self.count <= MAX_REQUESTS_PER_SEC
    }
}

/// Whether `s` is the decimal text of a `u16`, as Rust's integer parser reads
/// it (an optional `+`, then digits), and its value.
pub open spec fn dec_value(s: Seq<u8>) -> int
    decreases s.len(),
{
    if s.len() == 0 {
        0
    } else {
        dec_value(s.drop_last()) * 10 + (s.last() - 0x30)
    }
}

pub open spec fn all_digits(s: Seq<u8>) -> bool {
    forall|i: int| 0 <= i < s.len() ==> 0x30 <= #[trigger] s[i] <= 0x39
}

pub open spec fn digits_of(s: Seq<u8>) -> Seq<u8> {
    if s.len() > 0 && s[0] == 0x2B {
        s.drop_first()
    } else {
        s
    }
}

pub open spec fn parses_as_u16(s: Seq<u8>) -> bool {
    let d = digits_of(s);
    d.len() > 0 && all_digits(d) && dec_value(d) <= u16::MAX
}

/// The text after the last `:` of `s`, or all of `s` when it has none.
pub open spec fn after_last_colon(s: Seq<u8>) -> Seq<u8>
    decreases s.len(),
{
    if s.len() == 0 {
        s
    } else if s.last() == 0x3A {
        Seq::empty()
    } else {
        after_last_colon(s.drop_last()).push(s.last())
    }
}

proof fn lemma_dec_value_bound(s: Seq<u8>, n: int)
    requires
        all_digits(s),
        dec_value(s) <= n,
        n >= 0,
    ensures
        forall|k: int| 0 <= k <= s.len() ==> dec_value(#[trigger] s.subrange(0, k)) <= n,
    decreases s.len(),
{
    if s.len() > 0 {
        let p = s.drop_last();
        assert(all_digits(p));
        assert(dec_value(p) * 10 <= dec_value(s));
        lemma_dec_value_bound(p, n);
        assert forall|k: int| 0 <= k <= s.len() implies dec_value(#[trigger] s.subrange(0, k)) <= n by {
            if k < s.len() {
                assert(s.subrange(0, k) =~= p.subrange(0, k));
            } else {
                assert(s.subrange(0, k) =~= s);
            }
        }
    } else {
        assert forall|k: int| 0 <= k <= s.len() implies dec_value(#[trigger] s.subrange(0, k)) <= n by {
            assert(s.subrange(0, k) =~= s);
        }
    }
}

/// The port at the end of a bind address such as `[::]:4433`, or
/// `DEFAULT_PORT` when the text after the last `:` is not a `u16`.
pub fn port_of(bind: &str) -> (r: u16)
    ensures
        ({
            let tail = after_last_colon(encode_utf8(bind@));
            r == if parses_as_u16(tail) {
                dec_value(digits_of(tail)) as u16
            } else {
                DEFAULT_PORT
            }
        }),
{
    let bytes = bind.as_bytes();
    proof {
        assert(bytes@ == encode_utf8(bind@));
    }
    let n = bytes.len();
    let mut start: usize = 0;
    let mut i: usize = 0;
    while i < n
        invariant
            n == bytes@.len(),
            bytes@ == encode_utf8(bind@),
            start <= i <= n,
            after_last_colon(bytes@.subrange(0, i as int)) == bytes@.subrange(start as int, i as int),
        decreases n - i,
    {
        assert(bytes@.subrange(0, i + 1).drop_last() =~= bytes@.subrange(0, i as int));
        if bytes[i] == 0x3A {
            start = i + 1;
            assert(bytes@.subrange(start as int, i + 1) =~= Seq::<u8>::empty());
        } else {
            assert(bytes@.subrange(start as int, i + 1) =~= bytes@.subrange(start as int, i as int).push(
                bytes@[i as int],
            ));
        }
        i = i + 1;
    }
    assert(bytes@.subrange(0, n as int) =~= bytes@);
    let ghost tail = bytes@.subrange(start as int, n as int);
    assert(tail == after_last_colon(encode_utf8(bind@)));
    let mut k: usize = start;
    if k < n && bytes[k] == 0x2B {
        k = k + 1;
    }
    let ghost d = digits_of(tail);
    assert(d =~= bytes@.subrange(k as int, n as int));
    if k == n {
        return DEFAULT_PORT;
    }
    let first = k;
    let mut value: u32 = 0;
    while k < n
        invariant
            first <= k <= n,
            n == bytes@.len(),
            d == bytes@.subrange(first as int, n as int),
            d == digits_of(tail),
            d.len() > 0,
            tail == after_last_colon(encode_utf8(bind@)),
            all_digits(d.subrange(0, k - first)),
            value as int == dec_value(d.subrange(0, k - first)),
            value <= u16::MAX,
        decreases n - k,
    {
        let b = bytes[k];
        assert(d[k - first] == b);
        if b < 0x30 || b > 0x39 {
            assert(!all_digits(d));
            return DEFAULT_PORT;
        }
        assert(d.subrange(0, k + 1 - first).drop_last() =~= d.subrange(0, k - first));
        let next = value * 10 + (b - 0x30) as u32;
        if next > 65535 {
            proof {
                if all_digits(d) && dec_value(d) <= u16::MAX {
                    lemma_dec_value_bound(d, u16::MAX as int);
                    assert(dec_value(d.subrange(0, k + 1 - first)) <= u16::MAX);
                }
            }
            return DEFAULT_PORT;
        }
        value = next;
        k = k + 1;
    }
    assert(d.subrange(0, n - first) =~= d);
    value as u16
}

} // verus!
