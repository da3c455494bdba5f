use vstd::prelude::*;
use vstd::slice::slice_subrange;

verus! {

/// The last `n` elements of `s`, or all of `s` when it is shorter.
pub open spec fn keep_last(s: Seq<u8>, n: nat) -> Seq<u8> {
    if s.len() <= n {
        s
    } else {
        s.subrange(s.len() - n, s.len() as int)
    }
}

/// Byte-level scan of terminal output: `(in_escape, saw_clean_byte)` after the
/// first `n` bytes of `data`, starting outside any escape sequence.
pub open spec fn scan(data: Seq<u8>, n: nat) -> (bool, bool)
    decreases n,
{
    if n == 0 {
        (false, false)
    } else {
        scan_step(scan(data, (n - 1) as nat), data[n - 1])
    }
}

pub open spec fn scan_step(s: (bool, bool), b: u8) -> (bool, bool) {
    if b == 0x1B {
        (true, s.1)
    } else if s.0 {
        if b == 0x5B {
            (true, s.1)
        } else if 0x40 <= b <= 0x7E {
            (false, true)
        } else {
            (true, s.1)
        }
    } else if b >= 0x20 || b == 0x0A || b == 0x0D {
        (false, true)
    } else {
        (false, s.1)
    }
}

/// Whether `data` holds a byte after which the terminal is in ground state.
pub open spec fn has_clean_byte(data: Seq<u8>) -> bool {
    scan(data, data.len()).1
}

proof fn lemma_scan_marked_stays(data: Seq<u8>, i: nat, n: nat)
    requires
        i <= n <= data.len(),
        scan(data, i).1,
    ensures
        scan(data, n).1,
    decreases n - i,
{
    if i < n {
        lemma_scan_marked_stays(data, i, (n - 1) as nat);
    }
}

/// Relies on `<[u8]>::copy_from_slice`: the destination range becomes a copy of `src`.
#[verifier::external_body]
fn copy_into(dst: &mut Vec<u8>, at: usize, src: &[u8])
    requires
        at + src@.len() <= old(dst)@.len(),
    ensures
        final(dst)@ == old(dst)@.subrange(0, at as int) + src@ + old(dst)@.subrange(
            at + src@.len(),
            old(dst)@.len() as int,
        ),
{
    dst[at..at + src.len()].copy_from_slice(src)
}

/// Fixed-capacity ring of terminal output, oldest bytes overwritten first.
pub struct ScrollbackBuffer {
    buf: Vec<u8>,
    capacity: usize,
    write_pos: usize,
    len: usize,
    /// Length at the last point where the terminal was in ground state.
    clean_point: usize,
}

impl ScrollbackBuffer {
    pub closed spec fn wf(&self) -> bool {
        &&& self.buf@.len() == self.capacity
        &&& self.len <= self.capacity
        &&& (self.capacity == 0 ==> self.write_pos == 0)
        &&& (self.capacity > 0 ==> self.write_pos < self.capacity)
        &&& (self.len < self.capacity ==> self.write_pos == self.len)
        &&& self.clean_point <= self.len
    }

    pub closed spec fn spec_capacity(&self) -> nat {
        self.capacity as nat
    }

    pub closed spec fn spec_clean_point(&self) -> nat {
        self.clean_point as nat
    }

    /// The buffered bytes, oldest first.
    pub closed spec fn contents(&self) -> Seq<u8> {
        if self.len < self.capacity {
            self.buf@.subrange(0, self.len as int)
        } else {
            self.buf@.subrange(self.write_pos as int, self.capacity as int) + self.buf@.subrange(
                0,
                self.write_pos as int,
            )
        }
    }

    /// The buffer never holds more than its capacity, and the clean point never
    /// lies past the buffered bytes.
    pub proof fn lemma_contents_len(&self)
        requires
            self.wf(),
        ensures
            self.contents().len() <= self.spec_capacity(),
            self.spec_clean_point() <= self.contents().len(),
    {
    }

    pub fn new(capacity: usize) -> (r: ScrollbackBuffer)
        ensures
            r.wf(),
            r.spec_capacity() == capacity,
            r.contents() == Seq::<u8>::empty(),
            r.spec_clean_point() == 0,
    {
        let r = ScrollbackBuffer {
            buf: vec![0u8; capacity],
            capacity,
            write_pos: 0,
            len: 0,
            clean_point: 0,
        };
        assert(r.contents() =~= Seq::<u8>::empty());
        r
    }

    pub fn len(&self) -> (r: usize)
        requires
            self.wf(),
        ensures
            r == self.contents().len(),
    {
        self.len
    }

    pub fn capacity(&self) -> (r: usize)
        ensures
            r == self.spec_capacity(),
    {
        self.capacity
    }

    pub fn clean_point(&self) -> (r: usize)
        ensures
            r == self.spec_clean_point(),
    {
        self.clean_point
    }

    /// Appends terminal output, keeping only the newest `capacity` bytes, and
    /// moves the clean point to the new length when `data` holds a byte after
    /// which the terminal is in ground state.
    pub fn append(&mut self, data: &[u8])
        requires
            old(self).wf(),
        ensures
            final(self).wf(),
            final(self).spec_capacity() == old(self).spec_capacity(),
            final(self).contents() == keep_last(
                old(self).contents() + data@,
                old(self).spec_capacity(),
            ),
            final(self).spec_clean_point() == if data@.len() > 0 && has_clean_byte(data@) {
                final(self).contents().len()
            } else {
                old(self).spec_clean_point()
            },
    {
        if data.len() == 0 {
            assert(old(self).contents() + data@ =~= old(self).contents());
            return;
        }
        let ghost old_contents = self.contents();
        let cap = self.capacity;
        let n = data.len();
        if n >= cap {
            let skip = n - cap;
            copy_into(&mut self.buf, 0, slice_subrange(data, skip, n));
            self.write_pos = 0;
            self.len = cap;
            assert(self.contents() =~= keep_last(old_contents + data@, cap as nat));
            self.update_clean_point(data);
            return;
        }
        let wp = self.write_pos;
        let first = if cap - wp < n {
            cap - wp
        } else {
            n
        };
        copy_into(&mut self.buf, wp, slice_subrange(data, 0, first));
        if first < n {
            copy_into(&mut self.buf, 0, slice_subrange(data, first, n));
        }
        let ghost b = self.buf@;
        let ghost all = old_contents + data@;
        if first < n {
            self.write_pos = n - first;
        } else if wp + n == cap {
            self.write_pos = 0;
        } else {
            self.write_pos = wp + n;
        }
        if n >= cap - self.len {
            self.len = cap;
        } else {
            self.len = self.len + n;
        }
        proof {
            let kept = keep_last(all, cap as nat);
            if old(self).len < cap {
                if old(self).len + n < cap {
                    assert(self.contents() =~= kept);
                } else {
                    let second = n - first;
                    assert forall|k: int| 0 <= k < cap implies #[trigger] self.contents()[k]
                        == kept[k] by {
                        if k < wp - second {
                            assert(self.contents()[k] == b[second + k]);
                        } else if k < cap - second {
                            assert(self.contents()[k] == b[second + k]);
                        } else {
                            assert(self.contents()[k] == b[k - (cap - second)]);
                        }
                    }
                    assert(self.contents() =~= kept);
                }
            } else {
                assert forall|k: int| 0 <= k < cap implies #[trigger] self.contents()[k]
                    == kept[k] by {
                    let nw = self.write_pos as int;
                    if k < cap - nw {
                        assert(self.contents()[k] == b[nw + k]);
                    } else {
                        assert(self.contents()[k] == b[k - (cap - nw)]);
                    }
                }
                assert(self.contents() =~= kept);
            }
        }
        self.update_clean_point(data);
    }

    fn update_clean_point(&mut self, data: &[u8])
        requires
            old(self).wf(),
        ensures
            final(self).wf(),
            final(self).buf@ == old(self).buf@,
            final(self).capacity == old(self).capacity,
            final(self).write_pos == old(self).write_pos,
            final(self).len == old(self).len,
            final(self).clean_point == if has_clean_byte(data@) {
                old(self).len
            } else {
                old(self).clean_point
            },
    {
        let mut in_escape = false;
        let mut i: usize = 0;
        while i < data.len()
            invariant
                i <= data@.len(),
                scan(data@, i as nat) == (in_escape, false),
                *self == *old(self),
                old(self).wf(),
            decreases data@.len() - i,
        {
            let byte = data[i];
            if byte == 0x1B {
                in_escape = true;
            } else if in_escape {
                if byte != 0x5B && 0x40 <= byte && byte <= 0x7E {
                    proof {
                        lemma_scan_marked_stays(data@, (i + 1) as nat, data@.len());
                    }
                    self.clean_point = self.len;
                    return;
                }
            } else if byte >= 0x20 || byte == 0x0A || byte == 0x0D {
                proof {
                    lemma_scan_marked_stays(data@, (i + 1) as nat, data@.len());
                }
                self.clean_point = self.len;
                return;
            }
            i = i + 1;
        }
    }

    /// The buffered bytes as one linear copy, oldest first.
    pub fn read_from_clean_point(&self) -> (r: Vec<u8>)
        requires
            self.wf(),
        ensures
            r@ == self.contents(),
    {
        let mut result: Vec<u8> = Vec::with_capacity(self.len);
        if self.len == 0 {
            return result;
        }
        if self.len < self.capacity {
            result.extend_from_slice(slice_subrange(self.buf.as_slice(), 0, self.len));
        } else {
            result.extend_from_slice(
                slice_subrange(self.buf.as_slice(), self.write_pos, self.capacity),
            );
            result.extend_from_slice(slice_subrange(self.buf.as_slice(), 0, self.write_pos));
        }
        assert(result@ =~= self.contents());
        result
    }
}


/// The contents of a buffer of capacity `cap` after appending `chunks` in order
/// to an empty one.
pub open spec fn after_appends(cap: nat, chunks: Seq<Seq<u8>>) -> Seq<u8>
    decreases chunks.len(),
{
    if chunks.len() == 0 {
        Seq::empty()
    } else {
        keep_last(after_appends(cap, chunks.drop_last()) + chunks.last(), cap)
    }
}

proof fn lemma_keep_last_twice(a: Seq<u8>, b: Seq<u8>, n: nat)
    ensures
        keep_last(keep_last(a, n) + b, n) == keep_last(a + b, n),
{
    let ka = keep_last(a, n);
    if a.len() > n {
        let l = keep_last(ka + b, n);
        let r = keep_last(a + b, n);
        assert(l.len() == r.len());
        assert forall|k: int| 0 <= k < l.len() implies l[k] == r[k] by {
            let off = (a.len() - n) as int;
            if (ka + b).len() > n {
                let i = (ka + b).len() - n + k;
                if i < ka.len() {
                    assert(l[k] == a[off + i]);
                }
            } else {
                if k < ka.len() {
                    assert(l[k] == a[off + k]);
                }
            }
        }
        assert(l =~= r);
    } else {
        assert(ka == a);
    }
}

/// A run of appends to an empty buffer leaves exactly the last
/// `min(total written, capacity)` bytes written, oldest first; once `capacity`
/// bytes or more have been written the buffer is full.
pub proof fn lemma_appends_keep_newest(cap: nat, chunks: Seq<Seq<u8>>)
    ensures
        after_appends(cap, chunks) == keep_last(chunks.flatten(), cap),
        after_appends(cap, chunks).len() == if chunks.flatten().len() < cap {
            chunks.flatten().len()
        } else {
            cap
        },
    decreases chunks.len(),
{
    if chunks.len() == 0 {
    } else {
        lemma_appends_keep_newest(cap, chunks.drop_last());
        chunks.lemma_flatten_and_flatten_alt_are_equivalent();
        chunks.drop_last().lemma_flatten_and_flatten_alt_are_equivalent();
        assert(chunks.flatten() == chunks.drop_last().flatten() + chunks.last());
        lemma_keep_last_twice(chunks.drop_last().flatten(), chunks.last(), cap);
    }
}

/// One append of at least `capacity` bytes leaves exactly the last `capacity`
/// bytes of that append, whatever the buffer held before.
pub proof fn lemma_large_append(old_contents: Seq<u8>, data: Seq<u8>, cap: nat)
    requires
        old_contents.len() <= cap,
        data.len() >= cap,
    ensures
        keep_last(old_contents + data, cap) == data.subrange(data.len() - cap, data.len() as int),
{
    assert(keep_last(old_contents + data, cap) =~= data.subrange(
        data.len() - cap,
        data.len() as int,
    ));
}

} // verus!
