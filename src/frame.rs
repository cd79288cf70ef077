use vstd::prelude::*;

verus! {

/// Size in bytes of one frame and of one page.
pub const PAGE_SIZE: usize = 4096;

/// Number of zero entries in `s`: the free frames of a refcount table.
pub open spec fn count_free(s: Seq<u32>) -> nat
    decreases s.len(),
{
    if s.len() == 0 {
        0
    } else {
        count_free(s.drop_last()) + if s.last() == 0 { 1nat } else { 0nat }
    }
}

proof fn lemma_count_free_bound(s: Seq<u32>)
    ensures
        count_free(s) <= s.len(),
    decreases s.len(),
{
    if s.len() > 0 {
        lemma_count_free_bound(s.drop_last());
    }
}

pub proof fn lemma_count_free_update(s: Seq<u32>, i: int, v: u32)
    requires
        0 <= i < s.len(),
    ensures
        count_free(s.update(i, v)) + (if s[i] == 0 { 1int } else { 0int })
            == count_free(s) + (if v == 0 { 1int } else { 0int }),
    decreases s.len(),
{
    let t = s.update(i, v);
    if i == s.len() - 1 {
        assert(t.drop_last() =~= s.drop_last());
    } else {
        lemma_count_free_update(s.drop_last(), i, v);
        assert(t.drop_last() =~= s.drop_last().update(i, v));
    }
}

proof fn lemma_count_free_positive(s: Seq<u32>, i: int)
    requires
        0 <= i < s.len(),
        s[i] == 0,
    ensures
        count_free(s) > 0,
    decreases s.len(),
{
    if i < s.len() - 1 {
        lemma_count_free_positive(s.drop_last(), i);
    }
}

/// Physical memory handed out in 4 KiB frames, each with a reference count.
/// A frame with count 0 is free; a frame is zeroed when it is handed out.
pub struct FrameAllocator {
    base: usize,
    refcount: Vec<u32>,
    free: usize,
    data: Vec<u8>,
}

impl FrameAllocator {
    pub closed spec fn base_spec(&self) -> nat {
        self.base as nat
    }

    /// Reference count of each frame, by frame index.
    pub closed spec fn refs(&self) -> Seq<u32> {
        self.refcount@
    }

    /// Contents of the whole range, frame after frame.
    pub closed spec fn bytes(&self) -> Seq<u8> {
        self.data@
    }

    pub open spec fn frame_count(&self) -> nat {
        self.refs().len()
    }

    pub closed spec fn wf(&self) -> bool {
        &&& self.base % PAGE_SIZE == 0
        &&& self.base + self.refcount@.len() * PAGE_SIZE <= usize::MAX
        &&& self.data@.len() == self.refcount@.len() * PAGE_SIZE
        &&& self.free == count_free(self.refcount@)
    }

    /// `pa` is the base address of a frame of this allocator.
    pub open spec fn is_frame(&self, pa: int) -> bool {
        &&& self.base_spec() <= pa < self.base_spec() + self.frame_count() * PAGE_SIZE
        &&& (pa - self.base_spec()) % PAGE_SIZE as int == 0
    }

    /// `pa` is a byte inside the range of this allocator.
    pub open spec fn in_range(&self, pa: int) -> bool {
        self.base_spec() <= pa < self.base_spec() + self.frame_count() * PAGE_SIZE
    }

    pub open spec fn index_of(&self, pa: int) -> int {
        (pa - self.base_spec()) / PAGE_SIZE as int
    }

    /// Number of free frames.
    pub open spec fn free_spec(&self) -> nat {
        count_free(self.refs())
    }

    /// The byte at physical address `pa`.
    pub open spec fn byte_at(&self, pa: int) -> u8 {
        self.bytes()[pa - self.base_spec()]
    }

    /// The contents of the frame at `pa`.
    pub open spec fn frame_bytes(&self, pa: int) -> Seq<u8> {
        self.bytes().subrange(pa - self.base_spec(), pa - self.base_spec() + PAGE_SIZE)
    }

    /// A frame lies wholly inside the range, and the range inside memory.
    pub proof fn lemma_frame_bounds(&self, pa: int)
        requires
            self.wf(),
            self.is_frame(pa),
        ensures
            self.bytes().len() == self.frame_count() * PAGE_SIZE,
            pa - self.base_spec() + PAGE_SIZE <= self.bytes().len(),
            pa + PAGE_SIZE <= usize::MAX + 1,
            forall|off: int| 0 <= off < PAGE_SIZE ==> #[trigger] self.in_range(pa + off),
    {
        lemma_page_in_range(pa - self.base, self.refcount@.len() as int);
    }

    /// The index of a frame is one of the frames'.
    pub proof fn lemma_index_in_bounds(&self, pa: int)
        requires
            self.is_frame(pa),
        ensures
            0 <= self.index_of(pa) < self.frame_count(),
            self.index_of(pa) * PAGE_SIZE == pa - self.base_spec(),
    {
        let off = pa - self.base_spec();
        let n = self.frame_count() as int;
        assert(0 <= off / 4096 < n && (off / 4096) * 4096 == off) by (nonlinear_arith)
            requires
                0 <= off < n * 4096,
                off % 4096 == 0,
        ;
    }

    /// Bytes that changed only inside frame `p` leave every other frame `q`
    /// as it was.
    pub proof fn lemma_frame_untouched(&self, other: FrameAllocator, p: int, q: int)
        requires
            self.wf(),
            self.is_frame(p),
            self.is_frame(q),
            p != q,
            other.base_spec() == self.base_spec(),
            other.bytes().len() == self.bytes().len(),
            forall|k: int| 0 <= k < self.bytes().len() && !(p - self.base_spec() <= k < p - self.base_spec() + PAGE_SIZE)
                ==> #[trigger] other.bytes()[k] == self.bytes()[k],
        ensures
            other.frame_bytes(q) == self.frame_bytes(q),
    {
        self.lemma_frame_bounds(p);
        self.lemma_frame_bounds(q);
        let x = p - self.base_spec();
        let y = q - self.base_spec();
        assert(x % 4096 == 0 && y % 4096 == 0);
        assert(x + 4096 <= y || y + 4096 <= x);
        assert(other.frame_bytes(q) =~= self.frame_bytes(q)) by {
            assert forall|j: int| 0 <= j < PAGE_SIZE implies #[trigger] other.frame_bytes(q)[j] == self.frame_bytes(q)[j] by {
                assert(other.bytes()[y + j] == self.bytes()[y + j]);
            }
        }
    }

    /// The byte at `pa + off` is byte `off` of the frame at `pa`.
    pub proof fn lemma_byte_in_frame(&self, pa: int, off: int)
        requires
            self.wf(),
            self.is_frame(pa),
            0 <= off < PAGE_SIZE,
        ensures
            self.byte_at(pa + off) == self.frame_bytes(pa)[off],
    {
        self.lemma_frame_bounds(pa);
    }

    /// An allocator over `count` zeroed frames starting at `base`.
    pub fn new(base: usize, count: usize) -> (r: FrameAllocator)
        requires
            base % PAGE_SIZE == 0,
            base + count * PAGE_SIZE <= usize::MAX,
        ensures
            r.wf(),
            r.base_spec() == base,
            r.refs() == Seq::new(count as nat, |i: int| 0u32),
            r.bytes() == Seq::new((count * PAGE_SIZE) as nat, |i: int| 0u8),
            r.free_spec() == count,
    {
        let mut refcount: Vec<u32> = Vec::new();
        let mut i: usize = 0;
        while i < count
            invariant
                i <= count,
                refcount@ == Seq::new(i as nat, |k: int| 0u32),
                count_free(refcount@) == i,
            decreases count - i,
        {
            proof {
                assert(refcount@.push(0u32).drop_last() =~= refcount@);
            }
            refcount.push(0);
            i = i + 1;
            assert(refcount@ =~= Seq::new(i as nat, |k: int| 0u32));
        }
        let n: usize = count * PAGE_SIZE;
        let data: Vec<u8> = vec![0u8; n];
        assert(data@ =~= Seq::new(n as nat, |i: int| 0u8));
        FrameAllocator { base, refcount, free: count, data }
    }

    /// Number of free frames.
    pub fn free_count(&self) -> (r: usize)
        requires
            self.wf(),
        ensures
            r == self.free_spec(),
    {
        self.free
    }

    /// Number of frames managed.
    pub fn capacity(&self) -> (r: usize)
        requires
            self.wf(),
        ensures
            r == self.frame_count(),
    {
        self.refcount.len()
    }

    /// The physical address of frame `i`.
    pub fn frame_address(&self, i: usize) -> (r: usize)
        requires
            self.wf(),
            i < self.frame_count(),
        ensures
            r == self.base_spec() + i * PAGE_SIZE,
            self.is_frame(r as int),
            self.index_of(r as int) == i,
    {
        self.base + i * PAGE_SIZE
    }

    /// Whether `pa` is the base of one of these frames.
    pub fn owns(&self, pa: usize) -> (r: bool)
        requires
            self.wf(),
        ensures
            r == self.is_frame(pa as int),
    {
        pa >= self.base && pa - self.base < self.refcount.len() * PAGE_SIZE && (pa - self.base)
            % PAGE_SIZE == 0
    }

    /// The reference count of the frame at `pa`.
    pub fn refcount(&self, pa: usize) -> (r: u32)
        requires
            self.wf(),
            self.is_frame(pa as int),
        ensures
            r == self.refs()[self.index_of(pa as int)],
    {
        self.refcount[(pa - self.base) / PAGE_SIZE]
    }

    /// Adds a reference to a frame in use. Fails on a free frame and on a
    /// count that is already at its maximum.
    pub fn clone_ref(&mut self, pa: usize) -> (r: bool)
        requires
            old(self).wf(),
            old(self).is_frame(pa as int),
        ensures
            final(self).wf(),
            final(self).base_spec() == old(self).base_spec(),
            final(self).bytes() == old(self).bytes(),
            final(self).free_spec() == old(self).free_spec(),
            !r ==> *final(self) == *old(self),
            ({
                let f = old(self).index_of(pa as int);
                let c = old(self).refs()[f];
                &&& r == (c != 0 && c != u32::MAX)
                &&& final(self).refs() == if r {
                    old(self).refs().update(f, (c + 1) as u32)
                } else {
                    old(self).refs()
                }
            }),
    {
        let i = (pa - self.base) / PAGE_SIZE;
        let c = self.refcount[i];
        if c == 0 || c == u32::MAX {
            return false;
        }
        proof {
            lemma_count_free_update(self.refcount@, i as int, (c + 1) as u32);
        }
        self.refcount.set(i, c + 1);
        true
    }

    /// Drops one reference. The frame becomes free when its count reaches 0;
    /// a free frame is left as it is.
    pub fn drop_ref(&mut self, pa: usize)
        requires
            old(self).wf(),
            old(self).is_frame(pa as int),
        ensures
            final(self).wf(),
            final(self).base_spec() == old(self).base_spec(),
            final(self).bytes() == old(self).bytes(),
            ({
                let f = old(self).index_of(pa as int);
                let c = old(self).refs()[f];
                &&& final(self).refs() == if c == 0 {
                    old(self).refs()
                } else {
                    old(self).refs().update(f, (c - 1) as u32)
                }
                &&& final(self).free_spec() == if c == 1 {
                    old(self).free_spec() + 1
                } else {
                    old(self).free_spec()
                }
            }),
    {
        let i = (pa - self.base) / PAGE_SIZE;
        let c = self.refcount[i];
        if c == 0 {
            return;
        }
        proof {
            lemma_count_free_update(self.refcount@, i as int, (c - 1) as u32);
            lemma_count_free_bound(self.refcount@.update(i as int, (c - 1) as u32));
        }
        self.refcount.set(i, c - 1);
        if c == 1 {
            self.free = self.free + 1;
        }
    }

    /// The byte at physical address `pa`.
    pub fn read_byte(&self, pa: usize) -> (r: u8)
        requires
            self.wf(),
            self.in_range(pa as int),
        ensures
            r == self.byte_at(pa as int),
    {
        self.data[pa - self.base]
    }

    /// Stores `v` at physical address `pa`.
    pub fn write_byte(&mut self, pa: usize, v: u8)
        requires
            old(self).wf(),
            old(self).in_range(pa as int),
        ensures
            final(self).wf(),
            final(self).base_spec() == old(self).base_spec(),
            final(self).refs() == old(self).refs(),
            final(self).bytes() == old(self).bytes().update(pa - old(self).base_spec(), v),
    {
        self.data.set(pa - self.base, v);
    }

    /// Copies the whole frame at `src` over the frame at `dst`.
    pub fn copy_frame(&mut self, src: usize, dst: usize)
        requires
            old(self).wf(),
            old(self).is_frame(src as int),
            old(self).is_frame(dst as int),
        ensures
            final(self).wf(),
            final(self).base_spec() == old(self).base_spec(),
            final(self).refs() == old(self).refs(),
            final(self).bytes().len() == old(self).bytes().len(),
            forall|k: int|
                0 <= k < old(self).bytes().len() ==> final(self).bytes()[k] == if dst
                    - old(self).base_spec() <= k < dst - old(self).base_spec() + PAGE_SIZE {
                    old(self).bytes()[k - dst + src]
                } else {
                    old(self).bytes()[k]
                },
    {
        let s = src - self.base;
        let d = dst - self.base;
        let ghost before = self.data@;
        let ghost snap = *self;
        proof {
            lemma_page_in_range(s as int, self.refcount@.len() as int);
            lemma_page_in_range(d as int, self.refcount@.len() as int);
        }
        let mut j: usize = 0;
        while j < PAGE_SIZE
            invariant
                j <= PAGE_SIZE,
                self.base == snap.base,
                self.refcount == snap.refcount,
                self.free == snap.free,
                snap.wf(),
                snap.data@ == before,
                self.data@.len() == before.len(),
                s + PAGE_SIZE <= before.len(),
                d + PAGE_SIZE <= before.len(),
                s % PAGE_SIZE == 0,
                d % PAGE_SIZE == 0,
                forall|k: int|
                    0 <= k < before.len() ==> self.data@[k] == if d <= k < d + j {
                        before[k - d + s]
                    } else {
                        before[k]
                    },
            decreases PAGE_SIZE - j,
        {
            proof {
                lemma_pages_apart(s as int, d as int);
            }
            let v = self.data[s + j];
            self.data.set(d + j, v);
            j = j + 1;
        }
    }

    /// Takes the lowest free frame, zeroes it and gives it one reference.
    /// Returns `None` when every frame is in use.
    pub fn alloc_frame(&mut self) -> (r: Option<usize>)
        requires
            old(self).wf(),
        ensures
            final(self).wf(),
            final(self).base_spec() == old(self).base_spec(),
            final(self).frame_count() == old(self).frame_count(),
            match r {
                None => {
                    &&& old(self).free_spec() == 0
                    &&& *final(self) == *old(self)
                },
                Some(pa) => {
                    let f = old(self).index_of(pa as int);
                    &&& old(self).is_frame(pa as int)
                    &&& old(self).refs()[f] == 0
                    &&& forall|j: int| 0 <= j < f ==> old(self).refs()[j] != 0
                    &&& final(self).refs() == old(self).refs().update(f, 1)
                    &&& final(self).free_spec() == old(self).free_spec() - 1
                    &&& forall|k: int|
                        0 <= k < final(self).bytes().len() ==> final(self).bytes()[k] == if f
                            * PAGE_SIZE <= k < (f + 1) * PAGE_SIZE {
                            0u8
                        } else {
                            old(self).bytes()[k]
                        }
                },
            },
    {
        let n = self.refcount.len();
        let mut i: usize = 0;
        while i < n
            invariant
                i <= n,
                n == self.refcount@.len(),
                forall|j: int| 0 <= j < i ==> self.refcount@[j] != 0,
            ensures
                i <= n,
                forall|j: int| 0 <= j < i ==> self.refcount@[j] != 0,
                i < n ==> self.refcount@[i as int] == 0,
            decreases n - i,
        {
            if self.refcount[i] == 0 {
                break;
            }
            i = i + 1;
        }
        if i == n {
            proof {
                if count_free(self.refcount@) > 0 {
                    lemma_no_free_means_zero(self.refcount@);
                }
            }
            return None;
        }
        proof {
            lemma_count_free_update(self.refcount@, i as int, 1);
            lemma_count_free_positive(self.refcount@, i as int);
        }
        self.refcount.set(i, 1);
        self.free = self.free - 1;
        proof {
            assert(i * PAGE_SIZE < n * PAGE_SIZE) by (nonlinear_arith)
                requires
                    i < n,
            ;
        }
        let off = i * PAGE_SIZE;
        let ghost before = self.data@;
        let ghost snap = *self;
        let mut j: usize = 0;
        while j < PAGE_SIZE
            invariant
                j <= PAGE_SIZE,
                self.base == snap.base,
                self.refcount == snap.refcount,
                self.free == snap.free,
                snap.wf(),
                snap.data@ == before,
                off < n * PAGE_SIZE,
                off == i * PAGE_SIZE,
                i < n,
                self.data@.len() == before.len(),
                before.len() == n * PAGE_SIZE,
                forall|k: int|
                    0 <= k < before.len() ==> self.data@[k] == if off <= k < off + j {
                        0u8
                    } else {
                        before[k]
                    },
            decreases PAGE_SIZE - j,
        {
            self.data.set(off + j, 0);
            j = j + 1;
        }
        let pa = self.base + off;
        proof {
            assert((pa - self.base) / (PAGE_SIZE as int) == i) by (nonlinear_arith)
                requires
                    pa - self.base == i * PAGE_SIZE,
            ;
        }
        Some(pa)
    }
}

proof fn lemma_page_in_range(off: int, n: int)
    requires
        0 <= off < n * PAGE_SIZE,
        off % PAGE_SIZE as int == 0,
    ensures
        off + PAGE_SIZE <= n * PAGE_SIZE,
{
    assert(off + PAGE_SIZE <= n * PAGE_SIZE) by (nonlinear_arith)
        requires
            0 <= off < n * PAGE_SIZE,
            off % 4096 == 0,
    ;
}

proof fn lemma_pages_apart(s: int, d: int)
    requires
        s % PAGE_SIZE as int == 0,
        d % PAGE_SIZE as int == 0,
    ensures
        s == d || s + PAGE_SIZE <= d || d + PAGE_SIZE <= s,
{
}

proof fn lemma_no_free_means_zero(s: Seq<u32>)
    requires
        count_free(s) > 0,
    ensures
        exists|j: int| 0 <= j < s.len() && s[j] == 0,
    decreases s.len(),
{
    if s.last() != 0 {
        lemma_no_free_means_zero(s.drop_last());
        let j = choose|j: int| 0 <= j < s.drop_last().len() && s.drop_last()[j] == 0;
        assert(s[j] == 0);
    }
}

} // verus!
