use vstd::prelude::*;

verus! {

/// The last `cap` bytes of `s`, or all of `s` when it is shorter.
pub open spec fn window(s: Seq<u8>, cap: nat) -> Seq<u8> {
    if s.len() <= cap {
        s
    } else {
        s.subrange(s.len() - cap, s.len() as int)
    }
}

/// All chunks laid end to end.
pub open spec fn concat(chunks: Seq<Seq<u8>>) -> Seq<u8>
    decreases chunks.len(),
{
    if chunks.len() == 0 {
        Seq::empty()
    } else {
        concat(chunks.drop_last()) + chunks.last()
    }
}

/// What a buffer of capacity `cap` holds after appending each chunk in turn.
pub open spec fn replay(chunks: Seq<Seq<u8>>, cap: nat) -> Seq<u8>
    decreases chunks.len(),
{
    if chunks.len() == 0 {
        Seq::empty()
    } else {
        window(replay(chunks.drop_last(), cap) + chunks.last(), cap)
    }
}

/// How many bytes one append drops from the front.
pub open spec fn drop_count(before: Seq<u8>, bytes: Seq<u8>, cap: nat) -> nat {
    if before.len() + bytes.len() <= cap {
        0
    } else {
        (before.len() + bytes.len() - cap) as nat
    }
}

/// The sum of the drop counts reported by appending each chunk in turn.
pub open spec fn total_dropped(chunks: Seq<Seq<u8>>, cap: nat) -> nat
    decreases chunks.len(),
{
    if chunks.len() == 0 {
        0
    } else {
        total_dropped(chunks.drop_last(), cap) + drop_count(
            replay(chunks.drop_last(), cap),
            chunks.last(),
            cap,
        )
    }
}

/// A bounded log of terminal output: it keeps at most `size` bytes, dropping
/// the oldest ones first.
pub struct Buffer {
    data: Vec<u8>,
    size: usize,
}

impl View for Buffer {
    type V = Seq<u8>;

    closed spec fn view(&self) -> Seq<u8> {
        self.data@
    }
}

impl Buffer {
    /// The most bytes this buffer keeps.
    pub closed spec fn capacity(&self) -> nat {
        self.size as nat
    }

    pub closed spec fn wf(&self) -> bool {
        self.data@.len() <= self.size
    }

    /// A well-formed buffer holds no more than its capacity.
    pub proof fn lemma_len_bounded(&self)
        requires
            self.wf(),
        ensures
            self@.len() <= self.capacity(),
    {
    }

    pub fn new(size: usize) -> (r: Buffer)
        ensures
            r.wf(),
            r@ == Seq::<u8>::empty(),
            r.capacity() == size,
    {
        Buffer { data: Vec::new(), size }
    }

    pub fn size(&self) -> (r: usize)
        ensures
            r == self.capacity(),
    {
        self.size
    }

    pub fn len(&self) -> (r: usize)
        ensures
            r == self@.len(),
    {
        self.data.len()
    }

    pub fn is_empty(&self) -> (r: bool)
        ensures
            r == (self@.len() == 0),
    {
        self.data.len() == 0
    }

    pub fn contents(&self) -> (r: &[u8])
        ensures
            r@ == self@,
    {
        self.data.as_slice()
    }

    /// Appends `bytes`, dropping the oldest bytes so that at most `size`
    /// remain, and returns how many were dropped.
    pub fn append(&mut self, bytes: &[u8]) -> (r: usize)
        requires
            old(self).wf(),
        ensures
            final(self).wf(),
            final(self).capacity() == old(self).capacity(),
            final(self)@ == window(old(self)@ + bytes@, old(self).capacity()),
            r == drop_count(old(self)@, bytes@, old(self).capacity()),
    {
        let ghost all = self.data@ + bytes@;
        let old_len = self.data.len();
        let n = bytes.len();
        let size = self.size;
        if n >= size {
            // only the tail of the new bytes survives
            let start = n - size;
            let mut data: Vec<u8> = Vec::with_capacity(size);
            let mut i: usize = start;
            while i < n
                invariant
                    start <= i <= n,
                    n == bytes@.len(),
                    data@ == bytes@.subrange(start as int, i as int),
                decreases n - i,
            {
                data.push(bytes[i]);
                i = i + 1;
            }
            proof {
                assert(data@ =~= all.subrange(all.len() - size, all.len() as int));
            }
            self.data = data;
            old_len + start
        } else if old_len <= size - n {
            let mut i: usize = 0;
            while i < n
                invariant
                    0 <= i <= n,
                    n == bytes@.len(),
                    self.size == size,
                    self.data@ == all.subrange(0, old_len + i),
                    all == old(self)@ + bytes@,
                    old_len == old(self)@.len(),
                decreases n - i,
            {
                self.data.push(bytes[i]);
                i = i + 1;
            }
            proof {
                assert(self.data@ =~= all);
            }
            0
        } else {
            // drop from the front of the old bytes, then append
            let dropped = old_len - (size - n);
            let mut data: Vec<u8> = Vec::with_capacity(size);
            let mut i: usize = dropped;
            while i < old_len
                invariant
                    dropped <= i <= old_len,
                    old_len == self.data@.len(),
                    self.data@ == old(self)@,
                    data@ == all.subrange(dropped as int, i as int),
                    all == old(self)@ + bytes@,
                decreases old_len - i,
            {
                data.push(self.data[i]);
                i = i + 1;
            }
            let mut j: usize = 0;
            while j < n
                invariant
                    0 <= j <= n,
                    n == bytes@.len(),
                    data@ == all.subrange(dropped as int, old_len + j),
                    all == old(self)@ + bytes@,
                    old_len == old(self)@.len(),
                    dropped <= old_len,
                decreases n - j,
            {
                data.push(bytes[j]);
                proof {
                    assert(data@ =~= all.subrange(dropped as int, old_len + j + 1));
                }
                j = j + 1;
            }
            proof {
                assert(data@ =~= all.subrange(all.len() - size, all.len() as int));
            }
            self.data = data;
            dropped
        }
    }
}

/// Trimming to `cap` before appending more and trimming again keeps the same
/// bytes as trimming once at the end.
pub proof fn lemma_window_twice(a: Seq<u8>, b: Seq<u8>, cap: nat)
    ensures
        window(window(a, cap) + b, cap) == window(a + b, cap),
{
    let w = window(a, cap);
    if a.len() > cap {
        if (w + b).len() > cap {
            assert(window(w + b, cap) =~= window(a + b, cap));
        }
    }
}

/// Appending chunks one by one leaves exactly the last `cap` bytes of all of
/// them: the contents are a suffix of everything appended, never longer than
/// `cap`, and the reported drops add up to how far the total exceeds `cap`.
pub proof fn law_buffer_conservation(chunks: Seq<Seq<u8>>, cap: nat)
    ensures
        replay(chunks, cap) == window(concat(chunks), cap),
        replay(chunks, cap).len() <= cap,
        concat(chunks).len() >= replay(chunks, cap).len(),
        replay(chunks, cap) =~= concat(chunks).subrange(
            concat(chunks).len() - replay(chunks, cap).len(),
            concat(chunks).len() as int,
        ),
        total_dropped(chunks, cap) == if concat(chunks).len() <= cap {
            0
        } else {
            (concat(chunks).len() - cap) as nat
        },
    decreases chunks.len(),
{
    if chunks.len() > 0 {
        let init = chunks.drop_last();
        law_buffer_conservation(init, cap);
        lemma_window_twice(concat(init), chunks.last(), cap);
        assert(replay(init, cap) == window(concat(init), cap));
    }
    let c = concat(chunks);
    if c.len() > cap {
        assert(window(c, cap) =~= c.subrange(c.len() - cap, c.len() as int));
    } else {
        assert(c =~= c.subrange(0, c.len() as int));
    }
}

} // verus!
