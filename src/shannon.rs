//! The streaming accumulator and the report it produces.
use vstd::prelude::*;
use vstd::arithmetic::div_mod::lemma_fundamental_div_mod_converse_div;
use crate::tally::{
    as_nats, bit_ones, count, counts, is_max_entry, is_min_entry, lemma_bit_ones_le,
    lemma_count_le_len, lemma_count_push, lemma_counts_sum, lemma_sum_first_mono,
    pair_le, sum_first, walk_first,
};

verus! {

/// Chunk length used by [`Shannon::read`]: 16 KiB.
pub const DEFAULT_CHUNK_SIZE: u32 = 16384;

/// The bytes of the `k`-th window of `cs` bytes of `s`; the last window may
/// be shorter.
pub open spec fn chunk_range(s: Seq<u8>, cs: nat, k: int) -> Seq<u8> {
    let end = if (k + 1) * cs <= s.len() { (k + 1) * cs } else { s.len() as int };
    s.subrange(k * cs, end)
}

/// Number of windows of `cs` bytes needed to cover `len` bytes; none when
/// chunking is off (`cs == 0`).
pub open spec fn chunk_total(len: nat, cs: nat) -> nat {
    if len == 0 || cs == 0 {
        0
    } else {
        ((len - 1) as nat / cs + 1) as nat
    }
}

proof fn lemma_window_end(k: int, n: int, cs: int)
    requires
        0 <= k < n,
        0 <= cs,
    ensures
        0 <= k * cs,
        k * cs + cs <= n * cs,
        (k + 1) * cs == k * cs + cs,
{
    assert(0 <= k * cs) by (nonlinear_arith)
        requires
            0 <= k,
            0 <= cs,
    ;
    assert(k * cs + cs <= n * cs) by (nonlinear_arith)
        requires
            0 <= k < n,
            0 <= cs,
    ;
    assert((k + 1) * cs == k * cs + cs) by (nonlinear_arith);
}

/// The frequency table of one fixed-size window of the stream.
pub struct Chunk {
    freq_table: [u32; 256],
    size: u32,
    bytes: Ghost<Seq<u8>>,
}

impl View for Chunk {
    type V = Seq<u8>;

    /// The bytes this window has counted.
    closed spec fn view(&self) -> Seq<u8> {
        self.bytes@
    }
}

impl Chunk {
    /// The table and the size agree with the bytes counted.
    pub closed spec fn wf(&self) -> bool {
        &&& self.size == self.bytes@.len()
        &&& forall|i: int| 0 <= i < 256 ==> self.freq_table[i] as nat == count(self.bytes@, i as u8)
    }

    pub(crate) fn new() -> (r: Chunk)
        ensures
            r.wf(),
            r@ == Seq::<u8>::empty(),
    {
        Chunk { freq_table: [0u32; 256], size: 0, bytes: Ghost(Seq::empty()) }
    }

    pub(crate) fn count(&mut self, byte: u8)
        requires
            old(self).wf(),
            old(self)@.len() < u32::MAX,
        ensures
            final(self).wf(),
            final(self)@ == old(self)@.push(byte),
    {
        let ghost before = self.bytes@;
        proof {
            lemma_count_le_len(before, byte);
        }
        let idx = byte as usize;
        let v = self.freq_table[idx];
        self.freq_table[idx] = v + 1;
        self.size = self.size + 1;
        self.bytes = Ghost(before.push(byte));
        proof {
            assert forall|i: int| 0 <= i < 256 implies self.freq_table[i] as nat == count(
                self.bytes@,
                i as u8,
            ) by {
                lemma_count_push(before, byte, i as u8);
            }
        }
    }

    /// Number of bytes in the window.
    pub fn size(&self) -> (r: u32)
        requires
            self.wf(),
        ensures
            r == self@.len(),
    {
        self.size
    }

    /// The window's frequency table.
    pub fn freq_table(&self) -> (r: &[u32; 256])
        requires
            self.wf(),
        ensures
            forall|i: int| 0 <= i < 256 ==> r[i] as nat == counts(self@)[i],
    {
        &self.freq_table
    }
}

/// Single-pass accumulator: consumes a byte stream block by block and keeps
/// the whole-stream frequency table and the tables of the completed windows.
pub struct StreamAnalyzer {
    filename: String,
    filesize: u64,
    freq_table: [u64; 256],
    chunks: Vec<Chunk>,
    chunk_size: u32,
    current: Chunk,
    data: Ghost<Seq<u8>>,
}

impl View for StreamAnalyzer {
    type V = Seq<u8>;

    /// The bytes consumed so far.
    closed spec fn view(&self) -> Seq<u8> {
        self.data@
    }
}

impl StreamAnalyzer {
    /// The source identifier.
    pub closed spec fn name(&self) -> Seq<char> {
        self.filename@
    }

    /// The window length, 0 when chunking is off.
    pub closed spec fn window(&self) -> nat {
        self.chunk_size as nat
    }

    /// Counts agree with the bytes consumed; every completed window holds
    /// exactly `chunk_size` bytes and the open one fewer.
    pub closed spec fn wf(&self) -> bool {
        let s = self.data@;
        let cs = self.chunk_size as int;
        let n = self.chunks@.len() as int;
        &&& self.filesize == s.len()
        &&& forall|i: int| 0 <= i < 256 ==> self.freq_table[i] as nat == count(s, i as u8)
        &&& self.current.wf()
        &&& cs == 0 ==> n == 0 && self.current@.len() == 0
        &&& cs > 0 ==> {
            &&& n * cs + self.current@.len() == s.len()
            &&& self.current@.len() < cs
            &&& self.current@ == s.subrange(n * cs, s.len() as int)
            &&& forall|k: int|
                0 <= k < n ==> (#[trigger] self.chunks@[k]).wf() && self.chunks@[k]@ == s.subrange(
                    k * cs,
                    k * cs + cs,
                )
        }
    }

    /// Starts an analysis of the source named `filename`; with
    /// `Some(size)` the stream is also cut into windows of `size` bytes.
    pub fn new(filename: String, chunk_size: Option<u32>) -> (r: StreamAnalyzer)
        requires
            chunk_size matches Some(c) ==> c > 0,
        ensures
            r.wf(),
            r@ == Seq::<u8>::empty(),
            r.name() == filename@,
            r.window() == match chunk_size {
                Some(c) => c as nat,
                None => 0,
            },
    {
        let cs: u32 = match chunk_size {
            Some(c) => c,
            None => 0,
        };
        let r = StreamAnalyzer {
            filename,
            filesize: 0,
            freq_table: [0u64; 256],
            chunks: Vec::new(),
            chunk_size: cs,
            current: Chunk::new(),
            data: Ghost(Seq::empty()),
        };
        assert(r.data@.subrange(0, 0) =~= r.current@);
        r
    }

    fn count_byte(&mut self, b: u8)
        requires
            old(self).wf(),
            old(self)@.len() < u64::MAX,
        ensures
            final(self).wf(),
            final(self)@ == old(self)@.push(b),
            final(self).name() == old(self).name(),
            final(self).window() == old(self).window(),
    {
        let ghost s = self.data@;
        let ghost n = self.chunks@.len() as int;
        let ghost cs = self.chunk_size as int;
        proof {
            lemma_count_le_len(s, b);
        }
        let idx = b as usize;
        let v = self.freq_table[idx];
        self.freq_table[idx] = v + 1;
        self.filesize = self.filesize + 1;
        self.data = Ghost(s.push(b));
        let ghost s2 = s.push(b);
        proof {
            assert forall|i: int| 0 <= i < 256 implies self.freq_table[i] as nat == count(
                s2,
                i as u8,
            ) by {
                lemma_count_push(s, b, i as u8);
            }
        }
        if self.chunk_size > 0 {
            self.current.count(b);
            proof {
                assert(self.current@ =~= s2.subrange(n * cs, s2.len() as int));
                assert forall|k: int| 0 <= k < n implies (#[trigger] self.chunks@[k])@
                    == s2.subrange(k * cs, k * cs + cs) by {
                    lemma_window_end(k, n, cs);
                    assert(s2.subrange(k * cs, k * cs + cs) =~= s.subrange(k * cs, k * cs + cs));
                }
            }
            if self.current.size() == self.chunk_size {
                let mut done = Chunk::new();
                std::mem::swap(&mut done, &mut self.current);
                self.chunks.push(done);
                proof {
                    lemma_window_end(n, n + 1, cs);
                    assert(self.current@ =~= s2.subrange((n + 1) * cs, s2.len() as int));
                    assert(self.chunks@[n] == done);
                }
            }
        }
    }

    /// Consumes one block of the stream. Windows are closed exactly when
    /// they reach `chunk_size` bytes, whatever the block boundaries.
    pub fn feed(&mut self, buf: &[u8])
        requires
            old(self).wf(),
            old(self)@.len() + buf@.len() <= u64::MAX,
        ensures
            final(self).wf(),
            final(self)@ == old(self)@ + buf@,
            final(self).name() == old(self).name(),
            final(self).window() == old(self).window(),
    {
        let mut i: usize = 0;
        while i < buf.len()
            invariant
                i <= buf@.len(),
                old(self)@.len() + buf@.len() <= u64::MAX,
                self.wf(),
                self@ == old(self)@ + buf@.subrange(0, i as int),
                self.name() == old(self).name(),
                self.window() == old(self).window(),
            decreases buf@.len() - i,
        {
            let b = buf[i];
            self.count_byte(b);
            assert(old(self)@ + buf@.subrange(0, i + 1) =~= (old(self)@ + buf@.subrange(
                0,
                i as int,
            )).push(b));
            i = i + 1;
        }
        assert(buf@.subrange(0, buf@.len() as int) =~= buf@);
    }
}

impl StreamAnalyzer {
    /// Ends the stream: closes a non-empty last window and produces the
    /// report.
    pub fn finish(self) -> (r: Shannon)
        requires
            self.wf(),
        ensures
            r.data() == self@,
            r.name() == self.name(),
            r.window() == self.window(),
    {
        let StreamAnalyzer { filename, filesize, freq_table, chunks, chunk_size, current, data } =
            self;
        let mut chunks = chunks;
        let ghost s = data@;
        let ghost n = chunks@.len() as int;
        let ghost cs = chunk_size as int;
        if current.size() > 0 {
            chunks.push(current);
        }
        proof {
            if cs > 0 {
                let r = current@.len() as int;
                assert forall|k: int| 0 <= k < chunks@.len() implies (#[trigger] chunks@[k]).wf()
                    && chunks@[k]@ == chunk_range(s, cs as nat, k) by {
                    if k < n {
                        lemma_window_end(k, n, cs);
                    } else {
                        lemma_window_end(k, k + 1, cs);
                        assert(chunks@[k] == current);
                    }
                }
                if s.len() == 0 {
                    assert(n == 0) by (nonlinear_arith)
                        requires
                            n * cs == 0,
                            cs > 0,
                            n >= 0,
                    ;
                } else {
                    if r > 0 {
                        lemma_fundamental_div_mod_converse_div(s.len() - 1, cs, n, r - 1);
                    } else {
                        assert(s.len() - 1 == (n - 1) * cs + (cs - 1)) by (nonlinear_arith)
                            requires
                                n * cs == s.len(),
                        ;
                        lemma_fundamental_div_mod_converse_div(s.len() - 1, cs, n - 1, cs - 1);
                    }
                }
            }
        }
        Shannon { filename, filesize, freq_table, chunks, chunk_size, data }
    }
}

/// The report of one analysis: the whole-stream frequency table, the byte
/// count, and the tables of the windows in stream order. It is not changed
/// after it is made.
pub struct Shannon {
    filename: String,
    filesize: u64,
    freq_table: [u64; 256],
    chunks: Vec<Chunk>,
    chunk_size: u32,
    data: Ghost<Seq<u8>>,
}

impl Shannon {
    #[verifier::type_invariant]
    spec fn inv(&self) -> bool {
        let s = self.data@;
        let cs = self.chunk_size as nat;
        &&& self.filesize == s.len()
        &&& forall|i: int| 0 <= i < 256 ==> self.freq_table[i] as nat == count(s, i as u8)
        &&& self.chunks@.len() == chunk_total(s.len(), cs)
        &&& forall|k: int|
            0 <= k < self.chunks@.len() ==> (#[trigger] self.chunks@[k]).wf() && self.chunks@[k]@
                == chunk_range(s, cs, k)
    }

    /// The bytes that were analysed.
    pub closed spec fn data(&self) -> Seq<u8> {
        self.data@
    }

    /// The source identifier.
    pub closed spec fn name(&self) -> Seq<char> {
        self.filename@
    }

    /// The window length, 0 when chunking was off.
    pub closed spec fn window(&self) -> nat {
        self.chunk_size as nat
    }

    /// Analyses an in-memory byte buffer, cut into windows of
    /// `DEFAULT_CHUNK_SIZE` bytes.
    pub fn read(bytes: &[u8], filename: String) -> (r: Shannon)
        requires
            bytes@.len() <= u64::MAX,
        ensures
            r.data() == bytes@,
            r.name() == filename@,
            r.window() == DEFAULT_CHUNK_SIZE,
    {
        let mut a = StreamAnalyzer::new(filename, Some(DEFAULT_CHUNK_SIZE));
        a.feed(bytes);
        assert(Seq::<u8>::empty() + bytes@ =~= bytes@);
        a.finish()
    }

    /// The source identifier.
    pub fn filename(&self) -> (r: String)
        ensures
            r@ == self.name(),
    {
        self.filename.clone()
    }

    /// Total number of bytes analysed.
    pub fn filesize(&self) -> (r: u64)
        ensures
            r == self.data().len(),
    {
        proof {
            use_type_invariant(self);
        }
        self.filesize
    }

    /// The whole-stream frequency table.
    pub fn freq_table(&self) -> (r: &[u64; 256])
        ensures
            as_nats(r@) == counts(self.data()),
    {
        proof {
            use_type_invariant(self);
            assert(as_nats(self.freq_table@) =~= counts(self.data()));
        }
        &self.freq_table
    }

    /// The window tables in stream order: window `k` covers bytes
    /// `k * chunk_size` up to `(k + 1) * chunk_size`, the last one possibly
    /// fewer.
    pub fn chunks(&self) -> (r: &Vec<Chunk>)
        ensures
            r@.len() == chunk_total(self.data().len(), self.window()),
            forall|k: int|
                0 <= k < r@.len() ==> (#[trigger] r@[k]).wf() && r@[k]@ == chunk_range(
                    self.data(),
                    self.window(),
                    k,
                ),
    {
        proof {
            use_type_invariant(self);
        }
        &self.chunks
    }

    /// The byte value with the smallest count, and that count; among equal
    /// counts the lowest byte value.
    pub fn byte_min(&self) -> (r: (u8, u64))
        ensures
            is_min_entry(counts(self.data()), r.0 as int),
            r.1 == counts(self.data())[r.0 as int],
    {
        proof {
            use_type_invariant(self);
        }
        let ghost t = counts(self.data());
        let mut best: usize = 0;
        let mut i: usize = 1;
        while i < 256
            invariant
                1 <= i <= 256,
                best < i,
                t == counts(self.data()),
                forall|j: int| 0 <= j < 256 ==> self.freq_table[j] as nat == t[j],
                forall|j: int| 0 <= j < i ==> pair_le(t[best as int], best as int, t[j], j),
            decreases 256 - i,
        {
            if self.freq_table[i] < self.freq_table[best] {
                best = i;
            }
            i = i + 1;
        }
        (best as u8, self.freq_table[best])
    }

    /// The byte value with the largest count, and that count; among equal
    /// counts the highest byte value.
    pub fn byte_max(&self) -> (r: (u8, u64))
        ensures
            is_max_entry(counts(self.data()), r.0 as int),
            r.1 == counts(self.data())[r.0 as int],
    {
        proof {
            use_type_invariant(self);
        }
        let ghost t = counts(self.data());
        let mut best: usize = 0;
        let mut i: usize = 1;
        while i < 256
            invariant
                1 <= i <= 256,
                best < i,
                t == counts(self.data()),
                forall|j: int| 0 <= j < 256 ==> self.freq_table[j] as nat == t[j],
                forall|j: int| 0 <= j < i ==> pair_le(t[j], j, t[best as int], best as int),
            decreases 256 - i,
        {
            if self.freq_table[i] >= self.freq_table[best] {
                best = i;
            }
            i = i + 1;
        }
        (best as u8, self.freq_table[best])
    }

    /// End point of the bit walk over the stream: one step up for each one
    /// bit and one step down for each zero bit of every byte. Dividing by
    /// `8 * filesize()` scales it to `[-1, 1]`.
    pub fn random_walk_steps(&self) -> (r: i128)
        ensures
            r == walk_first(counts(self.data()), 256),
    {
        proof {
            use_type_invariant(self);
            lemma_counts_sum(self.data());
        }
        let ghost t = counts(self.data());
        let mut total: i128 = 0;
        let mut i: usize = 0;
        while i < 256
            invariant
                i <= 256,
                t == counts(self.data()),
                forall|j: int| 0 <= j < 256 ==> self.freq_table[j] as nat == t[j],
                sum_first(t, 256) == self.data().len(),
                self.data().len() <= u64::MAX,
                total == walk_first(t, i as int),
                -512 * sum_first(t, i as int) <= total <= 512 * sum_first(t, i as int),
            decreases 256 - i,
        {
            let ones = ones_in(i as u8);
            let c = self.freq_table[i];
            proof {
                lemma_bit_ones_le(i as nat);
                lemma_sum_first_mono(t, i as int + 1, 256);
                let w = (ones as int - 4) * 2 * (c as int);
                assert(-512 * (c as int) <= w <= 512 * (c as int)) by (nonlinear_arith)
                    requires
                        w == (ones as int - 4) * 2 * (c as int),
                        0 <= ones <= 255,
                        0 <= c,
                ;
            }
            let step: i128 = (ones as i128 - 4) * 2 * (c as i128);
            total = total + step;
            i = i + 1;
        }
        total
    }
}

/// Number of one bits of a byte.
fn ones_in(b: u8) -> (r: u8)
    ensures
        r == bit_ones(b as nat),
{
    let mut x: u8 = b;
    let mut n: u8 = 0;
    proof {
        lemma_bit_ones_le(b as nat);
    }
    while x > 0
        invariant
            n + bit_ones(x as nat) == bit_ones(b as nat),
            bit_ones(b as nat) <= 255,
        decreases x,
    {
        n = n + x % 2;
        x = x / 2;
    }
    n
}

} // verus!
