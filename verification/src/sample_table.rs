//! The sample table of a track, resolved into one byte range per sample.
//!
//! Three tables describe where the samples of a track lie in the file. The
//! chunk-run table says, in runs of consecutive chunks, how many samples a
//! chunk holds. The chunk-offset table gives the byte offset at which each
//! chunk starts. The sample-size table gives the size of each sample, or one
//! size for all of them. Within a chunk the samples follow one another
//! without gaps, so the offset of a sample is the offset of its chunk plus
//! the sizes of the samples of that chunk that come before it.
//!
//! [`SampleTables`] is the mathematical model of the three tables, and
//! [`SampleTables::sample`] says what the sample of a given index is.
//! [`SampleTableResolver`] walks the samples in that order, one at a time.

use crate::box_header::SAMPLE_TABLE_BOX;
use crate::error::InspectError;
use vstd::prelude::*;

verus! {

/// One entry of the chunk-run table: from chunk `first_chunk` on, counted
/// from 1, every chunk holds `samples_per_chunk` samples, up to the chunk
/// before the next entry's `first_chunk`.
#[derive(Clone, Copy, Debug, PartialEq, Eq, Structural)]
pub struct ChunkRunEntry {
    pub first_chunk: u32,
    pub samples_per_chunk: u32,
}

/// The sample-size table. It is in one of two modes: a non-zero
/// `sample_size` is the size of every sample and `sample_sizes` is empty;
/// or `sample_size` is zero and `sample_sizes` lists the size of each sample.
#[derive(Debug)]
pub struct SampleSizeTable {
    pub sample_size: u32,
    pub sample_sizes: Vec<u32>,
}

/// The byte range of one sample, and where the sample stands in its track.
#[derive(Clone, Copy, Debug, PartialEq, Eq, Structural)]
pub struct ResolvedSample {
    /// Index of the sample in decode order, from 0.
    pub index: u32,
    /// Index of the chunk that holds the sample, from 0.
    pub chunk_index: u32,
    /// Offset of the sample's first byte in the file.
    pub byte_offset: u64,
    /// Number of bytes of the sample.
    pub size: u32,
}

/// The chunk-offset table: the offset of each chunk's first byte in the
/// file. A track stores it with 32-bit or with 64-bit entries.
#[derive(Debug)]
pub enum ChunkOffsetTable {
    /// Offsets of 32 bits.
    Short(Vec<u32>),
    /// Offsets of 64 bits.
    Long(Vec<u64>),
}

impl View for ChunkOffsetTable {
    type V = Seq<u64>;

    /// The offsets, whatever their width in the file.
    open spec fn view(&self) -> Seq<u64> {
        match self {
            ChunkOffsetTable::Short(v) => Seq::new(v@.len(), |i: int| v@[i] as u64),
            ChunkOffsetTable::Long(v) => v@,
        }
    }
}

impl ChunkOffsetTable {
    /// Takes the chunk-offset table of a track from the two places where it
    /// may stand. Exactly one of them must be filled; `offset` is where the
    /// track's sample-table box starts, for the report of a failure.
    pub fn select(
        short: Option<Vec<u32>>,
        long: Option<Vec<u64>>,
        offset: u64,
    ) -> (r: Result<ChunkOffsetTable, InspectError>)
        ensures
            match (short, long) {
                (Some(v), None) => r == Ok::<ChunkOffsetTable, InspectError>(
                    ChunkOffsetTable::Short(v),
                ),
                (None, Some(v)) => r == Ok::<ChunkOffsetTable, InspectError>(
                    ChunkOffsetTable::Long(v),
                ),
                _ => r == Err::<ChunkOffsetTable, InspectError>(
                    InspectError::MalformedBox { box_type: SAMPLE_TABLE_BOX, offset },
                ),
            },
    {
        match (short, long) {
            (Some(v), None) => Ok(ChunkOffsetTable::Short(v)),
            (None, Some(v)) => Ok(ChunkOffsetTable::Long(v)),
            _ => Err(InspectError::MalformedBox { box_type: SAMPLE_TABLE_BOX, offset }),
        }
    }

    /// The number of chunks.
    pub fn len(&self) -> (n: usize)
        ensures
            n == self@.len(),
    {
        match self {
            ChunkOffsetTable::Short(v) => v.len(),
            ChunkOffsetTable::Long(v) => v.len(),
        }
    }

    /// The offset of chunk `i`.
    pub fn get(&self, i: usize) -> (offset: u64)
        requires
            i < self@.len(),
        ensures
            offset == self@[i as int],
    {
        match self {
            ChunkOffsetTable::Short(v) => v[i] as u64,
            ChunkOffsetTable::Long(v) => v[i],
        }
    }
}

/// The three tables of a track as mathematical sequences.
pub struct SampleTables {
    pub runs: Seq<ChunkRunEntry>,
    pub offsets: Seq<u64>,
    pub sample_size: u32,
    pub sample_sizes: Seq<u32>,
}

impl SampleTables {
    /// The number of chunks: one per entry of the chunk-offset table.
    pub open spec fn chunk_count(self) -> int {
        self.offsets.len() as int
    }

    /// The index, from 0, of the first chunk of run `k`.
    pub open spec fn run_start(self, k: int) -> int {
        self.runs[k].first_chunk - 1
    }

    /// The index of the chunk after the last one of run `k`: the start of
    /// the next run, or the number of chunks for the last run.
    pub open spec fn run_end(self, k: int) -> int {
        if k + 1 < self.runs.len() {
            self.run_start(k + 1)
        } else {
            self.chunk_count()
        }
    }

    /// The runs cover the chunks `0 .. chunk_count` one after the other: the
    /// first run starts at chunk 0, no run ends before it starts, and with
    /// no run there is no chunk.
    pub open spec fn runs_tile(self) -> bool {
        &&& self.runs.len() == 0 ==> self.chunk_count() == 0
        &&& self.runs.len() > 0 ==> self.run_start(0) == 0
        &&& forall|k: int|
            #![trigger self.run_end(k)]
            0 <= k < self.runs.len() ==> self.run_start(k) <= self.run_end(k)
    }

    /// The last run from `k` on that starts at or before chunk `c`.
    pub open spec fn run_from(self, k: int, c: int) -> int
        decreases self.runs.len() - k,
    {
        if 0 <= k && k + 1 < self.runs.len() && self.run_start(k + 1) <= c {
            self.run_from(k + 1, c)
        } else {
            k
        }
    }

    /// The run that chunk `c` belongs to.
    pub open spec fn run_of_chunk(self, c: int) -> int {
        self.run_from(0, c)
    }

    /// The number of samples in chunk `c`.
    pub open spec fn chunk_samples(self, c: int) -> nat {
        self.runs[self.run_of_chunk(c)].samples_per_chunk as nat
    }

    /// The number of samples in the chunks before chunk `c`, which is the
    /// index of the first sample of chunk `c`.
    pub open spec fn first_sample(self, c: int) -> nat
        decreases c,
    {
        if c <= 0 {
            0
        } else {
            self.first_sample(c - 1) + self.chunk_samples(c - 1)
        }
    }

    /// The number of samples in all chunks.
    pub open spec fn total_samples(self) -> nat {
        self.first_sample(self.chunk_count())
    }

    /// The sizes are listed one by one.
    pub open spec fn explicit(self) -> bool {
        self.sample_size == 0
    }

    /// Not both modes of the sample-size table at once.
    pub open spec fn sizes_exclusive(self) -> bool {
        self.sample_size == 0 || self.sample_sizes.len() == 0
    }

    /// The size of sample `s`.
    pub open spec fn size_of(self, s: int) -> nat {
        if self.sample_size != 0 {
            self.sample_size as nat
        } else {
            self.sample_sizes[s] as nat
        }
    }

    /// The sizes of the `n` samples from sample `s` on, added up.
    pub open spec fn span_bytes(self, s: int, n: int) -> nat
        decreases n,
    {
        if n <= 0 {
            0
        } else {
            self.span_bytes(s, n - 1) + self.size_of(s + n - 1)
        }
    }

    /// The sizes of the samples of chunk `c`, added up.
    pub open spec fn chunk_bytes(self, c: int) -> nat {
        self.span_bytes(self.first_sample(c) as int, self.chunk_samples(c) as int)
    }

    /// Chunk `c` can be resolved: its index and the indices of its samples
    /// fit 32 bits, each of its samples has a size, and the chunk ends
    /// within the 64-bit offset space.
    pub open spec fn chunk_resolves(self, c: int) -> bool {
        &&& c < u32::MAX
        &&& self.first_sample(c) + self.chunk_samples(c) <= u32::MAX
        &&& self.explicit() ==> self.first_sample(c) + self.chunk_samples(c)
            <= self.sample_sizes.len()
        &&& self.offsets[c] + self.chunk_bytes(c) <= u64::MAX
    }

    /// The first chunk from `c` on that cannot be resolved, or the number of
    /// chunks where there is none.
    pub open spec fn resolved_from(self, c: int) -> int
        decreases self.chunk_count() - c,
    {
        if 0 <= c < self.chunk_count() && self.chunk_resolves(c) {
            self.resolved_from(c + 1)
        } else {
            c
        }
    }

    /// How many chunks, from the first one on, can be resolved. With a
    /// sample-size table in both modes, or runs that do not tile the
    /// chunks, none can.
    pub open spec fn resolved_chunks(self) -> int {
        if self.sizes_exclusive() && self.runs_tile() {
            self.resolved_from(0)
        } else {
            0
        }
    }

    /// The three tables fit together: the sample-size table is in one mode,
    /// the runs tile the chunks, every chunk can be resolved, and a list of
    /// sizes has exactly one size per sample.
    pub open spec fn consistent(self) -> bool {
        &&& self.sizes_exclusive()
        &&& self.runs_tile()
        &&& forall|c: int| 0 <= c < self.chunk_count() ==> #[trigger] self.chunk_resolves(c)
        &&& self.explicit() ==> self.total_samples() == self.sample_sizes.len()
    }

    /// The failure that inconsistent tables are reported with: it names the
    /// first chunk that cannot be resolved and the index of its first sample.
    pub open spec fn fault(self) -> InspectError {
        InspectError::InconsistentSampleTable {
            sample_index: self.first_sample(self.resolved_chunks()) as u32,
            chunk_index: self.resolved_chunks() as u32,
        }
    }

    /// The last chunk from `c` on whose first sample is `s` or an earlier one.
    pub open spec fn chunk_from(self, c: int, s: int) -> int
        decreases self.chunk_count() - c,
    {
        if 0 <= c && c + 1 < self.chunk_count() && self.first_sample(c + 1) <= s {
            self.chunk_from(c + 1, s)
        } else {
            c
        }
    }

    /// The chunk that holds sample `s`.
    pub open spec fn chunk_of(self, s: int) -> int {
        self.chunk_from(0, s)
    }

    /// The offset that the resolver has reached in chunk `c` after `n` of its
    /// samples: the offset of the chunk plus the sizes of those samples.
    pub open spec fn running_offset(self, c: int, n: int) -> int {
        self.offsets[c] + self.span_bytes(self.first_sample(c) as int, n)
    }

    /// Sample `s` of the track, for `0 <= s < total_samples()`.
    pub open spec fn sample(self, s: int) -> ResolvedSample {
        let c = self.chunk_of(s);
        ResolvedSample {
            index: s as u32,
            chunk_index: c as u32,
            byte_offset: self.running_offset(c, s - self.first_sample(c)) as u64,
            size: self.size_of(s) as u32,
        }
    }

    /// Moving the start of the search for a chunk's run forward to the run of
    /// an earlier chunk does not change what is found.
    pub proof fn lemma_run_from_later(self, j: int, c0: int, c: int)
        requires
            0 <= j,
            c0 <= c,
        ensures
            self.run_from(j, c) == self.run_from(self.run_from(j, c0), c),
        decreases self.runs.len() - j,
    {
        if j + 1 < self.runs.len() && self.run_start(j + 1) <= c0 {
            self.lemma_run_from_later(j + 1, c0, c);
        }
    }

    /// Chunks further on start with later samples.
    pub proof fn lemma_first_sample_monotonic(self, a: int, b: int)
        requires
            a <= b,
        ensures
            self.first_sample(a) <= self.first_sample(b),
        decreases b - a,
    {
        if a < b {
            self.lemma_first_sample_monotonic(a, b - 1);
        }
    }

    /// More samples add up to no fewer bytes.
    pub proof fn lemma_span_bytes_monotonic(self, s: int, m: int, n: int)
        requires
            m <= n,
        ensures
            self.span_bytes(s, m) <= self.span_bytes(s, n),
        decreases n - m,
    {
        if m < n {
            self.lemma_span_bytes_monotonic(s, m, n - 1);
        }
    }

    /// With one size for all samples, `n` samples take `n` times that size.
    pub proof fn lemma_span_bytes_constant(self, s: int, n: int)
        requires
            self.sample_size != 0,
            0 <= n,
        ensures
            self.span_bytes(s, n) == n * self.sample_size,
        decreases n,
    {
        let size = self.sample_size as int;
        if n > 0 {
            self.lemma_span_bytes_constant(s, n - 1);
            assert(n * size == (n - 1) * size + size) by (nonlinear_arith);
        } else {
            assert(n * size == 0) by (nonlinear_arith)
                requires
                    n == 0,
            ;
        }
    }

    /// A size is below `2^32`, so `n` samples take at most `n` times that.
    pub proof fn lemma_span_bytes_bound(self, s: int, n: int)
        requires
            0 <= n,
        ensures
            self.span_bytes(s, n) <= n * u32::MAX,
        decreases n,
    {
        if n > 0 {
            self.lemma_span_bytes_bound(s, n - 1);
        }
    }

    /// A sample that lies between the first sample of chunk `c` and that of
    /// the next chunk is held by chunk `c`.
    pub proof fn lemma_chunk_of(self, c: int, s: int)
        requires
            0 <= c < self.chunk_count(),
            self.first_sample(c) <= s < self.first_sample(c + 1),
        ensures
            self.chunk_of(s) == c,
    {
        self.lemma_chunk_from(0, c, s);
    }

    proof fn lemma_chunk_from(self, j: int, c: int, s: int)
        requires
            0 <= j <= c < self.chunk_count(),
            self.first_sample(c) <= s < self.first_sample(c + 1),
        ensures
            self.chunk_from(j, s) == c,
        decreases c - j,
    {
        if j < c {
            self.lemma_first_sample_monotonic(j + 1, c);
            self.lemma_chunk_from(j + 1, c, s);
        }
    }

    /// Where all chunks from `a` up to `b` can be resolved, the search for
    /// the first that cannot may as well start at `b`.
    pub proof fn lemma_resolved_from_skip(self, a: int, b: int)
        requires
            0 <= a <= b <= self.chunk_count(),
            forall|c: int| a <= c < b ==> #[trigger] self.chunk_resolves(c),
        ensures
            self.resolved_from(a) == self.resolved_from(b),
        decreases b - a,
    {
        if a < b {
            self.lemma_resolved_from_skip(a + 1, b);
        }
    }

    /// The search for the first chunk that cannot be resolved ends at a
    /// chunk that cannot, or behind the last chunk; all before it can.
    pub proof fn lemma_resolved_from(self, a: int)
        requires
            0 <= a <= self.chunk_count(),
        ensures
            a <= self.resolved_from(a) <= self.chunk_count(),
            forall|c: int| a <= c < self.resolved_from(a) ==> #[trigger] self.chunk_resolves(c),
            self.resolved_from(a) < self.chunk_count() ==> !self.chunk_resolves(
                self.resolved_from(a),
            ),
        decreases self.chunk_count() - a,
    {
        if a < self.chunk_count() && self.chunk_resolves(a) {
            self.lemma_resolved_from(a + 1);
        }
    }
}

/// In consistent tables, the sample that stands at place `j` of chunk `c` has
/// the index `first_sample(c) + j`, lies in chunk `c`, starts where the
/// running offset of the chunk stands after `j` samples, and ends within the
/// 64-bit offset space.
pub proof fn lemma_sample_in_chunk(t: SampleTables, c: int, j: int)
    requires
        t.consistent(),
        0 <= c < t.chunk_count(),
        0 <= j < t.chunk_samples(c),
    ensures
        t.first_sample(c) + j < t.total_samples(),
        t.sample(t.first_sample(c) + j).index == t.first_sample(c) + j,
        t.sample(t.first_sample(c) + j).chunk_index == c,
        t.sample(t.first_sample(c) + j).byte_offset == t.running_offset(c, j),
        t.sample(t.first_sample(c) + j).size == t.size_of(t.first_sample(c) + j),
        t.running_offset(c, j) + t.size_of(t.first_sample(c) + j) == t.running_offset(c, j + 1),
        t.running_offset(c, j + 1) <= t.offsets[c] + t.chunk_bytes(c) <= u64::MAX,
{
    let first = t.first_sample(c) as int;
    assert(t.chunk_resolves(c));
    t.lemma_chunk_of(c, first + j);
    t.lemma_span_bytes_monotonic(first, j, j + 1);
    t.lemma_span_bytes_monotonic(first, j + 1, t.chunk_samples(c) as int);
    t.lemma_first_sample_monotonic(c + 1, t.chunk_count());
}

/// The samples of one chunk lie back to back: each starts where the one
/// before it ends, and the first starts at the offset of the chunk.
pub proof fn lemma_samples_contiguous(t: SampleTables, c: int, j: int)
    requires
        t.consistent(),
        0 <= c < t.chunk_count(),
        0 <= j < t.chunk_samples(c),
    ensures
        j == 0 ==> t.sample(t.first_sample(c) + j).byte_offset == t.offsets[c],
        j > 0 ==> t.sample(t.first_sample(c) + j).byte_offset == t.sample(
            t.first_sample(c) + j - 1,
        ).byte_offset + t.sample(t.first_sample(c) + j - 1).size,
{
    lemma_sample_in_chunk(t, c, j);
    if j > 0 {
        lemma_sample_in_chunk(t, c, j - 1);
    }
}

/// Where the sizes of the samples of chunk `c` add up to the distance
/// between the offset of chunk `c` and that of the next chunk, the running
/// offset has covered exactly that distance at the end of chunk `c`: the
/// last sample of chunk `c` ends where chunk `c + 1` starts.
pub proof fn lemma_running_offset_reaches_next_chunk(t: SampleTables, c: int)
    requires
        t.consistent(),
        0 <= c,
        c + 1 < t.chunk_count(),
        t.chunk_bytes(c) == t.offsets[c + 1] - t.offsets[c],
    ensures
        t.running_offset(c, t.chunk_samples(c) as int) - t.offsets[c] == t.offsets[c + 1]
            - t.offsets[c],
        t.chunk_samples(c) > 0 ==> t.sample(t.first_sample(c + 1) - 1).chunk_index == c
            && t.sample(t.first_sample(c + 1) - 1).byte_offset + t.sample(
            t.first_sample(c + 1) - 1,
        ).size == t.offsets[c + 1],
{
    if t.chunk_samples(c) > 0 {
        lemma_sample_in_chunk(t, c, t.chunk_samples(c) - 1);
    }
}

/// A sample-size table with both a size for all samples and a list of sizes
/// makes the tables inconsistent, whatever the other tables hold, and no
/// chunk of them resolves.
pub proof fn lemma_both_size_modes_inconsistent(t: SampleTables)
    requires
        t.sample_size != 0,
        t.sample_sizes.len() > 0,
    ensures
        !t.consistent(),
        t.fault() == (InspectError::InconsistentSampleTable { sample_index: 0, chunk_index: 0 }),
{
}

/// Inconsistent tables are reported as such, with a chunk index that is at
/// most the number of chunks.
pub proof fn lemma_fault_is_inconsistent_sample_table(t: SampleTables)
    ensures
        t.fault() is InconsistentSampleTable,
        0 <= t.resolved_chunks() <= t.chunk_count(),
        t.consistent() ==> t.resolved_chunks() == t.chunk_count(),
        t.resolved_chunks() < t.chunk_count() ==> !t.consistent(),
{
    t.lemma_resolved_from(0);
    if t.consistent() {
        t.lemma_resolved_from_skip(0, t.chunk_count());
    }
}

/// The model of the three tables as a track holds them.
pub open spec fn tables_of(
    runs: Seq<ChunkRunEntry>,
    offsets: Seq<u64>,
    sizes: SampleSizeTable,
) -> SampleTables {
    SampleTables {
        runs,
        offsets,
        sample_size: sizes.sample_size,
        sample_sizes: sizes.sample_sizes@,
    }
}

/// Whether the runs cover the `chunk_count` chunks one after the other.
fn runs_tile_chunks(
    runs: &Vec<ChunkRunEntry>,
    chunk_count: usize,
    Ghost(t): Ghost<SampleTables>,
) -> (r: bool)
    requires
        t.runs == runs@,
        t.chunk_count() == chunk_count,
    ensures
        r == t.runs_tile(),
{
    let n = runs.len();
    if n == 0 {
        return chunk_count == 0;
    }
    if runs[0].first_chunk != 1 {
        return false;
    }
    let mut k: usize = 0;
    while k + 1 < n
        invariant
            t.runs == runs@,
            n == runs.len(),
            k < n,
            runs[k as int].first_chunk >= 1,
            forall|i: int| 0 <= i < k ==> t.run_start(i) <= #[trigger] t.run_end(i),
        decreases n - k,
    {
        if runs[k].first_chunk > runs[k + 1].first_chunk {
            assert(!(t.run_start(k as int) <= t.run_end(k as int)));
            return false;
        }
        k += 1;
    }
    let last = runs[n - 1].first_chunk;
    if (last - 1) as u64 > chunk_count as u64 {
        assert(!(t.run_start(n - 1) <= t.run_end(n - 1)));
        return false;
    }
    true
}

/// Moves the run `k`, which is at or before the run of chunk `c`, on to the
/// run of chunk `c`.
fn run_for_chunk(
    runs: &Vec<ChunkRunEntry>,
    k: usize,
    c: usize,
    Ghost(t): Ghost<SampleTables>,
) -> (r: usize)
    requires
        t.runs == runs@,
        k < runs.len(),
        c < usize::MAX,
        t.run_from(k as int, c as int) == t.run_of_chunk(c as int),
    ensures
        r == t.run_of_chunk(c as int),
        r < runs.len(),
{
    let mut k = k;
    while k + 1 < runs.len() && runs[k + 1].first_chunk as usize <= c + 1
        invariant
            t.runs == runs@,
            k < runs.len(),
            c < usize::MAX,
            t.run_from(k as int, c as int) == t.run_of_chunk(c as int),
        decreases runs.len() - k,
    {
        k += 1;
    }
    k
}

/// The sizes of the `n` samples from sample `s` on, added up.
fn span_of(sizes: &SampleSizeTable, s: u32, n: u32, Ghost(t): Ghost<SampleTables>) -> (bytes: u64)
    requires
        t.sample_size == sizes.sample_size,
        t.sample_sizes == sizes.sample_sizes@,
        t.explicit() ==> s + n <= sizes.sample_sizes@.len(),
    ensures
        bytes == t.span_bytes(s as int, n as int),
{
    if sizes.sample_size != 0 {
        proof {
            t.lemma_span_bytes_constant(s as int, n as int);
            assert(n * sizes.sample_size <= 0xffff_ffff * 0xffff_ffff) by (nonlinear_arith)
                requires
                    0 <= n <= 0xffff_ffff,
                    0 <= sizes.sample_size <= 0xffff_ffff,
            ;
        }
        n as u64 * sizes.sample_size as u64
    } else {
        let len = sizes.sample_sizes.len();
        let mut j: u32 = 0;
        let mut sum: u64 = 0;
        while j < n
            invariant
                j <= n,
                len == sizes.sample_sizes@.len(),
                t.sample_size == 0,
                t.sample_sizes == sizes.sample_sizes@,
                s + n <= sizes.sample_sizes@.len(),
                sum == t.span_bytes(s as int, j as int),
            decreases n - j,
        {
            proof {
                t.lemma_span_bytes_bound(s as int, j as int);
                assert((j + 1) * 0xffff_ffff <= 0xffff_ffff * 0xffff_ffff) by (nonlinear_arith)
                    requires
                        0 <= j + 1 <= 0xffff_ffff,
                ;
            }
            sum = sum + sizes.sample_sizes[s as usize + j as usize] as u64;
            j += 1;
        }
        sum
    }
}

/// Finds the first chunk from `c` on that holds a sample, and its run,
/// where sample `s` is still to come and is the first sample of chunk `c`.
fn chunk_with_samples(
    runs: &Vec<ChunkRunEntry>,
    k: usize,
    c: usize,
    chunk_count: usize,
    Ghost(t): Ghost<SampleTables>,
    Ghost(s): Ghost<int>,
) -> (r: (usize, usize))
    requires
        t.runs == runs@,
        k < runs.len(),
        0 <= c <= t.chunk_count(),
        t.chunk_count() == chunk_count,
        t.first_sample(c as int) == s,
        s < t.total_samples(),
        t.run_from(k as int, c as int) == t.run_of_chunk(c as int),
    ensures
        c <= r.1 < t.chunk_count(),
        r.0 == t.run_of_chunk(r.1 as int),
        r.0 < runs.len(),
        t.chunk_samples(r.1 as int) > 0,
        t.first_sample(r.1 as int) == s,
{
    let ghost first = c;
    let mut c = c;
    let mut k = run_for_chunk(runs, k, c, Ghost(t));
    while runs[k].samples_per_chunk == 0
        invariant
            t.runs == runs@,
            k < runs.len(),
            first <= c < t.chunk_count(),
            t.chunk_count() == chunk_count,
            t.first_sample(c as int) == s,
            s < t.total_samples(),
            k == t.run_of_chunk(c as int),
        decreases t.chunk_count() - c,
    {
        proof {
            t.lemma_run_from_later(0, c as int, c + 1);
        }
        c += 1;
        k = run_for_chunk(runs, k, c, Ghost(t));
    }
    (k, c)
}

/// Walks the samples of a track in decode order and gives the byte range of
/// each. It holds the place it has reached, never the list of the samples.
pub struct SampleTableResolver {
    runs: Vec<ChunkRunEntry>,
    offsets: ChunkOffsetTable,
    sizes: SampleSizeTable,
    total: u32,
    run: usize,
    chunk: usize,
    in_chunk: u32,
    index: u32,
    offset: u64,
}

impl SampleTableResolver {
    /// The tables that the resolver walks.
    pub closed spec fn tables(&self) -> SampleTables {
        tables_of(self.runs@, self.offsets@, self.sizes)
    }

    /// The index of the sample that comes next; the number of samples when
    /// all have been given.
    pub closed spec fn position(&self) -> nat {
        self.index as nat
    }

    /// The tables are consistent and the place that the resolver holds is
    /// the place of sample `position()`.
    pub closed spec fn wf(&self) -> bool {
        let t = self.tables();
        &&& t.consistent()
        &&& self.total == t.total_samples()
        &&& self.index <= self.total
        &&& self.index < self.total ==> {
            &&& self.chunk < t.chunk_count()
            &&& self.run == t.run_of_chunk(self.chunk as int)
            &&& self.run < self.runs@.len()
            &&& self.in_chunk < t.chunk_samples(self.chunk as int)
            &&& t.first_sample(self.chunk as int) + self.in_chunk == self.index
            &&& self.offset == t.running_offset(self.chunk as int, self.in_chunk as int)
        }
    }

    /// Checks the three tables against one another and, where they are
    /// consistent, returns a resolver that stands before the first sample.
    pub fn build(
        runs: Vec<ChunkRunEntry>,
        chunk_offsets: ChunkOffsetTable,
        sizes: SampleSizeTable,
    ) -> (r: Result<SampleTableResolver, InspectError>)
        ensures
            tables_of(runs@, chunk_offsets@, sizes).consistent() ==> (r matches Ok(resolver)
                && resolver.wf() && resolver.tables() == tables_of(runs@, chunk_offsets@, sizes)
                && resolver.position() == 0),
            !tables_of(runs@, chunk_offsets@, sizes).consistent() ==> r == Err::<
                SampleTableResolver,
                InspectError,
            >(tables_of(runs@, chunk_offsets@, sizes).fault()),
    {
        let ghost t = tables_of(runs@, chunk_offsets@, sizes);
        let n = runs.len();
        let cc = chunk_offsets.len();
        if sizes.sample_size != 0 && sizes.sample_sizes.len() != 0 {
            return Err(InspectError::InconsistentSampleTable { sample_index: 0, chunk_index: 0 });
        }
        if !runs_tile_chunks(&runs, cc, Ghost(t)) {
            return Err(InspectError::InconsistentSampleTable { sample_index: 0, chunk_index: 0 });
        }
        let mut c: usize = 0;
        let mut k: usize = 0;
        let mut s: u32 = 0;
        while c < cc
            invariant
                t == tables_of(runs@, chunk_offsets@, sizes),
                n == runs.len(),
                cc == chunk_offsets@.len(),
                t.sizes_exclusive(),
                t.runs_tile(),
                c <= cc,
                c <= u32::MAX,
                s == t.first_sample(c as int),
                forall|i: int| 0 <= i < c ==> #[trigger] t.chunk_resolves(i),
                c == 0 ==> k == 0,
                c > 0 ==> k == t.run_of_chunk(c - 1),
                c > 0 ==> k < n,
            decreases cc - c,
        {
            proof {
                if c > 0 {
                    t.lemma_run_from_later(0, c - 1, c as int);
                }
                t.lemma_resolved_from_skip(0, c as int);
            }
            k = run_for_chunk(&runs, k, c, Ghost(t));
            let per_chunk = runs[k].samples_per_chunk;
            let end: u64 = s as u64 + per_chunk as u64;
            if c >= u32::MAX as usize || end > u32::MAX as u64 || (sizes.sample_size == 0 && end
                > sizes.sample_sizes.len() as u64) {
                return Err(
                    InspectError::InconsistentSampleTable { sample_index: s, chunk_index: c as u32 },
                );
            }
            let bytes = span_of(&sizes, s, per_chunk, Ghost(t));
            if chunk_offsets.get(c).checked_add(bytes).is_none() {
                return Err(
                    InspectError::InconsistentSampleTable { sample_index: s, chunk_index: c as u32 },
                );
            }
            s = end as u32;
            c += 1;
        }
        proof {
            t.lemma_resolved_from_skip(0, cc as int);
        }
        if sizes.sample_size == 0 && s as usize != sizes.sample_sizes.len() {
            return Err(
                InspectError::InconsistentSampleTable { sample_index: s, chunk_index: cc as u32 },
            );
        }
        let mut resolver = SampleTableResolver {
            runs,
            offsets: chunk_offsets,
            sizes,
            total: s,
            run: 0,
            chunk: 0,
            in_chunk: 0,
            index: 0,
            offset: 0,
        };
        resolver.rewind();
        Ok(resolver)
    }

    /// Goes back to the place before the first sample.
    pub fn restart(&mut self)
        requires
            old(self).wf(),
        ensures
            final(self).wf(),
            final(self).tables() == old(self).tables(),
            final(self).position() == 0,
    {
        self.rewind();
    }

    /// Puts the resolver before the first sample, whatever place it held.
    fn rewind(&mut self)
        requires
            old(self).tables().consistent(),
            old(self).total == old(self).tables().total_samples(),
        ensures
            final(self).wf(),
            final(self).tables() == old(self).tables(),
            final(self).position() == 0,
    {
        self.index = 0;
        self.in_chunk = 0;
        if self.total > 0 {
            let ghost t = self.tables();
            let chunk_count = self.offsets.len();
            let (k, c) = chunk_with_samples(&self.runs, 0, 0, chunk_count, Ghost(t), Ghost(0));
            self.run = k;
            self.chunk = c;
            self.offset = self.offsets.get(c);
        }
    }

    /// The number of samples of the track.
    pub fn total_samples(&self) -> (n: u32)
        requires
            self.wf(),
        ensures
            n == self.tables().total_samples(),
    {
        self.total
    }

    /// The index of the sample that `next_sample` gives next.
    pub fn next_index(&self) -> (n: u32)
        ensures
            n == self.position(),
    {
        self.index
    }

    /// Gives the next sample in decode order, or `None` after the last one.
    pub fn next_sample(&mut self) -> (r: Option<ResolvedSample>)
        requires
            old(self).wf(),
        ensures
            final(self).wf(),
            final(self).tables() == old(self).tables(),
            old(self).position() < old(self).tables().total_samples() ==> r == Some(
                old(self).tables().sample(old(self).position() as int),
            ) && final(self).position() == old(self).position() + 1,
            old(self).position() >= old(self).tables().total_samples() ==> r is None
                && final(self).position() == old(self).position(),
    {
        if self.index >= self.total {
            return None;
        }
        let ghost t = self.tables();
        let per_chunk = self.runs[self.run].samples_per_chunk;
        proof {
            assert(t.chunk_resolves(self.chunk as int));
            t.lemma_chunk_of(self.chunk as int, self.index as int);
            t.lemma_span_bytes_monotonic(
                t.first_sample(self.chunk as int) as int,
                self.in_chunk + 1,
                per_chunk as int,
            );
        }
        let size = if self.sizes.sample_size != 0 {
            self.sizes.sample_size
        } else {
            self.sizes.sample_sizes[self.index as usize]
        };
        let sample = ResolvedSample {
            index: self.index,
            chunk_index: self.chunk as u32,
            byte_offset: self.offset,
            size,
        };
        self.index = self.index + 1;
        self.in_chunk = self.in_chunk + 1;
        if self.in_chunk < per_chunk {
            self.offset = self.offset + size as u64;
        } else if self.index < self.total {
            proof {
                t.lemma_run_from_later(0, self.chunk as int, self.chunk + 1);
            }
            let chunk_count = self.offsets.len();
            let (k, c) = chunk_with_samples(
                &self.runs,
                self.run,
                self.chunk + 1,
                chunk_count,
                Ghost(t),
                Ghost(self.index as int),
            );
            self.run = k;
            self.chunk = c;
            self.in_chunk = 0;
            self.offset = self.offsets.get(c);
        }
        Some(sample)
    }
}

} // verus!
