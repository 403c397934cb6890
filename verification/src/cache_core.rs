//! Block cache of one file: which chunks are held, and how a read is served
//! from the held chunks and from the share.
use crate::text::{after_last_index, chars_of, last_pos};
use crate::file_table::Row;
use vstd::prelude::*;

verus! {

/// Size of one cached chunk in bytes (1 MiB).
pub const CHUNK_SIZE: u64 = 1024 * 1024;

/// The share of the byte budget, in percent, that an eviction brings the cache down to.
pub const EVICTION_TARGET_PERCENT: u64 = 80;

/// The mask of bit `k` of a byte.
pub open spec fn bit_mask(k: int) -> u8 {
    1u8 << (k as u8)
}

/// Whether `chunk` is marked in the bitmap: bit `chunk % 8` of byte `chunk / 8`.
pub open spec fn held(bitmap: Seq<u8>, chunk: int) -> bool {
    &&& 0 <= chunk
    &&& chunk / 8 < bitmap.len()
    &&& bitmap[chunk / 8] & bit_mask(chunk % 8) != 0
}

/// Whether every chunk below `total` is marked.
pub open spec fn all_held(bitmap: Seq<u8>, total: int) -> bool {
    forall|c: int| 0 <= c < total ==> #[trigger] held(bitmap, c)
}

/// Number of chunks that cover `size` bytes.
pub open spec fn chunk_count(size: int) -> int {
    (size + CHUNK_SIZE - 1) / CHUNK_SIZE as int
}

proof fn lemma_or_bit(b: u8, k: u8, j: u8)
    requires
        k < 8,
        j < 8,
    ensures
        ((b | (1u8 << k)) & (1u8 << j) != 0) == (j == k || b & (1u8 << j) != 0),
{
    assert(((b | (1u8 << k)) & (1u8 << j) != 0) == (j == k || b & (1u8 << j) != 0))
        by (bit_vector)
        requires
            k < 8,
            j < 8,
    ;
}

proof fn lemma_and_not_bit(b: u8, k: u8, j: u8)
    requires
        k < 8,
        j < 8,
    ensures
        ((b & !(1u8 << k)) & (1u8 << j) != 0) == (j != k && b & (1u8 << j) != 0),
{
    assert(((b & !(1u8 << k)) & (1u8 << j) != 0) == (j != k && b & (1u8 << j) != 0))
        by (bit_vector)
        requires
            k < 8,
            j < 8,
    ;
}

proof fn lemma_zero_byte(k: u8)
    ensures
        0u8 & (1u8 << k) == 0,
{
    assert(0u8 & (1u8 << k) == 0) by (bit_vector);
}

/// A byte holds all of its first `r` bits iff it agrees with the mask of `r` ones.
proof fn lemma_low_bits(b: u8, r: u8)
    requires
        r <= 8,
    ensures
        r < 8 ==> ((b & ((1u8 << r) - 1) as u8 == ((1u8 << r) - 1) as u8) <==> (forall|j: u8|
            j < r ==> #[trigger] (1u8 << j) & b != 0)),
        r == 8 ==> ((b == 0xFF) <==> (forall|j: u8| j < r ==> #[trigger] (1u8 << j) & b != 0)),
{
    assert(r < 8 ==> ((b & ((1u8 << r) - 1) as u8 == ((1u8 << r) - 1) as u8) <==> ((r > 0 ==> (1u8
        << 0u8) & b != 0) && (r > 1 ==> (1u8 << 1u8) & b != 0) && (r > 2 ==> (1u8 << 2u8) & b != 0)
        && (r > 3 ==> (1u8 << 3u8) & b != 0) && (r > 4 ==> (1u8 << 4u8) & b != 0) && (r > 5 ==> (1u8
        << 5u8) & b != 0) && (r > 6 ==> (1u8 << 6u8) & b != 0)))) by (bit_vector);
    assert((b == 0xFF) <==> ((1u8 << 0u8) & b != 0 && (1u8 << 1u8) & b != 0 && (1u8 << 2u8) & b
        != 0 && (1u8 << 3u8) & b != 0 && (1u8 << 4u8) & b != 0 && (1u8 << 5u8) & b != 0 && (1u8
        << 6u8) & b != 0 && (1u8 << 7u8) & b != 0)) by (bit_vector);
    if (r < 8 && b & ((1u8 << r) - 1) as u8 == ((1u8 << r) - 1) as u8) || (r == 8 && b == 0xFF) {
        assert forall|j: u8| j < r implies #[trigger] (1u8 << j) & b != 0 by {
            assert(j == 0 || j == 1 || j == 2 || j == 3 || j == 4 || j == 5 || j == 6 || j == 7);
        }
    }
    if forall|j: u8| j < r ==> #[trigger] (1u8 << j) & b != 0 {
        if r > 0 {
            assert((1u8 << 0u8) & b != 0);
        }
        if r > 1 {
            assert((1u8 << 1u8) & b != 0);
        }
        if r > 2 {
            assert((1u8 << 2u8) & b != 0);
        }
        if r > 3 {
            assert((1u8 << 3u8) & b != 0);
        }
        if r > 4 {
            assert((1u8 << 4u8) & b != 0);
        }
        if r > 5 {
            assert((1u8 << 5u8) & b != 0);
        }
        if r > 6 {
            assert((1u8 << 6u8) & b != 0);
        }
        if r > 7 {
            assert((1u8 << 7u8) & b != 0);
        }
    }
}

proof fn lemma_and_commutes(a: u8, b: u8)
    ensures
        a & b == b & a,
{
    assert(a & b == b & a) by (bit_vector);
}

/// Number of chunks that cover a file of `size` bytes.
pub fn num_chunks(size: u64) -> (n: u64)
    requires
        size + CHUNK_SIZE <= u64::MAX,
    ensures
        n == chunk_count(size as int),
        n * CHUNK_SIZE >= size,
        size > 0 ==> (n - 1) * CHUNK_SIZE < size,
        size == 0 ==> n == 0,
{
    (size + CHUNK_SIZE - 1) / CHUNK_SIZE
}

/// Whether `chunk` is marked as held.
pub fn bit_is_set(bitmap: &[u8], chunk: u64) -> (r: bool)
    ensures
        r == held(bitmap@, chunk as int),
{
    let k: u8 = (chunk % 8) as u8;
    if chunk / 8 < bitmap.len() as u64 {
        let byte: usize = (chunk / 8) as usize;
        bitmap[byte] & (1u8 << k) != 0
    } else {
        false
    }
}

/// Marks `chunk` as held, growing the bitmap as far as needed.
pub fn set_bit(bitmap: &mut Vec<u8>, chunk: u64)
    requires
        chunk / 8 < usize::MAX,
    ensures
        final(bitmap)@.len() == if old(bitmap)@.len() > chunk / 8 {
            old(bitmap)@.len() as int
        } else {
            chunk / 8 + 1
        },
        forall|c: int|
            #[trigger] held(final(bitmap)@, c) == (c == chunk || held(old(bitmap)@, c)),
{
    let byte: usize = (chunk / 8) as usize;
    let k: u8 = (chunk % 8) as u8;
    let ghost before = bitmap@;
    if bitmap.len() <= byte {
        bitmap.resize(byte + 1, 0);
    }
    let ghost grown = bitmap@;
    assert forall|c: int| #[trigger] held(grown, c) == held(before, c) by {
        if 0 <= c && c / 8 < grown.len() && c / 8 >= before.len() {
            assert(grown[c / 8] == 0);
            lemma_zero_byte((c % 8) as u8);
        }
    }
    let b: u8 = bitmap[byte];
    bitmap.set(byte, b | (1u8 << k));
    assert forall|c: int| #[trigger] held(bitmap@, c) == (c == chunk || held(before, c)) by {
        assert(held(grown, c) == held(before, c));
        if 0 <= c && c / 8 == byte as int {
            lemma_or_bit(b, k, (c % 8) as u8);
            assert((c == chunk) <==> ((c % 8) as u8 == k));
        }
    }
}

/// Clears the mark of `chunk`; the bitmap keeps its length.
pub fn bit_unset(bitmap: &mut Vec<u8>, chunk: u64)
    ensures
        final(bitmap)@.len() == old(bitmap)@.len(),
        forall|c: int|
            #[trigger] held(final(bitmap)@, c) == (c != chunk && held(old(bitmap)@, c)),
{
    let k: u8 = (chunk % 8) as u8;
    let ghost before = bitmap@;
    if chunk / 8 < bitmap.len() as u64 {
        let byte: usize = (chunk / 8) as usize;
        let b: u8 = bitmap[byte];
        bitmap.set(byte, b & !(1u8 << k));
        assert forall|c: int| #[trigger] held(bitmap@, c) == (c != chunk && held(before, c)) by {
            if 0 <= c && c / 8 == byte as int {
                lemma_and_not_bit(b, k, (c % 8) as u8);
                assert((c == chunk) <==> ((c % 8) as u8 == k));
            }
        }
    }
}

/// Whether every chunk below `total_chunks` is held.
pub fn bitmap_is_complete(bitmap: &[u8], total_chunks: u64) -> (r: bool)
    ensures
        r == all_held(bitmap@, total_chunks as int),
{
    if total_chunks == 0 {
        return true;
    }
    if total_chunks / 8 > bitmap.len() as u64 {
        assert(!held(bitmap@, 8 * bitmap@.len() as int));
        return false;
    }
    let full_bytes: usize = (total_chunks / 8) as usize;
    let mut i: usize = 0;
    while i < full_bytes
        invariant
            i <= full_bytes <= bitmap@.len(),
            full_bytes == total_chunks / 8,
            forall|c: int| 0 <= c < 8 * i ==> #[trigger] held(bitmap@, c),
        decreases full_bytes - i,
    {
        if bitmap[i] != 0xFF {
            proof {
                let b = bitmap@[i as int];
                lemma_low_bits(b, 8);
                let j: u8 = choose|j: u8| j < 8 && !(#[trigger] (1u8 << j) & b != 0);
                lemma_and_commutes(1u8 << j, b);
                let c = 8 * i + j as int;
                assert(c % 8 == j as int && c / 8 == i as int);
                assert(!held(bitmap@, c));
            }
            return false;
        }
        proof {
            let b = bitmap@[i as int];
            lemma_low_bits(b, 8);
            assert forall|c: int| 0 <= c < 8 * (i + 1) implies #[trigger] held(bitmap@, c) by {
                if c >= 8 * i {
                    let j: u8 = (c % 8) as u8;
                    assert((1u8 << j) & b != 0);
                    lemma_and_commutes(1u8 << j, b);
                }
            }
        }
        i += 1;
    }
    let remainder: u8 = (total_chunks % 8) as u8;
    if remainder > 0 {
        assert((1u8 << remainder) >= 1) by (bit_vector)
            requires
                remainder < 8,
        ;
        let mask: u8 = (1u8 << remainder) - 1;
        let b: u8 = if full_bytes < bitmap.len() {
            bitmap[full_bytes]
        } else {
            0
        };
        proof {
            lemma_low_bits(b, remainder);
            lemma_zero_byte(0);
            lemma_and_commutes(0u8, 1u8 << 0u8);
        }
        if b & mask != mask {
            proof {
                let j: u8 = choose|j: u8| j < remainder && !(#[trigger] (1u8 << j) & b != 0);
                lemma_and_commutes(1u8 << j, b);
                let c = 8 * full_bytes + j as int;
                assert(c % 8 == j as int && c / 8 == full_bytes as int);
                assert(!held(bitmap@, c));
            }
            return false;
        }
        proof {
            assert((1u8 << 0u8) & b != 0);
            assert(full_bytes < bitmap@.len());
            assert forall|c: int| 0 <= c < total_chunks implies #[trigger] held(bitmap@, c) by {
                if c >= 8 * full_bytes {
                    let j: u8 = (c % 8) as u8;
                    assert((1u8 << j) & b != 0);
                    lemma_and_commutes(1u8 << j, b);
                }
            }
        }
    }
    true
}

/// The part of a `/`-separated relative path before its last `/`, empty where there is none.
pub open spec fn parent_path(path: Seq<char>) -> Seq<char> {
    if last_pos(path, '/') < 0 {
        Seq::empty()
    } else {
        path.take(last_pos(path, '/'))
    }
}

/// Parent directory of a `/`-separated relative path.
pub fn parent_of<'a>(path: &'a str) -> (out: &'a str)
    ensures
        out@ == parent_path(path@),
{
    let v = chars_of(path);
    let k: usize = after_last_index(&v, '/');
    if k == 0 {
        assert(path@.subrange(0, 0) =~= Seq::<char>::empty());
        path.substring_char(0, 0)
    } else {
        assert(path@.subrange(0, k - 1) =~= path@.take(k - 1));
        path.substring_char(0, k - 1)
    }
}

/// The path of the entry `name` of the directory `dir`; the root is the empty path.
pub open spec fn child_path(dir: Seq<char>, name: Seq<char>) -> Seq<char> {
    if dir.len() == 0 {
        name
    } else {
        dir.push('/') + name
    }
}

/// The path of the entry `name` of the directory `dir`.
pub fn join_rel(dir: &str, name: &str) -> (out: String)
    ensures
        out@ == child_path(dir@, name@),
{
    if dir.is_empty() {
        name.to_owned()
    } else {
        let mut out = dir.to_owned();
        out.push('/');
        out.append(name);
        out
    }
}

/// A name without a separator.
pub open spec fn plain_name(name: Seq<char>) -> bool {
    forall|i: int| 0 <= i < name.len() ==> name[i] != '/'
}

/// Whether two times lie more than `tolerance` apart.
pub open spec fn apart(a: i64, b: i64, tolerance: int) -> bool {
    a - b > tolerance || b - a > tolerance
}

/// Whether two times lie more than `tolerance` apart.
pub fn times_apart(a: i64, b: i64, tolerance: i64) -> (r: bool)
    ensures
        r == apart(a, b, tolerance as int),
{
    let d: i128 = a as i128 - b as i128;
    d > tolerance as i128 || -d > tolerance as i128
}

/// Whether every byte is zero.
pub fn is_all_zeros(buf: &[u8]) -> (r: bool)
    ensures
        r == (forall|i: int| 0 <= i < buf@.len() ==> buf@[i] == 0),
{
    let mut i: usize = 0;
    while i < buf.len()
        invariant
            i <= buf@.len(),
            forall|k: int| 0 <= k < i ==> buf@[k] == 0,
        decreases buf@.len() - i,
    {
        if buf[i] != 0 {
            return false;
        }
        i += 1;
    }
    true
}

/// A maximal run of neighbouring chunks that are all held or all missing.
#[derive(Clone, Copy, Debug, PartialEq, Eq, Structural)]
pub struct Run {
    /// First chunk of the run.
    pub first: u64,
    /// Last chunk of the run.
    pub last: u64,
    /// Whether the chunks of the run are held.
    pub cached: bool,
    /// File position of the first requested byte in the run.
    pub start_byte: u64,
    /// Number of requested bytes in the run.
    pub len: u64,
    /// Position of those bytes in the reader's buffer.
    pub buf_offset: u64,
    /// File position from which a missing run is fetched.
    pub fetch_start: u64,
    /// Number of bytes that a fetch of the run asks for.
    pub fetch_len: u64,
}

/// What to record once a read is done.
pub enum ReadOutcome {
    /// No mark changed.
    Unchanged,
    /// Every chunk of the file is held now.
    FullyHydrated,
    /// The new marks have to be kept.
    SaveBitmap(Vec<u8>),
}

/// A read in progress: the requested window and the chunks that still have to be served.
pub struct BlockRead {
    offset: u64,
    want: u64,
    file_size: u64,
    chunk: u64,
    last_chunk: u64,
    bitmap: Vec<u8>,
    dirty: bool,
}

impl BlockRead {
    /// File position of the first requested byte.
    pub closed spec fn from(&self) -> int {
        self.offset as int
    }

    /// Number of bytes that the read delivers.
    pub closed spec fn wanted(&self) -> int {
        self.want as int
    }

    /// Size of the file.
    pub closed spec fn size(&self) -> int {
        self.file_size as int
    }

    /// The next chunk to serve.
    pub closed spec fn at(&self) -> int {
        self.chunk as int
    }

    /// The last chunk that the window touches.
    pub open spec fn end(&self) -> int {
        (self.from() + self.wanted() - 1) / CHUNK_SIZE as int
    }

    /// The marks as they are now.
    pub closed spec fn marks(&self) -> Seq<u8> {
        self.bitmap@
    }

    /// Whether a mark was changed by this read.
    pub closed spec fn changed(&self) -> bool {
        self.dirty
    }

    /// The window lies in the file, and the next chunk lies in the window or just behind it.
    pub open spec fn wf(&self) -> bool {
        &&& self.wanted() > 0
        &&& self.from() >= 0
        &&& self.from() + self.wanted() <= self.size()
        &&& self.size() + CHUNK_SIZE <= u64::MAX
        &&& self.size() / CHUNK_SIZE as int / 8 < usize::MAX
        &&& self.from() / CHUNK_SIZE as int <= self.at() <= self.end() + 1
        &&& self.bookkeeping()
    }

    pub closed spec fn bookkeeping(&self) -> bool {
        self.last_chunk == self.end()
    }

    /// File position up to which the window has been served.
    pub open spec fn served_to(&self) -> int {
        if self.at() > self.end() {
            self.from() + self.wanted()
        } else if self.at() * CHUNK_SIZE < self.from() {
            self.from()
        } else {
            self.at() * CHUNK_SIZE
        }
    }

    /// `run` is the maximal run that starts at the next chunk.
    pub open spec fn is_run(&self, run: Run) -> bool {
        let stop = (run.last + 1) * CHUNK_SIZE;
        let window_end = self.from() + self.wanted();
        &&& run.first == self.at()
        &&& run.first <= run.last <= self.end()
        &&& forall|c: int| run.first <= c <= run.last ==> #[trigger] held(self.marks(), c) == run.cached
        &&& run.last < self.end() ==> held(self.marks(), run.last + 1) != run.cached
        &&& run.start_byte == self.served_to()
        &&& run.start_byte + run.len == if stop < window_end { stop } else { window_end }
        &&& run.len > 0
        &&& run.buf_offset == run.start_byte - self.from()
        &&& run.fetch_start == run.first * CHUNK_SIZE
        &&& run.fetch_start + run.fetch_len == if stop < self.size() { stop } else { self.size() }
        &&& run.fetch_start <= run.start_byte
    }

    /// Begins a read of up to `len` bytes at `offset`: nothing where no byte is asked
    /// for or the position lies at or behind the end of the file.
    pub fn start(len: usize, offset: u64, file_size: u64, bitmap: Vec<u8>) -> (r: Option<BlockRead>)
        requires
            file_size + CHUNK_SIZE <= u64::MAX,
            file_size / CHUNK_SIZE / 8 < usize::MAX,
        ensures
            r is None <==> len == 0 || offset >= file_size,
            r matches Some(b) ==> {
                &&& b.wf()
                &&& b.from() == offset
                &&& b.wanted() == if file_size - offset < len { file_size - offset } else { len as int }
                &&& b.size() == file_size
                &&& b.at() == offset as int / CHUNK_SIZE as int
                &&& b.served_to() == offset
                &&& b.marks() == bitmap@
                &&& !b.changed()
            },
    {
        if len == 0 || offset >= file_size {
            return None;
        }
        let rest: u64 = file_size - offset;
        let want: u64 = if rest < len as u64 {
            rest
        } else {
            len as u64
        };
        let chunk: u64 = offset / CHUNK_SIZE;
        let last_chunk: u64 = (offset + want - 1) / CHUNK_SIZE;
        Some(BlockRead { offset, want, file_size, chunk, last_chunk, bitmap, dirty: false })
    }

    /// Number of bytes that the read delivers.
    pub fn effective_len(&self) -> (n: u64)
        ensures
            n == self.wanted(),
    {
        self.want
    }

    /// The next run to serve, until the window is served.
    pub fn next_run(&self) -> (r: Option<Run>)
        requires
            self.wf(),
        ensures
            r is None <==> self.at() > self.end(),
            r matches Some(run) ==> self.is_run(run),
    {
        if self.chunk > self.last_chunk {
            return None;
        }
        let cached: bool = bit_is_set(self.bitmap.as_slice(), self.chunk);
        let mut run_end: u64 = self.chunk;
        while run_end < self.last_chunk && bit_is_set(self.bitmap.as_slice(), run_end + 1) == cached
            invariant
                self.wf(),
                self.chunk <= run_end <= self.last_chunk,
                forall|c: int|
                    self.chunk <= c <= run_end ==> #[trigger] held(self.bitmap@, c) == cached,
            decreases self.last_chunk - run_end,
        {
            run_end += 1;
        }
        let chunk_start: u64 = self.chunk * CHUNK_SIZE;
        let stop: u64 = (run_end + 1) * CHUNK_SIZE;
        let window_end: u64 = self.offset + self.want;
        let start_byte: u64 = if chunk_start > self.offset {
            chunk_start
        } else {
            self.offset
        };
        let end_byte: u64 = if stop < window_end {
            stop
        } else {
            window_end
        };
        let fetch_end: u64 = if stop < self.file_size {
            stop
        } else {
            self.file_size
        };
        Some(
            Run {
                first: self.chunk,
                last: run_end,
                cached,
                start_byte,
                len: end_byte - start_byte,
                buf_offset: start_byte - self.offset,
                fetch_start: chunk_start,
                fetch_len: fetch_end - chunk_start,
            },
        )
    }

    /// A held run was read from the cache and gave `n` bytes. A short read drops the marks of
    /// the run, so that it is fetched next; a full one moves on behind the run.
    pub fn on_cached(&mut self, run: Run, n: usize)
        requires
            old(self).wf(),
            old(self).is_run(run),
            run.cached,
        ensures
            final(self).wf(),
            final(self).from() == old(self).from(),
            final(self).wanted() == old(self).wanted(),
            final(self).size() == old(self).size(),
            n < run.len ==> final(self).at() == old(self).at() && final(self).changed() && forall|
                c: int,
            | #[trigger]
                held(final(self).marks(), c) == (!(run.first <= c <= run.last) && held(
                    old(self).marks(),
                    c,
                )),
            n >= run.len ==> final(self).at() == run.last + 1 && final(self).marks() == old(
                self,
            ).marks() && final(self).changed() == old(self).changed() && final(self).served_to()
                == run.start_byte + run.len,
    {
        if (n as u64) < run.len {
            let ghost before = self.bitmap@;
            let mut c: u64 = run.first;
            while c <= run.last
                invariant
                    run.first <= c <= run.last + 1,
                    run.last < u64::MAX,
                    self.offset == old(self).offset,
                    self.want == old(self).want,
                    self.file_size == old(self).file_size,
                    self.chunk == old(self).chunk,
                    self.last_chunk == old(self).last_chunk,
                    before == old(self).bitmap@,
                    forall|k: int| #[trigger]
                        held(self.bitmap@, k) == (!(run.first <= k < c) && held(before, k)),
                decreases run.last + 1 - c,
            {
                bit_unset(&mut self.bitmap, c);
                c += 1;
            }
            self.dirty = true;
        } else {
            self.chunk = run.last + 1;
        }
    }

    /// A missing run was fetched from the share: its chunks are held now.
    pub fn on_fetched(&mut self, run: Run)
        requires
            old(self).wf(),
            old(self).is_run(run),
            !run.cached,
        ensures
            final(self).wf(),
            final(self).from() == old(self).from(),
            final(self).wanted() == old(self).wanted(),
            final(self).size() == old(self).size(),
            final(self).at() == run.last + 1,
            final(self).changed(),
            final(self).served_to() == run.start_byte + run.len,
            forall|c: int| #[trigger]
                held(final(self).marks(), c) == (run.first <= c <= run.last || held(
                    old(self).marks(),
                    c,
                )),
    {
        let ghost before = self.bitmap@;
        let mut c: u64 = run.first;
        while c <= run.last
            invariant
                run.first <= c <= run.last + 1,
                run.last < u64::MAX,
                run.last / 8 < usize::MAX,
                self.offset == old(self).offset,
                self.want == old(self).want,
                self.file_size == old(self).file_size,
                self.chunk == old(self).chunk,
                self.last_chunk == old(self).last_chunk,
                before == old(self).bitmap@,
                forall|k: int| #[trigger]
                    held(self.bitmap@, k) == (run.first <= k < c || held(before, k)),
            decreases run.last + 1 - c,
        {
            set_bit(&mut self.bitmap, c);
            c += 1;
        }
        self.dirty = true;
        self.chunk = run.last + 1;
    }

    /// What to record now that the window has been served.
    pub fn finish(self) -> (r: ReadOutcome)
        requires
            self.wf(),
        ensures
            !self.changed() ==> r is Unchanged,
            self.changed() ==> {
                let complete = all_held(self.marks(), chunk_count(self.size()));
                &&& complete ==> r is FullyHydrated
                &&& !complete ==> (r matches ReadOutcome::SaveBitmap(b) && b@ == self.marks())
            },
    {
        if !self.dirty {
            return ReadOutcome::Unchanged;
        }
        if bitmap_is_complete(self.bitmap.as_slice(), num_chunks(self.file_size)) {
            ReadOutcome::FullyHydrated
        } else {
            ReadOutcome::SaveBitmap(self.bitmap)
        }
    }
}

/// Number of bytes of a fetch that returned `got` bytes that belong into the reader's buffer.
pub open spec fn usable(run: Run, got: int) -> int {
    let behind = got - (run.start_byte - run.fetch_start);
    if behind < run.len {
        behind
    } else {
        run.len as int
    }
}

/// Copies the requested part of a fetched run into the reader's buffer. The fetch has to
/// reach at least to the first requested byte.
pub fn place_fetched(buffer: &mut Vec<u8>, run: Run, fetched: &Vec<u8>)
    requires
        run.fetch_start <= run.start_byte,
        run.start_byte - run.fetch_start <= fetched@.len(),
        run.buf_offset + run.len <= old(buffer)@.len(),
    ensures
        final(buffer)@.len() == old(buffer)@.len(),
        forall|i: int|
            0 <= i < old(buffer)@.len() ==> #[trigger] final(buffer)@[i] == if run.buf_offset <= i
                < run.buf_offset + usable(run, fetched@.len() as int) {
                fetched@[i - run.buf_offset + (run.start_byte - run.fetch_start)]
            } else {
                old(buffer)@[i]
            },
{
    let capacity: usize = buffer.len();
    let skip: usize = (run.start_byte - run.fetch_start) as usize;
    let behind: usize = fetched.len() - skip;
    let count: usize = if (behind as u64) < run.len {
        behind
    } else {
        run.len as usize
    };
    let base: usize = run.buf_offset as usize;
    let mut i: usize = 0;
    while i < count
        invariant
            i <= count,
            base == run.buf_offset,
            skip == run.start_byte - run.fetch_start,
            skip + count <= fetched@.len(),
            base + count <= capacity,
            capacity == buffer@.len(),
            fetched@.len() <= usize::MAX,
            buffer@.len() == old(buffer)@.len(),
            forall|k: int|
                0 <= k < old(buffer)@.len() ==> #[trigger] buffer@[k] == if base <= k < base + i {
                    fetched@[k - base + skip]
                } else {
                    old(buffer)@[k]
                },
        decreases count - i,
    {
        buffer.set(base + i, fetched[skip + i]);
        i += 1;
    }
}

/// The held chunks of the cache image agree with the file, and the image is zero elsewhere.
pub open spec fn faithful(marks: Seq<u8>, image: Seq<u8>, file: Seq<u8>) -> bool {
    &&& image.len() == file.len()
    &&& forall|i: int|
        0 <= i < file.len() ==> #[trigger] image[i] == if held(marks, i / CHUNK_SIZE as int) {
            file[i]
        } else {
            0u8
        }
}

/// The cache image after a fetched run was stored: written, or left as the hole that it is
/// where the fetched bytes are all zero.
pub open spec fn stored(image: Seq<u8>, run: Run, data: Seq<u8>) -> Seq<u8> {
    if forall|i: int| 0 <= i < data.len() ==> data[i] == 0 {
        image
    } else {
        Seq::new(
            image.len(),
            |i: int|
                if run.fetch_start <= i < run.fetch_start + data.len() {
                    data[i - run.fetch_start]
                } else {
                    image[i]
                },
        )
    }
}

/// The buffer holds the file's bytes of the window up to file position `upto`.
pub open spec fn filled(buffer: Seq<u8>, file: Seq<u8>, from: int, upto: int) -> bool {
    &&& from <= upto
    &&& upto - from <= buffer.len()
    &&& upto <= file.len()
    &&& forall|i: int| from <= i < upto ==> buffer[i - from] == #[trigger] file[i]
}

/// A fetched run keeps the cache faithful, and extends what the buffer holds of the file.
pub proof fn law_fetch_is_faithful(
    r: BlockRead,
    run: Run,
    image: Seq<u8>,
    file: Seq<u8>,
    marks_after: Seq<u8>,
    buffer: Seq<u8>,
    buffer_after: Seq<u8>,
)
    requires
        r.wf(),
        r.is_run(run),
        !run.cached,
        file.len() == r.size(),
        faithful(r.marks(), image, file),
        forall|c: int| #[trigger]
            held(marks_after, c) == (run.first <= c <= run.last || held(r.marks(), c)),
        filled(buffer, file, r.from(), run.start_byte as int),
        r.wanted() <= buffer.len(),
        ({
            let data = file.subrange(
                run.fetch_start as int,
                run.fetch_start + run.fetch_len,
            );
            &&& buffer_after.len() == buffer.len()
            &&& forall|i: int|
                0 <= i < buffer.len() ==> #[trigger] buffer_after[i] == if run.buf_offset <= i
                    < run.buf_offset + usable(run, data.len() as int) {
                    data[i - run.buf_offset + (run.start_byte - run.fetch_start)]
                } else {
                    buffer[i]
                }
        }),
    ensures
        ({
            let data = file.subrange(run.fetch_start as int, run.fetch_start + run.fetch_len);
            faithful(marks_after, stored(image, run, data), file)
        }),
        filled(buffer_after, file, r.from(), run.start_byte + run.len),
{
    let data = file.subrange(run.fetch_start as int, run.fetch_start + run.fetch_len);
    let after = stored(image, run, data);
    assert forall|i: int| 0 <= i < file.len() implies #[trigger] after[i] == if held(
        marks_after,
        i / CHUNK_SIZE as int,
    ) {
        file[i]
    } else {
        0u8
    } by {
        let c = i / CHUNK_SIZE as int;
        assert(held(marks_after, c) == (run.first <= c <= run.last || held(r.marks(), c)));
        assert(image[i] == if held(r.marks(), c) { file[i] } else { 0u8 });
        if run.first <= c <= run.last {
            assert(!held(r.marks(), c));
            assert(run.fetch_start <= i < run.fetch_start + data.len());
            assert(data[i - run.fetch_start] == file[i]);
        }
    }
    assert(usable(run, data.len() as int) == run.len);
    assert forall|i: int| r.from() <= i < run.start_byte + run.len implies buffer_after[i
        - r.from()] == #[trigger] file[i] by {
        if i < run.start_byte {
            assert(buffer[i - r.from()] == file[i]);
        } else {
            let k = i - r.from();
            assert(buffer_after[k] == data[k - run.buf_offset + (run.start_byte
                - run.fetch_start)]);
        }
    }
}

/// A held run that the cache delivers in full extends what the buffer holds of the file.
pub proof fn law_cached_run_is_file(
    r: BlockRead,
    run: Run,
    image: Seq<u8>,
    file: Seq<u8>,
    buffer: Seq<u8>,
    buffer_after: Seq<u8>,
)
    requires
        r.wf(),
        r.is_run(run),
        run.cached,
        file.len() == r.size(),
        faithful(r.marks(), image, file),
        filled(buffer, file, r.from(), run.start_byte as int),
        r.wanted() <= buffer.len(),
        buffer_after.len() == buffer.len(),
        forall|i: int|
            0 <= i < buffer.len() ==> #[trigger] buffer_after[i] == if run.buf_offset <= i
                < run.buf_offset + run.len {
                image[i + r.from()]
            } else {
                buffer[i]
            },
    ensures
        filled(buffer_after, file, r.from(), run.start_byte + run.len),
{
    assert forall|i: int| r.from() <= i < run.start_byte + run.len implies buffer_after[i
        - r.from()] == #[trigger] file[i] by {
        if i < run.start_byte {
            assert(buffer[i - r.from()] == file[i]);
        } else {
            let c = i / CHUNK_SIZE as int;
            assert(run.first <= c <= run.last);
            assert(held(r.marks(), c));
            let k = i - r.from();
            assert(buffer_after[k] == image[i]);
        }
    }
}

/// Once every chunk of the window has been served, the buffer holds the window.
pub proof fn law_served_window_is_complete(r: BlockRead, buffer: Seq<u8>, file: Seq<u8>)
    requires
        r.wf(),
        r.at() > r.end(),
        file.len() == r.size(),
        filled(buffer, file, r.from(), r.served_to()),
    ensures
        buffer.take(r.wanted()) == file.subrange(r.from(), r.from() + r.wanted()),
{
    let w = buffer.take(r.wanted());
    let f = file.subrange(r.from(), r.from() + r.wanted());
    assert forall|i: int| 0 <= i < w.len() implies w[i] == f[i] by {
        assert(buffer[i] == file[i + r.from()]);
    }
    assert(w =~= f);
}

/// The parent of an entry of a directory is that directory.
pub proof fn law_parent_of_child(dir: Seq<char>, name: Seq<char>)
    requires
        plain_name(name),
    ensures
        parent_path(child_path(dir, name)) == dir,
{
    if dir.len() == 0 {
        crate::text::lemma_last_pos_is(name, '/', -1);
        assert(dir =~= Seq::<char>::empty());
    } else {
        let p = dir.push('/') + name;
        crate::text::lemma_last_pos_is(p, '/', dir.len() as int);
        assert(p.take(dir.len() as int) =~= dir);
    }
}

/// A path determines the directory and the name of the entry that it leads to.
pub proof fn law_child_path_is_unique(d1: Seq<char>, n1: Seq<char>, d2: Seq<char>, n2: Seq<char>)
    requires
        plain_name(n1),
        plain_name(n2),
        child_path(d1, n1) == child_path(d2, n2),
    ensures
        d1 == d2,
        n1 == n2,
{
    law_parent_of_child(d1, n1);
    law_parent_of_child(d2, n2);
    if d1.len() > 0 {
        let k = d1.len() as int + 1;
        assert(child_path(d1, n1).skip(k) =~= n1);
        assert(child_path(d2, n2).skip(k) =~= n2);
    }
}

/// What the cache knows of an entry; times are in microseconds since 1970.
#[derive(Clone, Copy, Debug, PartialEq, Eq, Structural)]
pub struct CachedAttr {
    pub is_dir: bool,
    pub size: u64,
    pub mtime: i64,
    pub created: i64,
    pub is_hydrated: bool,
    pub hydrated_size: u64,
}

/// What a row says of its entry.
pub open spec fn attr_of(r: Row) -> CachedAttr {
    CachedAttr {
        is_dir: r.is_dir,
        size: r.nas_size,
        mtime: r.nas_mtime,
        created: r.nas_created,
        is_hydrated: r.is_hydrated,
        hydrated_size: r.hydrated_size,
    }
}

/// A chunk is held exactly where its own bit is set: the lowest bit of a byte stands for the first
/// of its eight chunks.
pub proof fn law_chunks_are_bits(bitmap: Seq<u8>, chunk: int)
    requires
        0 <= chunk < 8 * bitmap.len(),
    ensures
        held(bitmap, chunk) <==> (bitmap[chunk / 8] >> ((chunk % 8) as u8)) & 1 == 1,
{
    let b = bitmap[chunk / 8];
    let k = (chunk % 8) as u8;
    assert(k < 8);
    assert((b & (1u8 << k) != 0) == ((b >> k) & 1 == 1)) by (bit_vector)
        requires
            k < 8,
    ;
}

/// Chunks of one mebibyte cover a file, and one less would not.
pub proof fn law_chunks_cover_the_file(size: int)
    requires
        size >= 0,
    ensures
        chunk_count(size) * 1_048_576 >= size,
        size > 0 ==> (chunk_count(size) - 1) * 1_048_576 < size,
        size == 0 ==> chunk_count(size) == 0,
{
}

/// Times are apart by more than the tolerance in either direction, whichever comes first.
pub proof fn law_distance_has_no_direction(a: i64, b: i64, tolerance: int)
    ensures
        tolerance >= 0 && a >= b ==> (apart(a, b, tolerance) <==> a - b > tolerance),
        apart(a, b, tolerance) == apart(b, a, tolerance),
        tolerance >= 0 ==> !apart(a, a, tolerance),
{
}

/// What is shown of an entry is what its row says of it, and its size is that of the share.
pub proof fn law_entries_show_their_row(r: Row)
    ensures
        attr_of(r).is_dir == r.is_dir,
        attr_of(r).size == r.nas_size,
        attr_of(r).mtime == r.nas_mtime,
        attr_of(r).created == r.nas_created,
        attr_of(r).is_hydrated == r.is_hydrated,
        attr_of(r).hydrated_size == r.hydrated_size,
{
}

/// Marking a chunk marks that one alone, and clearing it clears that one alone.
pub proof fn law_marks_change_one_chunk(
    a: &mut Vec<u8>,
    b: &mut Vec<u8>,
    chunk: u64,
    other: int,
)
    requires
        chunk / 8 < usize::MAX,
        other != chunk,
        call_ensures(set_bit, (a, chunk), ()),
        call_ensures(bit_unset, (b, chunk), ()),
    ensures
        held(final(a)@, chunk as int),
        held(final(a)@, other) == held(old(a)@, other),
        !held(final(b)@, chunk as int),
        held(final(b)@, other) == held(old(b)@, other),
        final(b)@.len() == old(b)@.len(),
{
    assert(held(final(a)@, chunk as int) == true);
    assert(held(final(b)@, chunk as int) == false);
    assert(held(final(a)@, other) == held(old(a)@, other));
    assert(held(final(b)@, other) == held(old(b)@, other));
}

/// A read delivers what was asked for as far as the file reaches, and nothing behind its end.
pub proof fn law_reads_stay_in_the_file(
    len: usize,
    offset: u64,
    size: u64,
    bitmap: Vec<u8>,
    r: Option<BlockRead>,
)
    requires
        size + 1_048_576 <= u64::MAX,
        size / 1_048_576 / 8 < usize::MAX,
        call_ensures(BlockRead::start, (len, offset, size, bitmap), r),
    ensures
        r is None <==> len == 0 || offset >= size,
        r matches Some(b) ==> {
            &&& b.from() == offset
            &&& 0 < b.wanted() <= len
            &&& b.from() + b.wanted() <= size
            &&& b.wanted() == len || b.from() + b.wanted() == size
            &&& b.marks() == bitmap@
        },
{
}

/// What a read fetched is kept, and a file of which every chunk is held then counts as complete.
pub proof fn law_fetched_chunks_are_kept(b: BlockRead, r: ReadOutcome, c: int)
    requires
        b.wf(),
        call_ensures(BlockRead::finish, (b,), r),
    ensures
        r is Unchanged <==> !b.changed(),
        r is FullyHydrated && 0 <= c < chunk_count(b.size()) ==> held(b.marks(), c),
        r matches ReadOutcome::SaveBitmap(m) ==> m@ == b.marks(),
        b.changed() && 0 <= c < chunk_count(b.size()) && !held(b.marks(), c) ==> r is SaveBitmap,
{
}

/// The last chunk of a read is the one that holds its last byte.
pub proof fn law_last_chunk_holds_the_last_byte(b: BlockRead)
    requires
        b.wf(),
    ensures
        b.end() * 1_048_576 < b.from() + b.wanted() <= (b.end() + 1) * 1_048_576,
{
}

} // verus!
