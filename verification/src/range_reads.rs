//! How ranged reads are cut up and trimmed: the pipelined chunks of an SFTP
//! range read, and which bytes of each chunk that an FTP download streams
//! belong to the requested range.
use vstd::prelude::*;
use crate::storage::ByteRange;

verus! {

/// The size of one pipelined SFTP read.
pub const SFTP_READ_CHUNK_SIZE: u64 = 1048576;

/// How many chunks a read of `limit` bytes is cut into.
pub open spec fn chunk_count_for(limit: nat) -> nat {
    ((limit + SFTP_READ_CHUNK_SIZE - 1) / (SFTP_READ_CHUNK_SIZE as int)) as nat
}

/// One pipelined piece of an SFTP range read.
#[derive(Debug, Clone, Copy, PartialEq, Eq, Structural)]
pub struct ReadChunk {
    pub index: u64,
    pub offset: u64,
    pub length: u64,
}

/// The `index`-th chunk of a read of `limit` bytes from `start`.
pub open spec fn chunk_at(start: nat, limit: nat, index: nat) -> ReadChunk {
    let before = index * SFTP_READ_CHUNK_SIZE;
    let left = limit - before;
    ReadChunk {
        index: index as u64,
        offset: (start + before) as u64,
        length: (if left < SFTP_READ_CHUNK_SIZE { left } else { SFTP_READ_CHUNK_SIZE as int }) as u64,
    }
}

/// Cuts a read of `limit` bytes from `start` into chunks of at most
/// `SFTP_READ_CHUNK_SIZE` bytes, in order.
pub fn sftp_read_chunks(start: u64, limit: u64) -> (chunks: Vec<ReadChunk>)
    requires
        start + limit <= u64::MAX,
    ensures
        chunks@.len() == chunk_count_for(limit as nat),
        forall|i: int| 0 <= i < chunks@.len() ==> #[trigger] chunks@[i] == chunk_at(start as nat, limit as nat, i as nat),
{
    let count: u64 = limit / SFTP_READ_CHUNK_SIZE + if limit % SFTP_READ_CHUNK_SIZE == 0 { 0 } else { 1 };
    proof {
        assert(count == chunk_count_for(limit as nat)) by (nonlinear_arith)
            requires
                count == limit / SFTP_READ_CHUNK_SIZE + if limit % SFTP_READ_CHUNK_SIZE == 0 { 0int } else { 1int },
        ;
    }
    let mut chunks: Vec<ReadChunk> = Vec::new();
    let mut index: u64 = 0;
    while index < count
        invariant
            start + limit <= u64::MAX,
            count == chunk_count_for(limit as nat),
            index <= count,
            chunks@.len() == index,
            forall|i: int| 0 <= i < chunks@.len() ==> #[trigger] chunks@[i] == chunk_at(start as nat, limit as nat, i as nat),
        decreases count - index,
    {
        assert(index * SFTP_READ_CHUNK_SIZE < limit) by (nonlinear_arith)
            requires
                index < count,
                count == ((limit + SFTP_READ_CHUNK_SIZE - 1) / (SFTP_READ_CHUNK_SIZE as int)),
        ;
        let before: u64 = index * SFTP_READ_CHUNK_SIZE;
        let left: u64 = limit - before;
        let length: u64 = if left < SFTP_READ_CHUNK_SIZE { left } else { SFTP_READ_CHUNK_SIZE };
        let chunk = ReadChunk { index, offset: start + before, length };
        chunks.push(chunk);
        index = index + 1;
    }
    chunks
}

/// The chunks of a read of `limit` bytes from `start` are not empty, each
/// begins where the one before ends, the first begins at `start` and the
/// last ends at `start + limit`.
pub proof fn lemma_chunks_tile_the_read(start: nat, limit: nat)
    requires
        limit > 0,
        start + limit <= u64::MAX,
    ensures
        chunk_count_for(limit) >= 1,
        chunk_at(start, limit, 0).offset == start,
        forall|i: nat| i < chunk_count_for(limit) ==> #[trigger] chunk_at(start, limit, i).length > 0,
        forall|i: nat| i + 1 < chunk_count_for(limit) ==> #[trigger] chunk_at(start, limit, i + 1).offset
            == chunk_at(start, limit, i).offset + chunk_at(start, limit, i).length,
        chunk_at(start, limit, (chunk_count_for(limit) - 1) as nat).offset
            + chunk_at(start, limit, (chunk_count_for(limit) - 1) as nat).length == start + limit,
{
    let n = chunk_count_for(limit);
    assert(n >= 1 && (n - 1) * SFTP_READ_CHUNK_SIZE < limit && limit <= n * SFTP_READ_CHUNK_SIZE) by (nonlinear_arith)
        requires
            limit > 0,
            n == ((limit + SFTP_READ_CHUNK_SIZE - 1) / (SFTP_READ_CHUNK_SIZE as int)),
    ;
    assert forall|i: nat| i < n implies #[trigger] chunk_at(start, limit, i).length > 0 by {
        assert(i * SFTP_READ_CHUNK_SIZE < limit) by (nonlinear_arith)
            requires
                i < n,
                (n - 1) * SFTP_READ_CHUNK_SIZE < limit,
        ;
    }
    assert forall|i: nat| i + 1 < n implies #[trigger] chunk_at(start, limit, i + 1).offset
        == chunk_at(start, limit, i).offset + chunk_at(start, limit, i).length by {
        assert((i + 1) * SFTP_READ_CHUNK_SIZE < limit && i * SFTP_READ_CHUNK_SIZE + SFTP_READ_CHUNK_SIZE == (i + 1) * SFTP_READ_CHUNK_SIZE) by (nonlinear_arith)
            requires
                i + 1 < n,
                (n - 1) * SFTP_READ_CHUNK_SIZE < limit,
        ;
    }
    let last = (n - 1) as nat;
    assert(last * SFTP_READ_CHUNK_SIZE + SFTP_READ_CHUNK_SIZE == n * SFTP_READ_CHUNK_SIZE) by (nonlinear_arith)
        requires
            last + 1 == n,
    ;
}

/// A pipelined chunk that came back short although later chunks follow.
#[derive(Debug, Clone, Copy, PartialEq, Eq, Structural)]
pub struct ShortChunk {
    pub offset: u64,
    pub read: u64,
    pub length: u64,
}

/// What a chunk read yields: the bytes read, or, where it came back short
/// and is not the last of `chunk_count` chunks, a `ShortChunk`.
pub fn sftp_chunk_result(chunk: ReadChunk, read: u64, chunk_count: u64) -> (r: Result<u64, ShortChunk>)
    requires
        read <= chunk.length,
    ensures
        (read < chunk.length && chunk.index + 1 < chunk_count) ==> r == Err::<u64, ShortChunk>(
            ShortChunk { offset: chunk.offset, read, length: chunk.length },
        ),
        !(read < chunk.length && chunk.index + 1 < chunk_count) ==> r == Ok::<u64, ShortChunk>(read),
{
    if read < chunk.length && (chunk.index as u128) + 1 < chunk_count as u128 {
        Err(ShortChunk { offset: chunk.offset, read, length: chunk.length })
    } else {
        Ok(read)
    }
}

/// The message of a short chunk.
pub open spec fn short_chunk_text(e: ShortChunk) -> Seq<char> {
    "SFTP range chunk at offset "@ + crate::text::decimal_text(e.offset as nat) + " ended after "@
        + crate::text::decimal_text(e.read as nat) + " of "@ + crate::text::decimal_text(e.length as nat)
        + " bytes"@
}

impl ShortChunk {
    /// The message of a short chunk.
    pub fn message(&self) -> (out: String)
        ensures
            out@ == short_chunk_text(*self),
    {
        let mut out = String::from_str("SFTP range chunk at offset ");
        crate::text::push_decimal(&mut out, self.offset);
        out.append(" ended after ");
        crate::text::push_decimal(&mut out, self.read);
        out.append(" of ");
        crate::text::push_decimal(&mut out, self.length);
        out.append(" bytes");
        out
    }
}

/// The lower bound of a range on file positions: its start, or 0.
pub open spec fn range_low(range: Option<ByteRange>) -> int {
    match range {
        Some(r) => r.start as int,
        None => 0,
    }
}

/// `b`, or the range's end where that is lower.
pub open spec fn capped(range: Option<ByteRange>, b: int) -> int {
    match range {
        Some(r) => if (r.end as int) < b { r.end as int } else { b },
        None => b,
    }
}

/// The larger of two positions.
pub open spec fn larger(a: int, b: int) -> int {
    if a < b { b } else { a }
}

/// The positions from `a` up to `b`, in order; none where `b <= a`.
pub open spec fn positions(a: int, b: int) -> Seq<int> {
    Seq::new(if a < b { (b - a) as nat } else { 0 }, |i: int| a + i)
}

/// Which bytes of a chunk of `len` bytes found at `source_offset` belong to
/// the range, as positions within the chunk: `None` where none does.
pub open spec fn chunk_selection(source_offset: int, len: int, range: Option<ByteRange>) -> Option<(int, int)> {
    let from = larger(range_low(range), source_offset);
    let to = capped(range, source_offset + len);
    if from < to { Some((from - source_offset, to - source_offset)) } else { None }
}

/// Whether trimming a chunk to a reversed range fails: the chunk meets the
/// range's bounds from both sides.
pub open spec fn selection_fails(source_offset: int, len: int, range: Option<ByteRange>) -> bool {
    match range {
        Some(r) => r.end < r.start && source_offset < r.end && source_offset + len > r.start,
        None => false,
    }
}

/// Which bytes of a downloaded chunk are streamed on: the part within the
/// requested range, as indexes into the chunk, or `None` when no byte of it
/// is.
pub fn select_chunk(source_offset: u64, chunk_len: usize, range: Option<ByteRange>) -> (r: Option<(usize, usize)>)
    requires
        source_offset + chunk_len <= u64::MAX,
        !selection_fails(source_offset as int, chunk_len as int, range),
    ensures
        match chunk_selection(source_offset as int, chunk_len as int, range) {
            Some((from, to)) => r matches Some(p) && p.0 == from && p.1 == to,
            None => r is None,
        },
{
    let source_end: u64 = source_offset + chunk_len as u64;
    match range {
        Some(requested) => {
            if source_end <= requested.start || source_offset >= requested.end {
                return None;
            }
            let from: u64 = if requested.start > source_offset { requested.start - source_offset } else { 0 };
            let upper: u64 = if requested.end < source_end { requested.end } else { source_end };
            let to: u64 = upper - source_offset;
            if from == to {
                None
            } else {
                Some((from as usize, to as usize))
            }
        },
        None => if chunk_len == 0 {
            None
        } else {
            Some((0, chunk_len))
        },
    }
}

/// What one pass of an FTP download loop does with a chunk of `read`
/// bytes: which part it streams on, where the next chunk starts, and
/// whether the download stops there.
#[derive(Debug, Clone, Copy)]
pub struct FtpReadStep {
    pub selection: Option<(usize, usize)>,
    pub next_offset: u64,
    pub finished: bool,
}

/// Whether a download stops once it has reached `next_offset`: the range's
/// end is behind it.
pub open spec fn range_done(range: Option<ByteRange>, next_offset: int) -> bool {
    match range {
        Some(r) => next_offset >= r.end,
        None => false,
    }
}

/// One pass of the FTP download loop: an empty read ends the download;
/// otherwise the chunk's part within the range is streamed on and the
/// download stops once the range's end is reached.
pub fn ftp_read_step(source_offset: u64, read: usize, range: Option<ByteRange>) -> (step: FtpReadStep)
    requires
        source_offset + read <= u64::MAX,
        !selection_fails(source_offset as int, read as int, range),
    ensures
        read == 0 ==> step.finished && step.selection is None && step.next_offset == source_offset,
        read > 0 ==> step.next_offset == source_offset + read
            && step.finished == range_done(range, source_offset + read)
            && match chunk_selection(source_offset as int, read as int, range) {
                Some((from, to)) => step.selection matches Some(p) && p.0 == from && p.1 == to,
                None => step.selection is None,
            },
{
    if read == 0 {
        return FtpReadStep { selection: None, next_offset: source_offset, finished: true };
    }
    let selection = select_chunk(source_offset, read, range);
    let next_offset: u64 = source_offset + read as u64;
    let finished = match range {
        Some(requested) => next_offset >= requested.end,
        None => false,
    };
    FtpReadStep { selection, next_offset, finished }
}

/// The file positions that a download streams on when the server sends
/// chunks of `lens` bytes from `offset`, in the order it streams them.
pub open spec fn streamed_positions(offset: int, lens: Seq<int>, range: Option<ByteRange>) -> Seq<int>
    decreases lens.len(),
{
    if lens.len() == 0 {
        Seq::empty()
    } else {
        let here = positions(larger(range_low(range), offset), capped(range, offset + lens[0]));
        let next = offset + lens[0];
        if range_done(range, next) {
            here
        } else {
            here + streamed_positions(next, lens.drop_first(), range)
        }
    }
}

/// The sum of the chunk sizes.
pub open spec fn total_of(lens: Seq<int>) -> int
    decreases lens.len(),
{
    if lens.len() == 0 { 0 } else { lens[0] + total_of(lens.drop_first()) }
}

/// Two runs of positions that meet make one.
pub proof fn lemma_positions_join(a: int, b: int, c: int)
    requires
        a <= b <= c,
    ensures
        positions(a, b) + positions(b, c) == positions(a, c),
{
    assert(positions(a, b) + positions(b, c) =~= positions(a, c));
}

/// Streamed in order, the chunks of a download give each byte of the file
/// within the requested range once and in order, and no other: for chunks
/// of `lens` bytes from `offset`, the positions from the later of the range's
/// start and `offset` up to the earlier of its end and the end of the data.
pub proof fn lemma_download_streams_the_range(offset: int, lens: Seq<int>, range: Option<ByteRange>)
    requires
        offset >= 0,
        forall|i: int| 0 <= i < lens.len() ==> #[trigger] lens[i] > 0,
        range matches Some(r) ==> r.start <= r.end,
    ensures
        streamed_positions(offset, lens, range)
            == positions(larger(range_low(range), offset), capped(range, offset + total_of(lens))),
    decreases lens.len(),
{
    let lo = range_low(range);
    if lens.len() == 0 {
        assert(positions(larger(lo, offset), capped(range, offset)) =~= Seq::<int>::empty());
    } else {
        let next = offset + lens[0];
        let rest = lens.drop_first();
        assert forall|i: int| 0 <= i < rest.len() implies #[trigger] rest[i] > 0 by {
            assert(rest[i] == lens[i + 1]);
        }
        assert(total_of(rest) >= 0) by {
            lemma_total_nonnegative(rest);
        }
        if range_done(range, next) {
        } else {
            lemma_download_streams_the_range(next, rest, range);
            let a = larger(lo, offset);
            let total_end = capped(range, offset + total_of(lens));
            if lo <= next {
                lemma_positions_join(a, next, total_end);
                assert(capped(range, next) == next);
                assert(larger(lo, next) == next);
            } else {
                assert(positions(a, capped(range, next)) =~= Seq::<int>::empty());
                assert(larger(lo, next) == lo);
                assert(larger(lo, offset) == lo);
                assert(Seq::<int>::empty() + positions(lo, total_end) =~= positions(lo, total_end));
            }
        }
    }
}

/// The chunk sizes add up to no less than nothing.
pub proof fn lemma_total_nonnegative(lens: Seq<int>)
    requires
        forall|i: int| 0 <= i < lens.len() ==> #[trigger] lens[i] > 0,
    ensures
        total_of(lens) >= 0,
    decreases lens.len(),
{
    if lens.len() > 0 {
        let rest = lens.drop_first();
        assert forall|i: int| 0 <= i < rest.len() implies #[trigger] rest[i] > 0 by {
            assert(rest[i] == lens[i + 1]);
        }
        lemma_total_nonnegative(rest);
    }
}

} // verus!
