//! Chunked file transfer: splitting a payload into bounded frames, tracking an
//! inbound transfer's received chunks, and reassembling the original bytes.

use vstd::prelude::*;

verus! {

/// Reference chunk size for file frames, in bytes.
pub const CHUNK_SIZE: usize = 16 * 1024;

/// Number of chunks a payload of `n` bytes needs at chunk size `c`:
/// the ceiling of `n / c`.
pub open spec fn spec_chunk_count(n: int, c: int) -> int
    recommends
        c > 0,
{
    if n % c == 0 {
        n / c
    } else {
        n / c + 1
    }
}

/// The chunks of `data` at chunk size `c`, in order: every chunk is exactly
/// `c` bytes except the last, which holds the remainder.
pub open spec fn spec_chunks(data: Seq<u8>, c: int) -> Seq<Seq<u8>>
    recommends
        c > 0,
    decreases data.len(),
    when c > 0
{
    if data.len() == 0 {
        Seq::empty()
    } else if data.len() <= c {
        seq![data]
    } else {
        seq![data.subrange(0, c)] + spec_chunks(data.subrange(c, data.len() as int), c)
    }
}

/// The concatenation of a sequence of byte sequences, in order.
pub open spec fn spec_concat(chunks: Seq<Seq<u8>>) -> Seq<u8>
    decreases chunks.len(),
{
    if chunks.len() == 0 {
        Seq::empty()
    } else {
        chunks[0] + spec_concat(chunks.drop_first())
    }
}

/// Splitting and then concatenating in order reproduces the payload exactly.
pub proof fn lemma_chunks_concat(data: Seq<u8>, c: int)
    requires
        c > 0,
    ensures
        spec_concat(spec_chunks(data, c)) == data,
    decreases data.len(),
{
    if data.len() == 0 {
        assert(spec_concat(spec_chunks(data, c)) =~= data);
    } else if data.len() <= c {
        assert(spec_chunks(data, c).drop_first() =~= Seq::<Seq<u8>>::empty());
        assert(spec_concat(Seq::<Seq<u8>>::empty()) == Seq::<u8>::empty());
        assert(spec_chunks(data, c)[0] == data);
        assert(data + Seq::<u8>::empty() =~= data);
    } else {
        let rest = data.subrange(c, data.len() as int);
        lemma_chunks_concat(rest, c);
        assert(spec_chunks(data, c).drop_first() =~= spec_chunks(rest, c));
        assert(spec_concat(spec_chunks(data, c)) =~= data.subrange(0, c) + rest);
        assert(data.subrange(0, c) + rest =~= data);
    }
}

/// There are exactly `ceil(len / c)` chunks.
pub proof fn lemma_chunks_count(data: Seq<u8>, c: int)
    requires
        c > 0,
    ensures
        spec_chunks(data, c).len() == spec_chunk_count(data.len() as int, c),
    decreases data.len(),
{
    if data.len() == 0 {
    } else if data.len() <= c {
        assert(spec_chunk_count(data.len() as int, c) == 1) by (nonlinear_arith)
            requires
                c > 0 && 0 < data.len() <= c,
        ;
    } else {
        let rest = data.subrange(c, data.len() as int);
        lemma_chunks_count(rest, c);
        assert(spec_chunk_count(rest.len() as int, c) + 1 == spec_chunk_count(
            data.len() as int,
            c,
        )) by (nonlinear_arith)
            requires
                c > 0 && data.len() > c && rest.len() == data.len() - c,
        ;
    }
}

/// Ceiling division of `n` by `c`, free of overflow.
pub fn chunk_count(n: usize, c: usize) -> (r: usize)
    requires
        c > 0,
    ensures
        r == spec_chunk_count(n as int, c as int),
{
    if n % c == 0 {
        n / c
    } else {
        assert(n / c < n) by (nonlinear_arith)
            requires
                c > 0 && n % c != 0,
        ;
        n / c + 1
    }
}

/// Splits `data` into chunks of at most `c` bytes, in order, matching
/// `spec_chunks` exactly.
pub fn split_into_chunks(data: &Vec<u8>, c: usize) -> (chunks: Vec<Vec<u8>>)
    requires
        c > 0,
    ensures
        chunks@.map_values(|ch: Vec<u8>| ch@) == spec_chunks(data@, c as int),
        chunks@.len() == spec_chunk_count(data@.len() as int, c as int),
{
    let mut chunks: Vec<Vec<u8>> = Vec::new();
    let mut pos: usize = 0;
    proof {
        assert(data@.subrange(0, data@.len() as int) =~= data@);
        assert(chunks@.map_values(|ch: Vec<u8>| ch@) + spec_chunks(data@, c as int)
            =~= spec_chunks(data@, c as int));
    }
    while pos < data.len()
        invariant
            c > 0,
            pos <= data@.len(),
            spec_chunks(data@, c as int) == chunks@.map_values(|ch: Vec<u8>| ch@) + spec_chunks(
                data@.subrange(pos as int, data@.len() as int),
                c as int,
            ),
        decreases data@.len() - pos,
    {
        let end = if data.len() - pos > c {
            pos + c
        } else {
            data.len()
        };
        let mut chunk: Vec<u8> = Vec::new();
        let mut i: usize = pos;
        while i < end
            invariant
                pos <= i <= end <= data@.len(),
                chunk@ == data@.subrange(pos as int, i as int),
            decreases end - i,
        {
            chunk.push(data[i]);
            i += 1;
            assert(chunk@ =~= data@.subrange(pos as int, i as int));
        }
        let ghost old_map = chunks@.map_values(|ch: Vec<u8>| ch@);
        let ghost tail = data@.subrange(pos as int, data@.len() as int);
        let ghost tail2 = data@.subrange(end as int, data@.len() as int);
        proof {
            if data@.len() - pos > c {
                assert(tail.subrange(0, c as int) =~= chunk@);
                assert(tail.subrange(c as int, tail.len() as int) =~= tail2);
                assert(spec_chunks(tail, c as int) == seq![chunk@] + spec_chunks(tail2, c as int));
            } else {
                assert(chunk@ =~= tail);
                assert(spec_chunks(tail, c as int) == seq![chunk@]);
                assert(tail2.len() == 0);
                assert(spec_chunks(tail2, c as int) == Seq::<Seq<u8>>::empty());
                assert(seq![chunk@] + spec_chunks(tail2, c as int) =~= seq![chunk@]);
            }
        }
        chunks.push(chunk);
        proof {
            assert(chunks@.map_values(|ch: Vec<u8>| ch@) =~= old_map + seq![
                chunks@[chunks@.len() - 1]@,
            ]);
            assert(old_map + (seq![chunks@[chunks@.len() - 1]@] + spec_chunks(tail2, c as int))
                =~= (old_map + seq![chunks@[chunks@.len() - 1]@]) + spec_chunks(tail2, c as int));
        }
        pos = end;
    }
    proof {
        assert(data@.subrange(pos as int, data@.len() as int).len() == 0);
        assert(spec_chunks(data@.subrange(pos as int, data@.len() as int), c as int) == Seq::<
            Seq<u8>,
        >::empty());
        assert(chunks@.map_values(|ch: Vec<u8>| ch@) + Seq::<Seq<u8>>::empty() =~= chunks@.map_values(
            |ch: Vec<u8>| ch@,
        ));
        lemma_chunks_count(data@, c as int);
    }
    chunks
}

/// Appending one more chunk extends the concatenation at the end.
pub proof fn lemma_concat_push(chunks: Seq<Seq<u8>>, chunk: Seq<u8>)
    ensures
        spec_concat(chunks.push(chunk)) == spec_concat(chunks) + chunk,
    decreases chunks.len(),
{
    if chunks.len() == 0 {
        assert(chunks.push(chunk).drop_first() =~= Seq::<Seq<u8>>::empty());
        assert(spec_concat(Seq::<Seq<u8>>::empty()) == Seq::<u8>::empty());
        assert(chunks.push(chunk)[0] == chunk);
        assert(spec_concat(chunks.push(chunk)) == chunk + Seq::<u8>::empty());
        assert(spec_concat(chunks) == Seq::<u8>::empty());
        assert(chunk + Seq::<u8>::empty() =~= Seq::<u8>::empty() + chunk);
    } else {
        lemma_concat_push(chunks.drop_first(), chunk);
        assert(chunks.push(chunk).drop_first() =~= chunks.drop_first().push(chunk));
        assert(spec_concat(chunks.push(chunk)) =~= spec_concat(chunks) + chunk);
    }
}

/// Concatenates chunks in order, matching `spec_concat` exactly.
pub fn reassemble(chunks: &Vec<Vec<u8>>) -> (data: Vec<u8>)
    ensures
        data@ == spec_concat(chunks@.map_values(|ch: Vec<u8>| ch@)),
{
    let ghost all = chunks@.map_values(|ch: Vec<u8>| ch@);
    let mut data: Vec<u8> = Vec::new();
    let mut i: usize = 0;
    while i < chunks.len()
        invariant
            i <= chunks@.len(),
            all == chunks@.map_values(|ch: Vec<u8>| ch@),
            data@ == spec_concat(all.subrange(0, i as int)),
        decreases chunks@.len() - i,
    {
        let chunk = &chunks[i];
        let ghost before = data@;
        let mut j: usize = 0;
        while j < chunk.len()
            invariant
                j <= chunk@.len(),
                data@ == before + chunk@.subrange(0, j as int),
            decreases chunk@.len() - j,
        {
            data.push(chunk[j]);
            j += 1;
            assert(data@ =~= before + chunk@.subrange(0, j as int));
        }
        proof {
            assert(chunk@.subrange(0, chunk@.len() as int) =~= chunk@);
            lemma_concat_push(all.subrange(0, i as int), all[i as int]);
            assert(all.subrange(0, i as int).push(all[i as int]) =~= all.subrange(0, i + 1));
        }
        i += 1;
    }
    proof {
        assert(all.subrange(0, all.len() as int) =~= all);
    }
    data
}

/// Appends all of `src` to `dst`.
pub fn append_bytes(dst: &mut Vec<u8>, src: &Vec<u8>)
    ensures
        final(dst)@ == old(dst)@ + src@,
{
    let ghost before = dst@;
    let mut j: usize = 0;
    while j < src.len()
        invariant
            j <= src@.len(),
            dst@ == before + src@.subrange(0, j as int),
        decreases src@.len() - j,
    {
        dst.push(src[j]);
        j += 1;
        assert(dst@ =~= before + src@.subrange(0, j as int));
    }
    proof {
        assert(src@.subrange(0, src@.len() as int) =~= src@);
    }
}

/// Lifecycle of one file transfer.
#[derive(Clone, Copy, Debug, PartialEq, Eq, Structural)]
pub enum TransferState {
    Pending,
    InProgress,
    Completed,
    Failed,
}

/// One inbound file transfer: the header's metadata plus the chunks received
/// so far, keyed by sequence number.
pub struct FileTransfer {
    pub transfer_id: u64,
    pub filename: String,
    pub total_size: u64,
    pub chunk_size: usize,
    pub chunks_expected: usize,
    pub state: TransferState,
    pub chunks: Vec<Option<Vec<u8>>>,
}

impl FileTransfer {
    /// One slot per expected chunk; `Some` holds the payload received for
    /// that sequence number.
    pub open spec fn slots(&self) -> Seq<Option<Seq<u8>>> {
        self.chunks@.map_values(
            |o: Option<Vec<u8>>|
                match o {
                    Option::Some(v) => Option::Some(v@),
                    Option::None => Option::None,
                },
        )
    }

    /// The set of sequence numbers received so far.
    pub open spec fn received_set(&self) -> Set<int> {
        Set::new(|i: int| 0 <= i < self.slots().len() && self.slots()[i] is Some)
    }

    pub open spec fn wf(&self) -> bool {
        &&& self.slots().len() == self.chunks_expected
        &&& self.chunk_size > 0
    }

    /// Every sequence number in `[0, chunks_expected)` has been received.
    pub open spec fn complete(&self) -> bool {
        forall|i: int| 0 <= i < self.slots().len() ==> self.slots()[i] is Some
    }

    /// The transferred payload, chunk by chunk in sequence order.
    pub open spec fn payloads(&self) -> Seq<Seq<u8>> {
        self.slots().map_values(|o: Option<Seq<u8>>| o->0)
    }

    /// Every received sequence number lies in `[0, chunks_expected)`, and
    /// completion means that whole range with no gaps.
    pub proof fn lemma_received_in_range(&self, s: int)
        requires
            self.wf(),
            self.received_set().contains(s),
        ensures
            0 <= s < self.chunks_expected,
    {
    }

    /// Opens a transfer for an inbound header frame, with no chunk received.
    pub fn begin_inbound(
        transfer_id: u64,
        filename: String,
        total_size: u64,
        chunk_size: usize,
        chunks_expected: usize,
    ) -> (t: FileTransfer)
        requires
            chunk_size > 0,
        ensures
            t.wf(),
            t.transfer_id == transfer_id,
            t.filename == filename,
            t.total_size == total_size,
            t.chunk_size == chunk_size,
            t.chunks_expected == chunks_expected,
            t.state is Pending,
            t.received_set() =~= Set::<int>::empty(),
    {
        let mut chunks: Vec<Option<Vec<u8>>> = Vec::new();
        let mut i: usize = 0;
        while i < chunks_expected
            invariant
                i <= chunks_expected,
                chunks@.len() == i,
                forall|k: int| 0 <= k < i ==> chunks@[k] is None,
            decreases chunks_expected - i,
        {
            chunks.push(None);
            i += 1;
        }
        let t = FileTransfer {
            transfer_id,
            filename,
            total_size,
            chunk_size,
            chunks_expected,
            state: TransferState::Pending,
            chunks,
        };
        proof {
            assert(forall|k: int| 0 <= k < t.slots().len() ==> !(t.slots()[k] is Some));
        }
        t
    }

    /// Whether every expected chunk has arrived.
    pub fn is_complete(&self) -> (r: bool)
        ensures
            r == self.complete(),
    {
        let mut i: usize = 0;
        while i < self.chunks.len()
            invariant
                i <= self.chunks@.len(),
                forall|k: int| 0 <= k < i ==> self.slots()[k] is Some,
            decreases self.chunks@.len() - i,
        {
            if self.chunks[i].is_none() {
                assert(self.slots()[i as int] is None);
                return false;
            }
            assert(self.slots()[i as int] is Some);
            i += 1;
        }
        true
    }

    /// Records one inbound chunk frame. A duplicate sequence number or one
    /// outside `[0, chunks_expected)` leaves the transfer exactly as it was;
    /// a fresh in-range chunk fills its slot and nothing else, completing the
    /// transfer when it was the last gap.
    pub fn apply_chunk(&mut self, seq: usize, payload: Vec<u8>) -> (fresh: bool)
        requires
            old(self).wf(),
            old(self).state is Pending || old(self).state is InProgress,
        ensures
            final(self).wf(),
            final(self).transfer_id == old(self).transfer_id,
            final(self).filename == old(self).filename,
            final(self).total_size == old(self).total_size,
            final(self).chunk_size == old(self).chunk_size,
            final(self).chunks_expected == old(self).chunks_expected,
            fresh == (seq < old(self).chunks_expected && old(self).slots()[seq as int] is None),
            fresh ==> final(self).slots() == old(self).slots().update(seq as int, Some(payload@)),
            fresh ==> final(self).received_set() == old(self).received_set().insert(seq as int),
            fresh ==> (final(self).state is Completed <==> final(self).complete()),
            fresh && !final(self).complete() ==> final(self).state is InProgress,
            !fresh ==> *final(self) == *old(self),
    {
        if seq >= self.chunks.len() {
            return false;
        }
        if self.chunks[seq].is_some() {
            assert(self.slots()[seq as int] is Some);
            return false;
        }
        assert(self.slots()[seq as int] is None);
        self.chunks.set(seq, Some(payload));
        proof {
            assert(self.slots() =~= old(self).slots().update(seq as int, Some(payload@)));
            assert(self.received_set() =~= old(self).received_set().insert(seq as int));
        }
        if self.is_complete() {
            self.state = TransferState::Completed;
        } else {
            self.state = TransferState::InProgress;
        }
        true
    }

    /// Marks the transfer failed: a timeout, a closed connection, or an
    /// aborted send.
    pub fn fail(&mut self)
        ensures
            *final(self) == (FileTransfer { state: TransferState::Failed, ..*old(self) }),
    {
        self.state = TransferState::Failed;
    }

    /// How many chunks have been received so far, for progress reporting.
    pub fn chunks_received_count(&self) -> (n: usize)
        ensures
            n == spec_received_count(self.slots(), self.slots().len() as int),
    {
        let mut n: usize = 0;
        let mut i: usize = 0;
        while i < self.chunks.len()
            invariant
                i <= self.chunks@.len(),
                n == spec_received_count(self.slots(), i as int),
                n <= i,
            decreases self.chunks@.len() - i,
        {
            if self.chunks[i].is_some() {
                assert(self.slots()[i as int] is Some);
                n += 1;
            } else {
                assert(self.slots()[i as int] is None);
            }
            i += 1;
        }
        n
    }

    /// Concatenates the received chunks in sequence order.
    pub fn reassemble_file(&self) -> (data: Vec<u8>)
        requires
            self.wf(),
            self.complete(),
        ensures
            data@ == spec_concat(self.payloads()),
    {
        let mut data: Vec<u8> = Vec::new();
        let mut i: usize = 0;
        while i < self.chunks.len()
            invariant
                self.wf(),
                self.complete(),
                i <= self.chunks@.len(),
                data@ == spec_concat(self.payloads().subrange(0, i as int)),
            decreases self.chunks@.len() - i,
        {
            match &self.chunks[i] {
                Some(chunk) => {
                    assert(self.payloads()[i as int] == chunk@);
                    append_bytes(&mut data, chunk);
                },
                None => {
                    proof {
                        assert(self.slots()[i as int] is Some);
                        assert(false);
                    }
                },
            }
            proof {
                lemma_concat_push(self.payloads().subrange(0, i as int), self.payloads()[i as int]);
                assert(self.payloads().subrange(0, i as int).push(self.payloads()[i as int])
                    =~= self.payloads().subrange(0, i + 1));
            }
            i += 1;
        }
        proof {
            assert(self.payloads().subrange(0, self.payloads().len() as int) =~= self.payloads());
        }
        data
    }
}

/// The number of `Some` slots among the first `k`.
pub open spec fn spec_received_count(slots: Seq<Option<Seq<u8>>>, k: int) -> int
    recommends
        0 <= k <= slots.len(),
    decreases k,
{
    if k <= 0 {
        0
    } else {
        spec_received_count(slots, k - 1) + if slots[k - 1] is Some {
            1int
        } else {
            0int
        }
    }
}

} // verus!
