//! Command values and reply chunks of the request/reply transport.
//!
//! A command either carries no argument or a zero-padded UTF-8 payload of
//! exactly `CHUNK_PAYLOAD_CAPACITY` bytes, terminated at the first zero byte
//! on decode. Replies are carried as a sequence of fixed-capacity
//! `MessageChunk` frames.

use vstd::prelude::*;
use vstd::string::StringSliceAdditionalSpecFns;
use vstd::utf8::{decode_utf8, encode_utf8, valid_utf8};

use crate::communication::error::CommunicationError;
use crate::strutil::{bytes_to_string, first_zero, lemma_first_zero_at};

verus! {

/// Size of one transport sample holding a reply chunk.
pub const MAX_PAYLOAD_SIZE: usize = 4096;

/// Bytes of a chunk taken by its header fields (a 16-byte transport header,
/// the sequence number, the last-chunk flag, and the used-size field).
pub const CHUNK_METADATA_SIZE: usize = 25;

/// Payload bytes available in one chunk.
pub const CHUNK_PAYLOAD_CAPACITY: usize = MAX_PAYLOAD_SIZE - CHUNK_METADATA_SIZE;

/// The fixed-size payload that a command argument is carried in: the UTF-8
/// bytes of the argument, truncated to the capacity and padded with zeros.
pub open spec fn spec_encode_payload(s: Seq<char>) -> Seq<u8> {
    let bytes = encode_utf8(s);
    Seq::new(
        CHUNK_PAYLOAD_CAPACITY as nat,
        |i: int| if i < bytes.len() { bytes[i] } else { 0u8 },
    )
}

/// The decoding of a command payload: the bytes before the first zero byte,
/// read as UTF-8; nothing when they are not valid UTF-8.
pub open spec fn spec_decode_payload(b: Seq<u8>) -> Option<Seq<char>> {
    let prefix = b.take(first_zero(b));
    if valid_utf8(prefix) {
        Some(decode_utf8(prefix))
    } else {
        None
    }
}

/// Commands that can be sent to the daemon.
#[derive(Debug)]
pub enum Command {
    List,
    Status(Vec<u8>),
    Start(Vec<u8>),
    Stop(Vec<u8>),
    Enable(Vec<u8>),
    Disable(Vec<u8>),
    Delete(Vec<u8>),
    Logs(Vec<u8>),
    Restart(Vec<u8>),
    Flush(Vec<u8>),
    Save,
    Resurrect,
}

impl Command {
    /// Encode an argument string into the fixed-size payload.
    pub fn encode_payload(input: &str) -> (r: Vec<u8>)
        ensures
            r@ == spec_encode_payload(input@),
            r@.len() == CHUNK_PAYLOAD_CAPACITY,
    {
        let bytes = input.as_bytes();
        let len = if bytes.len() < CHUNK_PAYLOAD_CAPACITY {
            bytes.len()
        } else {
            CHUNK_PAYLOAD_CAPACITY
        };
        let mut buffer: Vec<u8> = Vec::new();
        let mut i: usize = 0;
        while i < len
            invariant
                len <= bytes@.len(),
                len <= CHUNK_PAYLOAD_CAPACITY,
                i <= len,
                buffer@ =~= bytes@.take(i as int),
            decreases len - i,
        {
            buffer.push(bytes[i]);
            i += 1;
        }
        while buffer.len() < CHUNK_PAYLOAD_CAPACITY
            invariant
                len <= bytes@.len(),
                len <= buffer@.len() <= CHUNK_PAYLOAD_CAPACITY,
                forall|j: int| 0 <= j < len ==> buffer@[j] == bytes@[j],
                forall|j: int| len <= j < buffer@.len() ==> buffer@[j] == 0u8,
            decreases CHUNK_PAYLOAD_CAPACITY - buffer@.len(),
        {
            buffer.push(0u8);
        }
        proof {
            assert(buffer@ =~= spec_encode_payload(input@));
        }
        buffer
    }

    /// Decode a payload: take the bytes before the first zero byte and read
    /// them as UTF-8.
    pub fn decode_payload(payload: &[u8]) -> (r: Result<String, CommunicationError>)
        ensures
            (match r {
                Ok(s) => spec_decode_payload(payload@) == Some(s@),
                Err(e) => spec_decode_payload(payload@) is None && e is Decode,
            }),
    {
        let mut end: usize = 0;
        while end < payload.len() && payload[end as usize] != 0
            invariant
                end <= payload@.len(),
                forall|j: int| 0 <= j < end ==> payload@[j] != 0,
            decreases payload@.len() - end,
        {
            end += 1;
        }
        proof {
            lemma_first_zero_at(payload@, end as int);
        }
        let prefix = &payload[0..end];
        assert(prefix@ == payload@.take(first_zero(payload@)));
        match bytes_to_string(prefix) {
            Some(s) => Ok(s),
            None => Err(CommunicationError::Decode),
        }
    }

    pub fn new_status(input: &str) -> (r: Self)
        ensures
            r matches Command::Status(p) && p@ == spec_encode_payload(input@),
    {
        Command::Status(Self::encode_payload(input))
    }

    pub fn new_start(input: &str) -> (r: Self)
        ensures
            r matches Command::Start(p) && p@ == spec_encode_payload(input@),
    {
        Command::Start(Self::encode_payload(input))
    }

    pub fn new_stop(input: &str) -> (r: Self)
        ensures
            r matches Command::Stop(p) && p@ == spec_encode_payload(input@),
    {
        Command::Stop(Self::encode_payload(input))
    }

    pub fn new_enable(input: &str) -> (r: Self)
        ensures
            r matches Command::Enable(p) && p@ == spec_encode_payload(input@),
    {
        Command::Enable(Self::encode_payload(input))
    }

    pub fn new_disable(input: &str) -> (r: Self)
        ensures
            r matches Command::Disable(p) && p@ == spec_encode_payload(input@),
    {
        Command::Disable(Self::encode_payload(input))
    }

    pub fn new_delete(input: &str) -> (r: Self)
        ensures
            r matches Command::Delete(p) && p@ == spec_encode_payload(input@),
    {
        Command::Delete(Self::encode_payload(input))
    }

    pub fn new_logs(input: &str) -> (r: Self)
        ensures
            r matches Command::Logs(p) && p@ == spec_encode_payload(input@),
    {
        Command::Logs(Self::encode_payload(input))
    }

    pub fn new_restart(input: &str) -> (r: Self)
        ensures
            r matches Command::Restart(p) && p@ == spec_encode_payload(input@),
    {
        Command::Restart(Self::encode_payload(input))
    }

    pub fn new_flush(input: &str) -> (r: Self)
        ensures
            r matches Command::Flush(p) && p@ == spec_encode_payload(input@),
    {
        Command::Flush(Self::encode_payload(input))
    }
}

/// One frame of a chunked reply.
#[derive(Debug)]
pub struct MessageChunk {
    pub sequence_number: u32,
    pub is_last: bool,
    pub used_payload_size: u32,
    pub payload: Vec<u8>,
}

impl MessageChunk {
    /// A chunk as the transport carries it: a full-capacity payload whose
    /// used prefix does not exceed it.
    pub open spec fn wf(&self) -> bool {
        &&& self.payload@.len() == CHUNK_PAYLOAD_CAPACITY
        &&& self.used_payload_size <= CHUNK_PAYLOAD_CAPACITY
    }

    /// The payload bytes that the chunk actually carries.
    pub open spec fn content(&self) -> Seq<u8> {
        self.payload@.take(self.used_payload_size as int)
    }
}

impl Default for MessageChunk {
    /// An empty, non-final chunk with a zeroed payload.
    fn default() -> (r: Self)
        ensures
            r.sequence_number == 0,
            !r.is_last,
            r.used_payload_size == 0,
            r.wf(),
            (forall|j: int| 0 <= j < r.payload@.len() ==> r.payload@[j] == 0u8),
    {
        MessageChunk {
            sequence_number: 0,
            is_last: false,
            used_payload_size: 0,
            payload: crate::strutil::zero_bytes(CHUNK_PAYLOAD_CAPACITY),
        }
    }
}

/// Constructor of a reply frame from its fields, padding the payload to the
/// chunk capacity.
pub trait ChunkPayload: Sized {
    fn new(sequence_number: u32, is_last: bool, used_payload_size: u32, payload: Vec<u8>) -> Self
        requires
            payload@.len() <= CHUNK_PAYLOAD_CAPACITY,
            used_payload_size <= CHUNK_PAYLOAD_CAPACITY,
    ;
}

impl ChunkPayload for MessageChunk {
    fn new(sequence_number: u32, is_last: bool, used_payload_size: u32, payload: Vec<u8>) -> (r:
        Self)
        ensures
            r.sequence_number == sequence_number,
            r.is_last == is_last,
            r.used_payload_size == used_payload_size,
            r.wf(),
            r.payload@.take(payload@.len() as int) == payload@,
            (forall|j: int|
                payload@.len() <= j < r.payload@.len() ==> r.payload@[j] == 0u8),
    {
        let mut payload_array = payload;
        while payload_array.len() < CHUNK_PAYLOAD_CAPACITY
            invariant
                payload_array@.len() <= CHUNK_PAYLOAD_CAPACITY,
                payload_array@.take(payload@.len() as int) =~= payload@,
                payload@.len() <= payload_array@.len(),
                forall|j: int|
                    payload@.len() <= j < payload_array@.len() ==> payload_array@[j] == 0u8,
            decreases CHUNK_PAYLOAD_CAPACITY - payload_array@.len(),
        {
            payload_array.push(0u8);
        }
        MessageChunk { sequence_number, is_last, used_payload_size, payload: payload_array }
    }
}


/// Number of chunks that a reply body of `len` bytes is split into: one
/// chunk per full or partial capacity, and one empty chunk for an empty
/// body.
pub open spec fn spec_chunk_count(len: int) -> int
    decreases (if len >= 0 {
        len
    } else {
        0
    }),
{
    if len <= CHUNK_PAYLOAD_CAPACITY {
        1
    } else {
        1 + spec_chunk_count(len - CHUNK_PAYLOAD_CAPACITY)
    }
}

/// The chunks of a body cover it: all frames but the last are full, and the
/// last frame ends exactly at the body's end.
pub proof fn lemma_chunk_count_bounds(len: int)
    requires
        len >= 0,
    ensures
        spec_chunk_count(len) >= 1,
        len <= spec_chunk_count(len) * (CHUNK_PAYLOAD_CAPACITY as int),
        len > 0 ==> (spec_chunk_count(len) - 1) * (CHUNK_PAYLOAD_CAPACITY as int) < len,
    decreases len,
{
    if len > CHUNK_PAYLOAD_CAPACITY {
        lemma_chunk_count_bounds(len - CHUNK_PAYLOAD_CAPACITY);
    }
}

/// Payload bytes carried by frame `i` of a body of `len` bytes.
pub open spec fn frame_size(len: int, i: int) -> int {
    let cap = CHUNK_PAYLOAD_CAPACITY as int;
    if len - i * cap < cap {
        len - i * cap
    } else {
        cap
    }
}

/// The chunk is the frame of `b` that its own sequence number names: the
/// right slice of `b`, the right used size, and the last-frame flag set
/// exactly on the final frame.
pub open spec fn chunk_matches_frame(c: MessageChunk, b: Seq<u8>) -> bool {
    let n = spec_chunk_count(b.len() as int);
    let i = c.sequence_number as int;
    let cap = CHUNK_PAYLOAD_CAPACITY as int;
    &&& c.wf()
    &&& i < n
    &&& (c.is_last <==> i == n - 1)
    &&& c.used_payload_size as int == frame_size(b.len() as int, i)
    &&& c.content() == b.subrange(i * cap, i * cap + frame_size(b.len() as int, i))
}

/// Some chunk carries sequence number `i`.
pub open spec fn has_seq(chunks: Seq<MessageChunk>, i: int) -> bool {
    exists|j: int| 0 <= j < chunks.len() && (#[trigger] chunks[j]).sequence_number as int == i
}

/// The chunk sequence is a complete framing of body `b`, in any order:
/// every chunk is the frame its sequence number names, every frame occurs,
/// and there are exactly as many chunks as frames.
pub open spec fn frames_of(chunks: Seq<MessageChunk>, b: Seq<u8>) -> bool {
    let n = spec_chunk_count(b.len() as int);
    &&& chunks.len() == n
    &&& (forall|j: int| 0 <= j < chunks.len() ==> chunk_matches_frame(#[trigger] chunks[j], b))
    &&& (forall|i: int| 0 <= i < n ==> #[trigger] has_seq(chunks, i))
}

/// Split a reply body into numbered chunks, in transmission order. An empty
/// body gives one empty final chunk.
pub fn split_message(bytes: &[u8]) -> (r: Vec<MessageChunk>)
    requires
        spec_chunk_count(bytes@.len() as int) <= u32::MAX,
    ensures
        frames_of(r@, bytes@),
        (forall|j: int| 0 <= j < r@.len() ==> (#[trigger] r@[j]).sequence_number as int == j),
{
    let ghost n = spec_chunk_count(bytes@.len() as int);
    let total = bytes.len();
    let mut chunks: Vec<MessageChunk> = Vec::new();
    if total == 0 {
        let c = MessageChunk::new(0, true, 0, Vec::new());
        proof {
            assert(c.content() =~= bytes@.subrange(0, 0));
        }
        chunks.push(c);
        proof {
            assert(chunk_matches_frame(chunks@[0], bytes@));
            assert(has_seq(chunks@, 0));
        }
        return chunks;
    }
    proof {
        lemma_chunk_count_bounds(bytes@.len() as int);
    }
    let mut offset: usize = 0;
    let mut seq_num: u32 = 0;
    while offset < total
        invariant
            chunks@.len() == seq_num as int,
            total == bytes@.len(),
            offset <= total,
            seq_num as int <= n,
            offset == total ==> seq_num as int == n,
            offset < total ==> offset == seq_num as int * (CHUNK_PAYLOAD_CAPACITY as int),
            offset < total ==> n == seq_num as int + spec_chunk_count(total as int - offset as int),
            forall|j: int|
                0 <= j < chunks@.len() ==> chunk_matches_frame(#[trigger] chunks@[j], bytes@),
            forall|j: int|
                0 <= j < chunks@.len() ==> (#[trigger] chunks@[j]).sequence_number as int == j,
        decreases total - offset,
    {
        let used = if total - offset < CHUNK_PAYLOAD_CAPACITY {
            total - offset
        } else {
            CHUNK_PAYLOAD_CAPACITY
        };
        let end = offset + used;
        let mut part: Vec<u8> = Vec::new();
        let mut i: usize = offset;
        while i < end
            invariant
                offset <= i <= end,
                end <= total,
                total == bytes@.len(),
                part@ =~= bytes@.subrange(offset as int, i as int),
            decreases end - i,
        {
            part.push(bytes[i]);
            i += 1;
        }
        let is_last = end == total;
        proof {
            lemma_chunk_count_bounds(total as int - end as int);
        }
        let c = MessageChunk::new(seq_num, is_last, used as u32, part);
        proof {
            let cap = CHUNK_PAYLOAD_CAPACITY as int;
            let s = seq_num as int;
            assert(used as int == frame_size(total as int, s));
            assert(c.content() =~= bytes@.subrange(s * cap, s * cap + frame_size(total as int, s)));
            assert(is_last <==> s == n - 1);
        }
        chunks.push(c);
        offset = end;
        seq_num = seq_num + 1;
    }
    proof {
        assert forall|i: int| 0 <= i < n implies #[trigger] has_seq(chunks@, i) by {
            assert(chunks@[i].sequence_number as int == i);
        }
    }
    chunks
}

/// Position of the first chunk flagged as last, if any.
pub open spec fn spec_first_last(chunks: Seq<MessageChunk>) -> Option<int>
    decreases chunks.len(),
{
    if chunks.len() == 0 {
        None
    } else if chunks[0].is_last {
        Some(0int)
    } else {
        match spec_first_last(chunks.drop_first()) {
            Some(j) => Some(j + 1),
            None => None,
        }
    }
}

/// The first chunk carrying sequence number `s`, if any.
pub open spec fn spec_find_seq(chunks: Seq<MessageChunk>, s: int) -> Option<MessageChunk>
    decreases chunks.len(),
{
    if chunks.len() == 0 {
        None
    } else if chunks[0].sequence_number as int == s {
        Some(chunks[0])
    } else {
        spec_find_seq(chunks.drop_first(), s)
    }
}

/// Concatenation of the contents of the chunks numbered `0 ..= upto`, taking
/// the first chunk found for each number; nothing when a number is missing.
pub open spec fn spec_assemble(chunks: Seq<MessageChunk>, upto: int) -> Option<Seq<u8>>
    decreases (if upto >= 0 {
        upto + 1
    } else {
        0
    }),
{
    if upto < 0 {
        Some(Seq::<u8>::empty())
    } else {
        match (spec_assemble(chunks, upto - 1), spec_find_seq(chunks, upto)) {
            (Some(prefix), Some(c)) => Some(prefix + c.content()),
            _ => None,
        }
    }
}

/// The body that a set of received chunks reassembles to: the contents in
/// sequence-number order up to the first final chunk; nothing when no final
/// chunk or an intermediate number is missing.
pub open spec fn spec_reassemble(chunks: Seq<MessageChunk>) -> Option<Seq<u8>> {
    match spec_first_last(chunks) {
        Some(j) => spec_assemble(chunks, chunks[j].sequence_number as int),
        None => None,
    }
}

proof fn lemma_first_last_at(chunks: Seq<MessageChunk>, j: int)
    requires
        0 <= j < chunks.len(),
        chunks[j].is_last,
        forall|k: int| 0 <= k < j ==> !(#[trigger] chunks[k]).is_last,
    ensures
        spec_first_last(chunks) == Some(j),
    decreases j,
{
    if chunks[0].is_last {
        assert(j == 0);
    } else {
        let rest = chunks.drop_first();
        assert(rest[j - 1] == chunks[j]);
        assert forall|k: int| 0 <= k < j - 1 implies !(#[trigger] rest[k]).is_last by {
            assert(rest[k] == chunks[k + 1]);
        }
        lemma_first_last_at(rest, j - 1);
    }
}

proof fn lemma_first_last_absent(chunks: Seq<MessageChunk>)
    requires
        forall|k: int| 0 <= k < chunks.len() ==> !(#[trigger] chunks[k]).is_last,
    ensures
        spec_first_last(chunks) is None,
    decreases chunks.len(),
{
    if chunks.len() > 0 {
        let rest = chunks.drop_first();
        assert forall|k: int| 0 <= k < rest.len() implies !(#[trigger] rest[k]).is_last by {
            assert(rest[k] == chunks[k + 1]);
        }
        lemma_first_last_absent(rest);
    }
}

proof fn lemma_find_seq_at(chunks: Seq<MessageChunk>, s: int, j: int)
    requires
        0 <= j < chunks.len(),
        chunks[j].sequence_number as int == s,
        forall|k: int| 0 <= k < j ==> (#[trigger] chunks[k]).sequence_number as int != s,
    ensures
        spec_find_seq(chunks, s) == Some(chunks[j]),
    decreases j,
{
    if chunks[0].sequence_number as int == s {
        assert(j == 0);
    } else {
        let rest = chunks.drop_first();
        assert(rest[j - 1] == chunks[j]);
        assert forall|k: int| 0 <= k < j - 1 implies (#[trigger] rest[k]).sequence_number as int
            != s by {
            assert(rest[k] == chunks[k + 1]);
        }
        lemma_find_seq_at(rest, s, j - 1);
    }
}

proof fn lemma_find_seq_absent(chunks: Seq<MessageChunk>, s: int)
    requires
        forall|k: int|
            0 <= k < chunks.len() ==> (#[trigger] chunks[k]).sequence_number as int != s,
    ensures
        spec_find_seq(chunks, s) is None,
    decreases chunks.len(),
{
    if chunks.len() > 0 {
        let rest = chunks.drop_first();
        assert forall|k: int| 0 <= k < rest.len() implies (#[trigger] rest[k]).sequence_number
            as int != s by {
            assert(rest[k] == chunks[k + 1]);
        }
        lemma_find_seq_absent(rest, s);
    }
}

proof fn lemma_assemble_none_up(chunks: Seq<MessageChunk>, s: int, n: int)
    requires
        0 <= s <= n,
        spec_assemble(chunks, s) is None,
    ensures
        spec_assemble(chunks, n) is None,
    decreases n - s,
{
    if s < n {
        lemma_assemble_none_up(chunks, s + 1, n);
    }
}

/// The found chunk for `s` is a chunk of the sequence with number `s`.
proof fn lemma_find_seq_found(chunks: Seq<MessageChunk>, s: int)
    requires
        spec_find_seq(chunks, s) is Some,
    ensures
        (match spec_find_seq(chunks, s) {
            Some(c) => chunks.contains(c) && c.sequence_number as int == s,
            None => false,
        }),
    decreases chunks.len(),
{
    if chunks.len() > 0 {
        if chunks[0].sequence_number as int == s {
        } else {
            let rest = chunks.drop_first();
            lemma_find_seq_found(rest, s);
            let c = spec_find_seq(rest, s)->0;
            let k = choose|k: int| 0 <= k < rest.len() && rest[k] == c;
            assert(chunks[k + 1] == c);
        }
    }
}

/// Reassembly inverts framing: any complete framing of a body `b`, in any
/// order of arrival, reassembles to exactly `b`.
pub proof fn lemma_reassemble_frames(chunks: Seq<MessageChunk>, b: Seq<u8>)
    requires
        frames_of(chunks, b),
    ensures
        spec_reassemble(chunks) == Some(b),
{
    let cap = CHUNK_PAYLOAD_CAPACITY as int;
    let len = b.len() as int;
    let n = spec_chunk_count(len);
    lemma_chunk_count_bounds(len);
    assert(has_seq(chunks, n - 1));
    let jl = choose|j: int|
        0 <= j < chunks.len() && (#[trigger] chunks[j]).sequence_number as int == n - 1;
    assert(chunk_matches_frame(chunks[jl], b));
    assert(chunks[jl].is_last);
    // the first chunk flagged last also carries number n - 1
    let jmin = first_last_witness(chunks, jl);
    assert(chunk_matches_frame(chunks[jmin], b));
    assert(chunks[jmin].sequence_number as int == n - 1);
    lemma_assemble_frames_upto(chunks, b, n - 1);
    lemma_chunk_count_bounds(len);
    assert(b.take(len) =~= b);
}

/// Smallest index of a chunk flagged last, given one such index.
proof fn first_last_witness(chunks: Seq<MessageChunk>, j: int) -> (r: int)
    requires
        0 <= j < chunks.len(),
        chunks[j].is_last,
    ensures
        0 <= r < chunks.len(),
        chunks[r].is_last,
        spec_first_last(chunks) == Some(r),
    decreases j,
{
    if exists|k: int| 0 <= k < j && (#[trigger] chunks[k]).is_last {
        let k = choose|k: int| 0 <= k < j && (#[trigger] chunks[k]).is_last;
        first_last_witness(chunks, k)
    } else {
        lemma_first_last_at(chunks, j);
        j
    }
}

/// Assembling frames `0 ..= upto` of a valid framing yields the prefix of
/// the body those frames cover.
proof fn lemma_assemble_frames_upto(chunks: Seq<MessageChunk>, b: Seq<u8>, upto: int)
    requires
        frames_of(chunks, b),
        -1 <= upto < spec_chunk_count(b.len() as int),
    ensures
        (match spec_assemble(chunks, upto) {
            Some(prefix) => {
                let cap = CHUNK_PAYLOAD_CAPACITY as int;
                let covered = if (upto + 1) * cap < b.len() {
                    (upto + 1) * cap
                } else {
                    b.len() as int
                };
                prefix == b.take(covered)
            },
            None => false,
        }),
    decreases upto + 1,
{
    let cap = CHUNK_PAYLOAD_CAPACITY as int;
    let len = b.len() as int;
    let n = spec_chunk_count(len);
    if upto < 0 {
        assert(spec_assemble(chunks, upto) == Some(Seq::<u8>::empty()));
        assert(b.take(0) =~= Seq::<u8>::empty());
    } else {
        lemma_assemble_frames_upto(chunks, b, upto - 1);
        assert(has_seq(chunks, upto));
        let j = choose|j: int|
            0 <= j < chunks.len() && (#[trigger] chunks[j]).sequence_number as int == upto;
        let c0 = chunks[j];
        lemma_find_seq_exists(chunks, upto, j);
        lemma_find_seq_found(chunks, upto);
        lemma_chunk_count_bounds(len);
        let c = spec_find_seq(chunks, upto)->0;
        let kc = choose|k: int| 0 <= k < chunks.len() && chunks[k] == c;
        assert(chunk_matches_frame(chunks[kc], b));
        let prev = spec_assemble(chunks, upto - 1)->0;
        let covered_prev = if upto * cap < len { upto * cap } else { len };
        let covered = if (upto + 1) * cap < len { (upto + 1) * cap } else { len };
        assert(covered_prev == upto * cap);
        assert(prev + c.content() =~= b.take(covered));
    }
}

proof fn lemma_find_seq_exists(chunks: Seq<MessageChunk>, s: int, j: int)
    requires
        0 <= j < chunks.len(),
        chunks[j].sequence_number as int == s,
    ensures
        spec_find_seq(chunks, s) is Some,
    decreases chunks.len(),
{
    if chunks[0].sequence_number as int == s {
    } else {
        let rest = chunks.drop_first();
        assert(rest[j - 1] == chunks[j]);
        lemma_find_seq_exists(rest, s, j - 1);
    }
}

/// Reassemble received chunks: order them by sequence number up to the
/// first final chunk and concatenate their used payload prefixes. Fails
/// when no final chunk was received, or when a number before the final one
/// is missing.
pub fn reassemble_chunks(chunks: &Vec<MessageChunk>) -> (r: Result<Vec<u8>, CommunicationError>)
    requires
        forall|j: int| 0 <= j < chunks@.len() ==> (#[trigger] chunks@[j]).wf(),
    ensures
        (match r {
            Ok(v) => spec_reassemble(chunks@) == Some(v@),
            Err(e) => spec_reassemble(chunks@) is None && e is Timeout,
        }),
{
    // find the first chunk flagged as the last of its reply
    let mut last_idx: usize = 0;
    let mut found = false;
    let mut j: usize = 0;
    while j < chunks.len() && !found
        invariant
            j <= chunks@.len(),
            !found ==> forall|k: int| 0 <= k < j ==> !(#[trigger] chunks@[k]).is_last,
            found ==> last_idx < chunks@.len() && chunks@[last_idx as int].is_last && (forall|
                k: int,
            |
                0 <= k < last_idx ==> !(#[trigger] chunks@[k]).is_last),
        decreases chunks@.len() - j + (if found {
            0int
        } else {
            1int
        }),
    {
        if chunks[j].is_last {
            last_idx = j;
            found = true;
        } else {
            j += 1;
        }
    }
    if !found {
        proof {
            lemma_first_last_absent(chunks@);
        }
        return Err(CommunicationError::Timeout);
    }
    proof {
        lemma_first_last_at(chunks@, last_idx as int);
    }
    let n = chunks[last_idx].sequence_number;
    let mut out: Vec<u8> = Vec::new();
    let mut s: u64 = 0;
    while s <= n as u64
        invariant
            s <= n as u64 + 1,
            spec_assemble(chunks@, s as int - 1) == Some(out@),
        decreases n as u64 + 1 - s,
    {
        // find the first chunk with sequence number s
        let mut k: usize = 0;
        let mut hit = false;
        let mut hit_idx: usize = 0;
        while k < chunks.len() && !hit
            invariant
                k <= chunks@.len(),
                !hit ==> forall|k2: int|
                    0 <= k2 < k ==> (#[trigger] chunks@[k2]).sequence_number as int != s as int,
                hit ==> hit_idx < chunks@.len() && chunks@[hit_idx as int].sequence_number as int
                    == s as int && (forall|k2: int|
                    0 <= k2 < hit_idx ==> (#[trigger] chunks@[k2]).sequence_number as int
                        != s as int),
            decreases chunks@.len() - k + (if hit {
                0int
            } else {
                1int
            }),
        {
            if chunks[k].sequence_number as u64 == s {
                hit_idx = k;
                hit = true;
            } else {
                k += 1;
            }
        }
        if !hit {
            proof {
                lemma_find_seq_absent(chunks@, s as int);
                lemma_assemble_none_up(chunks@, s as int, n as int);
            }
            return Err(CommunicationError::Timeout);
        }
        proof {
            lemma_find_seq_at(chunks@, s as int, hit_idx as int);
        }
        let c = &chunks[hit_idx];
        let used = c.used_payload_size as usize;
        let mut i: usize = 0;
        let ghost out0 = out@;
        while i < used
            invariant
                i <= used,
                used <= c.payload@.len(),
                out@ =~= out0 + c.payload@.take(i as int),
            decreases used - i,
        {
            out.push(c.payload[i]);
            i += 1;
        }
        proof {
            assert(out@ =~= out0 + c.content());
        }
        s += 1;
    }
    Ok(out)
}

/// Encoding an argument and decoding the resulting payload returns the
/// original string, for any argument whose UTF-8 form fits the payload
/// capacity and holds no zero byte.
pub proof fn lemma_payload_round_trip(s: Seq<char>)
    ensures
        (encode_utf8(s).len() <= CHUNK_PAYLOAD_CAPACITY && !encode_utf8(s).contains(0u8))
            ==> spec_decode_payload(spec_encode_payload(s)) == Some(s),
{
    let bytes = encode_utf8(s);
    if bytes.len() <= CHUNK_PAYLOAD_CAPACITY && !bytes.contains(0u8) {
        let buf = spec_encode_payload(s);
        assert forall|j: int| 0 <= j < bytes.len() implies buf[j] != 0 by {
            assert(buf[j] == bytes[j]);
        }
        lemma_first_zero_at(buf, bytes.len() as int);
        assert(buf.take(bytes.len() as int) =~= bytes);
        vstd::utf8::encode_utf8_valid_utf8(s);
        vstd::utf8::encode_utf8_decode_utf8(s);
    }
}

} // verus!
