//! A large response handed out over a whole run of CHUNK_GET requests: the
//! rounds, the chunks they carry, and the laws of the run as a whole.

use vstd::prelude::*;
use crate::chunk_get::{
    after_chunks, lemma_header_len, lemma_next_chunk_request_accepted, lemma_transfer_progress,
    phase_rank, spec_after_chunk, spec_chunk_response_header, spec_commit, spec_handle_chunk_get,
    spec_plan, ActiveLargeResponse, ChunkGetError, ChunkPlan, ConnectionState, LargeResponseSlot,
    Phase, TransportLimits,
};
use crate::wire::{
    u16_le_bytes, CHUNK_RESPONSE_FIXED_BODY_SIZE, LARGE_RESPONSE_SIZE_FIELD_SIZE,
    SPDM_MSG_HDR_SIZE,
};

verus! {

/// The connection `s` with `b` as its active large response.
pub open spec fn with_active(s: ConnectionState, b: ActiveLargeResponse) -> ConnectionState {
    ConnectionState { large_response: LargeResponseSlot { active: Some(b) }, ..s }
}

/// The CHUNK_GET that asks for the next chunk of `b`, without padding.
pub open spec fn next_chunk_request(version: u8, code: u8, b: ActiveLargeResponse) -> Seq<u8> {
    seq![version, code, 0u8, b.handle] + u16_le_bytes(b.next_seq_num)
}

/// The answer of round `i` of a run that starts with `a`.
pub open spec fn round_plan(a: ActiveLargeResponse, limits: TransportLimits, i: nat) -> ChunkPlan {
    spec_plan(after_chunks(a, limits, i), limits)
}

/// `k` rounds send the rest of the response, and none of them comes after it
/// has all gone out.
pub open spec fn is_transfer_rounds(a: ActiveLargeResponse, limits: TransportLimits, k: nat) -> bool {
    &&& after_chunks(a, limits, k).bytes_sent == a.response_size
    &&& forall|j: nat| j < k ==> #[trigger] after_chunks(a, limits, j).bytes_sent < a.response_size
}

/// The number of rounds a run that starts with `a` takes.
pub open spec fn transfer_rounds(a: ActiveLargeResponse, limits: TransportLimits) -> nat {
    choose|k: nat| is_transfer_rounds(a, limits, k)
}

/// The chunk sizes of the first `k` rounds that sent something, added up.
pub open spec fn total_chunk_sizes(a: ActiveLargeResponse, limits: TransportLimits, k: nat) -> int
    decreases k,
{
    if k == 0 {
        0
    } else {
        total_chunk_sizes(a, limits, (k - 1) as nat) + if after_chunks(
            a,
            limits,
            (k - 1) as nat,
        ).bytes_sent < a.response_size {
            round_plan(a, limits, (k - 1) as nat).chunk_size as int
        } else {
            0
        }
    }
}

/// The chunk data of the first `k` rounds that sent something, in order, where
/// each round reads its chunk from `content` at the offset its answer names.
pub open spec fn payloads(
    content: Seq<u8>,
    a: ActiveLargeResponse,
    limits: TransportLimits,
    k: nat,
) -> Seq<u8>
    decreases k,
{
    if k == 0 {
        Seq::<u8>::empty()
    } else {
        let p = round_plan(a, limits, (k - 1) as nat);
        payloads(content, a, limits, (k - 1) as nat) + if after_chunks(
            a,
            limits,
            (k - 1) as nat,
        ).bytes_sent < a.response_size {
            content.subrange(p.offset as int, p.offset + p.chunk_size)
        } else {
            Seq::<u8>::empty()
        }
    }
}

/// Every CHUNK_RESPONSE, the first one with its size field too, has room for chunk data.
pub open spec fn room_for_data(limits: TransportLimits) -> bool {
    limits.data_transfer_size > SPDM_MSG_HDR_SIZE + CHUNK_RESPONSE_FIXED_BODY_SIZE
        + LARGE_RESPONSE_SIZE_FIELD_SIZE
}

/// The bytes sent never shrink from one round to a later one.
pub proof fn lemma_bytes_sent_monotone(a: ActiveLargeResponse, limits: TransportLimits, i: nat, j: nat)
    requires
        a.bytes_sent <= a.response_size,
        room_for_data(limits),
        i <= j,
    ensures
        after_chunks(a, limits, i).bytes_sent <= after_chunks(a, limits, j).bytes_sent,
    decreases j,
{
    if i < j {
        lemma_bytes_sent_monotone(a, limits, i, (j - 1) as nat);
        lemma_transfer_progress(a, limits, (j - 1) as nat);
    }
}

/// Where round `m` has sent everything, a first such round exists.
proof fn lemma_rounds_exist(a: ActiveLargeResponse, limits: TransportLimits, m: nat)
    requires
        a.bytes_sent <= a.response_size,
        room_for_data(limits),
        after_chunks(a, limits, m).bytes_sent == a.response_size,
    ensures
        exists|k: nat| k <= m && is_transfer_rounds(a, limits, k),
    decreases m,
{
    if m > 0 && after_chunks(a, limits, (m - 1) as nat).bytes_sent == a.response_size {
        lemma_rounds_exist(a, limits, (m - 1) as nat);
    } else {
        assert forall|j: nat| j < m implies #[trigger] after_chunks(a, limits, j).bytes_sent
            < a.response_size by {
            lemma_bytes_sent_monotone(a, limits, j, (m - 1) as nat);
            lemma_transfer_progress(a, limits, (m - 1) as nat);
        }
        assert(is_transfer_rounds(a, limits, m));
    }
}

/// Sequence numbers count the rounds, modulo the 16-bit field.
proof fn lemma_round_seq_nums(a: ActiveLargeResponse, limits: TransportLimits, i: nat)
    requires
        a.next_seq_num == 0,
        a.bytes_sent <= a.response_size,
        room_for_data(limits),
        forall|j: nat| j < i ==> #[trigger] after_chunks(a, limits, j).bytes_sent < a.response_size,
    ensures
        after_chunks(a, limits, i).next_seq_num == (i % 65536) as u16,
    decreases i,
{
    if i > 0 {
        let im = (i - 1) as nat;
        assert(after_chunks(a, limits, im).bytes_sent < a.response_size);
        lemma_round_seq_nums(a, limits, im);
        let b = after_chunks(a, limits, im);
        lemma_transfer_progress(a, limits, im);
        assert(after_chunks(a, limits, i) == spec_after_chunk(b, spec_plan(b, limits).chunk_size));
        assert(b.next_seq_num == im % 65536);
        assert(i % 65536 == if im % 65536 == 65535 {
            0
        } else {
            im % 65536 + 1
        });
    }
}

/// The chunks of the first `k` rounds add up to the bytes sent in them, and
/// their data is the response content between where the run started and where
/// it stands.
proof fn lemma_rounds_cover(
    content: Seq<u8>,
    a: ActiveLargeResponse,
    limits: TransportLimits,
    k: nat,
)
    requires
        content.len() == a.response_size,
        a.bytes_sent <= a.response_size,
        room_for_data(limits),
    ensures
        total_chunk_sizes(a, limits, k) == after_chunks(a, limits, k).bytes_sent - a.bytes_sent,
        payloads(content, a, limits, k) == content.subrange(
            a.bytes_sent as int,
            after_chunks(a, limits, k).bytes_sent as int,
        ),
    decreases k,
{
    if k > 0 {
        let km = (k - 1) as nat;
        lemma_rounds_cover(content, a, limits, km);
        lemma_transfer_progress(a, limits, km);
        lemma_transfer_progress(a, limits, k);
        let b = after_chunks(a, limits, km);
        if b.bytes_sent < a.response_size {
            let p = round_plan(a, limits, km);
            assert(p.offset == b.bytes_sent);
            assert(after_chunks(a, limits, k).bytes_sent == b.bytes_sent + p.chunk_size);
            assert(content.subrange(a.bytes_sent as int, b.bytes_sent as int) + content.subrange(
                p.offset as int,
                p.offset + p.chunk_size,
            ) =~= content.subrange(
                a.bytes_sent as int,
                after_chunks(a, limits, k).bytes_sent as int,
            ));
        }
    }
}

/// A large response of `N > 0` bytes, handed out from its start by answering,
/// round after round, the CHUNK_GET for its next chunk, on a connection past
/// capability negotiation with chunking on, where requests fit the transport
/// and every CHUNK_RESPONSE has room for data. The run takes `K` rounds, at
/// least one and at most `N`; round `i` is accepted, carries sequence number
/// `i` (modulo the 16-bit field), leaves the connection as recording its chunk
/// as sent does, is the only round marked last when it is round `K - 1`, and
/// carries the size field exactly when its sequence number is 0. The chunk
/// sizes add up to `N`, the chunk data read at the offsets the answers name is
/// the whole response in order, and once the run is over every CHUNK_GET is
/// refused.
pub proof fn lemma_whole_transfer(s: ConnectionState, limits: TransportLimits, code: u8)
    requires
        phase_rank(s.phase) >= phase_rank(Phase::AfterCapabilities),
        s.chunking_enabled,
        limits.mtu >= 6,
        room_for_data(limits),
        s.large_response.active matches Some(a) && a.bytes_sent == 0 && a.next_seq_num == 0
            && a.response_size > 0,
    ensures
        ({
            let a = s.large_response.active->Some_0;
            let k = transfer_rounds(a, limits);
            &&& 1 <= k <= a.response_size
            &&& forall|i: nat|
                i < k ==> spec_handle_chunk_get(
                    with_active(s, after_chunks(a, limits, i)),
                    limits,
                    next_chunk_request(s.version, code, after_chunks(a, limits, i)),
                ) == Ok::<ChunkPlan, ChunkGetError>(#[trigger] round_plan(a, limits, i))
            &&& forall|i: nat|
                i < k ==> with_active(s, after_chunks(a, limits, i + 1)) == spec_commit(
                    with_active(s, after_chunks(a, limits, i)),
                    #[trigger] round_plan(a, limits, i).chunk_size,
                )
            &&& forall|i: nat|
                i < k ==> #[trigger] round_plan(a, limits, i).chunk_seq_num == (i % 65536) as u16
            &&& forall|i: nat| i < k ==> (#[trigger] round_plan(a, limits, i).last_chunk <==> i + 1 == k)
            &&& forall|i: nat|
                i < k ==> spec_chunk_response_header(s.version, #[trigger] round_plan(a, limits, i)).len()
                    == 12 + (if i % 65536 == 0 {
                    4int
                } else {
                    0int
                })
            &&& forall|i: nat|
                i < k ==> #[trigger] round_plan(a, limits, i).large_response_size == a.response_size
            &&& total_chunk_sizes(a, limits, k) == a.response_size
            &&& forall|content: Seq<u8>|
                content.len() == a.response_size ==> #[trigger] payloads(content, a, limits, k)
                    == content
            &&& forall|req: Seq<u8>|
                #[trigger] spec_handle_chunk_get(
                    with_active(s, after_chunks(a, limits, k)),
                    limits,
                    req,
                ) is Err
        }),
{
    let a = s.large_response.active->Some_0;
    let n = a.response_size as nat;
    lemma_transfer_progress(a, limits, n);
    lemma_rounds_exist(a, limits, n);
    let k = transfer_rounds(a, limits);
    assert(is_transfer_rounds(a, limits, k));
    assert(k >= 1) by {
        if k == 0 {
            assert(after_chunks(a, limits, 0).bytes_sent == 0);
        }
    }
    assert(k <= n) by {
        if k > n {
            assert(after_chunks(a, limits, n).bytes_sent < a.response_size);
        }
    }
    assert forall|i: nat| i < k implies {
        &&& spec_handle_chunk_get(
            with_active(s, after_chunks(a, limits, i)),
            limits,
            next_chunk_request(s.version, code, after_chunks(a, limits, i)),
        ) == Ok::<ChunkPlan, ChunkGetError>(#[trigger] round_plan(a, limits, i))
        &&& with_active(s, after_chunks(a, limits, i + 1)) == spec_commit(
            with_active(s, after_chunks(a, limits, i)),
            round_plan(a, limits, i).chunk_size,
        )
        &&& round_plan(a, limits, i).chunk_seq_num == (i % 65536) as u16
        &&& (round_plan(a, limits, i).last_chunk <==> i + 1 == k)
        &&& spec_chunk_response_header(s.version, round_plan(a, limits, i)).len() == 12 + (if i
            % 65536 == 0 {
            4int
        } else {
            0int
        })
        &&& round_plan(a, limits, i).large_response_size == a.response_size
    } by {
        let b = after_chunks(a, limits, i);
        lemma_transfer_progress(a, limits, i);
        assert(b.bytes_sent < a.response_size);
        assert forall|j: nat| j < i implies #[trigger] after_chunks(a, limits, j).bytes_sent
            < a.response_size by {
            assert(j < k);
        }
        lemma_round_seq_nums(a, limits, i);
        lemma_next_chunk_request_accepted(with_active(s, b), limits, code);
        assert(next_chunk_request(s.version, code, b) =~= seq![s.version, code, 0u8, b.handle]
            + u16_le_bytes(b.next_seq_num));
        lemma_header_len(s.version, round_plan(a, limits, i));
        if i + 1 < k {
            assert(after_chunks(a, limits, i + 1).bytes_sent < a.response_size);
        }
    }
    lemma_rounds_cover(Seq::new(a.response_size as nat, |j: int| 0u8), a, limits, k);
    assert forall|content: Seq<u8>| content.len() == a.response_size implies #[trigger] payloads(
        content,
        a,
        limits,
        k,
    ) == content by {
        lemma_rounds_cover(content, a, limits, k);
        assert(content.subrange(0, a.response_size as int) =~= content);
    }
}

} // verus!
