//! CHUNK_GET large-response transfer: the checks on a request, the size of the
//! chunk that answers it, the bytes of the CHUNK_RESPONSE prefix, and the
//! progress of the large response once a chunk has gone out.

use vstd::prelude::*;
use crate::wire::{
    lemma_le_u16_value, lemma_u16_le_bytes_decode, lemma_u32_le_bytes_decode, le_u16, push_u16_le, push_u32_le, read_u16_le, u16_le_bytes, u32_le_bytes,
    CHUNK_ATTR_LAST_CHUNK, CHUNK_GET_REQ_BODY_SIZE, CHUNK_RESPONSE_CODE,
    CHUNK_RESPONSE_FIXED_BODY_SIZE, LARGE_RESPONSE_SIZE_FIELD_SIZE, SPDM_MSG_HDR_SIZE,
};

verus! {

/// Negotiation phase of a connection, in the order a connection goes through them.
#[derive(Clone, Copy, Debug, PartialEq, Eq)]
pub enum Phase {
    Initial,
    AfterVersion,
    AfterCapabilities,
    AfterAlgorithms,
}

/// Position of a phase in the negotiation order.
pub open spec fn phase_rank(p: Phase) -> u8 {
    match p {
        Phase::Initial => 0,
        Phase::AfterVersion => 1,
        Phase::AfterCapabilities => 2,
        Phase::AfterAlgorithms => 3,
    }
}

impl Phase {
    /// Position of the phase in the negotiation order.
    pub fn rank(&self) -> (r: u8)
        ensures
            r == phase_rank(*self),
    {
        match self {
            Phase::Initial => 0,
            Phase::AfterVersion => 1,
            Phase::AfterCapabilities => 2,
            Phase::AfterAlgorithms => 3,
        }
    }
}

/// Where the bytes of a large response come from.
#[derive(Clone, Copy, Debug, PartialEq, Eq)]
pub enum LargeResponse {
    /// A certificate chain, read from the certificate store; what is sent also
    /// enters the M1 transcript.
    Certificate,
    /// A response that was built in full and is read back from the response buffer.
    Buffered,
}

/// A large response that is being handed out chunk by chunk.
#[derive(Clone, Copy, Debug, PartialEq, Eq)]
pub struct ActiveLargeResponse {
    pub handle: u8,
    pub next_seq_num: u16,
    pub response_size: usize,
    pub bytes_sent: usize,
    pub kind: LargeResponse,
}

/// The connection's slot for a large response.
#[derive(Clone, Copy, Debug, PartialEq, Eq)]
pub struct LargeResponseSlot {
    pub active: Option<ActiveLargeResponse>,
}

/// The sequence number that follows `n` (the field is 16 bits wide and wraps).
pub open spec fn next_seq(n: u16) -> u16 {
    if n == u16::MAX {
        0
    } else {
        (n + 1) as u16
    }
}

/// The large response after a chunk of `chunk_size` bytes has been sent.
pub open spec fn spec_after_chunk(a: ActiveLargeResponse, chunk_size: usize) -> ActiveLargeResponse {
    ActiveLargeResponse {
        bytes_sent: (a.bytes_sent + chunk_size) as usize,
        next_seq_num: next_seq(a.next_seq_num),
        ..a
    }
}

impl LargeResponseSlot {
    /// The large response that is being handed out, if any.
    pub fn response(&self) -> (r: Option<&ActiveLargeResponse>)
        ensures
            r matches Some(a) ==> self.active == Some(*a),
            r is None <==> self.active is None,
    {
        match &self.active {
            Some(a) => Some(a),
            None => None,
        }
    }

    /// Records that a chunk of `chunk_size` bytes has been sent: the bytes sent
    /// grow by `chunk_size` and the next expected sequence number advances.
    pub fn chunk_sent(&mut self, chunk_size: usize)
        requires
            old(self).active matches Some(a) ==> a.bytes_sent + chunk_size <= usize::MAX,
        ensures
            final(self).active == (match old(self).active {
                Some(a) => Some(spec_after_chunk(a, chunk_size)),
                None => None,
            }),
    {
        match &mut self.active {
            Some(a) => {
                a.bytes_sent = a.bytes_sent + chunk_size;
                a.next_seq_num = if a.next_seq_num == u16::MAX {
                    0
                } else {
                    a.next_seq_num + 1
                };
            },
            None => {},
        }
    }
}

/// What a CHUNK_GET handler reads of the connection.
#[derive(Clone, Copy, Debug, PartialEq, Eq)]
pub struct ConnectionState {
    pub phase: Phase,
    /// The negotiated SPDM version byte.
    pub version: u8,
    /// Whether both sides negotiated large-message chunking.
    pub chunking_enabled: bool,
    pub large_response: LargeResponseSlot,
}

/// What a CHUNK_GET handler reads of the transport.
#[derive(Clone, Copy, Debug, PartialEq, Eq)]
pub struct TransportLimits {
    /// Largest request the transport accepts.
    pub mtu: usize,
    /// The transport pads each message to a multiple of this length (0 or 1: no padding).
    pub send_len_alignment: usize,
    /// Bytes of transport header in front of each SPDM message.
    pub header_size: usize,
    /// Largest SPDM message that may be sent in one piece.
    pub data_transfer_size: usize,
}

/// Why a CHUNK_GET request was refused.
#[derive(Clone, Copy, Debug, PartialEq, Eq)]
pub enum ChunkGetError {
    UnexpectedRequest,
    InvalidRequest,
    VersionMismatch,
}

/// How to answer an accepted CHUNK_GET request.
#[derive(Clone, Copy, Debug, PartialEq, Eq)]
pub struct ChunkPlan {
    pub handle: u8,
    pub chunk_seq_num: u16,
    /// Offset in the large response of the first byte of the chunk.
    pub offset: usize,
    pub chunk_size: usize,
    pub last_chunk: bool,
    /// Size of the whole large response (sent in the first chunk only).
    pub large_response_size: usize,
    /// Length of the SPDM message: header, fixed body, size field if any, chunk.
    /// The response buffer holds the transport header and then this message.
    pub message_len: usize,
}

/// Bytes of padding that follow an SPDM message of `spdm_len` bytes on a
/// transport that aligns messages to `align` bytes.
pub open spec fn expected_padding(align: usize, spdm_len: usize) -> int {
    if align <= 1 {
        0
    } else {
        (align - spdm_len % align) % (align as int)
    }
}

/// Trailing bytes of a request are acceptable transport padding: none at all,
/// or exactly the padding the transport adds, all of it zero.
pub open spec fn spec_valid_transport_padding(align: usize, spdm_len: usize, padding: Seq<u8>) -> bool {
    padding.len() == 0 || (padding.len() == expected_padding(align, spdm_len) && forall|i: int|
        0 <= i < padding.len() ==> padding[i] == 0)
}

/// Checks the bytes that follow the SPDM part of a request.
pub fn valid_transport_padding(align: usize, spdm_len: usize, padding: &[u8]) -> (r: bool)
    ensures
        r == spec_valid_transport_padding(align, spdm_len, padding@),
{
    if padding.len() == 0 {
        return true;
    }
    let expected: usize = if align <= 1 {
        0
    } else {
        (align - (spdm_len % align)) % align
    };
    if padding.len() != expected {
        return false;
    }
    let mut i: usize = 0;
    while i < padding.len()
        invariant
            i <= padding@.len(),
            forall|j: int| 0 <= j < i ==> padding@[j] == 0,
        decreases padding@.len() - i,
    {
        if padding[i] != 0 {
            return false;
        }
        i = i + 1;
    }
    true
}

/// Length of the CHUNK_GET request without transport padding.
pub open spec fn chunk_get_len() -> int {
    SPDM_MSG_HDR_SIZE + CHUNK_GET_REQ_BODY_SIZE
}

/// `a - b`, or 0 where `b` exceeds `a`.
pub open spec fn saturating_sub(a: int, b: int) -> int {
    if a >= b {
        a - b
    } else {
        0
    }
}

/// Bytes of the first chunk's large-response size field, none for the others.
pub open spec fn size_field_len(seq_num: u16) -> int {
    if seq_num == 0 {
        LARGE_RESPONSE_SIZE_FIELD_SIZE as int
    } else {
        0
    }
}

/// Room for chunk data in a CHUNK_RESPONSE that may not exceed the data transfer size.
pub open spec fn max_chunk_size(limits: TransportLimits, seq_num: u16) -> int {
    saturating_sub(
        limits.data_transfer_size as int,
        SPDM_MSG_HDR_SIZE + CHUNK_RESPONSE_FIXED_BODY_SIZE + size_field_len(seq_num),
    )
}

/// The answer to a CHUNK_GET that names the active large response `a`, asks for
/// its next chunk, and leaves room for chunk data.
pub open spec fn spec_plan(a: ActiveLargeResponse, limits: TransportLimits) -> ChunkPlan {
    let remaining = a.response_size - a.bytes_sent;
    let max = max_chunk_size(limits, a.next_seq_num);
    let chunk_size = if remaining <= max {
        remaining
    } else {
        max
    };
    let message_len = SPDM_MSG_HDR_SIZE + CHUNK_RESPONSE_FIXED_BODY_SIZE + size_field_len(
        a.next_seq_num,
    ) + chunk_size;
    ChunkPlan {
        handle: a.handle,
        chunk_seq_num: a.next_seq_num,
        offset: a.bytes_sent,
        chunk_size: chunk_size as usize,
        last_chunk: chunk_size == remaining,
        large_response_size: a.response_size,
        message_len: message_len as usize,
    }
}

/// How a CHUNK_GET request `req` is answered on connection `s` over transport `limits`.
pub open spec fn spec_handle_chunk_get(
    s: ConnectionState,
    limits: TransportLimits,
    req: Seq<u8>,
) -> Result<ChunkPlan, ChunkGetError> {
    if phase_rank(s.phase) < phase_rank(Phase::AfterCapabilities) || !s.chunking_enabled {
        Err(ChunkGetError::UnexpectedRequest)
    } else if req.len() > limits.mtu || req.len() < SPDM_MSG_HDR_SIZE {
        Err(ChunkGetError::InvalidRequest)
    } else if req[0] != s.version {
        Err(ChunkGetError::VersionMismatch)
    } else if req.len() < chunk_get_len() || req[2] != 0 || !spec_valid_transport_padding(
        limits.send_len_alignment,
        chunk_get_len() as usize,
        req.subrange(chunk_get_len(), req.len() as int),
    ) {
        Err(ChunkGetError::InvalidRequest)
    } else {
        match s.large_response.active {
            None => Err(ChunkGetError::UnexpectedRequest),
            Some(a) => {
                if req[3] != a.handle || le_u16(req[4], req[5]) != a.next_seq_num
                    || max_chunk_size(limits, a.next_seq_num) == 0 || a.bytes_sent
                    >= a.response_size {
                    Err(ChunkGetError::InvalidRequest)
                } else {
                    Ok(spec_plan(a, limits))
                }
            },
        }
    }
}

/// Decides how to answer a CHUNK_GET request: refuses it, or says which chunk of
/// the active large response goes out and how long the answer is.
pub fn handle_chunk_get(state: &ConnectionState, limits: &TransportLimits, req: &[u8]) -> (r: Result<
    ChunkPlan,
    ChunkGetError,
>)
    ensures
        r == spec_handle_chunk_get(*state, *limits, req@),
{
    if state.phase.rank() < Phase::AfterCapabilities.rank() || !state.chunking_enabled {
        return Err(ChunkGetError::UnexpectedRequest);
    }
    if req.len() > limits.mtu || req.len() < SPDM_MSG_HDR_SIZE {
        return Err(ChunkGetError::InvalidRequest);
    }
    if req[0] != state.version {
        return Err(ChunkGetError::VersionMismatch);
    }
    let spdm_len: usize = SPDM_MSG_HDR_SIZE + CHUNK_GET_REQ_BODY_SIZE;
    if req.len() < spdm_len {
        return Err(ChunkGetError::InvalidRequest);
    }
    let padding = vstd::slice::slice_subrange(req, spdm_len, req.len());
    if req[2] != 0 || !valid_transport_padding(limits.send_len_alignment, spdm_len, padding) {
        return Err(ChunkGetError::InvalidRequest);
    }
    let active = match state.large_response.response() {
        Some(a) => a,
        None => {
            return Err(ChunkGetError::UnexpectedRequest);
        },
    };
    let handle = req[3];
    let seq_num = read_u16_le(req, 4);
    if handle != active.handle || seq_num != active.next_seq_num {
        return Err(ChunkGetError::InvalidRequest);
    }
    let large_response_size = active.response_size;
    let extra: usize = if seq_num == 0 {
        LARGE_RESPONSE_SIZE_FIELD_SIZE
    } else {
        0
    };
    let fixed: usize = SPDM_MSG_HDR_SIZE + CHUNK_RESPONSE_FIXED_BODY_SIZE + extra;
    let max_chunk: usize = limits.data_transfer_size.saturating_sub(fixed);
    let bytes_sent = active.bytes_sent;
    if max_chunk == 0 || bytes_sent >= large_response_size {
        return Err(ChunkGetError::InvalidRequest);
    }
    let remaining = large_response_size - bytes_sent;
    let chunk_size = if remaining <= max_chunk {
        remaining
    } else {
        max_chunk
    };
    let last_chunk = chunk_size == remaining;
    let message_len = fixed + chunk_size;
    Ok(
        ChunkPlan {
            handle,
            chunk_seq_num: seq_num,
            offset: bytes_sent,
            chunk_size,
            last_chunk,
            large_response_size,
            message_len,
        },
    )
}


/// The bytes of a CHUNK_RESPONSE in front of the chunk data: header, fixed body,
/// and for the first chunk the size of the whole large response. Sizes go on
/// the wire as 32-bit little-endian fields.
pub open spec fn spec_chunk_response_header(version: u8, p: ChunkPlan) -> Seq<u8> {
    seq![
        version,
        CHUNK_RESPONSE_CODE,
        if p.last_chunk {
            CHUNK_ATTR_LAST_CHUNK
        } else {
            0u8
        },
        p.handle,
    ] + u16_le_bytes(p.chunk_seq_num) + u16_le_bytes(0) + u32_le_bytes(p.chunk_size as u32) + (
    if p.chunk_seq_num == 0 {
        u32_le_bytes(p.large_response_size as u32)
    } else {
        Seq::<u8>::empty()
    })
}

/// Writes the CHUNK_RESPONSE bytes that precede the chunk data.
pub fn chunk_response_header(version: u8, plan: &ChunkPlan) -> (out: Vec<u8>)
    ensures
        out@ == spec_chunk_response_header(version, *plan),
{
    let mut out: Vec<u8> = Vec::new();
    out.push(version);
    out.push(CHUNK_RESPONSE_CODE);
    out.push(
        if plan.last_chunk {
            CHUNK_ATTR_LAST_CHUNK
        } else {
            0
        },
    );
    out.push(plan.handle);
    push_u16_le(&mut out, plan.chunk_seq_num);
    push_u16_le(&mut out, 0);
    push_u32_le(&mut out, plan.chunk_size as u32);
    if plan.chunk_seq_num == 0 {
        push_u32_le(&mut out, plan.large_response_size as u32);
    }
    out
}

/// What to do with a chunk once it has been read.
#[derive(Clone, Copy, Debug, PartialEq, Eq)]
pub enum TranscriptAction {
    /// Nothing.
    Nothing,
    /// Append the chunk to the M1 transcript.
    AppendM1,
}

/// A chunk request that does not lie within the large response.
#[derive(Clone, Copy, Debug, PartialEq, Eq)]
pub enum FillError {
    Invariant,
}

/// Whether reading `len` bytes at `offset` of the large response `rsp` is in
/// bounds, and what happens to those bytes once read.
pub open spec fn spec_fill_large_response_chunk(
    rsp: ActiveLargeResponse,
    offset: usize,
    len: usize,
) -> Result<TranscriptAction, FillError> {
    if offset + len > usize::MAX || offset + len > rsp.response_size {
        Err(FillError::Invariant)
    } else {
        match rsp.kind {
            LargeResponse::Certificate => Ok(TranscriptAction::AppendM1),
            LargeResponse::Buffered => Ok(TranscriptAction::Nothing),
        }
    }
}

/// Checks that a chunk of `len` bytes at `offset` lies within the large
/// response, and says whether it enters the transcript: certificate chunks do,
/// buffered responses do not. The caller then reads the chunk from the source
/// that `rsp.kind` names.
pub fn fill_large_response_chunk(rsp: &ActiveLargeResponse, offset: usize, len: usize) -> (r: Result<
    TranscriptAction,
    FillError,
>)
    ensures
        r == spec_fill_large_response_chunk(*rsp, offset, len),
{
    let end = match offset.checked_add(len) {
        Some(e) => e,
        None => {
            return Err(FillError::Invariant);
        },
    };
    if end > rsp.response_size {
        return Err(FillError::Invariant);
    }
    match rsp.kind {
        LargeResponse::Certificate => Ok(TranscriptAction::AppendM1),
        LargeResponse::Buffered => Ok(TranscriptAction::Nothing),
    }
}

/// The connection after a chunk of `chunk_size` bytes has gone out.
pub open spec fn spec_commit(s: ConnectionState, chunk_size: usize) -> ConnectionState {
    ConnectionState {
        large_response: LargeResponseSlot {
            active: match s.large_response.active {
                Some(a) => Some(spec_after_chunk(a, chunk_size)),
                None => None,
            },
        },
        ..s
    }
}

/// `p` is the plan that `handle_chunk_get` makes for the next chunk of the
/// active large response of `s`.
pub open spec fn is_next_chunk_plan(s: ConnectionState, limits: TransportLimits, p: ChunkPlan) -> bool {
    &&& s.large_response.active matches Some(a)
    &&& a.bytes_sent < a.response_size
    &&& max_chunk_size(limits, a.next_seq_num) > 0
    &&& p == spec_plan(a, limits)
}

/// Finishes an accepted CHUNK_GET once the chunk data has been read into `rsp`
/// right after the header's place: writes the CHUNK_RESPONSE header at
/// `limits.header_size`, leaving every other byte of `rsp` as it was, and
/// records the chunk as sent.
pub fn finish_chunk_get(
    state: &mut ConnectionState,
    limits: &TransportLimits,
    plan: &ChunkPlan,
    rsp: &mut [u8],
)
    requires
        is_next_chunk_plan(*old(state), *limits, *plan),
        limits.header_size + plan.message_len <= old(rsp)@.len(),
    ensures
        final(rsp)@ == old(rsp)@.subrange(0, limits.header_size as int) + spec_chunk_response_header(
            old(state).version,
            *plan,
        ) + old(rsp)@.subrange(
            limits.header_size + spec_chunk_response_header(old(state).version, *plan).len(),
            old(rsp)@.len() as int,
        ),
        *final(state) == spec_commit(*old(state), plan.chunk_size),
{
    let ghost orig = rsp@;
    let header = chunk_response_header(state.version, plan);
    proof {
        lemma_header_len(state.version, *plan);
    }
    let h = limits.header_size;
    let n: usize = rsp.len();
    let mut i: usize = 0;
    while i < header.len()
        invariant
            n == orig.len(),
            i <= header@.len(),
            h + header@.len() <= orig.len(),
            rsp@.len() == orig.len(),
            forall|j: int|
                0 <= j < orig.len() ==> #[trigger] rsp@[j] == (if h <= j < h + i {
                    header@[j - h]
                } else {
                    orig[j]
                }),
        decreases header@.len() - i,
    {
        rsp[h + i] = header[i];
        i = i + 1;
    }
    assert(rsp@ =~= orig.subrange(0, h as int) + header@ + orig.subrange(
        h + header@.len(),
        orig.len() as int,
    ));
    state.large_response.chunk_sent(plan.chunk_size);
}

/// Length of the CHUNK_RESPONSE header: fixed part, and the size field for the
/// first chunk.
pub proof fn lemma_header_len(version: u8, p: ChunkPlan)
    ensures
        spec_chunk_response_header(version, p).len() == SPDM_MSG_HDR_SIZE
            + CHUNK_RESPONSE_FIXED_BODY_SIZE + size_field_len(p.chunk_seq_num),
{
}

/// The CHUNK_RESPONSE header read back byte by byte: version, response code
/// 0x06, attribute 0x01 exactly on the last chunk, handle, the sequence number
/// and a zero reserved field as 16-bit little-endian values, the chunk size as
/// a 32-bit little-endian value, and on the first chunk only the size of the
/// whole response as a 32-bit little-endian value.
pub proof fn lemma_header_decodes(version: u8, p: ChunkPlan)
    ensures
        ({
            let h = spec_chunk_response_header(version, p);
            &&& h.len() == (if p.chunk_seq_num == 0 {
                16int
            } else {
                12int
            })
            &&& h[0] == version
            &&& h[1] == 0x06
            &&& h[2] == (if p.last_chunk {
                0x01u8
            } else {
                0x00u8
            })
            &&& h[3] == p.handle
            &&& h[4] as int + 256 * (h[5] as int) == p.chunk_seq_num as int
            &&& h[6] == 0 && h[7] == 0
            &&& h[8] as int + 256 * (h[9] as int) + 65536 * (h[10] as int) + 16777216 * (
            h[11] as int) == (p.chunk_size as u32) as int
            &&& p.chunk_seq_num == 0 ==> h[12] as int + 256 * (h[13] as int) + 65536 * (
            h[14] as int) + 16777216 * (h[15] as int) == (p.large_response_size as u32) as int
        }),
{
    let h = spec_chunk_response_header(version, p);
    let s = u16_le_bytes(p.chunk_seq_num);
    let z = u16_le_bytes(0);
    let c = u32_le_bytes(p.chunk_size as u32);
    lemma_u16_le_bytes_decode(p.chunk_seq_num);
    lemma_u16_le_bytes_decode(0);
    lemma_u32_le_bytes_decode(p.chunk_size as u32);
    lemma_header_len(version, p);
    assert(h[4] == s[0] && h[5] == s[1]);
    assert(h[6] == z[0] && h[7] == z[1]);
    assert(h[8] == c[0] && h[9] == c[1] && h[10] == c[2] && h[11] == c[3]);
    if p.chunk_seq_num == 0 {
        let t = u32_le_bytes(p.large_response_size as u32);
        lemma_u32_le_bytes_decode(p.large_response_size as u32);
        assert(h[12] == t[0] && h[13] == t[1] && h[14] == t[2] && h[15] == t[3]);
    }
}

/// The CHUNK_RESPONSE header of an accepted request, field by field: version,
/// response code, the last-chunk attribute exactly when the chunk reaches the
/// end of the large response, the handle and sequence number of the request, a
/// zero reserved field, the chunk size, and the size of the whole response in
/// the first chunk only.
pub proof fn lemma_response_header_fields(
    s: ConnectionState,
    limits: TransportLimits,
    req: Seq<u8>,
)
    requires
        spec_handle_chunk_get(s, limits, req) is Ok,
    ensures
        s.large_response.active matches Some(a) && {
            let p = spec_handle_chunk_get(s, limits, req)->Ok_0;
            let hdr = spec_chunk_response_header(s.version, p);
            &&& hdr[0] == s.version
            &&& hdr[1] == CHUNK_RESPONSE_CODE
            &&& hdr[2] == (if a.bytes_sent + p.chunk_size == a.response_size {
                CHUNK_ATTR_LAST_CHUNK
            } else {
                0u8
            })
            &&& hdr[3] == a.handle
            &&& hdr.subrange(4, 6) == u16_le_bytes(a.next_seq_num)
            &&& hdr.subrange(6, 8) == u16_le_bytes(0)
            &&& hdr.subrange(8, 12) == u32_le_bytes(p.chunk_size as u32)
            &&& hdr.len() == (if a.next_seq_num == 0 {
                16int
            } else {
                12int
            })
            &&& a.next_seq_num == 0 ==> hdr.subrange(12, 16) == u32_le_bytes(
                a.response_size as u32,
            )
        },
{
    let a = s.large_response.active->Some_0;
    let p = spec_handle_chunk_get(s, limits, req)->Ok_0;
    let hdr = spec_chunk_response_header(s.version, p);
    lemma_header_len(s.version, p);
    assert(hdr.subrange(4, 6) =~= u16_le_bytes(a.next_seq_num));
    assert(hdr.subrange(6, 8) =~= u16_le_bytes(0));
    assert(hdr.subrange(8, 12) =~= u32_le_bytes(p.chunk_size as u32));
    if a.next_seq_num == 0 {
        assert(hdr.subrange(12, 16) =~= u32_le_bytes(a.response_size as u32));
    }
}

/// An accepted CHUNK_GET is answered with the next bytes of the active large
/// response: the chunk starts where the previous one ended, holds at least one
/// byte, does not run past the end, is marked last exactly when it reaches the
/// end, and echoes the handle and sequence number.
pub proof fn lemma_chunk_within_response(s: ConnectionState, limits: TransportLimits, req: Seq<u8>)
    requires
        spec_handle_chunk_get(s, limits, req) is Ok,
    ensures
        s.large_response.active matches Some(a) && {
            let p = spec_handle_chunk_get(s, limits, req)->Ok_0;
            &&& p.offset == a.bytes_sent
            &&& 0 < p.chunk_size
            &&& p.offset + p.chunk_size <= a.response_size
            &&& p.last_chunk <==> p.offset + p.chunk_size == a.response_size
            &&& p.handle == a.handle
            &&& p.chunk_seq_num == a.next_seq_num
            &&& p.large_response_size == a.response_size
            &&& is_next_chunk_plan(s, limits, p)
        },
{
}

/// The CHUNK_RESPONSE to an accepted request never exceeds the data transfer
/// size: its header and the chunk together are `message_len` bytes.
pub proof fn lemma_response_fits_transfer_size(
    s: ConnectionState,
    limits: TransportLimits,
    req: Seq<u8>,
    version: u8,
)
    requires
        spec_handle_chunk_get(s, limits, req) is Ok,
    ensures
        ({
            let p = spec_handle_chunk_get(s, limits, req)->Ok_0;
            &&& p.message_len <= limits.data_transfer_size
            &&& p.message_len == spec_chunk_response_header(version, p).len() + p.chunk_size
        }),
{
    let p = spec_handle_chunk_get(s, limits, req)->Ok_0;
    assert(spec_chunk_response_header(version, p).len() == SPDM_MSG_HDR_SIZE
        + CHUNK_RESPONSE_FIXED_BODY_SIZE + size_field_len(p.chunk_seq_num));
}

/// Once a chunk has gone out, the next accepted CHUNK_GET gets the bytes that
/// follow it, under the next sequence number.
pub proof fn lemma_consecutive_chunks_are_contiguous(
    s: ConnectionState,
    limits: TransportLimits,
    req1: Seq<u8>,
    req2: Seq<u8>,
)
    requires
        spec_handle_chunk_get(s, limits, req1) is Ok,
        spec_handle_chunk_get(
            spec_commit(s, spec_handle_chunk_get(s, limits, req1)->Ok_0.chunk_size),
            limits,
            req2,
        ) is Ok,
    ensures
        ({
            let p1 = spec_handle_chunk_get(s, limits, req1)->Ok_0;
            let p2 = spec_handle_chunk_get(spec_commit(s, p1.chunk_size), limits, req2)->Ok_0;
            &&& p2.offset == p1.offset + p1.chunk_size
            &&& p2.chunk_seq_num == next_seq(p1.chunk_seq_num)
            &&& p2.handle == p1.handle
        }),
{
}

/// After the last chunk has gone out, every further CHUNK_GET is refused.
pub proof fn lemma_no_chunk_after_last(
    s: ConnectionState,
    limits: TransportLimits,
    req1: Seq<u8>,
    req2: Seq<u8>,
)
    requires
        spec_handle_chunk_get(s, limits, req1) is Ok,
        spec_handle_chunk_get(s, limits, req1)->Ok_0.last_chunk,
    ensures
        spec_handle_chunk_get(
            spec_commit(s, spec_handle_chunk_get(s, limits, req1)->Ok_0.chunk_size),
            limits,
            req2,
        ) is Err,
{
}

/// The chunk of an accepted CHUNK_GET can always be read: it lies within the
/// large response, and it enters the transcript exactly when the large
/// response is a certificate chain.
pub proof fn lemma_accepted_chunk_fills(s: ConnectionState, limits: TransportLimits, req: Seq<u8>)
    requires
        spec_handle_chunk_get(s, limits, req) is Ok,
    ensures
        s.large_response.active matches Some(a) && {
            let p = spec_handle_chunk_get(s, limits, req)->Ok_0;
            spec_fill_large_response_chunk(a, p.offset, p.chunk_size) == Ok::<
                TranscriptAction,
                FillError,
            >(
                if a.kind == LargeResponse::Certificate {
                    TranscriptAction::AppendM1
                } else {
                    TranscriptAction::Nothing
                },
            )
        },
{
}

/// The large response after `k` rounds of answering its next CHUNK_GET with
/// the chunk that `spec_plan` gives and recording it as sent; rounds after the
/// whole response has gone out change nothing.
pub open spec fn after_chunks(a: ActiveLargeResponse, limits: TransportLimits, k: nat) -> ActiveLargeResponse
    decreases k,
{
    if k == 0 {
        a
    } else {
        let b = after_chunks(a, limits, (k - 1) as nat);
        if b.bytes_sent < b.response_size {
            spec_after_chunk(b, spec_plan(b, limits).chunk_size)
        } else {
            b
        }
    }
}

/// Where every CHUNK_RESPONSE has room for chunk data, each round sends at
/// least one more byte and never runs past the end, so `k` rounds send at
/// least `k` bytes or the whole response.
pub proof fn lemma_transfer_progress(a: ActiveLargeResponse, limits: TransportLimits, k: nat)
    requires
        a.bytes_sent <= a.response_size,
        limits.data_transfer_size > SPDM_MSG_HDR_SIZE + CHUNK_RESPONSE_FIXED_BODY_SIZE
            + LARGE_RESPONSE_SIZE_FIELD_SIZE,
    ensures
        ({
            let b = after_chunks(a, limits, k);
            &&& a.bytes_sent <= b.bytes_sent <= b.response_size
            &&& b.response_size == a.response_size
            &&& b.handle == a.handle
            &&& b.kind == a.kind
            &&& b.bytes_sent >= a.bytes_sent + k || b.bytes_sent == a.response_size
        }),
    decreases k,
{
    if k > 0 {
        lemma_transfer_progress(a, limits, (k - 1) as nat);
    }
}

/// Answering the requests of a large response in turn sends all of it: after
/// as many rounds as the response has bytes, every byte has gone out.
pub proof fn lemma_transfer_completes(a: ActiveLargeResponse, limits: TransportLimits)
    requires
        a.bytes_sent <= a.response_size,
        limits.data_transfer_size > SPDM_MSG_HDR_SIZE + CHUNK_RESPONSE_FIXED_BODY_SIZE
            + LARGE_RESPONSE_SIZE_FIELD_SIZE,
    ensures
        after_chunks(a, limits, a.response_size as nat).bytes_sent == a.response_size,
{
    lemma_transfer_progress(a, limits, a.response_size as nat);
}

/// A CHUNK_GET with the right version that names the active large response
/// and its next sequence number, without padding, is answered with the next
/// chunk, on a connection past capability negotiation with chunking on, when
/// the request fits the transport and a CHUNK_RESPONSE has room for data.
pub proof fn lemma_next_chunk_request_accepted(
    s: ConnectionState,
    limits: TransportLimits,
    code: u8,
)
    requires
        phase_rank(s.phase) >= phase_rank(Phase::AfterCapabilities),
        s.chunking_enabled,
        s.large_response.active matches Some(a) && a.bytes_sent < a.response_size
            && max_chunk_size(limits, a.next_seq_num) > 0,
        limits.mtu >= chunk_get_len(),
    ensures
        ({
            let a = s.large_response.active->Some_0;
            let req = seq![s.version, code, 0u8, a.handle] + u16_le_bytes(a.next_seq_num);
            spec_handle_chunk_get(s, limits, req) == Ok::<ChunkPlan, ChunkGetError>(
                spec_plan(a, limits),
            )
        }),
{
    let a = s.large_response.active->Some_0;
    let req = seq![s.version, code, 0u8, a.handle] + u16_le_bytes(a.next_seq_num);
    assert(req.len() == 6);
    assert(req[4] == (a.next_seq_num % 256) as u8);
    assert(req[5] == (a.next_seq_num / 256) as u8);
    assert(le_u16(req[4], req[5]) == a.next_seq_num);
    assert(req.subrange(chunk_get_len(), req.len() as int).len() == 0);
}

/// Padding of the expected length brings a message to a multiple of the
/// transport's alignment, and is shorter than one alignment unit.
pub proof fn lemma_padding_aligns(align: usize, spdm_len: usize)
    requires
        align > 1,
    ensures
        0 <= expected_padding(align, spdm_len) < align,
        (spdm_len + expected_padding(align, spdm_len)) % (align as int) == 0,
{
    let a = align as int;
    let n = spdm_len as int;
    let r = n % a;
    vstd::arithmetic::div_mod::lemma_fundamental_div_mod(n, a);
    let q = n / a;
    if r == 0 {
        vstd::arithmetic::div_mod::lemma_mod_self_0(a);
        assert(expected_padding(align, spdm_len) == 0);
        assert(n == q * a) by (nonlinear_arith)
            requires
                n == a * q + r,
                r == 0,
        ;
        vstd::arithmetic::div_mod::lemma_mod_multiples_basic(q, a);
    } else {
        vstd::arithmetic::div_mod::lemma_small_mod((a - r) as nat, a as nat);
        assert(expected_padding(align, spdm_len) == a - r);
        assert(n + (a - r) == (q + 1) * a) by (nonlinear_arith)
            requires
                n == a * q + r,
        ;
        vstd::arithmetic::div_mod::lemma_mod_multiples_basic(q + 1, a);
    }
}

/// Padding shorter than one alignment unit that brings the message to a
/// multiple of the alignment has the expected length.
proof fn lemma_padding_unique(align: usize, spdm_len: usize, len: int)
    requires
        align > 1,
        0 <= len < align,
        (spdm_len + len) % (align as int) == 0,
    ensures
        len == expected_padding(align, spdm_len),
{
    let a = align as int;
    let n = spdm_len as int;
    let r = n % a;
    let q = n / a;
    vstd::arithmetic::div_mod::lemma_fundamental_div_mod(n, a);
    assert(n + len == a * q + (r + len));
    vstd::arithmetic::div_mod::lemma_mod_multiples_vanish(q, r + len, a);
    if r + len < a {
        vstd::arithmetic::div_mod::lemma_small_mod((r + len) as nat, a as nat);
        vstd::arithmetic::div_mod::lemma_mod_add_multiples_vanish(0, a);
        assert(expected_padding(align, spdm_len) == (a - 0) % a);
    } else {
        vstd::arithmetic::div_mod::lemma_mod_add_multiples_vanish(r + len - a, a);
        vstd::arithmetic::div_mod::lemma_small_mod((r + len - a) as nat, a as nat);
        vstd::arithmetic::div_mod::lemma_small_mod((a - r) as nat, a as nat);
    }
}

/// Trailing bytes of a request are accepted as transport padding exactly when
/// there are none, or when they are all zero, shorter than one alignment unit,
/// and bring the message to a multiple of the alignment.
pub proof fn lemma_padding_meaning(align: usize, spdm_len: usize, padding: Seq<u8>)
    ensures
        spec_valid_transport_padding(align, spdm_len, padding) <==> (padding.len() == 0 || (
        align > 1 && padding.len() < align && (spdm_len + padding.len()) % (align as int) == 0
            && forall|i: int| 0 <= i < padding.len() ==> padding[i] == 0)),
{
    if align > 1 {
        lemma_padding_aligns(align, spdm_len);
        if padding.len() < align && (spdm_len + padding.len()) % (align as int) == 0 {
            lemma_padding_unique(align, spdm_len, padding.len() as int);
        }
    }
}

/// A chunk may be read exactly when it lies within the large response,
/// whatever its kind; it then enters the M1 transcript exactly when the large
/// response is a certificate chain.
pub proof fn lemma_fill_meaning(rsp: ActiveLargeResponse, offset: usize, len: usize)
    ensures
        spec_fill_large_response_chunk(rsp, offset, len) is Ok <==> offset + len
            <= rsp.response_size,
        spec_fill_large_response_chunk(rsp, offset, len) == Ok::<TranscriptAction, FillError>(
            TranscriptAction::AppendM1,
        ) <==> offset + len <= rsp.response_size && rsp.kind == LargeResponse::Certificate,
        spec_fill_large_response_chunk(rsp, offset, len) == Ok::<TranscriptAction, FillError>(
            TranscriptAction::Nothing,
        ) <==> offset + len <= rsp.response_size && rsp.kind == LargeResponse::Buffered,
        spec_fill_large_response_chunk(rsp, offset, len) is Err ==> spec_fill_large_response_chunk(
            rsp,
            offset,
            len,
        ) == Err::<TranscriptAction, FillError>(FillError::Invariant),
{
}

/// The connection is past capability negotiation with chunking on.
pub open spec fn chunking_ready(s: ConnectionState) -> bool {
    (s.phase == Phase::AfterCapabilities || s.phase == Phase::AfterAlgorithms) && s.chunking_enabled
}

/// The bytes after the six-byte CHUNK_GET are acceptable transport padding:
/// none, or all zero, shorter than one alignment unit, and bringing the
/// request to a multiple of the alignment.
pub open spec fn padding_acceptable(align: usize, req: Seq<u8>) -> bool {
    req.len() == 6 || (align > 1 && req.len() - 6 < align && (req.len() as int) % (align as int) == 0
        && forall|i: int| 6 <= i < req.len() ==> req[i] == 0)
}

/// The request is a well-formed CHUNK_GET for this connection and transport:
/// it fits the transport, has the connection's version, a zero param1, and
/// acceptable padding.
pub open spec fn well_formed_chunk_get(s: ConnectionState, limits: TransportLimits, req: Seq<u8>) -> bool {
    &&& 6 <= req.len() <= limits.mtu
    &&& req[0] == s.version
    &&& req[2] == 0
    &&& padding_acceptable(limits.send_len_alignment, req)
}

/// The 16-bit little-endian sequence number a CHUNK_GET carries.
pub open spec fn request_seq_num(req: Seq<u8>) -> int {
    req[4] as int + 256 * (req[5] as int)
}

/// Bytes in a CHUNK_RESPONSE other than chunk data: 12, and 4 more for the
/// size field of the first chunk.
pub open spec fn response_overhead(seq_num: int) -> int {
    if seq_num == 0 {
        16
    } else {
        12
    }
}

proof fn lemma_padding_of_request(align: usize, req: Seq<u8>)
    requires
        req.len() >= 6,
    ensures
        spec_valid_transport_padding(align, 6, req.subrange(6, req.len() as int))
            <==> padding_acceptable(align, req),
{
    let tail = req.subrange(6, req.len() as int);
    lemma_padding_meaning(align, 6, tail);
    if align > 1 {
        assert((6 + tail.len()) == req.len());
    }
    assert((forall|i: int| 0 <= i < tail.len() ==> tail[i] == 0) <==> (forall|i: int|
        6 <= i < req.len() ==> req[i] == 0)) by {
        if forall|i: int| 0 <= i < tail.len() ==> tail[i] == 0 {
            assert forall|i: int| 6 <= i < req.len() implies req[i] == 0 by {
                assert(tail[i - 6] == req[i]);
            }
        }
    }
}

/// A CHUNK_GET is answered with a chunk exactly when the connection is past
/// capability negotiation with chunking on, the request is well formed, it
/// names the active large response by its handle and its next sequence
/// number, some of that response is still unsent, and the data transfer size
/// leaves room for chunk data. The answer then takes the next bytes: from
/// where the previous chunk ended, as many as are left or as fit, whichever
/// is fewer; it is last exactly when it reaches the end, and the message is
/// the overhead plus the chunk.
pub proof fn lemma_chunk_get_accepts(s: ConnectionState, limits: TransportLimits, req: Seq<u8>)
    ensures
        spec_handle_chunk_get(s, limits, req) is Ok <==> {
            &&& chunking_ready(s)
            &&& well_formed_chunk_get(s, limits, req)
            &&& s.large_response.active matches Some(a)
            &&& req[3] == a.handle
            &&& request_seq_num(req) == a.next_seq_num
            &&& a.bytes_sent < a.response_size
            &&& limits.data_transfer_size > response_overhead(a.next_seq_num as int)
        },
        spec_handle_chunk_get(s, limits, req) is Ok ==> ({
            let a = s.large_response.active->Some_0;
            let p = spec_handle_chunk_get(s, limits, req)->Ok_0;
            let left = a.response_size - a.bytes_sent;
            let room = limits.data_transfer_size - response_overhead(a.next_seq_num as int);
            &&& p.handle == req[3]
            &&& p.chunk_seq_num == request_seq_num(req)
            &&& p.offset == a.bytes_sent
            &&& p.large_response_size == a.response_size
            &&& p.chunk_size == (if left <= room {
                left
            } else {
                room
            })
            &&& p.last_chunk == (p.offset + p.chunk_size == a.response_size)
            &&& p.message_len == response_overhead(p.chunk_seq_num as int) + p.chunk_size
        }),
{
    if req.len() >= 6 {
        lemma_padding_of_request(limits.send_len_alignment, req);
        lemma_le_u16_value(req[4], req[5]);
    }
}

/// Why a CHUNK_GET is refused: too early or without chunking, unexpected;
/// too long or shorter than the header, invalid; with another version,
/// version mismatch, whatever else it holds; malformed, invalid; with no
/// large response active, unexpected; for another handle or sequence number,
/// for a response already sent, or where no chunk data fits, invalid.
pub proof fn lemma_chunk_get_refusals(s: ConnectionState, limits: TransportLimits, req: Seq<u8>)
    ensures
        !chunking_ready(s) ==> spec_handle_chunk_get(s, limits, req) == Err::<
            ChunkPlan,
            ChunkGetError,
        >(ChunkGetError::UnexpectedRequest),
        chunking_ready(s) && (req.len() > limits.mtu || req.len() < 2) ==> spec_handle_chunk_get(
            s,
            limits,
            req,
        ) == Err::<ChunkPlan, ChunkGetError>(ChunkGetError::InvalidRequest),
        chunking_ready(s) && 2 <= req.len() <= limits.mtu && req[0] != s.version
            ==> spec_handle_chunk_get(s, limits, req) == Err::<ChunkPlan, ChunkGetError>(
            ChunkGetError::VersionMismatch,
        ),
        chunking_ready(s) && 2 <= req.len() <= limits.mtu && req[0] == s.version
            && !well_formed_chunk_get(s, limits, req) ==> spec_handle_chunk_get(s, limits, req)
            == Err::<ChunkPlan, ChunkGetError>(ChunkGetError::InvalidRequest),
        chunking_ready(s) && well_formed_chunk_get(s, limits, req) && s.large_response.active is None
            ==> spec_handle_chunk_get(s, limits, req) == Err::<ChunkPlan, ChunkGetError>(
            ChunkGetError::UnexpectedRequest,
        ),
        chunking_ready(s) && well_formed_chunk_get(s, limits, req) && s.large_response.active is Some
            && ({
            let a = s.large_response.active->Some_0;
            req[3] != a.handle || request_seq_num(req) != a.next_seq_num || a.bytes_sent
                >= a.response_size || limits.data_transfer_size <= response_overhead(
                a.next_seq_num as int,
            )
        }) ==> spec_handle_chunk_get(s, limits, req) == Err::<ChunkPlan, ChunkGetError>(
            ChunkGetError::InvalidRequest,
        ),
{
    if req.len() >= 6 {
        lemma_padding_of_request(limits.send_len_alignment, req);
        lemma_le_u16_value(req[4], req[5]);
    }
}

/// Recording a sent chunk adds its size to the bytes sent and moves the
/// expected sequence number on by one, wrapping from 65535 to 0; the handle,
/// the response size and its kind stay, and so does everything else about the
/// connection.
pub proof fn lemma_chunk_sent_meaning(s: ConnectionState, n: usize)
    ensures
        spec_commit(s, n).phase == s.phase,
        spec_commit(s, n).version == s.version,
        spec_commit(s, n).chunking_enabled == s.chunking_enabled,
        spec_commit(s, n).large_response.active is Some <==> s.large_response.active is Some,
        s.large_response.active matches Some(a) ==> ({
            let b = spec_commit(s, n).large_response.active->Some_0;
            &&& a.bytes_sent + n <= usize::MAX ==> b.bytes_sent == a.bytes_sent + n
            &&& b.next_seq_num as int == (a.next_seq_num as int + 1) % 65536
            &&& b.handle == a.handle
            &&& b.response_size == a.response_size
            &&& b.kind == a.kind
        }),
{
}

} // verus!
