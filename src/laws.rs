//! Properties of a whole transfer, proved from the contracts of the session
//! and the dispatcher.
use vstd::prelude::*;
use crate::bytes::be16;
use crate::server::{ack_outcome, dispatch_outcome, next_block, start_outcome, Dispatch, Endpoint, ERR_ACCESS, MSG_ACCESS};
use crate::stream::{block_bytes, block_offset, total_blocks, FileStream, UNKNOWN_POS};
use crate::path::{confined, parent_at};
use crate::wire::{data_frame, decode_spec, error_frame, MessageView};
use vstd::utf8::encode_utf8;

verus! {

/// A non-empty file of `len` bytes has `ceil(len / 512)` blocks; an empty
/// file has none, so its transfer is the single empty block 1, after which
/// the session is done.
pub proof fn law_block_count(
    len: u64,
    before: Map<Endpoint, FileStream>,
    after: Map<Endpoint, FileStream>,
    ep: Endpoint,
    r: Dispatch,
)
    requires
        start_outcome(before, after, ep, len as int, r),
    ensures
        after.contains_key(ep),
        after[ep].chunks == total_blocks(len as int),
        len > 0 ==> total_blocks(len as int) == (len + 511) / 512,
        len == 0 ==> after[ep].done && (r matches Dispatch::Reply(f) && f@ == data_frame(1, seq![])),
{
}

/// Asking an unfinished session for the block after its last one yields an
/// empty data frame for that block number and ends the session.
pub proof fn law_past_end(
    before: Map<Endpoint, FileStream>,
    after: Map<Endpoint, FileStream>,
    ep: Endpoint,
    r: Dispatch,
)
    requires
        before.contains_key(ep),
        !before[ep].done,
        ack_outcome(before, after, ep, before[ep].chunks + 1, r),
    ensures
        r matches Dispatch::Reply(f) && f@ == data_frame(before[ep].chunks + 1, seq![]),
        after[ep].done,
{
}

/// When the length is a multiple of the block size, every block carries a
/// full block, reading one does not end the transfer, and the block after the
/// last lies past the end.
pub proof fn law_exact_multiple(file: Seq<u8>, s: FileStream, n: int)
    requires
        s.wf(),
        s.len == file.len(),
        file.len() % 512 == 0,
        1 <= n <= s.chunks,
    ensures
        block_bytes(file, n).len() == 512,
        s.after_read(n, 512).done == s.done,
        block_bytes(file, s.chunks + 1).len() == 0,
{
    assert(block_offset(n) + 512 <= file.len()) by (nonlinear_arith)
        requires
            1 <= n <= file.len() / 512,
            file.len() % 512 == 0,
    ;
    assert(block_offset(s.chunks + 1) >= file.len()) by (nonlinear_arith)
        requires
            s.chunks == file.len() / 512,
            file.len() % 512 == 0,
    ;
}

/// When the length is not a multiple of the block size, the blocks before the
/// last carry a full block, the last carries the remaining `len % 512` bytes,
/// and reading it ends the transfer.
pub proof fn law_short_last_block(file: Seq<u8>, s: FileStream, n: int)
    requires
        s.wf(),
        s.len == file.len(),
        file.len() % 512 != 0,
        1 <= n <= s.chunks,
    ensures
        n < s.chunks ==> block_bytes(file, n).len() == 512,
        block_bytes(file, s.chunks as int).len() == file.len() % 512,
        block_bytes(file, s.chunks as int).len() < 512,
        s.after_read(s.chunks as int, (file.len() % 512) as int).done,
{
    assert(n < s.chunks ==> block_offset(n) + 512 <= file.len()) by (nonlinear_arith)
        requires
            1 <= n,
            s.chunks == file.len() / 512 + 1,
    ;
    assert(block_offset(s.chunks as int) == file.len() - file.len() % 512) by (nonlinear_arith)
        requires
            s.chunks == file.len() / 512 + 1,
    ;
}

/// A repeated acknowledgment asks for the same block at the same offset,
/// whatever the session read last. Where the session's cursor is the file's
/// real position (`at1`, `at2`) or is marked unknown, a caller that seeks only
/// when told reads at the block's own offset: the block is sent again
/// unchanged.
pub proof fn law_redelivery(
    before1: Map<Endpoint, FileStream>,
    after1: Map<Endpoint, FileStream>,
    before2: Map<Endpoint, FileStream>,
    after2: Map<Endpoint, FileStream>,
    ep: Endpoint,
    n: int,
    at1: u64,
    at2: u64,
    r1: Dispatch,
    r2: Dispatch,
)
    requires
        before1.contains_key(ep),
        before2.contains_key(ep),
        before1[ep].len == before2[ep].len,
        before1[ep].wf(),
        before2[ep].wf(),
        !before1[ep].done,
        !before2[ep].done,
        before1[ep].pos == at1 || before1[ep].pos == UNKNOWN_POS,
        before2[ep].pos == at2 || before2[ep].pos == UNKNOWN_POS,
        1 <= n <= before1[ep].chunks,
        ack_outcome(before1, after1, ep, n, r1),
        ack_outcome(before2, after2, ep, n, r2),
    ensures
        r1 matches Dispatch::Read { block: b1, offset: o1, seek: s1 } && r2 matches Dispatch::Read {
            block: b2,
            offset: o2,
            seek: s2,
        } && b1 == b2 && o1 == o2 && o1 == block_offset(n)
            && (if s1 { o1 } else { at1 }) == block_offset(n)
            && (if s2 { o2 } else { at2 }) == block_offset(n),
{
    assert(block_offset(n) < before1[ep].len) by (nonlinear_arith)
        requires
            1 <= n <= before1[ep].chunks,
            before1[ep].chunks == total_blocks(before1[ep].len as int),
    ;
}

/// After a failed read the session is neither finished nor resized, and the
/// next read of any of its blocks seeks.
pub proof fn law_failed_read_forces_seek(s: FileStream, k: int)
    requires
        s.wf(),
        1 <= k <= s.chunks,
    ensures
        s.after_failed_read().done == s.done,
        s.after_failed_read().len == s.len,
        s.after_failed_read().chunks == s.chunks,
        block_offset(k) != s.after_failed_read().pos,
{
    assert(block_offset(k) < s.len) by (nonlinear_arith)
        requires
            1 <= k <= s.chunks,
            s.chunks == total_blocks(s.len as int),
    ;
}

/// After a successful read of `n` bytes of block `k`, the cursor is where a
/// read of those bytes leaves the file, or is marked unknown.
pub proof fn law_cursor_after_read(s: FileStream, k: int, n: int)
    requires
        s.wf(),
        1 <= k <= s.chunks,
        0 <= n <= 512,
    ensures
        s.after_read(k, n).pos == block_offset(k) + n || s.after_read(k, n).pos == UNKNOWN_POS,
{
}

/// An acknowledgment asks for a block whose number is the acknowledged one
/// plus one, modulo 2^16; acknowledging the block asked for last asks for the
/// one after it, also past block 65536, so the transfer never starts over.
pub proof fn law_ack_wraps(last: u64, ack: u16)
    requires
        last < u64::MAX,
    ensures
        next_block(last as int, ack as int) >= 1,
        next_block(last as int, ack as int) % 65536 == (ack as int + 1) % 65536,
        last >= 1 && ack as int == last as int % 65536 ==> next_block(last as int, ack as int) == last + 1,
{
    let want = ack as int + 1;
    let l1 = last as int + 1;
    if l1 >= want {
        let d = l1 - want;
        assert(l1 - d % 65536 == want + (d - d % 65536));
        assert((d - d % 65536) % 65536 == 0) by (nonlinear_arith)
            requires
                d >= 0,
        ;
        assert((want + (d - d % 65536)) % 65536 == want % 65536) by (nonlinear_arith)
            requires
                (d - d % 65536) % 65536 == 0,
                want >= 1,
                d >= 0,
        ;
        if ack as int == last as int % 65536 {
            assert(d % 65536 == 0) by (nonlinear_arith)
                requires
                    d == last as int + 1 - (last as int % 65536 + 1),
                    last >= 0,
            ;
        }
    }
}

/// An acknowledgment for a finished session is ignored and changes nothing.
pub proof fn law_done_is_silent(
    before: Map<Endpoint, FileStream>,
    after: Map<Endpoint, FileStream>,
    ep: Endpoint,
    n: int,
    r: Dispatch,
)
    requires
        before.contains_key(ep),
        before[ep].done,
        ack_outcome(before, after, ep, n, r),
    ensures
        r is Ignore,
        after == before,
{
}

/// Block numbers go on the wire modulo 2^16: block `n + 65536` is framed as
/// block `n`, and block 65537 carries the number 1.
pub proof fn law_block_number_wraps(n: int, payload: Seq<u8>)
    requires
        n >= 0,
    ensures
        data_frame(n + 65536, payload) == data_frame(n, payload),
        data_frame(65537, payload).subrange(2, 4) == seq![0u8, 1u8],
{
    assert((n + 65536) % 65536 == n % 65536);
    assert(be16(n + 65536) == be16(n));
    assert(be16(65537) == seq![0u8, 1u8]);
    assert(data_frame(65537, payload).subrange(2, 4) =~= be16(65537));
}

/// A read request never adds a session by itself: it is answered with an
/// error frame or handed back to be opened, and the table is unchanged.
pub proof fn law_request_adds_no_session(
    before: Map<Endpoint, FileStream>,
    after: Map<Endpoint, FileStream>,
    ep: Endpoint,
    d: Seq<u8>,
    r: Dispatch,
)
    requires
        decode_spec(d) matches Ok(MessageView::ReadRequest { filename: _, mode: _ }),
        dispatch_outcome(before, after, ep, d, r),
    ensures
        after == before,
        r is Open || r is Reply,
{
}

/// A read request for a name that would leave the root is refused with an
/// access error, and nothing is handed back to be opened.
pub proof fn law_escape_rejected(
    before: Map<Endpoint, FileStream>,
    after: Map<Endpoint, FileStream>,
    ep: Endpoint,
    d: Seq<u8>,
    r: Dispatch,
)
    requires
        decode_spec(d) matches Ok(MessageView::ReadRequest { filename, mode: _ }) && !confined(filename),
        dispatch_outcome(before, after, ep, d, r),
    ensures
        after == before,
        r matches Dispatch::Reply(f) && f@ == error_frame(ERR_ACCESS, encode_utf8(MSG_ACCESS@)),
        !(r is Open),
{
}

/// A name that starts at the filesystem root, or that holds a `..`
/// component anywhere, is never taken as confined to the served directory.
pub proof fn law_escaping_names_not_confined(name: Seq<char>, i: int)
    requires
        (name.len() > 0 && name[0] == '/') || parent_at(name, i),
    ensures
        !confined(name),
{
}

} // verus!
