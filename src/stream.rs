//! One client's transfer: which block to read, and when the transfer ends.
//!
//! The session does not hold the file itself. `send_chunk` says what to do for
//! a block (send the terminating empty block, or read at an offset); the caller
//! performs the read and hands its outcome to `finish_chunk`, which frames the
//! reply and advances the session.
use vstd::prelude::*;
use vstd::utf8::encode_utf8;
use crate::wire::{data_frame, encode_data, encode_error, error_frame};

verus! {

/// Fixed size of a data block.
pub const BLOCK_SIZE: u64 = 512;

/// Cursor value that stands for "position unknown". No block starts there:
/// every block offset is below the file length.
pub const UNKNOWN_POS: u64 = 0xffff_ffff_ffff_ffff;

/// Error code sent when reading a block fails.
pub const ERR_READ: u16 = 0;

/// Number of blocks that carry the content of a file of `len` bytes.
pub open spec fn total_blocks(len: int) -> int {
    if len % 512 == 0 {
        len / 512
    } else {
        len / 512 + 1
    }
}

/// Byte offset at which block `block` (numbered from 1) starts.
pub open spec fn block_offset(block: int) -> int {
    (block - 1) * 512
}

/// The bytes that block `block` of a file with content `file` carries.
pub open spec fn block_bytes(file: Seq<u8>, block: int) -> Seq<u8> {
    let start = block_offset(block);
    if block < 1 || start >= file.len() {
        seq![]
    } else if start + 512 <= file.len() {
        file.subrange(start, start + 512)
    } else {
        file.subrange(start, file.len() as int)
    }
}

/// What the caller does next for a requested block.
#[derive(Debug)]
pub enum ChunkStep {
    /// The block lies past the end: send this (empty) data frame; the session is done.
    Send(Vec<u8>),
    /// Read up to `BLOCK_SIZE` bytes at `offset`, seeking there first when `seek` is set.
    Read { offset: u64, seek: bool },
}

/// State of one transfer.
#[derive(Clone, Copy, Debug, PartialEq, Eq, Structural)]
pub struct FileStream {
    /// Length of the file in bytes.
    pub len: u64,
    /// Number of blocks that carry content.
    pub chunks: u64,
    /// Byte offset the file was last read up to, or `UNKNOWN_POS` when it is
    /// not known (after a failed read).
    pub pos: u64,
    /// The block asked for last (0 before the first).
    pub last: u64,
    /// Set once a block shorter than `BLOCK_SIZE` has been sent.
    pub done: bool,
}

impl FileStream {
    pub open spec fn wf(self) -> bool {
        &&& self.chunks == total_blocks(self.len as int)
        &&& !self.done ==> self.last <= self.chunks
    }

    /// The session after the terminating empty block was sent.
    pub open spec fn finished(self) -> FileStream {
        FileStream { done: true, ..self }
    }

    /// The session after block `block` was asked for.
    pub open spec fn requested(self, block: int) -> FileStream {
        FileStream { last: block as u64, ..self }
    }

    /// The session after block `block` was read and `n` bytes came back: the
    /// file now stands at the end of those bytes.
    pub open spec fn after_read(self, block: int, n: int) -> FileStream {
        let end = block_offset(block) + n;
        FileStream {
            pos: if end <= u64::MAX { end as u64 } else { UNKNOWN_POS },
            done: self.done || n < 512,
            ..self
        }
    }

    /// The session after a failed read: where the file stands is unknown.
    pub open spec fn after_failed_read(self) -> FileStream {
        FileStream { pos: UNKNOWN_POS, ..self }
    }

    /// A session for a file of `len` bytes, before any block was sent.
    pub fn new(len: u64) -> (r: FileStream)
        ensures
            r.wf(),
            r == (FileStream { len, chunks: total_blocks(len as int) as u64, pos: 0, last: 0, done: false }),
    {
        let chunks = if len % BLOCK_SIZE == 0 {
            len / BLOCK_SIZE
        } else {
            len / BLOCK_SIZE + 1
        };
        FileStream { len, chunks, pos: 0, last: 0, done: false }
    }

    /// Decides how block `chunk` is delivered. Past the last block the reply
    /// is an empty data frame and the session is done; otherwise the block is
    /// read at its own offset, whatever was read before, seeking unless the
    /// file is known to stand there already.
    pub fn send_chunk(&mut self, chunk: u64) -> (r: ChunkStep)
        requires
            old(self).wf(),
            chunk >= 1,
        ensures
            final(self).wf(),
            chunk > old(self).chunks ==> *final(self) == old(self).requested(chunk as int).finished() && (r matches ChunkStep::Send(f) && f@ == data_frame(chunk as int, seq![])),
            chunk <= old(self).chunks ==> *final(self) == old(self).requested(chunk as int) && r == (ChunkStep::Read {
                offset: block_offset(chunk as int) as u64,
                seek: block_offset(chunk as int) != old(self).pos,
            }),
    {
        self.last = chunk;
        if chunk > self.chunks {
            self.done = true;
            let empty: Vec<u8> = Vec::new();
            return ChunkStep::Send(encode_data(chunk, empty.as_slice()));
        }
        assert((chunk - 1) * 512 < self.len) by (nonlinear_arith)
            requires
                1 <= chunk <= self.chunks,
                self.chunks == total_blocks(self.len as int),
        ;
        let offset = (chunk - 1) * BLOCK_SIZE;
        ChunkStep::Read { offset, seek: offset != self.pos }
    }

    /// Frames the reply for block `chunk` from the outcome of reading it: the
    /// bytes read, or the description of the read error. A short block ends the
    /// transfer. A failed read leaves the session unfinished, so the block can
    /// be asked for again, and marks the file position unknown, so that the
    /// next read seeks.
    pub fn finish_chunk(&mut self, chunk: u64, read: Result<Vec<u8>, String>) -> (r: Vec<u8>)
        requires
            old(self).wf(),
            1 <= chunk <= old(self).chunks,
            read matches Ok(d) ==> d@.len() <= BLOCK_SIZE,
        ensures
            final(self).wf(),
            match read {
                Ok(d) => r@ == data_frame(chunk as int, d@) && *final(self) == old(self).after_read(chunk as int, d@.len() as int),
                Err(m) => r@ == error_frame(ERR_READ, encode_utf8(m@)) && *final(self) == old(self).after_failed_read(),
            },
    {
        match read {
            Ok(d) => {
                assert((chunk - 1) * 512 < self.len) by (nonlinear_arith)
                    requires
                        1 <= chunk <= self.chunks,
                        self.chunks == total_blocks(self.len as int),
                ;
                let offset = (chunk - 1) * BLOCK_SIZE;
                let n = d.len() as u64;
                if n < 512 {
                    self.done = true;
                }
                self.pos = if n <= u64::MAX - offset {
                    offset + n
                } else {
                    UNKNOWN_POS
                };
                encode_data(chunk, d.as_slice())
            },
            Err(m) => {
                self.pos = UNKNOWN_POS;
                encode_error(ERR_READ, m.as_str().as_bytes())
            },
        }
    }
}

} // verus!
