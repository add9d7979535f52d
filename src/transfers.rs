use vstd::prelude::*;

use crate::data::CHUNK_SIZE;
use crate::protocol::{Message, Transmission};

verus! {

/// Why a file transfer failed.
#[derive(Debug, Clone, Copy, PartialEq, Eq)]
pub enum TransferError {
    /// A frame other than the expected one arrived, a chunk named another
    /// file, or the chunks carried more bytes than announced.
    ProtocolMismatch,
    /// The stream closed before all announced bytes arrived.
    UnexpectedEnd,
}

/// Progress of receiving one file: its name, its announced size, and how
/// many of its bytes have arrived.
pub struct Receiver {
    pub filename: String,
    pub size: u32,
    pub received: u32,
}

impl Receiver {
    /// Starts a transfer from its first frame, which must be `Metadata`.
    pub fn start(first: Transmission) -> (r: Result<Receiver, TransferError>)
        ensures
            r is Ok == first@ is Metadata,
            r matches Ok(rc) ==> rc.filename@ == first@->Metadata_0 && rc.size
                == first@->Metadata_1 && rc.received == 0,
            r matches Err(e) ==> e == TransferError::ProtocolMismatch,
    {
        match first {
            Transmission::Metadata(filename, size) => Ok(Receiver { filename, size, received: 0 }),
            _ => Err(TransferError::ProtocolMismatch),
        }
    }

    /// Whether every announced byte has arrived.
    pub fn is_complete(&self) -> (r: bool)
        ensures
            r == (self.received >= self.size),
    {
        self.received >= self.size
    }

    /// The stream has closed: that ends the transfer well only if every
    /// announced byte has arrived.
    pub fn closed(&self) -> (r: Result<(), TransferError>)
        ensures
            r is Ok == (self.received >= self.size),
            r matches Err(e) ==> e == TransferError::UnexpectedEnd,
    {
        if self.received >= self.size {
            Ok(())
        } else {
            Err(TransferError::UnexpectedEnd)
        }
    }

    /// Takes the next frame of the transfer. A `Chunk` of this file whose
    /// bytes do not go past the announced size is accepted, and its bytes
    /// are handed back to be written; anything else is a protocol mismatch
    /// and leaves the progress as it was.
    pub fn accept(&mut self, frame: Transmission) -> (r: Result<Vec<u8>, TransferError>)
        ensures
            final(self).filename@ == old(self).filename@,
            final(self).size == old(self).size,
            r is Ok == (frame@ matches Message::Chunk(f, d) && f == old(self).filename@
                && old(self).received + d.len() <= old(self).size),
            r matches Ok(data) ==> data@ == frame@->Chunk_1 && final(self).received
                == old(self).received + data@.len(),
            r matches Err(e) ==> e == TransferError::ProtocolMismatch && final(self).received
                == old(self).received,
    {
        match frame {
            Transmission::Chunk(f, data) => {
                if !crate::text::str_eq(f.as_str(), self.filename.as_str()) {
                    return Err(TransferError::ProtocolMismatch);
                }
                if self.received > self.size || data.len() as u64 > (self.size - self.received) as u64 {
                    return Err(TransferError::ProtocolMismatch);
                }
                self.received = self.received + data.len() as u32;
                Ok(data)
            },
            _ => Err(TransferError::ProtocolMismatch),
        }
    }
}

/// Number of chunks that `len` bytes are cut into.
pub open spec fn chunk_count(len: nat) -> nat {
    ((len + CHUNK_SIZE - 1) / CHUNK_SIZE as int) as nat
}

/// The bytes of chunk `k` of `data`.
pub open spec fn chunk_of(data: Seq<u8>, k: int) -> Seq<u8> {
    let start = k * CHUNK_SIZE;
    let end = if start + CHUNK_SIZE <= data.len() {
        start + CHUNK_SIZE
    } else {
        data.len() as int
    };
    data.subrange(start, end)
}

/// The frames that send the file `name` with contents `data`: its
/// `Metadata`, then its bytes in chunks of `CHUNK_SIZE`, the last one
/// possibly shorter.
pub fn file_frames(name: &str, data: &[u8]) -> (r: Vec<Transmission>)
    requires
        data@.len() <= u32::MAX,
    ensures
        r@.len() == 1 + chunk_count(data@.len()),
        r@[0]@ == Message::Metadata(name@, data@.len() as u32),
        forall|k: int|
            0 <= k < chunk_count(data@.len()) ==> #[trigger] r@[k + 1]@ == Message::Chunk(
                name@,
                chunk_of(data@, k),
            ),
{
    let mut r: Vec<Transmission> = Vec::new();
    r.push(Transmission::Metadata(name.to_owned(), data.len() as u32));
    let mut pos: usize = 0;
    let mut k: usize = 0;
    while pos < data.len()
        invariant
            data@.len() <= u32::MAX,
            pos <= data@.len(),
            pos < data@.len() ==> pos == k * CHUNK_SIZE,
            k <= chunk_count(data@.len()),
            pos < data@.len() ==> k < chunk_count(data@.len()),
            pos >= data@.len() ==> k == chunk_count(data@.len()),
            r@.len() == 1 + k,
            r@[0]@ == Message::Metadata(name@, data@.len() as u32),
            forall|j: int| 0 <= j < k ==> #[trigger] r@[j + 1]@ == Message::Chunk(name@, chunk_of(data@, j)),
        decreases data@.len() - pos,
    {
        let end: usize = if data.len() - pos >= CHUNK_SIZE {
            pos + CHUNK_SIZE
        } else {
            data.len()
        };
        let piece = vstd::slice::slice_to_vec(&data[pos..end]);
        assert(piece@ == chunk_of(data@, k as int));
        r.push(Transmission::Chunk(name.to_owned(), piece));
        pos = end;
        k = k + 1;
    }
    r
}

} // verus!
