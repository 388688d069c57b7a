//! The transfer orchestrator's decisions.  Upload: after the records exist,
//! each one's content is rewritten so that the head carries the file's
//! metadata and every record points at its successor.  Download and delete:
//! a chain is walked from its head, one record at a time, until the tail;
//! ending before all extents were seen is an error, never silent success.

use vstd::prelude::*;
use crate::codec::head_content;
use crate::codec::line_clean;
use crate::codec::lemma_decode_head;
use crate::codec::lemma_decode_tail;
use crate::codec::spec_head_content;
use crate::codec::spec_tail_content;
use crate::codec::tail_content;
use crate::errors::TransferError;
use crate::parser::DecodeFailure;
use crate::parser::EntryModel;
use crate::parser::FileEntry;
use crate::parser::spec_decode;

verus! {

/// The successor of record `k` in a chain whose records got the ids `ids`.
pub open spec fn spec_chain_next(k: int, ids: Seq<u64>) -> Option<u64> {
    if k + 1 < ids.len() {
        Some(ids[k + 1])
    } else {
        None
    }
}

/// The final content of record `k`: the head carries the file's metadata,
/// every other record only its successor, and the tail nothing.
pub open spec fn spec_record_content(
    k: int,
    ids: Seq<u64>,
    name: Seq<char>,
    size: u64,
    extent_count: usize,
) -> Seq<char> {
    if k == 0 {
        spec_head_content(name, size, extent_count, spec_chain_next(0, ids))
    } else {
        spec_tail_content(spec_chain_next(k, ids))
    }
}

/// The contents of the edit pass: one per created record, in chain order.
/// The name must hold no newline: the wire format keeps it on one line.
pub fn record_contents(ids: &Vec<u64>, name: &str, size: u64, extent_count: usize) -> (r: Vec<
    String,
>)
    requires
        line_clean(name@),
    ensures
        r@.len() == ids@.len(),
        forall|k: int| 0 <= k < ids@.len() ==> #[trigger] r@[k]@ == spec_record_content(
            k,
            ids@,
            name@,
            size,
            extent_count,
        ),
{
    let mut out: Vec<String> = Vec::new();
    let mut k: usize = 0;
    while k < ids.len()
        invariant
            0 <= k <= ids@.len(),
            out@.len() == k,
            forall|j: int| 0 <= j < k ==> #[trigger] out@[j]@ == spec_record_content(
                j,
                ids@,
                name@,
                size,
                extent_count,
            ),
        decreases ids@.len() - k,
    {
        let next = if k + 1 < ids.len() {
            Some(ids[k + 1])
        } else {
            None
        };
        let content = if k == 0 {
            head_content(name, size, extent_count, next)
        } else {
            tail_content(next)
        };
        out.push(content);
        k += 1;
    }
    out
}

/// Every record of the edit pass decodes back to exactly its place in the
/// chain: record `k` points at record `k + 1`, and the last record points
/// nowhere; the head carries the file's metadata.
pub proof fn lemma_chain_links(
    ids: Seq<u64>,
    name: Seq<char>,
    size: u64,
    extent_count: usize,
)
    requires
        line_clean(name),
    ensures
        forall|k: int|
            0 <= k < ids.len() ==> spec_decode(
                #[trigger] spec_record_content(k, ids, name, size, extent_count),
            ) == Ok::<EntryModel, DecodeFailure>(
                EntryModel {
                    name: if k == 0 { Some(name) } else { None },
                    size: if k == 0 { Some(size) } else { None },
                    len: if k == 0 { Some(extent_count) } else { None },
                    next: spec_chain_next(k, ids),
                },
            ),
{
    assert forall|k: int| 0 <= k < ids.len() implies spec_decode(
        #[trigger] spec_record_content(k, ids, name, size, extent_count),
    ) == Ok::<EntryModel, DecodeFailure>(
        EntryModel {
            name: if k == 0 { Some(name) } else { None },
            size: if k == 0 { Some(size) } else { None },
            len: if k == 0 { Some(extent_count) } else { None },
            next: spec_chain_next(k, ids),
        },
    ) by {
        if k == 0 {
            lemma_decode_head(name, size, extent_count, spec_chain_next(0, ids));
        } else {
            lemma_decode_tail(spec_chain_next(k, ids));
        }
    }
}

/// The walk state over one chain: the head's metadata, how many extents
/// were consumed, and where to go next.
pub struct ChainWalk {
    /// Original file name, from the head record.
    pub name: String,
    /// Total byte size of the file, from the head record.
    pub total_size: u64,
    /// Total extent count of the chain, from the head record.
    pub extent_count: usize,
    /// Extents consumed so far.
    pub consumed: usize,
    /// Id of the next record, absent at the tail.
    pub next: Option<u64>,
}

/// Starts a walk at a chain's head.  The head must decode and must carry
/// `name`, `size` and `len`; a record without them is no valid chain head.
pub fn begin_walk(content: &str) -> (r: Result<ChainWalk, TransferError>)
    ensures
        match r {
            Ok(w) => spec_decode(content@) matches Ok(m) && m.name == Some(w.name@) && m.size
                == Some(w.total_size) && m.len == Some(w.extent_count) && m.next == w.next
                && w.consumed == 0,
            Err(TransferError::MalformedRecord(_)) => spec_decode(content@) is Err,
            Err(TransferError::InvalidRecord) => spec_decode(content@) matches Ok(m) && (
            m.name is None || m.size is None || m.len is None),
            Err(_) => false,
        },
{
    let entry = match FileEntry::from_str(content) {
        Ok(e) => e,
        Err(e) => {
            return Err(TransferError::MalformedRecord(e));
        },
    };
    let name = match entry.name {
        Some(n) => n,
        None => {
            return Err(TransferError::InvalidRecord);
        },
    };
    let total_size = match entry.size {
        Some(s) => s,
        None => {
            return Err(TransferError::InvalidRecord);
        },
    };
    let extent_count = match entry.len {
        Some(l) => l,
        None => {
            return Err(TransferError::InvalidRecord);
        },
    };
    Ok(ChainWalk { name, total_size, extent_count, consumed: 0, next: entry.next })
}

impl ChainWalk {
    /// Accounts for `n` more extents taken from the current record.
    pub fn consume(&mut self, n: usize)
        ensures
            final(self).consumed == if old(self).consumed + n <= usize::MAX {
                old(self).consumed + n
            } else {
                usize::MAX as int
            },
            final(self).name == old(self).name,
            final(self).total_size == old(self).total_size,
            final(self).extent_count == old(self).extent_count,
            final(self).next == old(self).next,
    {
        if n > usize::MAX - self.consumed {
            self.consumed = usize::MAX;
        } else {
            self.consumed = self.consumed + n;
        }
    }

    /// Follows the `next` pointer: takes the fetched successor's content and
    /// continues the walk there.  On a decode failure the walk is unchanged.
    pub fn follow(&mut self, content: &str) -> (r: Result<(), TransferError>)
        requires
            old(self).next is Some,
        ensures
            match r {
                Ok(()) => spec_decode(content@) matches Ok(m) && final(self).next == m.next,
                Err(TransferError::MalformedRecord(_)) => spec_decode(content@) is Err
                    && *final(self) == *old(self),
                Err(_) => false,
            },
            final(self).name == old(self).name,
            final(self).total_size == old(self).total_size,
            final(self).extent_count == old(self).extent_count,
            final(self).consumed == old(self).consumed,
    {
        match FileEntry::from_str(content) {
            Ok(e) => {
                self.next = e.next;
                Ok(())
            },
            Err(e) => Err(TransferError::MalformedRecord(e)),
        }
    }

    /// Ends the walk at the tail.  Success only when every promised extent
    /// was consumed: a chain that ended early is a protocol violation, not a
    /// silent success.
    pub fn finish(&self) -> (r: Result<(), TransferError>)
        requires
            self.next is None,
        ensures
            r is Ok <==> self.consumed >= self.extent_count,
            r is Err ==> r matches Err(TransferError::InvalidRecord),
    {
        if self.consumed >= self.extent_count {
            Ok(())
        } else {
            Err(TransferError::InvalidRecord)
        }
    }
}

} // verus!
