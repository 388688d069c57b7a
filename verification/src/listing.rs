//! The catalog lister's decisions: which fetched records belong to this
//! protocol, and how pagination advances.  A record is listed only when its
//! content begins with the marker line and its decoded `name` is present;
//! continuation records are thereby excluded.

use vstd::prelude::*;
use crate::codec::is_marked;
use crate::codec::spec_marker;
use crate::errors::TransferError;
use crate::parser::DecodeFailure;
use crate::parser::EntryModel;
use crate::parser::FileEntry;
use crate::parser::ParseError;
use crate::parser::spec_decode;
use crate::text::spec_starts_with;

verus! {

/// One record as fetched for listing: its content and its id.
pub struct StoreMessage {
    /// The record's content text.
    pub content: String,
    /// The record's id.
    pub id: u64,
}

/// Spec-level cause of a listing failure.
#[derive(Clone, Copy, Debug, PartialEq, Eq, Structural)]
pub enum ListFailure {
    /// A marked record's content did not decode.
    Malformed(DecodeFailure),
    /// A marked head record carried a `name` but no `size`.
    MissingSize,
}

/// The spec-level failure a decode error maps to.
pub open spec fn spec_failure_of(e: ParseError) -> DecodeFailure {
    match e {
        ParseError::InvalidInput(_) => DecodeFailure::MissingSeparator,
        ParseError::ParseIntError(k) => DecodeFailure::BadNumber(k),
    }
}

/// A message is listed when the marker opens its content and its decoded
/// `name` is present.
pub open spec fn spec_qualifying(m: StoreMessage) -> bool {
    &&& spec_starts_with(m.content@, spec_marker() + seq!['\n'])
    &&& spec_decode(m.content@) matches Ok(e) && e.name is Some
}

/// The catalog entry of a qualifying message.
pub open spec fn spec_entry_of(m: StoreMessage) -> (EntryModel, u64) {
    (spec_decode(m.content@)->Ok_0, m.id)
}

/// What listing `msgs` yields: the entries of the qualifying messages in
/// order, or the first failure.
pub open spec fn spec_list(msgs: Seq<StoreMessage>) -> Result<Seq<(EntryModel, u64)>, ListFailure>
    decreases msgs.len(),
{
    if msgs.len() == 0 {
        Ok(Seq::empty())
    } else {
        let m = msgs[0];
        if !spec_starts_with(m.content@, spec_marker() + seq!['\n']) {
            spec_list(msgs.drop_first())
        } else {
            match spec_decode(m.content@) {
                Err(f) => Err(ListFailure::Malformed(f)),
                Ok(e) => {
                    if e.name is None {
                        spec_list(msgs.drop_first())
                    } else if e.size is None {
                        Err(ListFailure::MissingSize)
                    } else {
                        match spec_list(msgs.drop_first()) {
                            Ok(rest) => Ok(seq![(e, m.id)] + rest),
                            Err(f) => Err(f),
                        }
                    }
                },
            }
        }
    }
}

/// The entries of the qualifying messages, in order.
pub open spec fn spec_qualifying_entries(msgs: Seq<StoreMessage>) -> Seq<(EntryModel, u64)>
    decreases msgs.len(),
{
    if msgs.len() == 0 {
        Seq::empty()
    } else if spec_qualifying(msgs[0]) {
        seq![spec_entry_of(msgs[0])] + spec_qualifying_entries(msgs.drop_first())
    } else {
        spec_qualifying_entries(msgs.drop_first())
    }
}

/// A successful listing holds exactly the qualifying messages' entries:
/// every record whose content lacks the marker line or whose decoded
/// `name` is absent is filtered out, even if it otherwise parses.
pub proof fn lemma_list_filters(msgs: Seq<StoreMessage>)
    ensures
        spec_list(msgs) matches Ok(es) ==> es == spec_qualifying_entries(msgs),
    decreases msgs.len(),
{
    if msgs.len() > 0 {
        lemma_list_filters(msgs.drop_first());
    }
}

/// Lists the records of a container: keeps the qualifying ones, in order,
/// and stops at the first marked record that does not decode or that has a
/// `name` but no `size`.
pub fn list_records(msgs: &Vec<StoreMessage>) -> (r: Result<
    Vec<(FileEntry, u64)>,
    TransferError,
>)
    ensures
        match r {
            Ok(entries) => spec_list(msgs@) == Ok::<Seq<(EntryModel, u64)>, ListFailure>(
                entries@.map_values(|p: (FileEntry, u64)| (p.0@, p.1)),
            ),
            Err(TransferError::MalformedRecord(e)) => spec_list(msgs@) == Err::<
                Seq<(EntryModel, u64)>,
                ListFailure,
            >(ListFailure::Malformed(spec_failure_of(e))),
            Err(TransferError::InvalidRecord) => spec_list(msgs@) == Err::<
                Seq<(EntryModel, u64)>,
                ListFailure,
            >(ListFailure::MissingSize),
            Err(_) => false,
        },
{
    let mut out: Vec<(FileEntry, u64)> = Vec::new();
    let mut i: usize = 0;
    let ghost total = spec_list(msgs@);
    proof {
        assert(msgs@.skip(0) =~= msgs@);
    }
    while i < msgs.len()
        invariant
            0 <= i <= msgs@.len(),
            match spec_list(msgs@.skip(i as int)) {
                Ok(rest) => spec_list(msgs@) == Ok::<Seq<(EntryModel, u64)>, ListFailure>(
                    out@.map_values(|p: (FileEntry, u64)| (p.0@, p.1)) + rest,
                ),
                Err(f) => spec_list(msgs@) == Err::<Seq<(EntryModel, u64)>, ListFailure>(f),
            },
        decreases msgs@.len() - i,
    {
        let ghost rest = msgs@.skip(i as int);
        let ghost out_before = out@;
        proof {
            assert(rest[0] == msgs@[i as int]);
            assert(rest.drop_first() =~= msgs@.skip(i + 1));
        }
        let m = &msgs[i];
        if is_marked(m.content.as_str()) {
            match FileEntry::from_str(m.content.as_str()) {
                Err(e) => {
                    return Err(TransferError::MalformedRecord(e));
                },
                Ok(entry) => {
                    if entry.name.is_some() {
                        if entry.size.is_none() {
                            return Err(TransferError::InvalidRecord);
                        }
                        let id = m.id;
                        out.push((entry, id));
                        proof {
                            assert(out@.map_values(|p: (FileEntry, u64)| (p.0@, p.1))
                                =~= out_before.map_values(|p: (FileEntry, u64)| (p.0@, p.1))
                                + seq![(spec_decode(msgs@[i as int].content@)->Ok_0, id)]);
                        }
                    }
                },
            }
        }
        i += 1;
        proof {
            match spec_list(msgs@.skip(i as int)) {
                Ok(tail) => {
                    assert(out@.map_values(|p: (FileEntry, u64)| (p.0@, p.1)) + tail
                        =~= out_before.map_values(|p: (FileEntry, u64)| (p.0@, p.1)) + (
                    spec_list(rest)->Ok_0));
                },
                Err(_) => {},
            }
        }
    }
    proof {
        assert(msgs@.skip(msgs@.len() as int) =~= Seq::<StoreMessage>::empty());
        assert(out@.map_values(|p: (FileEntry, u64)| (p.0@, p.1)) + Seq::<(
            EntryModel,
            u64,
        )>::empty() =~= out@.map_values(|p: (FileEntry, u64)| (p.0@, p.1)));
    }
    Ok(out)
}

/// Extends the gathered history with one fetched page and says where the
/// next page starts: pagination stops on an empty page, and otherwise
/// continues before the oldest id seen.
pub fn page_advance(history: &mut Vec<StoreMessage>, page: Vec<StoreMessage>) -> (cursor: Option<
    u64,
>)
    ensures
        page@.len() == 0 ==> final(history)@ == old(history)@ && cursor is None,
        page@.len() > 0 ==> final(history)@ == old(history)@ + page@ && cursor == Some(
            page@.last().id,
        ),
{
    if page.len() == 0 {
        return None;
    }
    let last_id = page[page.len() - 1].id;
    let mut page = page;
    history.append(&mut page);
    Some(last_id)
}

} // verus!
