//! The chain-record codec, decode side: a record's content is line-oriented
//! `key=value` text.  Comment lines (starting with `#`) and empty lines are
//! skipped, unknown keys are ignored, and the keys `name`, `size`, `len` and
//! `next` fill the corresponding fields.  Decoding fails when a non-comment,
//! non-empty line has no `=`, or when a numeric value does not parse.

use vstd::prelude::*;
use crate::numbers::IntParseError;
use crate::numbers::spec_parse_u64;
use crate::numbers::spec_parse_usize;
use crate::numbers::parse_u64;
use crate::numbers::parse_usize;
use crate::text::str_eq;
use crate::text::find_char_from;
use crate::text::substring_string;

verus! {

/// Metadata carried by one record of a chain.  Exactly the head record
/// carries `name`, `size` and `len`; any record may carry `next`.
#[derive(Clone, Debug)]
pub struct FileEntry {
    /// Original file name; head records only.
    pub name: Option<String>,
    /// Total byte size of the stored file; head records only.
    pub size: Option<u64>,
    /// Total extent count across the whole chain; head records only.
    pub len: Option<usize>,
    /// Id of the successor record; absent on the tail.
    pub next: Option<u64>,
}

/// Mathematical image of a `FileEntry`.
pub ghost struct EntryModel {
    pub name: Option<Seq<char>>,
    pub size: Option<u64>,
    pub len: Option<usize>,
    pub next: Option<u64>,
}

impl View for FileEntry {
    type V = EntryModel;

    open spec fn view(&self) -> EntryModel {
        EntryModel {
            name: match self.name {
                Some(n) => Some(n@),
                None => None,
            },
            size: self.size,
            len: self.len,
            next: self.next,
        }
    }
}

impl EntryModel {
    /// The model with every field absent: what an empty content decodes to.
    pub open spec fn empty() -> EntryModel {
        EntryModel { name: None, size: None, len: None, next: None }
    }
}

/// Decoding failure of a record content.
#[derive(Debug)]
pub enum ParseError {
    /// A non-comment, non-empty line had no `=` separator; carries the whole
    /// input.
    InvalidInput(String),
    /// A numeric value failed to parse.
    ParseIntError(IntParseError),
}

/// Spec-level cause of a decoding failure.
#[derive(Clone, Copy, Debug, PartialEq, Eq, Structural)]
pub enum DecodeFailure {
    MissingSeparator,
    BadNumber(IntParseError),
}

/// Index of the first occurrence of `c` in `s`, or `-1`.
pub open spec fn spec_find(s: Seq<char>, c: char) -> int
    decreases s.len(),
{
    if s.len() == 0 {
        -1
    } else if s[0] == c {
        0
    } else {
        let r = spec_find(s.drop_first(), c);
        if r < 0 {
            -1
        } else {
            r + 1
        }
    }
}

pub proof fn lemma_find_is(s: Seq<char>, c: char, i: int)
    requires
        0 <= i < s.len(),
        s[i] == c,
        forall|j: int| 0 <= j < i ==> s[j] != c,
    ensures
        spec_find(s, c) == i,
    decreases s.len(),
{
    if i > 0 {
        lemma_find_is(s.drop_first(), c, i - 1);
    }
}

pub proof fn lemma_find_none(s: Seq<char>, c: char)
    requires
        forall|j: int| 0 <= j < s.len() ==> s[j] != c,
    ensures
        spec_find(s, c) == -1,
    decreases s.len(),
{
    if s.len() > 0 {
        lemma_find_none(s.drop_first(), c);
    }
}

/// The lines of `s`, split at `'\n'`; an empty text is one empty line, and a
/// trailing `'\n'` produces a final empty line.
pub open spec fn spec_split_lines(s: Seq<char>) -> Seq<Seq<char>>
    decreases s.len(),
{
    if s.len() == 0 {
        seq![Seq::<char>::empty()]
    } else if s[0] == '\n' {
        seq![Seq::<char>::empty()] + spec_split_lines(s.drop_first())
    } else {
        let rest = spec_split_lines(s.drop_first());
        rest.update(0, seq![s[0]] + rest[0])
    }
}

pub proof fn lemma_split_lines_len(s: Seq<char>)
    ensures
        spec_split_lines(s).len() >= 1,
    decreases s.len(),
{
    if s.len() > 0 {
        lemma_split_lines_len(s.drop_first());
    }
}

/// If the first `'\n'` of `s` is at `i` (or `s` has none and `i` is its
/// length), the line split starts with `s.take(i)`.
pub proof fn lemma_split_lines_at(s: Seq<char>, i: int)
    requires
        0 <= i <= s.len(),
        forall|j: int| 0 <= j < i ==> s[j] != '\n',
        i < s.len() ==> s[i] == '\n',
    ensures
        i == s.len() ==> spec_split_lines(s) == seq![s],
        i < s.len() ==> spec_split_lines(s) == seq![s.take(i)] + spec_split_lines(
            s.skip(i + 1),
        ),
    decreases s.len(),
{
    if s.len() == 0 {
        assert(spec_split_lines(s) =~~= seq![s]);
    } else if i == 0 {
        if i < s.len() {
            assert(s.take(0) =~= Seq::<char>::empty());
            assert(s.skip(1) =~= s.drop_first());
            assert(spec_split_lines(s) =~~= seq![s.take(0)] + spec_split_lines(s.skip(1)));
        }
    } else {
        let d = s.drop_first();
        lemma_split_lines_at(d, i - 1);
        lemma_split_lines_len(d);
        let rest = spec_split_lines(d);
        if i == s.len() {
            assert(rest == seq![d]);
            assert(rest[0] == d);
            assert(seq![s[0]] + d =~= s);
            assert(spec_split_lines(s) == rest.update(0, seq![s[0]] + rest[0]));
            assert(spec_split_lines(s) =~~= seq![s]);
        } else {
            assert(rest == seq![d.take(i - 1)] + spec_split_lines(d.skip(i)));
            assert(rest[0] == d.take(i - 1));
            assert(seq![s[0]] + d.take(i - 1) =~= s.take(i));
            assert(d.skip(i) =~= s.skip(i + 1));
            assert(spec_split_lines(s) == rest.update(0, seq![s[0]] + rest[0]));
            assert(spec_split_lines(s) =~~= seq![s.take(i)] + spec_split_lines(s.skip(i + 1)));
        }
    }
}

/// Effect of one line on the accumulated entry.
pub open spec fn spec_apply_line(line: Seq<char>, e: EntryModel) -> Result<
    EntryModel,
    DecodeFailure,
> {
    if line.len() == 0 || line[0] == '#' {
        Ok(e)
    } else {
        let i = spec_find(line, '=');
        if i < 0 {
            Err(DecodeFailure::MissingSeparator)
        } else {
            let key = line.take(i);
            let val = line.skip(i + 1);
            if key == "name"@ {
                Ok(EntryModel { name: Some(val), ..e })
            } else if key == "size"@ {
                match spec_parse_u64(val) {
                    Ok(v) => Ok(EntryModel { size: Some(v), ..e }),
                    Err(k) => Err(DecodeFailure::BadNumber(k)),
                }
            } else if key == "len"@ {
                match spec_parse_usize(val) {
                    Ok(v) => Ok(EntryModel { len: Some(v), ..e }),
                    Err(k) => Err(DecodeFailure::BadNumber(k)),
                }
            } else if key == "next"@ {
                match spec_parse_u64(val) {
                    Ok(v) => Ok(EntryModel { next: Some(v), ..e }),
                    Err(k) => Err(DecodeFailure::BadNumber(k)),
                }
            } else {
                Ok(e)
            }
        }
    }
}

/// Folds the lines over the accumulated entry, stopping at the first failure.
pub open spec fn spec_decode_lines(lines: Seq<Seq<char>>, e: EntryModel) -> Result<
    EntryModel,
    DecodeFailure,
>
    decreases lines.len(),
{
    if lines.len() == 0 {
        Ok(e)
    } else {
        match spec_apply_line(lines[0], e) {
            Ok(e2) => spec_decode_lines(lines.drop_first(), e2),
            Err(f) => Err(f),
        }
    }
}

/// What a record content decodes to.
pub open spec fn spec_decode(s: Seq<char>) -> Result<EntryModel, DecodeFailure> {
    spec_decode_lines(spec_split_lines(s), EntryModel::empty())
}

/// Decoding an empty content yields a record with every field absent.
pub proof fn lemma_decode_empty()
    ensures
        spec_decode(Seq::<char>::empty()) == Ok::<EntryModel, DecodeFailure>(EntryModel::empty()),
{
    let lines = spec_split_lines(Seq::<char>::empty());
    assert(lines =~= seq![Seq::<char>::empty()]);
    assert(lines.drop_first() =~= Seq::<Seq<char>>::empty());
    assert(spec_apply_line(lines[0], EntryModel::empty()) == Ok::<EntryModel, DecodeFailure>(
        EntryModel::empty(),
    ));
    assert(spec_decode_lines(Seq::<Seq<char>>::empty(), EntryModel::empty()) == Ok::<
        EntryModel,
        DecodeFailure,
    >(EntryModel::empty()));
}

/// The key of a line, when the line is neither empty nor a comment and has a
/// separator.
pub open spec fn spec_line_key(line: Seq<char>) -> Option<Seq<char>> {
    if line.len() == 0 || line[0] == '#' || spec_find(line, '=') < 0 {
        None
    } else {
        Some(line.take(spec_find(line, '=')))
    }
}

proof fn lemma_decode_lines_next_unset(lines: Seq<Seq<char>>, e: EntryModel)
    requires
        e.next is None,
        forall|i: int| 0 <= i < lines.len() ==> #[trigger] spec_line_key(lines[i]) != Some(
            "next"@,
        ),
    ensures
        spec_decode_lines(lines, e) matches Ok(m) ==> m.next is None,
    decreases lines.len(),
{
    if lines.len() > 0 {
        assert(spec_line_key(lines[0]) != Some("next"@));
        match spec_apply_line(lines[0], e) {
            Ok(e2) => {
                assert(e2.next is None);
                assert(forall|i: int|
                    0 <= i < lines.drop_first().len() ==> #[trigger] spec_line_key(
                        lines.drop_first()[i],
                    ) != Some("next"@));
                lemma_decode_lines_next_unset(lines.drop_first(), e2);
            },
            Err(_) => {},
        }
    }
}

/// Decode of a content none of whose lines carries the key `next` always
/// yields `next = None`.
pub proof fn lemma_no_next_line_yields_no_next(s: Seq<char>)
    requires
        forall|i: int| 0 <= i < spec_split_lines(s).len() ==> #[trigger] spec_line_key(
            spec_split_lines(s)[i],
        ) != Some("next"@),
    ensures
        spec_decode(s) matches Ok(m) ==> m.next is None,
{
    lemma_decode_lines_next_unset(spec_split_lines(s), EntryModel::empty());
}

impl Default for FileEntry {
    /// The entry with every field absent.
    fn default() -> (r: FileEntry)
        ensures
            r@ == EntryModel::empty(),
    {
        FileEntry { name: None, size: None, len: None, next: None }
    }
}

impl FileEntry {
    /// The entry with every field absent.
    pub fn new() -> (r: FileEntry)
        ensures
            r@ == EntryModel::empty(),
    {
        FileEntry { name: None, size: None, len: None, next: None }
    }

    /// Decodes a record content.
    #[verifier::rlimit(60)]
    pub fn from_str(s: &str) -> (r: Result<FileEntry, ParseError>)
        ensures
            match r {
                Ok(e) => spec_decode(s@) == Ok::<EntryModel, DecodeFailure>(e@),
                Err(ParseError::InvalidInput(t)) => spec_decode(s@) == Err::<
                    EntryModel,
                    DecodeFailure,
                >(DecodeFailure::MissingSeparator) && t@ == s@,
                Err(ParseError::ParseIntError(k)) => spec_decode(s@) == Err::<
                    EntryModel,
                    DecodeFailure,
                >(DecodeFailure::BadNumber(k)),
            },
    {
        let mut entry = FileEntry::new();
        let len = s.unicode_len();
        let mut pos: usize = 0;
        let mut finished = false;
        proof {
            assert(s@.skip(0) =~= s@);
        }
        while !finished
            invariant
                0 <= pos <= len,
                len == s@.len(),
                !finished ==> spec_decode(s@) == spec_decode_lines(
                    spec_split_lines(s@.skip(pos as int)),
                    entry@,
                ),
                finished ==> spec_decode(s@) == Ok::<EntryModel, DecodeFailure>(entry@),
            decreases len - pos, (if finished { 0int } else { 1int }),
        {
            let ghost rest = s@.skip(pos as int);
            let line_end: usize = match find_char_from(s, pos, '\n') {
                Some(i) => i,
                None => len,
            };
            proof {
                assert forall|j: int| 0 <= j < line_end - pos implies rest[j] != '\n' by {
                    assert(rest[j] == s@[pos + j]);
                }
                if line_end < len {
                    assert(rest[line_end - pos] == s@[line_end as int]);
                }
                lemma_split_lines_at(rest, line_end - pos);
            }
            let ghost line = s@.subrange(pos as int, line_end as int);
            proof {
                assert(rest.take(line_end - pos) =~= line);
                if line_end < len {
                    assert(rest.skip(line_end - pos + 1) =~= s@.skip(line_end + 1));
                    assert(spec_split_lines(rest) == seq![line] + spec_split_lines(
                        s@.skip(line_end + 1),
                    ));
                    assert((seq![line] + spec_split_lines(s@.skip(line_end + 1)))[0] == line);
                    assert((seq![line] + spec_split_lines(s@.skip(line_end + 1))).drop_first()
                        =~= spec_split_lines(s@.skip(line_end + 1)));
                } else {
                    assert(rest =~= line);
                    assert(spec_split_lines(rest) == seq![line]);
                    assert(seq![line][0] == line);
                    assert(seq![line].drop_first() =~= Seq::<Seq<char>>::empty());
                }
            }
            let ghost entry_before = entry@;
            // Apply the line to the entry.
            if line_end == pos || s.get_char(pos) == '#' {
                proof {
                    if line_end > pos {
                        assert(line[0] == s@[pos as int]);
                    }
                    assert(spec_apply_line(line, entry@) == Ok::<EntryModel, DecodeFailure>(
                        entry@,
                    ));
                }
            } else {
                proof {
                    assert(line[0] == s@[pos as int]);
                    assert(line.len() > 0 && line[0] != '#');
                }
                let eq_pos = match find_char_from(s, pos, '=') {
                    Some(i) if i < line_end => i,
                    _ => {
                        proof {
                            assert forall|j: int| 0 <= j < line.len() implies line[j] != '=' by {
                                assert(line[j] == s@[pos + j]);
                            }
                            lemma_find_none(line, '=');
                            assert(spec_apply_line(line, entry@) == Err::<
                                EntryModel,
                                DecodeFailure,
                            >(DecodeFailure::MissingSeparator));
                            assert(spec_decode(s@) == Err::<EntryModel, DecodeFailure>(
                                DecodeFailure::MissingSeparator,
                            ));
                        }
                        return Err(ParseError::InvalidInput(s.to_owned()));
                    },
                };
                proof {
                    assert(line[eq_pos - pos] == s@[eq_pos as int]);
                    assert forall|j: int| 0 <= j < eq_pos - pos implies line[j] != '=' by {
                        assert(line[j] == s@[pos + j]);
                    }
                    lemma_find_is(line, '=', eq_pos - pos);
                    assert(line.take(eq_pos - pos) =~= s@.subrange(pos as int, eq_pos as int));
                    assert(line.skip(eq_pos - pos + 1) =~= s@.subrange(
                        eq_pos + 1,
                        line_end as int,
                    ));
                }
                let key = s.substring_char(pos, eq_pos);
                let val = s.substring_char(eq_pos + 1, line_end);
                if str_eq(key, "name") {
                    entry.name = Some(substring_string(s, eq_pos + 1, line_end));
                } else if str_eq(key, "size") {
                    match parse_u64(val) {
                        Ok(v) => {
                            entry.size = Some(v);
                        },
                        Err(k) => {
                            proof {
                                assert(spec_decode(s@) == Err::<EntryModel, DecodeFailure>(
                                    DecodeFailure::BadNumber(k),
                                ));
                            }
                            return Err(ParseError::ParseIntError(k));
                        },
                    }
                } else if str_eq(key, "len") {
                    match parse_usize(val) {
                        Ok(v) => {
                            entry.len = Some(v);
                        },
                        Err(k) => {
                            proof {
                                assert(spec_decode(s@) == Err::<EntryModel, DecodeFailure>(
                                    DecodeFailure::BadNumber(k),
                                ));
                            }
                            return Err(ParseError::ParseIntError(k));
                        },
                    }
                } else if str_eq(key, "next") {
                    match parse_u64(val) {
                        Ok(v) => {
                            entry.next = Some(v);
                        },
                        Err(k) => {
                            proof {
                                assert(spec_decode(s@) == Err::<EntryModel, DecodeFailure>(
                                    DecodeFailure::BadNumber(k),
                                ));
                            }
                            return Err(ParseError::ParseIntError(k));
                        },
                    }
                }
                proof {
                    assert(spec_apply_line(line, entry_before) == Ok::<
                        EntryModel,
                        DecodeFailure,
                    >(entry@));
                }
            }
            if line_end < len {
                pos = line_end + 1;
                proof {
                    assert(spec_decode(s@) == spec_decode_lines(
                        spec_split_lines(s@.skip(pos as int)),
                        entry@,
                    ));
                }
            } else {
                finished = true;
                proof {
                    assert(spec_decode_lines(Seq::<Seq<char>>::empty(), entry@) == Ok::<
                        EntryModel,
                        DecodeFailure,
                    >(entry@));
                    assert(spec_decode_lines(seq![line], entry_before) == Ok::<
                        EntryModel,
                        DecodeFailure,
                    >(entry@));
                    assert(spec_decode(s@) == Ok::<EntryModel, DecodeFailure>(entry@));
                }
            }
        }
        Ok(entry)
    }
}

} // verus!
