//! The chain-record codec, encode side.  A head record's content is the
//! marker line followed by `name=`, `size=` and `len=` lines and, when the
//! record has a successor, a `next=` line; a continuation record carries only
//! its `next=` line, or nothing at all on the tail.  Encoding is exact, and
//! decoding an encoded content is proved to give back the encoded fields.

use vstd::prelude::*;
use vstd::string::*;
use crate::numbers::all_digits;
use crate::numbers::dec_chars;
use crate::numbers::is_digit;
use crate::numbers::lemma_dec_chars_value;
use crate::numbers::spec_parse_u64;
use crate::numbers::spec_parse_usize;
use crate::numbers::u64_to_string;
use crate::parser::DecodeFailure;
use crate::parser::EntryModel;
use crate::parser::lemma_find_is;
use crate::parser::lemma_split_lines_at;
use crate::parser::spec_apply_line;
use crate::parser::spec_decode;
use crate::parser::spec_decode_lines;
use crate::parser::spec_find;
use crate::parser::spec_split_lines;
use crate::text::spec_starts_with;
use crate::text::str_starts_with;

verus! {

/// The marker line that identifies records written by this protocol.
pub open spec fn spec_marker() -> Seq<char> {
    "### This message is generated by Distore. Do not edit this message."@
}

/// The marker line, for writing and for prefix tests.
pub fn marker_line() -> (r: &'static str)
    ensures
        r@ == spec_marker(),
{
    "### This message is generated by Distore. Do not edit this message."
}

/// No `'\n'` occurs in `s`: it fits on one line.
pub open spec fn line_clean(s: Seq<char>) -> bool {
    forall|i: int| 0 <= i < s.len() ==> s[i] != '\n'
}

/// Does `s` fit on one line?
pub fn is_line_clean(s: &str) -> (r: bool)
    ensures
        r == line_clean(s@),
{
    match crate::text::find_char_from(s, 0, '\n') {
        Some(_) => false,
        None => true,
    }
}

/// One `key=value` line.
pub open spec fn kv_line(key: Seq<char>, val: Seq<char>) -> Seq<char> {
    key + seq!['='] + val
}

/// Joins lines with single `'\n'` separators; no trailing separator.
pub open spec fn join_lines(lines: Seq<Seq<char>>) -> Seq<char>
    decreases lines.len(),
{
    if lines.len() == 0 {
        Seq::empty()
    } else if lines.len() == 1 {
        lines[0]
    } else {
        lines[0] + seq!['\n'] + join_lines(lines.drop_first())
    }
}

/// Splitting a join of clean lines gives the lines back.
pub proof fn lemma_split_join(lines: Seq<Seq<char>>)
    requires
        lines.len() >= 1,
        forall|i: int| 0 <= i < lines.len() ==> line_clean(#[trigger] lines[i]),
    ensures
        spec_split_lines(join_lines(lines)) == lines,
    decreases lines.len(),
{
    let s = join_lines(lines);
    if lines.len() == 1 {
        lemma_split_lines_at(s, s.len() as int);
        assert(spec_split_lines(s) =~~= lines);
    } else {
        let l0 = lines[0];
        let rest = lines.drop_first();
        assert(s == l0 + seq!['\n'] + join_lines(rest));
        assert forall|j: int| 0 <= j < l0.len() implies s[j] != '\n' by {
            assert(s[j] == l0[j]);
        }
        assert(s[l0.len() as int] == '\n');
        lemma_split_lines_at(s, l0.len() as int);
        assert(s.take(l0.len() as int) =~= l0);
        assert(s.skip(l0.len() as int + 1) =~= join_lines(rest));
        assert(forall|i: int| 0 <= i < rest.len() ==> line_clean(#[trigger] rest[i]));
        lemma_split_join(rest);
        assert(spec_split_lines(s) =~~= lines);
    }
}

/// The lines of a head record's content.
pub open spec fn spec_head_lines(
    name: Seq<char>,
    size: u64,
    len: usize,
    next: Option<u64>,
) -> Seq<Seq<char>> {
    seq![
        spec_marker(),
        kv_line("name"@, name),
        kv_line("size"@, dec_chars(size as nat)),
        kv_line("len"@, dec_chars(len as nat)),
        match next {
            Some(id) => kv_line("next"@, dec_chars(id as nat)),
            None => Seq::empty(),
        },
    ]
}

/// A head record's content.
pub open spec fn spec_head_content(
    name: Seq<char>,
    size: u64,
    len: usize,
    next: Option<u64>,
) -> Seq<char> {
    join_lines(spec_head_lines(name, size, len, next))
}

/// A continuation record's content: its `next=` line, or nothing on the tail.
pub open spec fn spec_tail_content(next: Option<u64>) -> Seq<char> {
    match next {
        Some(id) => kv_line("next"@, dec_chars(id as nat)),
        None => Seq::empty(),
    }
}

/// Unfolds the join of the five head lines into one concatenation.
proof fn lemma_head_join(name: Seq<char>, size: u64, len: usize, next: Option<u64>)
    ensures
        spec_head_content(name, size, len, next) == spec_marker() + seq!['\n'] + kv_line(
            "name"@,
            name,
        ) + seq!['\n'] + kv_line("size"@, dec_chars(size as nat)) + seq!['\n'] + kv_line(
            "len"@,
            dec_chars(len as nat),
        ) + seq!['\n'] + spec_tail_content(next),
{
    let lines = spec_head_lines(name, size, len, next);
    let t4 = seq![lines[4]];
    let t3 = seq![lines[3], lines[4]];
    let t2 = seq![lines[2], lines[3], lines[4]];
    let t1 = seq![lines[1], lines[2], lines[3], lines[4]];
    assert(lines.drop_first() =~~= t1);
    assert(t1.drop_first() =~~= t2);
    assert(t2.drop_first() =~~= t3);
    assert(t3.drop_first() =~~= t4);
    assert(join_lines(t4) == lines[4]);
    assert(join_lines(t3) == lines[3] + seq!['\n'] + lines[4]);
    assert(join_lines(t2) == lines[2] + seq!['\n'] + join_lines(t3));
    assert(join_lines(t1) == lines[1] + seq!['\n'] + join_lines(t2));
    assert(join_lines(lines) == lines[0] + seq!['\n'] + join_lines(t1));
    assert(join_lines(lines) =~= spec_marker() + seq!['\n'] + kv_line("name"@, name)
        + seq!['\n'] + kv_line("size"@, dec_chars(size as nat)) + seq!['\n'] + kv_line(
        "len"@,
        dec_chars(len as nat),
    ) + seq!['\n'] + spec_tail_content(next));
}

/// Builds a head record's content.  The wire format keeps the name on one
/// line, so it must hold no newline; with one, the content could not be
/// decoded again.
pub fn head_content(name: &str, size: u64, len: usize, next: Option<u64>) -> (r: String)
    requires
        line_clean(name@),
    ensures
        r@ == spec_head_content(name@, size, len, next),
{
    let mut out = marker_line().to_owned();
    out.append("\nname=");
    out.append(name);
    out.append("\nsize=");
    let size_str = u64_to_string(size);
    out.append(size_str.as_str());
    out.append("\nlen=");
    let len_str = u64_to_string(len as u64);
    out.append(len_str.as_str());
    out.append("\n");
    match next {
        Some(id) => {
            out.append("next=");
            let id_str = u64_to_string(id);
            out.append(id_str.as_str());
        },
        None => {},
    }
    proof {
        reveal_strlit("\nname=");
        reveal_strlit("name");
        reveal_strlit("\nsize=");
        reveal_strlit("size");
        reveal_strlit("\nlen=");
        reveal_strlit("len");
        reveal_strlit("next=");
        reveal_strlit("next");
        reveal_strlit("\n");
        lemma_head_join(name@, size, len, next);
        assert(out@ =~= spec_head_content(name@, size, len, next));
    }
    out
}

/// Builds a continuation record's content.
pub fn tail_content(next: Option<u64>) -> (r: String)
    ensures
        r@ == spec_tail_content(next),
{
    let mut out = String::new();
    match next {
        Some(id) => {
            out.append("next=");
            let id_str = u64_to_string(id);
            out.append(id_str.as_str());
        },
        None => {},
    }
    proof {
        reveal_strlit("next=");
        reveal_strlit("next");
        match next {
            Some(id) => {
                assert(out@ =~= spec_tail_content(next));
            },
            None => {
                assert(out@ =~= spec_tail_content(next));
            },
        }
    }
    out
}

/// Does a content begin with the marker line and its newline?
pub fn is_marked(content: &str) -> (r: bool)
    ensures
        r == spec_starts_with(content@, spec_marker() + seq!['\n']),
{
    let r = str_starts_with(
        content,
        "### This message is generated by Distore. Do not edit this message.\n",
    );
    proof {
        reveal_strlit("### This message is generated by Distore. Do not edit this message.\n");
        reveal_strlit("### This message is generated by Distore. Do not edit this message.");
        assert("### This message is generated by Distore. Do not edit this message.\n"@
            =~= spec_marker() + seq!['\n']);
    }
    r
}

/// The key of `kv_line(key, val)` is `key` whenever `key` itself has no `=`.
proof fn lemma_find_kv(key: Seq<char>, val: Seq<char>)
    requires
        forall|j: int| 0 <= j < key.len() ==> key[j] != '=',
    ensures
        spec_find(kv_line(key, val), '=') == key.len(),
        kv_line(key, val).take(key.len() as int) == key,
        kv_line(key, val).skip(key.len() as int + 1) == val,
{
    let line = kv_line(key, val);
    assert(line[key.len() as int] == '=');
    assert forall|j: int| 0 <= j < key.len() implies line[j] != '=' by {
        assert(line[j] == key[j]);
    }
    lemma_find_is(line, '=', key.len() as int);
    assert(line.take(key.len() as int) =~= key);
    assert(line.skip(key.len() as int + 1) =~= val);
}

/// Decoding an encoded head content yields exactly the encoded fields.
pub proof fn lemma_decode_head(name: Seq<char>, size: u64, len: usize, next: Option<u64>)
    requires
        line_clean(name),
    ensures
        spec_decode(spec_head_content(name, size, len, next)) == Ok::<EntryModel, DecodeFailure>(
            EntryModel { name: Some(name), size: Some(size), len: Some(len), next },
        ),
{
    reveal_strlit("### This message is generated by Distore. Do not edit this message.");
    reveal_strlit("name");
    reveal_strlit("size");
    reveal_strlit("len");
    reveal_strlit("next");
    let lines = spec_head_lines(name, size, len, next);
    lemma_dec_chars_value(size as nat);
    lemma_dec_chars_value(len as nat);
    if next is Some {
        lemma_dec_chars_value(next->0 as nat);
    }
    assert forall|i: int| 0 <= i < lines.len() implies line_clean(#[trigger] lines[i]) by {
        assert(line_clean(spec_marker()));
        assert(line_clean("name"@) && line_clean("size"@) && line_clean("len"@) && line_clean(
            "next"@,
        ));
        assert(forall|s: Seq<char>, j: int|
            all_digits(s) && 0 <= j < s.len() ==> is_digit(#[trigger] s[j]) && s[j] != '\n');
        assert(line_clean(dec_chars(size as nat)));
        assert(line_clean(dec_chars(len as nat)));
        if i == 1 {
            assert(forall|j: int| 0 <= j < lines[1].len() ==> lines[1][j] == (kv_line(
                "name"@,
                name,
            ))[j]);
        }
    }
    lemma_split_join(lines);
    // Fold the five lines through the decoder.
    let e0 = EntryModel::empty();
    assert(spec_apply_line(lines[0], e0) == Ok::<EntryModel, DecodeFailure>(e0)) by {
        assert(lines[0][0] == '#');
    }
    lemma_find_kv("name"@, name);
    lemma_find_kv("size"@, dec_chars(size as nat));
    lemma_find_kv("len"@, dec_chars(len as nat));
    assert("name"@ != "size"@ && "name"@ != "len"@ && "name"@ != "next"@) by {
        assert("name"@[0] == 'n' && "size"@[0] == 's' && "len"@.len() == 3 && "next"@[1] == 'e'
            && "name"@[1] == 'a');
    }
    assert("size"@ != "len"@ && "size"@ != "next"@ && "len"@ != "next"@) by {
        assert("size"@[0] == 's' && "len"@.len() == 3 && "next"@[0] == 'n');
    }
    let e1 = EntryModel { name: Some(name), ..e0 };
    assert(spec_apply_line(lines[1], e0) == Ok::<EntryModel, DecodeFailure>(e1));
    let e2 = EntryModel { size: Some(size), ..e1 };
    assert(spec_apply_line(lines[2], e1) == Ok::<EntryModel, DecodeFailure>(e2)) by {
        assert(spec_parse_u64(dec_chars(size as nat)) == Ok::<u64, crate::numbers::IntParseError>(
            size,
        ));
    }
    let e3 = EntryModel { len: Some(len), ..e2 };
    assert(spec_apply_line(lines[3], e2) == Ok::<EntryModel, DecodeFailure>(e3)) by {
        assert(spec_parse_usize(dec_chars(len as nat)) == Ok::<
            usize,
            crate::numbers::IntParseError,
        >(len));
    }
    let e4 = EntryModel { next, ..e3 };
    assert(spec_apply_line(lines[4], e3) == Ok::<EntryModel, DecodeFailure>(e4)) by {
        match next {
            Some(id) => {
                lemma_find_kv("next"@, dec_chars(id as nat));
                assert(spec_parse_u64(dec_chars(id as nat)) == Ok::<
                    u64,
                    crate::numbers::IntParseError,
                >(id));
            },
            None => {
                assert(lines[4].len() == 0);
            },
        }
    }
    // Chain the unfolding of spec_decode_lines.
    let t1 = seq![lines[1], lines[2], lines[3], lines[4]];
    let t2 = seq![lines[2], lines[3], lines[4]];
    let t3 = seq![lines[3], lines[4]];
    let t4 = seq![lines[4]];
    assert(lines.drop_first() =~~= t1);
    assert(t1.drop_first() =~~= t2);
    assert(t2.drop_first() =~~= t3);
    assert(t3.drop_first() =~~= t4);
    assert(t4.drop_first() =~~= Seq::<Seq<char>>::empty());
    assert(spec_decode_lines(Seq::<Seq<char>>::empty(), e4) == Ok::<EntryModel, DecodeFailure>(
        e4,
    ));
    assert(spec_decode_lines(t4, e3) == Ok::<EntryModel, DecodeFailure>(e4));
    assert(spec_decode_lines(t3, e2) == Ok::<EntryModel, DecodeFailure>(e4));
    assert(spec_decode_lines(t2, e1) == Ok::<EntryModel, DecodeFailure>(e4));
    assert(spec_decode_lines(t1, e0) == Ok::<EntryModel, DecodeFailure>(e4));
    assert(spec_decode_lines(lines, e0) == Ok::<EntryModel, DecodeFailure>(e4));
    assert(e4 == EntryModel { name: Some(name), size: Some(size), len: Some(len), next });
}

/// Decoding an encoded continuation content yields exactly its `next` field.
pub proof fn lemma_decode_tail(next: Option<u64>)
    ensures
        spec_decode(spec_tail_content(next)) == Ok::<EntryModel, DecodeFailure>(
            EntryModel { name: None, size: None, len: None, next },
        ),
{
    reveal_strlit("next");
    reveal_strlit("name");
    reveal_strlit("size");
    reveal_strlit("len");
    let s = spec_tail_content(next);
    let e0 = EntryModel::empty();
    assert("next"@ != "name"@ && "next"@ != "size"@ && "next"@ != "len"@) by {
        assert("next"@[1] == 'e' && "name"@[1] == 'a' && "size"@[0] == 's' && "len"@.len() == 3);
    }
    match next {
        Some(id) => {
            lemma_dec_chars_value(id as nat);
            assert forall|j: int| 0 <= j < s.len() implies s[j] != '\n' by {
                if j < 4 {
                    assert(s[j] == "next"@[j]);
                } else if j == 4 {
                    assert(s[j] == '=');
                } else {
                    assert(s[j] == dec_chars(id as nat)[j - 5]);
                    assert(is_digit(dec_chars(id as nat)[j - 5]));
                }
            }
            lemma_split_lines_at(s, s.len() as int);
            lemma_find_kv("next"@, dec_chars(id as nat));
            let e1 = EntryModel { next: Some(id), ..e0 };
            assert(spec_apply_line(s, e0) == Ok::<EntryModel, DecodeFailure>(e1)) by {
                assert(s[0] == 'n');
                assert(spec_parse_u64(dec_chars(id as nat)) == Ok::<
                    u64,
                    crate::numbers::IntParseError,
                >(id));
            }
            assert(seq![s].drop_first() =~~= Seq::<Seq<char>>::empty());
            assert(seq![s][0] == s);
            assert(spec_decode_lines(Seq::<Seq<char>>::empty(), e1) == Ok::<
                EntryModel,
                DecodeFailure,
            >(e1));
            assert(spec_decode_lines(seq![s], e0) == Ok::<EntryModel, DecodeFailure>(e1));
        },
        None => {
            crate::parser::lemma_decode_empty();
        },
    }
}

} // verus!
