//! The extent splitter and its inverse: a byte stream is cut into extents of
//! a fixed size, named `<stem>.part<index>` with indices contiguous from 0,
//! and a file is rebuilt by concatenating its extents in full numeric index
//! order.

use vstd::prelude::*;
use vstd::string::*;
use crate::batch::spec_chunks;
use crate::batch::lemma_chunks_flatten;
use crate::numbers::IntParseError;
use crate::numbers::dec_chars;
use crate::numbers::dec_value;
use crate::numbers::lemma_dec_chars_value;
use crate::numbers::parse_u64;
use crate::numbers::spec_parse_u64;
use crate::numbers::u64_to_string;
use crate::text::str_eq;
use crate::text::str_starts_with;

verus! {

/// The name of extent `index` of a source named `stem`.
pub open spec fn spec_part_name(stem: Seq<char>, index: nat) -> Seq<char> {
    stem + ".part"@ + dec_chars(index)
}

/// `stem` followed by `.part`: what every extent name of `stem` starts with.
fn part_prefix(stem: &str) -> (r: String)
    ensures
        r@ == stem@ + ".part"@,
{
    let mut out = stem.to_owned();
    out.append(".part");
    out
}

/// Builds the name of one extent.
fn part_name_u64(stem: &str, index: u64) -> (r: String)
    ensures
        r@ == spec_part_name(stem@, index as nat),
{
    let mut out = part_prefix(stem);
    let digits = u64_to_string(index);
    out.append(digits.as_str());
    proof {
        assert(out@ =~= spec_part_name(stem@, index as nat));
    }
    out
}

/// Builds the name of one extent.
pub fn part_name(stem: &str, index: usize) -> (r: String)
    ensures
        r@ == spec_part_name(stem@, index as nat),
{
    part_name_u64(stem, index as u64)
}

/// Two extent names of one stem with equal text carry equal indices.
proof fn lemma_part_name_injective(stem: Seq<char>, a: nat, b: nat)
    requires
        spec_part_name(stem, a) == spec_part_name(stem, b),
    ensures
        a == b,
{
    lemma_dec_chars_value(a);
    lemma_dec_chars_value(b);
    let p = stem + ".part"@;
    assert(spec_part_name(stem, a).skip(p.len() as int) =~= dec_chars(a));
    assert(spec_part_name(stem, b).skip(p.len() as int) =~= dec_chars(b));
    assert(dec_value(dec_chars(a)) == dec_value(dec_chars(b)));
}

/// The index `name` carries as an extent of `stem`, if it is one: exactly
/// the names `<stem>.part<canonical numeral>` match.
fn part_index_of(name: &str, stem: &str) -> (r: Option<u64>)
    ensures
        match r {
            Some(v) => name@ == spec_part_name(stem@, v as nat),
            None => forall|k: u64| name@ != spec_part_name(stem@, k as nat),
        },
{
    let prefix = part_prefix(stem);
    if !str_starts_with(name, prefix.as_str()) {
        proof {
            assert forall|k: u64| name@ != spec_part_name(stem@, k as nat) by {
                if name@ == spec_part_name(stem@, k as nat) {
                    lemma_dec_chars_value(k as nat);
                    assert(name@.take(prefix@.len() as int) =~= prefix@);
                }
            }
        }
        return None;
    }
    let plen = prefix.as_str().unicode_len();
    let nlen = name.unicode_len();
    let suffix = name.substring_char(plen, nlen);
    let v = match parse_u64(suffix) {
        Ok(v) => v,
        Err(_) => {
            proof {
                assert forall|k: u64| name@ != spec_part_name(stem@, k as nat) by {
                    if name@ == spec_part_name(stem@, k as nat) {
                        lemma_dec_chars_value(k as nat);
                        assert(suffix@ =~= dec_chars(k as nat));
                        assert(spec_parse_u64(dec_chars(k as nat)) == Ok::<u64, IntParseError>(
                            k,
                        ));
                    }
                }
            }
            return None;
        },
    };
    let candidate = part_name_u64(stem, v);
    if str_eq(name, candidate.as_str()) {
        Some(v)
    } else {
        proof {
            assert forall|k: u64| name@ != spec_part_name(stem@, k as nat) by {
                if name@ == spec_part_name(stem@, k as nat) {
                    lemma_dec_chars_value(k as nat);
                    assert(suffix@ =~= dec_chars(k as nat));
                    assert(spec_parse_u64(dec_chars(k as nat)) == Ok::<u64, IntParseError>(k));
                    assert(v == k);
                }
            }
        }
        None
    }
}

/// Some entry of `names` is an extent of `stem` with an index at or above
/// `n`: what a contiguous run of length `n` must not leave behind.
pub open spec fn stray_part_beyond(names: Seq<String>, stem: Seq<char>, n: nat) -> bool {
    exists|j: int, k: u64|
        #![trigger names[j], spec_part_name(stem, k as nat)]
        0 <= j < names.len() && n <= k && names[j]@ == spec_part_name(stem, k as nat)
}

/// Cuts `data` into extents of `part_size` bytes; only the last extent may
/// be shorter, and an empty source yields no extents.
pub fn disassemble(data: &Vec<u8>, part_size: usize) -> (r: Vec<Vec<u8>>)
    requires
        part_size > 0,
    ensures
        r@.map_values(|p: Vec<u8>| p@) == spec_chunks(data@, part_size as nat),
{
    let mut out: Vec<Vec<u8>> = Vec::new();
    let mut i: usize = 0;
    proof {
        assert(data@.skip(0) =~= data@);
        assert(out@.map_values(|p: Vec<u8>| p@) + spec_chunks(data@.skip(0), part_size as nat)
            =~= spec_chunks(data@, part_size as nat));
    }
    while i < data.len()
        invariant
            part_size > 0,
            0 <= i <= data@.len(),
            out@.map_values(|p: Vec<u8>| p@) + spec_chunks(data@.skip(i as int), part_size as nat)
                == spec_chunks(data@, part_size as nat),
        decreases data@.len() - i,
    {
        let ghost rest = data@.skip(i as int);
        let end = if data.len() - i > part_size {
            i + part_size
        } else {
            data.len()
        };
        let mut chunk: Vec<u8> = Vec::new();
        let mut j: usize = i;
        while j < end
            invariant
                i <= j <= end,
                end <= data@.len(),
                chunk@ == data@.subrange(i as int, j as int),
            decreases end - j,
        {
            let b = data[j];
            chunk.push(b);
            j += 1;
            proof {
                assert(chunk@ =~= data@.subrange(i as int, j as int));
            }
        }
        proof {
            if rest.len() <= part_size {
                assert(chunk@ =~= rest);
                assert(spec_chunks(rest, part_size as nat) =~= seq![rest]);
            } else {
                assert(chunk@ =~= rest.take(part_size as int));
                assert(rest.skip(part_size as int) =~= data@.skip(end as int));
            }
        }
        let ghost out_before = out@;
        out.push(chunk);
        i = end;
        proof {
            assert(out@.map_values(|p: Vec<u8>| p@) =~= out_before.map_values(|p: Vec<u8>| p@)
                + seq![data@.subrange((end - (if rest.len() <= part_size as nat {
                rest.len()
            } else {
                part_size as nat
            })) as int, end as int)]);
            assert(out@.map_values(|p: Vec<u8>| p@) + spec_chunks(
                data@.skip(i as int),
                part_size as nat,
            ) =~= spec_chunks(data@, part_size as nat));
        }
    }
    proof {
        assert(data@.skip(i as int) =~= Seq::<u8>::empty());
        assert(out@.map_values(|p: Vec<u8>| p@) =~= spec_chunks(data@, part_size as nat));
    }
    out
}

/// Concatenates extents, in the order given, into one byte vector.
pub fn assemble(parts: &Vec<Vec<u8>>) -> (r: Vec<u8>)
    ensures
        r@ == parts@.map_values(|p: Vec<u8>| p@).flatten(),
{
    let ghost m = parts@.map_values(|p: Vec<u8>| p@);
    let mut out: Vec<u8> = Vec::new();
    let mut k: usize = 0;
    proof {
        assert(m.take(0) =~= Seq::<Seq<u8>>::empty());
        assert(out@ =~= m.take(0).flatten());
    }
    while k < parts.len()
        invariant
            0 <= k <= parts@.len(),
            m == parts@.map_values(|p: Vec<u8>| p@),
            out@ == m.take(k as int).flatten(),
        decreases parts@.len() - k,
    {
        out.extend_from_slice(parts[k].as_slice());
        k += 1;
        proof {
            let prev = m.take(k - 1);
            let cur = m.take(k as int);
            assert(cur.drop_last() =~= prev);
            cur.lemma_flatten_and_flatten_alt_are_equivalent();
            prev.lemma_flatten_and_flatten_alt_are_equivalent();
            assert(cur.flatten_alt() == prev.flatten_alt() + cur.last());
            assert(cur.last() == m[k - 1]);
        }
    }
    proof {
        assert(m.take(parts@.len() as int) =~= m);
    }
    out
}

/// Splitting a stream into extents and assembling them again gives the
/// stream back, byte for byte.
pub proof fn lemma_assemble_disassemble(data: Seq<u8>, part_size: nat)
    requires
        part_size > 0,
    ensures
        spec_chunks(data, part_size).flatten() == data,
{
    lemma_chunks_flatten(data, part_size);
}

/// Some entry of `names` is exactly `target`.
pub open spec fn name_present(names: Seq<String>, target: Seq<char>) -> bool {
    exists|j: int| 0 <= j < names.len() && #[trigger] names[j]@ == target
}

/// Is some entry of `names` exactly `target`?
fn contains_name(names: &Vec<String>, target: &str) -> (r: bool)
    ensures
        r == name_present(names@, target@),
{
    let mut k: usize = 0;
    while k < names.len()
        invariant
            0 <= k <= names@.len(),
            forall|j: int| 0 <= j < k ==> names@[j]@ != target@,
        decreases names@.len() - k,
    {
        if str_eq(names[k].as_str(), target) {
            return true;
        }
        k += 1;
    }
    false
}

/// Collects, from a directory listing, the extent names of `stem` in full
/// numeric index order: `<stem>.part0`, `<stem>.part1`, ... — ordering by
/// the numeric index keeps ten or more extents in their true order, where
/// ordering by the name's last character would not.  The run must be
/// contiguous: when an extent exists beyond a missing index, no list is
/// returned, so a gap can never yield a silently truncated file.
pub fn ordered_part_names(names: &Vec<String>, stem: &str) -> (r: Option<Vec<String>>)
    ensures
        match r {
            Some(v) => {
                &&& forall|k: int| 0 <= k < v@.len() ==> #[trigger] v@[k]@ == spec_part_name(
                    stem@,
                    k as nat,
                )
                &&& forall|k: int| 0 <= k < v@.len() ==> name_present(
                    names@,
                    #[trigger] spec_part_name(stem@, k as nat),
                )
                &&& !stray_part_beyond(names@, stem@, v@.len() as nat)
            },
            None => exists|g: u64, k: u64|
                #![trigger spec_part_name(stem@, g as nat), spec_part_name(stem@, k as nat)]
                g < k && !name_present(names@, spec_part_name(stem@, g as nat)) && name_present(
                    names@,
                    spec_part_name(stem@, k as nat),
                ),
        },
{
    // Find the greatest extent index that occurs in the listing.
    let mut max_idx: u64 = 0;
    let mut any = false;
    let mut j: usize = 0;
    while j < names.len()
        invariant
            0 <= j <= names@.len(),
            any ==> name_present(names@, spec_part_name(stem@, max_idx as nat)),
            forall|j2: int, k: u64|
                #![trigger names@[j2], spec_part_name(stem@, k as nat)]
                0 <= j2 < j && names@[j2]@ == spec_part_name(stem@, k as nat) ==> any && k
                    <= max_idx,
        decreases names@.len() - j,
    {
        let ghost any0 = any;
        let ghost max0 = max_idx;
        match part_index_of(names[j].as_str(), stem) {
            Some(v) => {
                if !any || v > max_idx {
                    max_idx = v;
                    any = true;
                }
                proof {
                    assert forall|j2: int, k: u64|
                        0 <= j2 < j + 1 && #[trigger] names@[j2]@ == #[trigger] spec_part_name(
                            stem@,
                            k as nat,
                        ) implies any && k <= max_idx by {
                        if j2 == j {
                            lemma_part_name_injective(stem@, v as nat, k as nat);
                        }
                    }
                }
            },
            None => {},
        }
        j += 1;
    }
    if !any {
        proof {
            assert(!stray_part_beyond(names@, stem@, 0));
        }
        return Some(Vec::new());
    }
    // Collect the run 0 ..= max_idx; any missing index is a gap.
    let mut out: Vec<String> = Vec::new();
    let mut i: u64 = 0;
    let mut done = false;
    while !done
        invariant
            name_present(names@, spec_part_name(stem@, max_idx as nat)),
            forall|j2: int, k: u64|
                #![trigger names@[j2], spec_part_name(stem@, k as nat)]
                0 <= j2 < names@.len() && names@[j2]@ == spec_part_name(stem@, k as nat) ==> k
                    <= max_idx,
            !done ==> i <= max_idx && out@.len() == i,
            done ==> out@.len() == max_idx as int + 1,
            forall|k: int| 0 <= k < out@.len() ==> #[trigger] out@[k]@ == spec_part_name(
                stem@,
                k as nat,
            ),
            forall|k: int| 0 <= k < out@.len() ==> name_present(
                names@,
                #[trigger] spec_part_name(stem@, k as nat),
            ),
        decreases max_idx - i, (if done { 0int } else { 1int }),
    {
        let candidate = part_name_u64(stem, i);
        if contains_name(names, candidate.as_str()) {
            out.push(candidate);
            if i == max_idx {
                done = true;
            } else {
                i += 1;
            }
        } else {
            proof {
                assert(i < max_idx);
                assert(!name_present(names@, spec_part_name(stem@, i as nat)));
                assert(name_present(names@, spec_part_name(stem@, max_idx as nat)));
            }
            return None;
        }
    }
    proof {
        assert(!stray_part_beyond(names@, stem@, out@.len() as nat));
    }
    Some(out)
}

} // verus!
