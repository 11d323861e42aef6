//! Executable decoding of NBT values from a byte slice, each function proved
//! to agree with its counterpart in [`crate::format`].

use vstd::prelude::*;
use vstd::slice::{slice_subrange, slice_to_vec};
use crate::format::{
    Decoded, NbtError, as_i32, as_i64, be32, be64, compound_insert, decode_lossy, fits,
    lemma_insert_unique,
    spec_byte, spec_byte_array, spec_document, spec_elems, spec_entries, spec_int,
    spec_int_array, spec_long, spec_long_array, spec_payload, spec_short, spec_string,
    spec_take, spec_u16, spec_u32, spec_u64,
};
use crate::tag::{
    TagValue, TagView, entry_views, keys_unique, lemma_compound_view, lemma_list_view, tag_views,
};

verus! {

/// `r` is the executable counterpart of the decoded result `s`.
pub open spec fn agrees<V>(r: Result<(V, usize), NbtError>, s: Decoded<V>) -> bool {
    match r {
        Ok((v, p)) => s == Ok::<(V, int), NbtError>((v, p as int)),
        Err(e) => s == Err::<(V, int), NbtError>(e),
    }
}

/// `r` is a decoded tag whose model is the decoded result `s`.
pub open spec fn agrees_tag(r: Result<(TagValue, usize), NbtError>, s: Decoded<TagView>) -> bool {
    match r {
        Ok((v, p)) => s == Ok::<(TagView, int), NbtError>((v@, p as int)),
        Err(e) => s == Err::<(TagView, int), NbtError>(e),
    }
}

pub(crate) fn byte_at(data: &[u8], pos: usize) -> (r: Result<(u8, usize), NbtError>)
    ensures
        agrees(r, spec_byte(data@, pos as int)),
{
    if pos < data.len() {
        Ok((data[pos], pos + 1))
    } else {
        Err(NbtError::UnexpectedEof)
    }
}

pub(crate) fn u16_at(data: &[u8], pos: usize) -> (r: Result<(u16, usize), NbtError>)
    ensures
        agrees(r, spec_u16(data@, pos as int)),
{
    if pos < data.len() && data.len() - pos >= 2 {
        let v: u16 = data[pos] as u16 * 256 + data[pos + 1] as u16;
        Ok((v, pos + 2))
    } else {
        Err(NbtError::UnexpectedEof)
    }
}

pub(crate) fn u32_at(data: &[u8], pos: usize) -> (r: Result<(u32, usize), NbtError>)
    ensures
        agrees(r, spec_u32(data@, pos as int)),
{
    if pos < data.len() && data.len() - pos >= 4 {
        let v: u32 = data[pos] as u32 * 16777216 + data[pos + 1] as u32 * 65536
            + data[pos + 2] as u32 * 256 + data[pos + 3] as u32;
        Ok((v, pos + 4))
    } else {
        Err(NbtError::UnexpectedEof)
    }
}

pub(crate) fn u64_at(data: &[u8], pos: usize) -> (r: Result<(u64, usize), NbtError>)
    ensures
        agrees(r, spec_u64(data@, pos as int)),
{
    if pos < data.len() && data.len() - pos >= 8 {
        let hi = u32_at(data, pos);
        let lo = u32_at(data, pos + 4);
        match (hi, lo) {
            (Ok((h, _)), Ok((l, _))) => {
                let v: u64 = h as u64 * 4294967296 + l as u64;
                Ok((v, pos + 8))
            },
            _ => Err(NbtError::UnexpectedEof),
        }
    } else {
        Err(NbtError::UnexpectedEof)
    }
}

pub(crate) fn short_at(data: &[u8], pos: usize) -> (r: Result<(i16, usize), NbtError>)
    ensures
        agrees(r, spec_short(data@, pos as int)),
{
    match u16_at(data, pos) {
        Ok((v, p)) => {
            let x: i16 = if v >= 32768 {
                (v - 32768) as i16 - 32767 - 1
            } else {
                v as i16
            };
            Ok((x, p))
        },
        Err(e) => Err(e),
    }
}

pub(crate) fn int_at(data: &[u8], pos: usize) -> (r: Result<(i32, usize), NbtError>)
    ensures
        agrees(r, spec_int(data@, pos as int)),
{
    match u32_at(data, pos) {
        Ok((v, p)) => {
            let x: i32 = if v >= 2147483648 {
                (v - 2147483648) as i32 - 2147483647 - 1
            } else {
                v as i32
            };
            Ok((x, p))
        },
        Err(e) => Err(e),
    }
}

pub(crate) fn long_at(data: &[u8], pos: usize) -> (r: Result<(i64, usize), NbtError>)
    ensures
        agrees(r, spec_long(data@, pos as int)),
{
    match u64_at(data, pos) {
        Ok((v, p)) => {
            let x: i64 = if v >= 9223372036854775808 {
                (v - 9223372036854775808) as i64 - 9223372036854775807 - 1
            } else {
                v as i64
            };
            Ok((x, p))
        },
        Err(e) => Err(e),
    }
}

/// The `n` bytes at `pos`, copied out.
pub(crate) fn take_at(data: &[u8], pos: usize, n: usize) -> (r: Result<(Vec<u8>, usize), NbtError>)
    ensures
        match r {
            Ok((v, p)) => spec_take(data@, pos as int, n as int) == Ok::<(Seq<u8>, int), NbtError>((v@, p as int)),
            Err(e) => spec_take(data@, pos as int, n as int) == Err::<(Seq<u8>, int), NbtError>(e),
        },
{
    if pos <= data.len() && data.len() - pos >= n {
        let v = slice_to_vec(slice_subrange(data, pos, pos + n));
        Ok((v, pos + n))
    } else {
        Err(NbtError::UnexpectedEof)
    }
}

pub(crate) fn string_at(data: &[u8], pos: usize) -> (r: Result<(String, usize), NbtError>)
    ensures
        match r {
            Ok((v, p)) => spec_string(data@, pos as int) == Ok::<(Seq<char>, int), NbtError>((v@, p as int)),
            Err(e) => spec_string(data@, pos as int) == Err::<(Seq<char>, int), NbtError>(e),
        },
{
    match u16_at(data, pos) {
        Err(e) => Err(e),
        Ok((n, p)) => {
            if data.len() - p >= n as usize {
                let s = decode_lossy(slice_subrange(data, p, p + n as usize));
                if n == 0 {
                    assert(s@ =~= Seq::<char>::empty());
                }
                Ok((s, p + n as usize))
            } else {
                Err(NbtError::UnexpectedEof)
            }
        },
    }
}

pub(crate) fn byte_array_at(data: &[u8], pos: usize) -> (r: Result<(Vec<u8>, usize), NbtError>)
    ensures
        match r {
            Ok((v, p)) => spec_byte_array(data@, pos as int) == Ok::<(Seq<u8>, int), NbtError>((v@, p as int)),
            Err(e) => spec_byte_array(data@, pos as int) == Err::<(Seq<u8>, int), NbtError>(e),
        },
{
    match u32_at(data, pos) {
        Err(e) => Err(e),
        Ok((n, p)) => {
            if (data.len() - p) as u64 >= n as u64 {
                take_at(data, p, n as usize)
            } else {
                Err(NbtError::UnexpectedEof)
            }
        },
    }
}

pub(crate) fn int_array_at(data: &[u8], pos: usize) -> (r: Result<(Vec<i32>, usize), NbtError>)
    ensures
        match r {
            Ok((v, p)) => spec_int_array(data@, pos as int) == Ok::<(Seq<i32>, int), NbtError>((v@, p as int)),
            Err(e) => spec_int_array(data@, pos as int) == Err::<(Seq<i32>, int), NbtError>(e),
        },
{
    match u32_at(data, pos) {
        Err(e) => Err(e),
        Ok((n, p)) => {
            if (data.len() - p) as u64 >= n as u64 * 4 {
                let mut out: Vec<i32> = Vec::new();
                let mut i: usize = 0;
                while i < n as usize
                    invariant
                        p == pos + 4,
                        data@.len() == data.len(),
                        fits(data@, pos as int, 4),
                        n as int == be32(data@, pos as int),
                        p + 4 * n <= data@.len(),
                        i <= n,
                        out@.len() == i,
                        forall|j: int| 0 <= j < i ==> out@[j] == as_i32(be32(data@, p + 4 * j)),
                    decreases n - i,
                {
                    let q: usize = p + 4 * i;
                    match int_at(data, q) {
                        Ok((v, _)) => out.push(v),
                        Err(e) => return Err(e),
                    }
                    i = i + 1;
                }
                assert(out@ =~= Seq::new(n as nat, |j: int| as_i32(be32(data@, pos + 4 + 4 * j))));
                Ok((out, p + 4 * n as usize))
            } else {
                Err(NbtError::UnexpectedEof)
            }
        },
    }
}

pub(crate) fn long_array_at(data: &[u8], pos: usize) -> (r: Result<(Vec<i64>, usize), NbtError>)
    ensures
        match r {
            Ok((v, p)) => spec_long_array(data@, pos as int) == Ok::<(Seq<i64>, int), NbtError>((v@, p as int)),
            Err(e) => spec_long_array(data@, pos as int) == Err::<(Seq<i64>, int), NbtError>(e),
        },
{
    match u32_at(data, pos) {
        Err(e) => Err(e),
        Ok((n, p)) => {
            if (data.len() - p) as u64 >= n as u64 * 8 {
                let mut out: Vec<i64> = Vec::new();
                let mut i: usize = 0;
                while i < n as usize
                    invariant
                        p == pos + 4,
                        data@.len() == data.len(),
                        fits(data@, pos as int, 4),
                        n as int == be32(data@, pos as int),
                        p + 8 * n <= data@.len(),
                        i <= n,
                        out@.len() == i,
                        forall|j: int| 0 <= j < i ==> out@[j] == as_i64(be64(data@, p + 8 * j)),
                    decreases n - i,
                {
                    let q: usize = p + 8 * i;
                    match long_at(data, q) {
                        Ok((v, _)) => out.push(v),
                        Err(e) => return Err(e),
                    }
                    i = i + 1;
                }
                assert(out@ =~= Seq::new(n as nat, |j: int| as_i64(be64(data@, pos + 4 + 8 * j))));
                Ok((out, p + 8 * n as usize))
            } else {
                Err(NbtError::UnexpectedEof)
            }
        },
    }
}

/// Once decoding the first `k` elements of a list fails, decoding more
/// fails with the same error.
proof fn lemma_elems_err(s: Seq<u8>, pos: int, id: u8, k: nat, m: nat)
    requires
        spec_elems(s, pos, id, k) is Err,
        k <= m,
    ensures
        spec_elems(s, pos, id, m) == spec_elems(s, pos, id, k),
    decreases m - k,
{
    if m > k {
        lemma_elems_err(s, pos, id, k, (m - 1) as nat);
    }
}

/// Adds `key` to a compound under construction: a previous entry with the
/// same key is dropped and the new entry is appended.
pub(crate) fn insert_entry(acc: &mut Vec<(String, TagValue)>, key: String, value: TagValue)
    requires
        keys_unique(entry_views(old(acc)@)),
    ensures
        entry_views(final(acc)@) == compound_insert(entry_views(old(acc)@), key@, value@),
        keys_unique(entry_views(final(acc)@)),
{
    let ghost before = entry_views(acc@);
    let mut i: usize = 0;
    let mut found: bool = false;
    while !found && i < acc.len()
        invariant
            acc@ == old(acc)@,
            before == entry_views(acc@),
            i <= acc.len(),
            found ==> i < acc.len() && acc@[i as int].0@ == key@,
            forall|j: int| 0 <= j < i ==> (#[trigger] acc@[j]).0@ != key@,
        decreases acc.len() - i + (if found { 0int } else { 1int }),
    {
        if acc[i].0 == key {
            found = true;
        } else {
            i = i + 1;
        }
    }
    proof {
        lemma_insert_unique(before, key@, value@);
    }
    if found {
        proof {
            assert(before[i as int].0 == key@);
            let c = choose|j: int| 0 <= j < before.len() && before[j].0 == key@;
            assert(c == i);
        }
        acc.remove(i);
        assert(entry_views(acc@) =~= before.remove(i as int));
    } else {
        assert(!exists|j: int| 0 <= j < before.len() && before[j].0 == key@);
    }
    let ghost mid = entry_views(acc@);
    acc.push((key, value));
    assert(entry_views(acc@) =~= mid.push((key@, value@)));
}

/// Decodes the payload of a tag with id `id` at `pos`.
pub(crate) fn payload_at(data: &[u8], pos: usize, id: u8) -> (r: Result<(TagValue, usize), NbtError>)
    requires
        pos <= data@.len(),
    ensures
        agrees_tag(r, spec_payload(data@, pos as int, id)),
        r matches Ok((_, p)) ==> pos <= p <= data@.len(),
    decreases data@.len() - pos, 1int, 0int,
{
    match id {
        0 => Ok((TagValue::End, pos)),
        1 => match byte_at(data, pos) {
            Ok((v, p)) => Ok((TagValue::Byte(v), p)),
            Err(e) => Err(e),
        },
        2 => match short_at(data, pos) {
            Ok((v, p)) => Ok((TagValue::Short(v), p)),
            Err(e) => Err(e),
        },
        3 => match int_at(data, pos) {
            Ok((v, p)) => Ok((TagValue::Int(v), p)),
            Err(e) => Err(e),
        },
        4 => match long_at(data, pos) {
            Ok((v, p)) => Ok((TagValue::Long(v), p)),
            Err(e) => Err(e),
        },
        5 => match u32_at(data, pos) {
            Ok((v, p)) => Ok((TagValue::Float(v), p)),
            Err(e) => Err(e),
        },
        6 => match u64_at(data, pos) {
            Ok((v, p)) => Ok((TagValue::Double(v), p)),
            Err(e) => Err(e),
        },
        7 => match byte_array_at(data, pos) {
            Ok((v, p)) => Ok((TagValue::ByteArray(v), p)),
            Err(e) => Err(e),
        },
        8 => match string_at(data, pos) {
            Ok((v, p)) => Ok((TagValue::String(v), p)),
            Err(e) => Err(e),
        },
        9 => match list_at(data, pos) {
            Ok((eid, items, p)) => {
                proof {
                    lemma_list_view(eid, items);
                }
                let t = TagValue::List(eid, items);
                Ok((t, p))
            },
            Err(e) => Err(e),
        },
        10 => match entries_at(data, pos) {
            Ok((entries, p)) => {
                proof {
                    lemma_compound_view(entries);
                }
                let t = TagValue::Compound(entries);
                Ok((t, p))
            },
            Err(e) => Err(e),
        },
        11 => match int_array_at(data, pos) {
            Ok((v, p)) => Ok((TagValue::IntArray(v), p)),
            Err(e) => Err(e),
        },
        12 => match long_array_at(data, pos) {
            Ok((v, p)) => Ok((TagValue::LongArray(v), p)),
            Err(e) => Err(e),
        },
        _ => Err(NbtError::UnknownTag(id)),
    }
}

/// Decodes a list payload at `pos`: its element id and its elements.
pub(crate) fn list_at(data: &[u8], pos: usize) -> (r: Result<(u8, Vec<TagValue>, usize), NbtError>)
    requires
        pos <= data@.len(),
    ensures
        match r {
            Ok((id, items, p)) => {
                &&& spec_payload(data@, pos as int, 9) == Ok::<(TagView, int), NbtError>(
                    (TagView::List(id, tag_views(items@)), p as int),
                )
                &&& pos <= p <= data@.len()
            },
            Err(e) => spec_payload(data@, pos as int, 9) == Err::<(TagView, int), NbtError>(e),
        },
    decreases data@.len() - pos, 0int, 1int,
{
    match byte_at(data, pos) {
        Err(e) => Err(e),
        Ok((id, mid)) => match u32_at(data, mid) {
            Err(e) => Err(e),
            Ok((n, next)) => {
                if id > 12 {
                    Err(NbtError::UnknownTag(id))
                } else {
                    match elems_at(data, next, id, n) {
                        Ok((items, p)) => Ok((id, items, p)),
                        Err(e) => Err(e),
                    }
                }
            },
        },
    }
}

/// Decodes `n` list elements of id `id` starting at `pos`.
pub(crate) fn elems_at(data: &[u8], pos: usize, id: u8, n: u32) -> (r: Result<
    (Vec<TagValue>, usize),
    NbtError,
>)
    requires
        pos <= data@.len(),
    ensures
        match r {
            Ok((items, p)) => {
                &&& spec_elems(data@, pos as int, id, n as nat) == Ok::<(Seq<TagView>, int), NbtError>(
                    (tag_views(items@), p as int),
                )
                &&& pos <= p <= data@.len()
            },
            Err(e) => spec_elems(data@, pos as int, id, n as nat) == Err::<
                (Seq<TagView>, int),
                NbtError,
            >(e),
        },
    decreases data@.len() - pos, 2int, 0int,
{
    let mut items: Vec<TagValue> = Vec::new();
    let mut p: usize = pos;
    let mut i: u32 = 0;
    assert(tag_views(items@) =~= Seq::<TagView>::empty());
    while i < n
        invariant
            pos <= p <= data@.len(),
            i <= n,
            spec_elems(data@, pos as int, id, i as nat) == Ok::<(Seq<TagView>, int), NbtError>(
                (tag_views(items@), p as int),
            ),
        decreases n - i,
    {
        match payload_at(data, p, id) {
            Err(e) => {
                proof {
                    lemma_elems_err(data@, pos as int, id, (i + 1) as nat, n as nat);
                }
                return Err(e);
            },
            Ok((t, q)) => {
                let ghost prev = tag_views(items@);
                items.push(t);
                assert(tag_views(items@) =~= prev.push(t@));
                p = q;
            },
        }
        i = i + 1;
    }
    Ok((items, p))
}

/// Decodes the entries of a compound payload at `pos`, through its end tag.
pub(crate) fn entries_at(data: &[u8], pos: usize) -> (r: Result<
    (Vec<(String, TagValue)>, usize),
    NbtError,
>)
    requires
        pos <= data@.len(),
    ensures
        match r {
            Ok((entries, p)) => {
                &&& spec_entries(data@, pos as int, Seq::empty()) == Ok::<
                    (Seq<(Seq<char>, TagView)>, int),
                    NbtError,
                >((entry_views(entries@), p as int))
                &&& pos < p <= data@.len()
                &&& keys_unique(entry_views(entries@))
            },
            Err(e) => spec_entries(data@, pos as int, Seq::empty()) == Err::<
                (Seq<(Seq<char>, TagView)>, int),
                NbtError,
            >(e),
        },
    decreases data@.len() - pos, 0int, 0int,
{
    let mut acc: Vec<(String, TagValue)> = Vec::new();
    let mut p: usize = pos;
    assert(entry_views(acc@) =~= Seq::<(Seq<char>, TagView)>::empty());
    loop
        invariant
            pos <= p <= data@.len(),
            spec_entries(data@, pos as int, Seq::empty()) == spec_entries(
                data@,
                p as int,
                entry_views(acc@),
            ),
            keys_unique(entry_views(acc@)),
        decreases data@.len() - p,
    {
        let id = match byte_at(data, p) {
            Ok((id, _)) => id,
            Err(e) => return Err(e),
        };
        if id == 0 {
            return Ok((acc, p + 1));
        }
        let (key, mid) = match string_at(data, p + 1) {
            Ok(kp) => kp,
            Err(e) => return Err(e),
        };
        let (value, next) = match payload_at(data, mid, id) {
            Ok(vp) => vp,
            Err(e) => return Err(e),
        };
        insert_entry(&mut acc, key, value);
        p = next;
    }
}

/// Decodes a document at `pos`: the root tag id, which must be a compound,
/// the root name, and the root compound's entries.
pub(crate) fn document_at(data: &[u8], pos: usize) -> (r: Result<
    ((String, Vec<(String, TagValue)>), usize),
    NbtError,
>)
    requires
        pos <= data@.len(),
    ensures
        match r {
            Ok(((name, entries), p)) => {
                &&& spec_document(data@, pos as int) == Ok::<
                    ((Seq<char>, Seq<(Seq<char>, TagView)>), int),
                    NbtError,
                >(((name@, entry_views(entries@)), p as int))
                &&& pos < p <= data@.len()
            },
            Err(e) => spec_document(data@, pos as int) == Err::<
                ((Seq<char>, Seq<(Seq<char>, TagView)>), int),
                NbtError,
            >(e),
        },
{
    let id = match byte_at(data, pos) {
        Ok((id, _)) => id,
        Err(e) => return Err(e),
    };
    if id != 10 {
        return Err(NbtError::ExpectedCompound(id));
    }
    let (name, mid) = match string_at(data, pos + 1) {
        Ok(np) => np,
        Err(e) => return Err(e),
    };
    match entries_at(data, mid) {
        Ok((entries, next)) => Ok(((name, entries), next)),
        Err(e) => Err(e),
    }
}

} // verus!
