//! The NBT wire format, stated as functions from a byte sequence and a
//! position to a decoded value and the position that follows it.

use vstd::prelude::*;
use crate::tag::{TagView, keys_unique};

verus! {

/// Why an NBT byte stream could not be decoded.
#[derive(PartialEq, Eq, Structural, Clone, Copy, Debug)]
pub enum NbtError {
    /// The stream ended before the bytes a read asked for.
    UnexpectedEof,
    /// A compound entry or list header named a tag id outside 0..=12.
    UnknownTag(u8),
    /// The root tag of a document was not a compound (id 10).
    ExpectedCompound(u8),
}

/// The result of decoding at a position: the value and the next position.
pub type Decoded<V> = Result<(V, int), NbtError>;

/// The characters that `String::from_utf8_lossy` makes of a byte sequence.
pub uninterp spec fn lossy_utf8(b: Seq<u8>) -> Seq<char>;

/// Relies on `String::from_utf8_lossy`: invalid UTF-8 sequences become
/// U+FFFD, and the result depends on the bytes alone.
#[verifier::external_body]
pub(crate) fn decode_lossy(b: &[u8]) -> (r: String)
    ensures
        r@ == lossy_utf8(b@),
        b@.len() == 0 ==> r@.len() == 0,
{
    String::from_utf8_lossy(b).into_owned()
}

pub open spec fn known_tag(id: u8) -> bool {
    id <= 12
}

pub open spec fn fits(s: Seq<u8>, pos: int, n: int) -> bool {
    0 <= pos && 0 <= n && pos + n <= s.len()
}

/// Big-endian unsigned value of the two bytes at `pos`.
pub open spec fn be16(s: Seq<u8>, pos: int) -> int {
    s[pos] as int * 256 + s[pos + 1] as int
}

/// Big-endian unsigned value of the four bytes at `pos`.
pub open spec fn be32(s: Seq<u8>, pos: int) -> int {
    s[pos] as int * 16777216 + s[pos + 1] as int * 65536 + s[pos + 2] as int * 256
        + s[pos + 3] as int
}

/// Big-endian unsigned value of the eight bytes at `pos`.
pub open spec fn be64(s: Seq<u8>, pos: int) -> int {
    be32(s, pos) * 4294967296 + be32(s, pos + 4)
}

/// The two's-complement reading of a 16-bit unsigned value.
pub open spec fn as_i16(x: int) -> i16 {
    if x >= 32768 {
        (x - 65536) as i16
    } else {
        x as i16
    }
}

/// The two's-complement reading of a 32-bit unsigned value.
pub open spec fn as_i32(x: int) -> i32 {
    if x >= 2147483648 {
        (x - 4294967296) as i32
    } else {
        x as i32
    }
}

/// The two's-complement reading of a 64-bit unsigned value.
pub open spec fn as_i64(x: int) -> i64 {
    if x >= 9223372036854775808 {
        (x - 18446744073709551616) as i64
    } else {
        x as i64
    }
}

pub open spec fn spec_take(s: Seq<u8>, pos: int, n: int) -> Decoded<Seq<u8>> {
    if fits(s, pos, n) {
        Ok((s.subrange(pos, pos + n), pos + n))
    } else {
        Err(NbtError::UnexpectedEof)
    }
}

pub open spec fn spec_byte(s: Seq<u8>, pos: int) -> Decoded<u8> {
    if fits(s, pos, 1) {
        Ok((s[pos], pos + 1))
    } else {
        Err(NbtError::UnexpectedEof)
    }
}

pub open spec fn spec_u16(s: Seq<u8>, pos: int) -> Decoded<u16> {
    if fits(s, pos, 2) {
        Ok((be16(s, pos) as u16, pos + 2))
    } else {
        Err(NbtError::UnexpectedEof)
    }
}

pub open spec fn spec_short(s: Seq<u8>, pos: int) -> Decoded<i16> {
    if fits(s, pos, 2) {
        Ok((as_i16(be16(s, pos)), pos + 2))
    } else {
        Err(NbtError::UnexpectedEof)
    }
}

pub open spec fn spec_u32(s: Seq<u8>, pos: int) -> Decoded<u32> {
    if fits(s, pos, 4) {
        Ok((be32(s, pos) as u32, pos + 4))
    } else {
        Err(NbtError::UnexpectedEof)
    }
}

pub open spec fn spec_int(s: Seq<u8>, pos: int) -> Decoded<i32> {
    if fits(s, pos, 4) {
        Ok((as_i32(be32(s, pos)), pos + 4))
    } else {
        Err(NbtError::UnexpectedEof)
    }
}

pub open spec fn spec_u64(s: Seq<u8>, pos: int) -> Decoded<u64> {
    if fits(s, pos, 8) {
        Ok((be64(s, pos) as u64, pos + 8))
    } else {
        Err(NbtError::UnexpectedEof)
    }
}

pub open spec fn spec_long(s: Seq<u8>, pos: int) -> Decoded<i64> {
    if fits(s, pos, 8) {
        Ok((as_i64(be64(s, pos)), pos + 8))
    } else {
        Err(NbtError::UnexpectedEof)
    }
}

/// A string: a two-byte length, then that many bytes decoded lossily.
pub open spec fn spec_string(s: Seq<u8>, pos: int) -> Decoded<Seq<char>> {
    if fits(s, pos, 2) && be16(s, pos) == 0 {
        Ok((Seq::empty(), pos + 2))
    } else if fits(s, pos, 2) && fits(s, pos + 2, be16(s, pos)) {
        Ok((lossy_utf8(s.subrange(pos + 2, pos + 2 + be16(s, pos))), pos + 2 + be16(s, pos)))
    } else {
        Err(NbtError::UnexpectedEof)
    }
}

/// A byte array: a four-byte length, then that many bytes.
pub open spec fn spec_byte_array(s: Seq<u8>, pos: int) -> Decoded<Seq<u8>> {
    if fits(s, pos, 4) {
        spec_take(s, pos + 4, be32(s, pos))
    } else {
        Err(NbtError::UnexpectedEof)
    }
}

/// An int array: a four-byte count, then that many big-endian `i32`.
pub open spec fn spec_int_array(s: Seq<u8>, pos: int) -> Decoded<Seq<i32>> {
    if fits(s, pos, 4) && fits(s, pos + 4, 4 * be32(s, pos)) {
        Ok(
            (
                Seq::new(be32(s, pos) as nat, |i: int| as_i32(be32(s, pos + 4 + 4 * i))),
                pos + 4 + 4 * be32(s, pos),
            ),
        )
    } else {
        Err(NbtError::UnexpectedEof)
    }
}

/// A long array: a four-byte count, then that many big-endian `i64`.
pub open spec fn spec_long_array(s: Seq<u8>, pos: int) -> Decoded<Seq<i64>> {
    if fits(s, pos, 4) && fits(s, pos + 4, 8 * be32(s, pos)) {
        Ok(
            (
                Seq::new(be32(s, pos) as nat, |i: int| as_i64(be64(s, pos + 4 + 8 * i))),
                pos + 4 + 8 * be32(s, pos),
            ),
        )
    } else {
        Err(NbtError::UnexpectedEof)
    }
}

/// The entries of a compound after inserting `key`: an earlier entry with
/// the same key is removed, and the new entry goes last.
pub open spec fn compound_insert(
    entries: Seq<(Seq<char>, TagView)>,
    key: Seq<char>,
    value: TagView,
) -> Seq<(Seq<char>, TagView)> {
    if exists|i: int| 0 <= i < entries.len() && entries[i].0 == key {
        let i = choose|i: int| 0 <= i < entries.len() && entries[i].0 == key;
        entries.remove(i).push((key, value))
    } else {
        entries.push((key, value))
    }
}

/// The payload of a tag with id `id` at `pos`.
pub open spec fn spec_payload(s: Seq<u8>, pos: int, id: u8) -> Decoded<TagView>
    decreases s.len() - pos, 1int, 0int,
{
    if pos < 0 || pos > s.len() {
        Err(NbtError::UnexpectedEof)
    } else {
        match id {
            0 => Ok((TagView::End, pos)),
            1 => match spec_byte(s, pos) {
                Ok((v, p)) => Ok((TagView::Byte(v), p)),
                Err(e) => Err(e),
            },
            2 => match spec_short(s, pos) {
                Ok((v, p)) => Ok((TagView::Short(v), p)),
                Err(e) => Err(e),
            },
            3 => match spec_int(s, pos) {
                Ok((v, p)) => Ok((TagView::Int(v), p)),
                Err(e) => Err(e),
            },
            4 => match spec_long(s, pos) {
                Ok((v, p)) => Ok((TagView::Long(v), p)),
                Err(e) => Err(e),
            },
            5 => match spec_u32(s, pos) {
                Ok((v, p)) => Ok((TagView::Float(v), p)),
                Err(e) => Err(e),
            },
            6 => match spec_u64(s, pos) {
                Ok((v, p)) => Ok((TagView::Double(v), p)),
                Err(e) => Err(e),
            },
            7 => match spec_byte_array(s, pos) {
                Ok((v, p)) => Ok((TagView::ByteArray(v), p)),
                Err(e) => Err(e),
            },
            8 => match spec_string(s, pos) {
                Ok((v, p)) => Ok((TagView::String(v), p)),
                Err(e) => Err(e),
            },
            9 => {
                if !fits(s, pos, 5) {
                    Err(NbtError::UnexpectedEof)
                } else if !known_tag(s[pos]) {
                    Err(NbtError::UnknownTag(s[pos]))
                } else {
                    match spec_elems(s, pos + 5, s[pos], be32(s, pos + 1) as nat) {
                        Ok((items, p)) => Ok((TagView::List(s[pos], items), p)),
                        Err(e) => Err(e),
                    }
                }
            },
            10 => match spec_entries(s, pos, Seq::empty()) {
                Ok((entries, p)) => Ok((TagView::Compound(entries), p)),
                Err(e) => Err(e),
            },
            11 => match spec_int_array(s, pos) {
                Ok((v, p)) => Ok((TagView::IntArray(v), p)),
                Err(e) => Err(e),
            },
            12 => match spec_long_array(s, pos) {
                Ok((v, p)) => Ok((TagView::LongArray(v), p)),
                Err(e) => Err(e),
            },
            _ => Err(NbtError::UnknownTag(id)),
        }
    }
}

/// The first `n` elements of a list whose elements have id `id`, starting at `pos`.
pub open spec fn spec_elems(s: Seq<u8>, pos: int, id: u8, n: nat) -> Decoded<Seq<TagView>>
    decreases s.len() - pos, 2int, n,
{
    if pos < 0 || pos > s.len() {
        Err(NbtError::UnexpectedEof)
    } else if n == 0 {
        Ok((Seq::empty(), pos))
    } else {
        match spec_elems(s, pos, id, (n - 1) as nat) {
            Err(e) => Err(e),
            Ok((items, p)) => {
                if p < pos || p > s.len() {
                    Err(NbtError::UnexpectedEof)
                } else {
                    match spec_payload(s, p, id) {
                        Ok((t, q)) => Ok((items.push(t), q)),
                        Err(e) => Err(e),
                    }
                }
            },
        }
    }
}

/// The entries of a compound from `pos` up to its end tag, added to `acc`.
pub open spec fn spec_entries(s: Seq<u8>, pos: int, acc: Seq<(Seq<char>, TagView)>) -> Decoded<
    Seq<(Seq<char>, TagView)>,
>
    decreases s.len() - pos, 0int, 0int,
{
    if !fits(s, pos, 1) {
        Err(NbtError::UnexpectedEof)
    } else if s[pos] == 0 {
        Ok((acc, pos + 1))
    } else {
        match spec_string(s, pos + 1) {
            Err(e) => Err(e),
            Ok((key, mid)) => match spec_payload(s, mid, s[pos]) {
                Err(e) => Err(e),
                Ok((value, next)) => {
                    if next < mid || next > s.len() {
                        Err(NbtError::UnexpectedEof)
                    } else {
                        spec_entries(s, next, compound_insert(acc, key, value))
                    }
                },
            },
        }
    }
}

/// A whole document at `pos`: a compound tag id, the root name, and the
/// root compound's entries.
pub open spec fn spec_document(s: Seq<u8>, pos: int) -> Decoded<
    (Seq<char>, Seq<(Seq<char>, TagView)>),
> {
    if !fits(s, pos, 1) {
        Err(NbtError::UnexpectedEof)
    } else if s[pos] != 10 {
        Err(NbtError::ExpectedCompound(s[pos]))
    } else {
        match spec_string(s, pos + 1) {
            Err(e) => Err(e),
            Ok((name, mid)) => match spec_entries(s, mid, Seq::empty()) {
                Err(e) => Err(e),
                Ok((entries, next)) => Ok(((name, entries), next)),
            },
        }
    }
}

/// A document decoded from the start of `s`, ignoring what follows it.
pub open spec fn decode_document(s: Seq<u8>) -> Result<
    (Seq<char>, Seq<(Seq<char>, TagView)>),
    NbtError,
> {
    match spec_document(s, 0) {
        Ok((d, _)) => Ok(d),
        Err(e) => Err(e),
    }
}

/// Inserting into a compound with unique keys keeps them unique and puts
/// the new entry last.
pub proof fn lemma_insert_unique(e: Seq<(Seq<char>, TagView)>, key: Seq<char>, value: TagView)
    requires
        keys_unique(e),
    ensures
        keys_unique(compound_insert(e, key, value)),
        compound_insert(e, key, value).last() == (key, value),
        forall|i: int|
            0 <= i < compound_insert(e, key, value).len() - 1 ==> (#[trigger] compound_insert(
                e,
                key,
                value,
            )[i]).0 != key,
{
    if exists|i: int| 0 <= i < e.len() && e[i].0 == key {
        let c = choose|i: int| 0 <= i < e.len() && e[i].0 == key;
        let r = e.remove(c);
        assert forall|i: int| 0 <= i < r.len() implies r[i].0 != key by {
            if i < c {
                assert(r[i] == e[i]);
            } else {
                assert(r[i] == e[i + 1]);
            }
        }
        assert forall|i: int, j: int| 0 <= i < j < r.len() implies r[i].0 != r[j].0 by {
            let ii = if i < c { i } else { i + 1 };
            let jj = if j < c { j } else { j + 1 };
            assert(r[i] == e[ii]);
            assert(r[j] == e[jj]);
        }
    }
}

/// A key inserted twice keeps only its later value, and that entry stands
/// last: no earlier entry carries the key.
pub proof fn lemma_repeated_key(
    e: Seq<(Seq<char>, TagView)>,
    key: Seq<char>,
    first: TagView,
    second: TagView,
)
    requires
        keys_unique(e),
    ensures
        ({
            let r = compound_insert(compound_insert(e, key, first), key, second);
            &&& keys_unique(r)
            &&& r.last() == (key, second)
            &&& forall|i: int| 0 <= i < r.len() - 1 ==> (#[trigger] r[i]).0 != key
            &&& r.len() == compound_insert(e, key, first).len()
        }),
{
    lemma_insert_unique(e, key, first);
    let once = compound_insert(e, key, first);
    lemma_insert_unique(once, key, second);
    assert(once[once.len() - 1].0 == key);
}

/// A list whose count is zero decodes to an empty list of its declared
/// element id, whatever that id is among the known ones, after its
/// five-byte header.
pub proof fn lemma_empty_list(s: Seq<u8>, pos: int)
    requires
        fits(s, pos, 5),
        known_tag(s[pos]),
        be32(s, pos + 1) == 0,
    ensures
        spec_payload(s, pos, 9) == Ok::<(TagView, int), NbtError>(
            (TagView::List(s[pos], Seq::empty()), pos + 5),
        ),
{
}

/// Decoding is a function of the bytes: equal inputs decode to equal
/// documents, or fail with equal errors.
pub proof fn lemma_decode_deterministic(a: Seq<u8>, b: Seq<u8>)
    requires
        a == b,
    ensures
        decode_document(a) == decode_document(b),
{
}

} // verus!
