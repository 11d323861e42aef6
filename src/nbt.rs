//! A reader of NBT documents over an in-memory byte stream.

use vstd::prelude::*;
use crate::decode::{
    byte_array_at, byte_at, document_at, int_array_at, int_at, long_array_at, long_at,
    payload_at, short_at, string_at, take_at, u32_at, u64_at, entries_at,
};
use crate::format::{
    Decoded, NbtError, decode_document, spec_byte, spec_byte_array, spec_document, spec_entries,
    spec_int, spec_int_array, spec_long, spec_long_array, spec_payload, spec_short, spec_string,
    spec_take, spec_u32, spec_u64,
};
use crate::tag::{TagValue, TagView, entry_views};

verus! {

/// `r` and the reader's new position are what decoding `s` from position
/// `before` gives: the value and the position after it, or the error with
/// the position unchanged.
pub open spec fn read_agrees<V: View>(
    r: Result<V, NbtError>,
    s: Decoded<V::V>,
    before: int,
    after: int,
) -> bool {
    match s {
        Ok((v, p)) => r is Ok && r->Ok_0@ == v && after == p,
        Err(e) => r == Err::<V, NbtError>(e) && after == before,
    }
}

/// A decoded document: the root name and the root compound's entries.
pub type Document = (String, Vec<(String, TagValue)>);

/// The model of a decoded document.
pub type DocumentView = (Seq<char>, Seq<(Seq<char>, TagView)>);

/// The model of a decoded document: its root name and root entries.
pub open spec fn document_view(d: Document) -> DocumentView {
    (d.0@, entry_views(d.1@))
}

/// Decodes one NBT document from the start of `bytes`; bytes after the
/// document are ignored.
pub fn read_document(bytes: &[u8]) -> (r: Result<(String, Vec<(String, TagValue)>), NbtError>)
    ensures
        match decode_document(bytes@) {
            Ok(d) => r is Ok && document_view(r->Ok_0) == d,
            Err(e) => r == Err::<(String, Vec<(String, TagValue)>), NbtError>(e),
        },
{
    match document_at(bytes, 0) {
        Ok((d, _)) => Ok(d),
        Err(e) => Err(e),
    }
}

/// Reader for the Named Binary Tag format: a byte stream and the position
/// of the next byte to decode.
pub struct NbtFileReader {
    data: Vec<u8>,
    pos: usize,
}

impl NbtFileReader {
    /// The whole stream.
    pub closed spec fn bytes(&self) -> Seq<u8> {
        self.data@
    }

    /// The position of the next byte to decode.
    pub closed spec fn position(&self) -> int {
        self.pos as int
    }

    pub closed spec fn wf(&self) -> bool {
        self.pos <= self.data@.len()
    }

    /// A reader positioned at the start of `data`.
    pub fn open(data: Vec<u8>) -> (r: Self)
        ensures
            r.wf(),
            r.bytes() == data@,
            r.position() == 0,
    {
        NbtFileReader { data, pos: 0 }
    }

    /// The next `len` bytes.
    pub fn read(&mut self, len: usize) -> (r: Result<Vec<u8>, NbtError>)
        requires
            old(self).wf(),
        ensures
            final(self).wf(),
            final(self).bytes() == old(self).bytes(),
            read_agrees(
                r,
                spec_take(old(self).bytes(), old(self).position(), len as int),
                old(self).position(),
                final(self).position(),
            ),
    {
        match take_at(self.data.as_slice(), self.pos, len) {
            Ok((v, p)) => {
                self.pos = p;
                Ok(v)
            },
            Err(e) => Err(e),
        }
    }

    /// The payload of an end tag: nothing is read.
    pub fn read_end(&mut self) -> (r: u8)
        ensures
            r == 0,
            *final(self) == *old(self),
    {
        0
    }

    pub fn read_byte(&mut self) -> (r: Result<u8, NbtError>)
        requires
            old(self).wf(),
        ensures
            final(self).wf(),
            final(self).bytes() == old(self).bytes(),
            read_agrees(
                r,
                spec_byte(old(self).bytes(), old(self).position()),
                old(self).position(),
                final(self).position(),
            ),
    {
        match byte_at(self.data.as_slice(), self.pos) {
            Ok((v, p)) => {
                self.pos = p;
                Ok(v)
            },
            Err(e) => Err(e),
        }
    }

    /// A big-endian `i16`.
    pub fn read_short(&mut self) -> (r: Result<i16, NbtError>)
        requires
            old(self).wf(),
        ensures
            final(self).wf(),
            final(self).bytes() == old(self).bytes(),
            read_agrees(
                r,
                spec_short(old(self).bytes(), old(self).position()),
                old(self).position(),
                final(self).position(),
            ),
    {
        match short_at(self.data.as_slice(), self.pos) {
            Ok((v, p)) => {
                self.pos = p;
                Ok(v)
            },
            Err(e) => Err(e),
        }
    }

    /// A big-endian `i32`.
    pub fn read_int(&mut self) -> (r: Result<i32, NbtError>)
        requires
            old(self).wf(),
        ensures
            final(self).wf(),
            final(self).bytes() == old(self).bytes(),
            read_agrees(
                r,
                spec_int(old(self).bytes(), old(self).position()),
                old(self).position(),
                final(self).position(),
            ),
    {
        match int_at(self.data.as_slice(), self.pos) {
            Ok((v, p)) => {
                self.pos = p;
                Ok(v)
            },
            Err(e) => Err(e),
        }
    }

    /// A big-endian `i64`.
    pub fn read_long(&mut self) -> (r: Result<i64, NbtError>)
        requires
            old(self).wf(),
        ensures
            final(self).wf(),
            final(self).bytes() == old(self).bytes(),
            read_agrees(
                r,
                spec_long(old(self).bytes(), old(self).position()),
                old(self).position(),
                final(self).position(),
            ),
    {
        match long_at(self.data.as_slice(), self.pos) {
            Ok((v, p)) => {
                self.pos = p;
                Ok(v)
            },
            Err(e) => Err(e),
        }
    }

    /// The IEEE-754 bits of a big-endian 32-bit float.
    pub fn read_float(&mut self) -> (r: Result<u32, NbtError>)
        requires
            old(self).wf(),
        ensures
            final(self).wf(),
            final(self).bytes() == old(self).bytes(),
            read_agrees(
                r,
                spec_u32(old(self).bytes(), old(self).position()),
                old(self).position(),
                final(self).position(),
            ),
    {
        match u32_at(self.data.as_slice(), self.pos) {
            Ok((v, p)) => {
                self.pos = p;
                Ok(v)
            },
            Err(e) => Err(e),
        }
    }

    /// The IEEE-754 bits of a big-endian 64-bit float.
    pub fn read_double(&mut self) -> (r: Result<u64, NbtError>)
        requires
            old(self).wf(),
        ensures
            final(self).wf(),
            final(self).bytes() == old(self).bytes(),
            read_agrees(
                r,
                spec_u64(old(self).bytes(), old(self).position()),
                old(self).position(),
                final(self).position(),
            ),
    {
        match u64_at(self.data.as_slice(), self.pos) {
            Ok((v, p)) => {
                self.pos = p;
                Ok(v)
            },
            Err(e) => Err(e),
        }
    }

    /// A byte array: a four-byte length and that many bytes.
    pub fn read_byte_array(&mut self) -> (r: Result<Vec<u8>, NbtError>)
        requires
            old(self).wf(),
        ensures
            final(self).wf(),
            final(self).bytes() == old(self).bytes(),
            read_agrees(
                r,
                spec_byte_array(old(self).bytes(), old(self).position()),
                old(self).position(),
                final(self).position(),
            ),
    {
        match byte_array_at(self.data.as_slice(), self.pos) {
            Ok((v, p)) => {
                self.pos = p;
                Ok(v)
            },
            Err(e) => Err(e),
        }
    }

    /// An int array: a four-byte count and that many big-endian `i32`.
    pub fn read_int_array(&mut self) -> (r: Result<Vec<i32>, NbtError>)
        requires
            old(self).wf(),
        ensures
            final(self).wf(),
            final(self).bytes() == old(self).bytes(),
            read_agrees(
                r,
                spec_int_array(old(self).bytes(), old(self).position()),
                old(self).position(),
                final(self).position(),
            ),
    {
        match int_array_at(self.data.as_slice(), self.pos) {
            Ok((v, p)) => {
                self.pos = p;
                Ok(v)
            },
            Err(e) => Err(e),
        }
    }

    /// A long array: a four-byte count and that many big-endian `i64`.
    pub fn read_long_array(&mut self) -> (r: Result<Vec<i64>, NbtError>)
        requires
            old(self).wf(),
        ensures
            final(self).wf(),
            final(self).bytes() == old(self).bytes(),
            read_agrees(
                r,
                spec_long_array(old(self).bytes(), old(self).position()),
                old(self).position(),
                final(self).position(),
            ),
    {
        match long_array_at(self.data.as_slice(), self.pos) {
            Ok((v, p)) => {
                self.pos = p;
                Ok(v)
            },
            Err(e) => Err(e),
        }
    }

    /// A string: a two-byte length and that many bytes, decoded lossily.
    pub fn read_string(&mut self) -> (r: Result<String, NbtError>)
        requires
            old(self).wf(),
        ensures
            final(self).wf(),
            final(self).bytes() == old(self).bytes(),
            read_agrees(
                r,
                spec_string(old(self).bytes(), old(self).position()),
                old(self).position(),
                final(self).position(),
            ),
    {
        match string_at(self.data.as_slice(), self.pos) {
            Ok((v, p)) => {
                self.pos = p;
                Ok(v)
            },
            Err(e) => Err(e),
        }
    }

    /// A list payload: an element tag id, a four-byte count, and that many
    /// element payloads. The result is the list tag.
    pub fn read_list(&mut self) -> (r: Result<TagValue, NbtError>)
        requires
            old(self).wf(),
        ensures
            final(self).wf(),
            final(self).bytes() == old(self).bytes(),
            read_agrees(
                r,
                spec_payload(old(self).bytes(), old(self).position(), 9),
                old(self).position(),
                final(self).position(),
            ),
    {
        match payload_at(self.data.as_slice(), self.pos, 9) {
            Ok((v, p)) => {
                self.pos = p;
                Ok(v)
            },
            Err(e) => Err(e),
        }
    }

    /// A compound payload: named entries up to the end tag. A repeated key
    /// replaces the earlier entry and moves to the end.
    pub fn read_compound(&mut self) -> (r: Result<Vec<(String, TagValue)>, NbtError>)
        requires
            old(self).wf(),
        ensures
            final(self).wf(),
            final(self).bytes() == old(self).bytes(),
            match spec_entries(old(self).bytes(), old(self).position(), Seq::empty()) {
                Ok((v, p)) => r is Ok && entry_views(r->Ok_0@) == v && final(self).position()
                    == p,
                Err(e) => r == Err::<Vec<(String, TagValue)>, NbtError>(e) && final(self).position()
                    == old(self).position(),
            },
    {
        match entries_at(self.data.as_slice(), self.pos) {
            Ok((v, p)) => {
                self.pos = p;
                Ok(v)
            },
            Err(e) => Err(e),
        }
    }

    /// A whole document: a compound tag id, the root name, and the root
    /// compound. Returns (name, entries).
    pub fn read_all(&mut self) -> (r: Result<(String, Vec<(String, TagValue)>), NbtError>)
        requires
            old(self).wf(),
        ensures
            final(self).wf(),
            final(self).bytes() == old(self).bytes(),
            match spec_document(old(self).bytes(), old(self).position()) {
                Ok((d, p)) => r is Ok && document_view(r->Ok_0) == d && final(self).position()
                    == p,
                Err(e) => r == Err::<(String, Vec<(String, TagValue)>), NbtError>(e) && final(self).position()
                    == old(self).position(),
            },
    {
        match document_at(self.data.as_slice(), self.pos) {
            Ok((d, p)) => {
                self.pos = p;
                Ok(d)
            },
            Err(e) => Err(e),
        }
    }
}

} // verus!
