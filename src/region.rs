//! The region container: a header of 1024 location words and 1024
//! timestamps, followed by compressed NBT documents addressed by sector.

use vstd::prelude::*;
use vstd::arithmetic::div_mod::lemma_mod_multiples_vanish;
use vstd::slice::slice_subrange;
use crate::decode::{int_at, u32_at};
use crate::compression::{
    PayloadError, decode_payload, gzip_inflate, inflate_gzip, inflate_zlib, spec_decode_payload,
    zlib_inflate,
};
use crate::format::{as_i32, be32};
use crate::nbt::{Document, DocumentView, document_view};

verus! {

/// Why a region or one of its chunks could not be read.
#[derive(PartialEq, Eq, Structural, Clone, Copy, Debug)]
pub enum RegionError {
    /// Fewer than 8192 bytes were available for the two header tables.
    ShortHeader,
    /// The chunk's sector offset points into the header tables, or its
    /// five-byte chunk header lies past the end of the file.
    ChunkOutOfBounds,
    /// The compression byte is neither 1 (gzip) nor 2 (zlib).
    UnsupportedCompression(u8),
    /// The declared chunk length is zero or runs past the end of the file.
    ChunkLengthInvalid,
    /// The region is sound but this chunk's payload is corrupt.
    CorruptChunk(PayloadError),
}

/// The index of chunk `(x, z)` in the header tables; both coordinates wrap
/// into `0..32`.
pub open spec fn slot(x: i32, z: i32) -> int {
    (x as int % 32) + (z as int % 32) * 32
}

/// A location word names a chunk when its sector offset is nonzero.
pub open spec fn occupied(location: u32) -> bool {
    location / 256 != 0
}

/// Where a chunk's compressed payload lies in the body (the file after its
/// 8192-byte header), and how it is compressed.
#[derive(Clone, Copy, Debug, PartialEq, Eq)]
pub struct ChunkSpan {
    pub gzip: bool,
    pub start: usize,
    pub end: usize,
}

/// The offset in the body of the chunk that `location` names.
pub open spec fn body_offset(location: u32) -> int {
    (location / 256) as int * 4096 - 8192
}

/// The checks on a chunk's five-byte header: `Ok(None)` for an empty slot,
/// else the compression (gzip or not) and the bounds of the payload.
pub open spec fn spec_chunk_span(body: Seq<u8>, location: u32) -> Result<
    Option<(bool, int, int)>,
    RegionError,
> {
    let off = body_offset(location);
    if !occupied(location) {
        Ok(None)
    } else if off < 0 || off + 5 > body.len() {
        Err(RegionError::ChunkOutOfBounds)
    } else if body[off + 4] != 1 && body[off + 4] != 2 {
        Err(RegionError::UnsupportedCompression(body[off + 4]))
    } else if be32(body, off) < 1 || off + be32(body, off) + 4 > body.len() {
        Err(RegionError::ChunkLengthInvalid)
    } else {
        Ok(Some((body[off + 4] == 1, off + 5, off + 4 + be32(body, off))))
    }
}

/// What loading the chunk that `location` names from `body` gives.
pub open spec fn spec_load(body: Seq<u8>, location: u32) -> Result<Option<DocumentView>, RegionError> {
    match spec_chunk_span(body, location) {
        Err(e) => Err(e),
        Ok(None) => Ok(None),
        Ok(Some((gzip, start, end))) => {
            let payload = body.subrange(start, end);
            match spec_decode_payload(
                if gzip {
                    gzip_inflate(payload)
                } else {
                    zlib_inflate(payload)
                },
            ) {
                Ok(doc) => Ok(Some(doc)),
                Err(e) => Err(RegionError::CorruptChunk(e)),
            }
        },
    }
}

/// Checks the five-byte header of the chunk that `location` names, and
/// finds its compressed payload in `body`.
pub fn chunk_span(body: &[u8], location: u32) -> (r: Result<Option<ChunkSpan>, RegionError>)
    ensures
        match spec_chunk_span(body@, location) {
            Ok(Some((gzip, start, end))) => r matches Ok(Some(s)) && s.gzip == gzip && s.start
                == start && s.end == end,
            Ok(None) => r matches Ok(None),
            Err(e) => r == Err::<Option<ChunkSpan>, RegionError>(e),
        },
{
    let sector: u64 = (location >> 8u32) as u64;
    assert(location >> 8u32 == location / 256) by (bit_vector);
    if sector == 0 {
        return Ok(None);
    }
    if sector < 2 || (body.len() as u64) < 5 || sector * 4096 - 8192 > body.len() as u64 - 5 {
        return Err(RegionError::ChunkOutOfBounds);
    }
    let off: usize = (sector * 4096 - 8192) as usize;
    let compression = body[off + 4];
    if compression != 1 && compression != 2 {
        return Err(RegionError::UnsupportedCompression(compression));
    }
    let len: u32 = match u32_at(body, off) {
        Ok((v, _)) => v,
        Err(_) => return Err(RegionError::ChunkOutOfBounds),
    };
    if len < 1 || len as u64 + 4 > (body.len() - off) as u64 {
        return Err(RegionError::ChunkLengthInvalid);
    }
    Ok(Some(ChunkSpan { gzip: compression == 1, start: off + 5, end: off + 4 + len as usize }))
}

/// Loads the chunk that `location` names from `body`: `Ok(None)` for an
/// empty slot, else the decoded document or why it could not be read.
pub fn load_from_body(body: &[u8], location: u32) -> (r: Result<Option<Document>, RegionError>)
    ensures
        match spec_load(body@, location) {
            Ok(Some(d)) => r matches Ok(Some(doc)) && document_view(doc) == d,
            Ok(None) => r matches Ok(None),
            Err(e) => r == Err::<Option<Document>, RegionError>(e),
        },
{
    match chunk_span(body, location) {
        Err(e) => Err(e),
        Ok(None) => Ok(None),
        Ok(Some(span)) => {
            let payload = slice_subrange(body, span.start, span.end);
            let inflated = if span.gzip {
                inflate_gzip(payload)
            } else {
                inflate_zlib(payload)
            };
            match decode_payload(inflated) {
                Ok(doc) => Ok(Some(doc)),
                Err(e) => Err(RegionError::CorruptChunk(e)),
            }
        },
    }
}

/// The chunks of row `x` among the first `n` columns, in column order.
pub open spec fn occupied_in_row(locations: Seq<u32>, x: int, n: int) -> Seq<(i32, i32)>
    decreases n,
{
    if n <= 0 {
        Seq::empty()
    } else {
        let prev = occupied_in_row(locations, x, n - 1);
        if occupied(locations[x + (n - 1) * 32]) {
            prev.push((x as i32, (n - 1) as i32))
        } else {
            prev
        }
    }
}

/// The chunks of the first `n` rows, row after row.
pub open spec fn occupied_upto(locations: Seq<u32>, n: int) -> Seq<(i32, i32)>
    decreases n,
{
    if n <= 0 {
        Seq::empty()
    } else {
        occupied_upto(locations, n - 1) + occupied_in_row(locations, n - 1, 32)
    }
}

/// Every occupied slot, as local coordinates with `x` outer and `z` inner.
pub open spec fn spec_chunk_list(locations: Seq<u32>) -> Seq<(i32, i32)> {
    occupied_upto(locations, 32)
}

/// The body of a region file: not yet read, or read once and kept.
pub enum RegionData {
    NotLoaded,
    Loaded(Vec<u8>),
}

impl RegionData {
    /// Keeps `rest` as the body unless one was loaded before.
    pub fn load_data(&mut self, rest: Vec<u8>)
        ensures
            match *old(self) {
                RegionData::NotLoaded => *final(self) == RegionData::Loaded(rest),
                RegionData::Loaded(_) => *final(self) == *old(self),
            },
    {
        if let RegionData::NotLoaded = self {
            *self = RegionData::Loaded(rest);
        }
    }
}

/// Reader for region files: the location and timestamp tables, read when
/// the reader is opened, and the rest of the file, read on first use.
pub struct McrFileReader {
    region_data: RegionData,
    locations: Vec<u32>,
    timestamps: Vec<i32>,
}

impl McrFileReader {
    /// The 1024 location words: sector offset in the upper 24 bits.
    pub closed spec fn locations(&self) -> Seq<u32> {
        self.locations@
    }

    /// The 1024 timestamps.
    pub closed spec fn timestamps(&self) -> Seq<i32> {
        self.timestamps@
    }

    /// The body of the file after the header, once it has been loaded.
    pub closed spec fn body(&self) -> Option<Seq<u8>> {
        match self.region_data {
            RegionData::NotLoaded => None,
            RegionData::Loaded(b) => Some(b@),
        }
    }

    pub open spec fn wf(&self) -> bool {
        self.locations().len() == 1024 && self.timestamps().len() == 1024
    }

    /// Parses the two header tables from the first 8192 bytes of `header`.
    pub fn open(header: &[u8]) -> (r: Result<Self, RegionError>)
        ensures
            header@.len() < 8192 ==> r == Err::<Self, RegionError>(RegionError::ShortHeader),
            header@.len() >= 8192 ==> r is Ok,
            r matches Ok(m) ==> {
                &&& m.wf()
                &&& m.body() is None
                &&& forall|i: int|
                    0 <= i < 1024 ==> #[trigger] m.locations()[i] == be32(header@, 4 * i) as u32
                &&& forall|i: int|
                    0 <= i < 1024 ==> #[trigger] m.timestamps()[i] == as_i32(
                        be32(header@, 4096 + 4 * i),
                    )
            },
    {
        if header.len() < 8192 {
            return Err(RegionError::ShortHeader);
        }
        let mut locations: Vec<u32> = Vec::new();
        let mut timestamps: Vec<i32> = Vec::new();
        let mut i: usize = 0;
        while i < 1024
            invariant
                header@.len() >= 8192,
                i <= 1024,
                locations@.len() == i,
                timestamps@.len() == i,
                forall|j: int| 0 <= j < i ==> #[trigger] locations@[j] == be32(header@, 4 * j) as u32,
                forall|j: int|
                    0 <= j < i ==> #[trigger] timestamps@[j] == as_i32(be32(header@, 4096 + 4 * j)),
            decreases 1024 - i,
        {
            match u32_at(header, 4 * i) {
                Ok((v, _)) => locations.push(v),
                Err(_) => return Err(RegionError::ShortHeader),
            }
            match int_at(header, 4096 + 4 * i) {
                Ok((v, _)) => timestamps.push(v),
                Err(_) => return Err(RegionError::ShortHeader),
            }
            i = i + 1;
        }
        Ok(McrFileReader { region_data: RegionData::NotLoaded, locations, timestamps })
    }

    /// Whether the body has been loaded.
    pub fn is_loaded(&self) -> (r: bool)
        ensures
            r == self.body() is Some,
    {
        match self.region_data {
            RegionData::NotLoaded => false,
            RegionData::Loaded(_) => true,
        }
    }

    /// Hands the reader the rest of the file after its header. Only the
    /// first body handed over is kept.
    pub fn load_data(&mut self, rest: Vec<u8>)
        ensures
            final(self).locations() == old(self).locations(),
            final(self).timestamps() == old(self).timestamps(),
            final(self).body() == match old(self).body() {
                Some(b) => Some(b),
                None => Some(rest@),
            },
    {
        self.region_data.load_data(rest);
    }

    /// The occupied chunks, as local coordinates in `0..32`, `x` outer and
    /// `z` inner.
    pub fn get_chunks(&self) -> (r: Vec<(i32, i32)>)
        requires
            self.wf(),
        ensures
            r@ == spec_chunk_list(self.locations()),
    {
        let mut chunks: Vec<(i32, i32)> = Vec::new();
        let mut x: i32 = 0;
        while x < 32
            invariant
                self.wf(),
                0 <= x <= 32,
                chunks@ == occupied_upto(self.locations(), x as int),
            decreases 32 - x,
        {
            let ghost before = chunks@;
            let mut z: i32 = 0;
            while z < 32
                invariant
                    self.wf(),
                    0 <= x < 32,
                    0 <= z <= 32,
                    chunks@ == before + occupied_in_row(self.locations(), x as int, z as int),
                decreases 32 - z,
            {
                let ghost row = occupied_in_row(self.locations(), x as int, z as int);
                let location = self.locations[(x + z * 32) as usize];
                assert(location >> 8u32 == location / 256) by (bit_vector);
                if location >> 8u32 != 0 {
                    chunks.push((x, z));
                    assert(chunks@ =~= before + row.push((x, z)));
                }
                z = z + 1;
            }
            x = x + 1;
        }
        chunks
    }

    /// The timestamp of chunk `(x, z)`, both wrapped into `0..32`; it is
    /// meaningless for an empty slot.
    pub fn get_chunk_timestamp(&self, x: i32, z: i32) -> (r: i32)
        requires
            self.wf(),
        ensures
            r == self.timestamps()[slot(x, z)],
    {
        self.timestamps[wrap_slot(x, z)]
    }

    /// Whether chunk `(x, z)`, both wrapped into `0..32`, is present.
    pub fn chunk_exists(&self, x: i32, z: i32) -> (r: bool)
        requires
            self.wf(),
        ensures
            r == occupied(self.locations()[slot(x, z)]),
    {
        let location = self.locations[wrap_slot(x, z)];
        assert(location >> 8u32 == location / 256) by (bit_vector);
        location >> 8u32 != 0
    }

    /// Loads chunk `(x, z)`, both wrapped into `0..32`: `Ok(None)` for an
    /// empty slot, else its document or why it could not be read. The body
    /// must have been loaded when the slot is occupied.
    pub fn load_chunk(&self, x: i32, z: i32) -> (r: Result<Option<Document>, RegionError>)
        requires
            self.wf(),
            occupied(self.locations()[slot(x, z)]) ==> self.body() is Some,
        ensures
            !occupied(self.locations()[slot(x, z)]) ==> r matches Ok(None),
            occupied(self.locations()[slot(x, z)]) ==> match spec_load(
                self.body()->Some_0,
                self.locations()[slot(x, z)],
            ) {
                Ok(Some(d)) => r matches Ok(Some(doc)) && document_view(doc) == d,
                Ok(None) => r matches Ok(None),
                Err(e) => r == Err::<Option<Document>, RegionError>(e),
            },
    {
        let location = self.locations[wrap_slot(x, z)];
        assert(location >> 8u32 == location / 256) by (bit_vector);
        if location >> 8u32 == 0 {
            return Ok(None);
        }
        match &self.region_data {
            RegionData::Loaded(body) => load_from_body(body.as_slice(), location),
            RegionData::NotLoaded => Ok(None),
        }
    }
}

/// The table index of chunk `(x, z)`.
fn wrap_slot(x: i32, z: i32) -> (r: usize)
    ensures
        r == slot(x, z),
        r < 1024,
{
    let xm = x.checked_rem_euclid(32).unwrap();
    let zm = z.checked_rem_euclid(32).unwrap();
    (xm + zm * 32) as usize
}

proof fn lemma_row_members(locations: Seq<u32>, x: int, n: int)
    requires
        0 <= x < 32,
        0 <= n <= 32,
        locations.len() == 1024,
    ensures
        forall|i: int|
            0 <= i < occupied_in_row(locations, x, n).len() ==> {
                let c = #[trigger] occupied_in_row(locations, x, n)[i];
                &&& c.0 == x
                &&& 0 <= c.1 < n
                &&& occupied(locations[c.0 + c.1 * 32])
            },
    decreases n,
{
    if n > 0 {
        lemma_row_members(locations, x, n - 1);
        let prev = occupied_in_row(locations, x, n - 1);
        let row = occupied_in_row(locations, x, n);
        assert forall|i: int| 0 <= i < row.len() implies {
            let c = #[trigger] row[i];
            &&& c.0 == x
            &&& 0 <= c.1 < n
            &&& occupied(locations[c.0 + c.1 * 32])
        } by {
            if i < prev.len() {
                assert(row[i] == prev[i]);
            }
        }
    }
}

proof fn lemma_upto_members(locations: Seq<u32>, n: int)
    requires
        0 <= n <= 32,
        locations.len() == 1024,
    ensures
        forall|i: int|
            0 <= i < occupied_upto(locations, n).len() ==> {
                let c = #[trigger] occupied_upto(locations, n)[i];
                &&& 0 <= c.0 < n
                &&& 0 <= c.1 < 32
                &&& occupied(locations[c.0 + c.1 * 32])
            },
    decreases n,
{
    if n > 0 {
        let prev = occupied_upto(locations, n - 1);
        let row = occupied_in_row(locations, n - 1, 32);
        lemma_upto_members(locations, n - 1);
        lemma_row_members(locations, n - 1, 32);
        assert forall|i: int| 0 <= i < occupied_upto(locations, n).len() implies {
            let c = #[trigger] occupied_upto(locations, n)[i];
            &&& 0 <= c.0 < n
            &&& 0 <= c.1 < 32
            &&& occupied(locations[c.0 + c.1 * 32])
        } by {
            if i < prev.len() {
                assert(occupied_upto(locations, n)[i] == prev[i]);
            } else {
                assert(occupied_upto(locations, n)[i] == row[i - prev.len()]);
            }
        }
    }
}

/// Every chunk that the list names is in `0..32` on both axes, exists,
/// and loads to a document or fails with an error; it never loads as
/// absent.
pub proof fn lemma_listed_chunks_load(m: McrFileReader, i: int)
    requires
        m.wf(),
        m.body() is Some,
        0 <= i < spec_chunk_list(m.locations()).len(),
    ensures
        ({
            let (x, z) = spec_chunk_list(m.locations())[i];
            &&& 0 <= x < 32 && 0 <= z < 32
            &&& occupied(m.locations()[slot(x, z)])
            &&& !(spec_load(m.body()->Some_0, m.locations()[slot(x, z)]) matches Ok(None))
        }),
{
    lemma_upto_members(m.locations(), 32);
    let (x, z) = spec_chunk_list(m.locations())[i];
    assert(slot(x, z) == x + z * 32);
}

/// Shifting both coordinates by whole multiples of 32 names the same slot,
/// so existence, timestamp and loaded chunk are unchanged.
pub proof fn lemma_wrap_invariant(m: McrFileReader, x: i32, z: i32, kx: int, kz: int)
    requires
        m.wf(),
        i32::MIN <= x + 32 * kx <= i32::MAX,
        i32::MIN <= z + 32 * kz <= i32::MAX,
    ensures
        ({
            let (x2, z2) = ((x + 32 * kx) as i32, (z + 32 * kz) as i32);
            &&& slot(x2, z2) == slot(x, z)
            &&& occupied(m.locations()[slot(x2, z2)]) == occupied(m.locations()[slot(x, z)])
            &&& m.timestamps()[slot(x2, z2)] == m.timestamps()[slot(x, z)]
            &&& forall|b: Seq<u8>|
                spec_load(b, m.locations()[slot(x2, z2)]) == #[trigger] spec_load(
                    b,
                    m.locations()[slot(x, z)],
                )
        }),
{
    lemma_mod_multiples_vanish(kx, x as int, 32);
    lemma_mod_multiples_vanish(kz, z as int, 32);
}

} // verus!
