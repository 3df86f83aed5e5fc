use vstd::prelude::*;
use vstd::slice::{slice_subrange, slice_to_vec};

use crate::content_id::{cid_prefix, cid_prefix_of, Cid};
use crate::error::CarError;
use crate::varint::{decode_varint, varint_of};

verus! {

/// The largest length that one section may declare (32 MiB).
pub const MAX_ALLOWED_SECTION_SIZE: usize = 33554432;

/// Where one block's payload lies in the archive.
#[derive(Debug, Clone)]
pub struct Section {
    pub cid: Cid,
    /// Byte offset of the payload, counted from the start of the archive.
    pub offset: u64,
    /// Number of payload bytes.
    pub length: usize,
}

impl Section {
    pub fn cid(&self) -> (r: &Cid)
        ensures
            r == &self.cid,
    {
        &self.cid
    }

    pub fn offset(&self) -> (r: u64)
        ensures
            r == self.offset,
    {
        self.offset
    }

    pub fn length(&self) -> (r: usize)
        ensures
            r == self.length,
    {
        self.length
    }
}

/// The length prefix of the frame that starts at `pos`: its value and its width.
pub open spec fn frame_prefix(data: Seq<u8>, pos: int) -> Option<(u64, usize)> {
    varint_of(data.subrange(pos, data.len() as int))
}

/// A frame at `pos` whose declared length fits the ceiling and the data:
/// the offset of its body and the offset just past it.
pub open spec fn frame_bounds(data: Seq<u8>, pos: int) -> Option<(int, int)> {
    match frame_prefix(data, pos) {
        Some((l, n)) => if l <= MAX_ALLOWED_SECTION_SIZE && pos + n + l <= data.len() {
            Some((pos + n, pos + n + l))
        } else {
            None
        },
        None => None,
    }
}

/// What reading one frame at `pos` gives in every case but success: the end
/// of the data, a missing or cut length prefix, an oversized or truncated frame.
pub open spec fn frame_error(data: Seq<u8>, pos: int, r: Result<Option<Seq<u8>>, CarError>) -> bool {
    match frame_prefix(data, pos) {
        None => r matches Err(e) && e.is_io(),
        Some((l, n)) => if l > MAX_ALLOWED_SECTION_SIZE {
            r == Err::<Option<Seq<u8>>, CarError>(CarError::TooLargeSection(l as usize))
        } else {
            r matches Err(e) && e.is_io()
        },
    }
}

/// Reads the length prefix at `*pos` and checks the frame against the
/// ceiling and the end of the data; on success `*pos` is past the prefix.
fn read_frame_header(data: &[u8], pos: &mut usize) -> (r: Result<Option<usize>, CarError>)
    requires
        *old(pos) <= data@.len(),
    ensures
        r matches Ok(Some(_)) ==> *final(pos) > *old(pos),
        *old(pos) == data@.len() ==> r == Ok::<Option<usize>, CarError>(None) && *final(pos) == *old(pos),
        *old(pos) < data@.len() ==> match frame_bounds(data@, *old(pos) as int) {
            Some((s, e)) => r == Ok::<Option<usize>, CarError>(Some((e - s) as usize)) && *final(pos) == s,
            None => frame_error(data@, *old(pos) as int, match r {
                Ok(Some(_)) => Ok(None),
                Ok(None) => Ok(None),
                Err(e) => Err(e),
            }),
        },
{
    let p = *pos;
    if p == data.len() {
        return Ok(None);
    }
    let rest = slice_subrange(data, p, data.len());
    match decode_varint(rest) {
        None => Err(CarError::IO("unexpected end of data inside a length prefix".to_string())),
        Some((l, n)) => {
            if l > MAX_ALLOWED_SECTION_SIZE as u64 {
                return Err(CarError::TooLargeSection(l as usize));
            }
            let l = l as usize;
            if l > data.len() - p - n {
                return Err(CarError::IO("unexpected end of data inside a section".to_string()));
            }
            *pos = p + n;
            Ok(Some(l))
        },
    }
}

/// Reads one length-prefixed block at `*pos` and moves `*pos` past it.
/// `None` means the data ends exactly at `*pos`.
pub fn read_block(data: &[u8], pos: &mut usize) -> (r: Result<Option<Vec<u8>>, CarError>)
    requires
        *old(pos) <= data@.len(),
        data@.len() <= usize::MAX,
    ensures
        *old(pos) == data@.len() ==> r is Ok && r->Ok_0 is None && *final(pos) == *old(pos),
        r matches Ok(Some(_)) ==> *final(pos) > *old(pos),
        *old(pos) < data@.len() ==> match frame_bounds(data@, *old(pos) as int) {
            Some((s, e)) => r matches Ok(Some(v)) && v@ == data@.subrange(s, e) && *final(pos) == e,
            None => frame_error(data@, *old(pos) as int, match r {
                Ok(Some(v)) => Ok(Some(v@)),
                Ok(None) => Ok(None),
                Err(e) => Err(e),
            }),
        },
{
    let ghost p0 = *pos as int;
    match read_frame_header(data, pos) {
        Err(e) => Err(e),
        Ok(None) => Ok(None),
        Ok(Some(l)) => {
            let s = *pos;
            assert(frame_bounds(data@, p0) is Some);
            assert(frame_bounds(data@, p0)->Some_0.1 <= data@.len());
            assert(s + l <= data@.len());
            let block = slice_to_vec(slice_subrange(data, s, s + l));
            *pos = s + l;
            Ok(Some(block))
        },
    }
}

/// The section whose frame starts at `pos`, if that frame is whole and begins
/// with a content identifier: the identifier's bytes and codec, the payload's
/// offset and length, and the offset of the next frame.
pub open spec fn section_at(data: Seq<u8>, pos: int) -> Option<(Seq<u8>, u64, int, int, int)> {
    match frame_bounds(data, pos) {
        Some((s, e)) => match cid_prefix_of(data.subrange(s, e)) {
            Some((w, c)) => if cid_prefix_of(data.subrange(s, s + w)) == Some((w, c)) {
                Some((data.subrange(s, s + w), c, s + w, e - (s + w), e))
            } else {
                None
            },
            None => None,
        },
        None => None,
    }
}

/// Reads the frame at `*pos` as a section: its content identifier, and where
/// its payload lies. The payload itself is skipped, not copied. `None` means
/// the data ends exactly at `*pos`.
pub fn read_section(data: &[u8], pos: &mut usize) -> (r: Result<Option<Section>, CarError>)
    requires
        *old(pos) <= data@.len(),
        data@.len() <= usize::MAX,
        data@.len() <= u64::MAX,
    ensures
        *old(pos) == data@.len() ==> r is Ok && r->Ok_0 is None && *final(pos) == *old(pos),
        *old(pos) < data@.len() ==> match section_at(data@, *old(pos) as int) {
            Some((b, c, off, len, next)) => r matches Ok(Some(sec)) && sec.cid@ == b
                && sec.cid.spec_codec() == c && sec.cid.wf()
                && sec.offset == off && sec.length == len && *final(pos) == next,
            None => r is Err,
        },
        *old(pos) < data@.len() && frame_bounds(data@, *old(pos) as int) is None
            ==> frame_error(data@, *old(pos) as int, match r {
                Ok(Some(_)) => Ok(None),
                Ok(None) => Ok(None),
                Err(e) => Err(e),
            }),
        r is Err && frame_bounds(data@, *old(pos) as int) is Some ==> r->Err_0.is_parsing(),
        r matches Ok(Some(_)) ==> *old(pos) < *final(pos) <= data@.len(),
{
    let ghost p0 = *pos as int;
    match read_frame_header(data, pos) {
        Err(e) => Err(e),
        Ok(None) => Ok(None),
        Ok(Some(l)) => {
            let s = *pos;
            assert(frame_bounds(data@, p0) is Some);
            assert(frame_bounds(data@, p0)->Some_0.1 <= data@.len());
            assert(s + l <= data@.len());
            let frame = slice_subrange(data, s, s + l);
            match cid_prefix(frame) {
                None => Err(CarError::Parsing("malformed content identifier".to_string())),
                Some((w, codec)) => {
                    let head = slice_subrange(data, s, s + w);
                    match cid_prefix(head) {
                        Some((w2, codec2)) => {
                            if w2 != w || codec2 != codec {
                                return Err(CarError::Parsing("inconsistent content identifier".to_string()));
                            }
                            let cid = Cid::from_parts(slice_to_vec(head), codec);
                            *pos = s + l;
                            Ok(Some(Section { cid, offset: (s + w) as u64, length: l - w }))
                        },
                        None => Err(CarError::Parsing("malformed content identifier".to_string())),
                    }
                },
            }
        },
    }
}

} // verus!
