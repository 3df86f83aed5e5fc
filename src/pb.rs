use vstd::prelude::*;
use vstd::slice::{slice_subrange, slice_to_vec};

use crate::content_id::Cid;
use crate::error::CarError;
use crate::ipld::Ipld;
use crate::content_id::cid_prefix_of;
use crate::ipld::lookup;
use crate::unixfs::{FileType, UnixFs, UnixTime};
use crate::unixfs_codec::{encoded_view, lemma_link_of_view, links_entry, links_of};
use quick_protobuf::{BytesReader, Writer};
use crate::varint::{leb_bytes, varint_of};

verus! {

/// The characters that `b` holds as UTF-8, or nothing where it is not UTF-8.
pub uninterp spec fn utf8_of(b: Seq<u8>) -> Option<Seq<char>>;

/// Relies on std's `String::from_utf8`: accepts exactly the valid UTF-8 byte
/// strings and keeps their characters.
#[verifier::external_body]
fn utf8_string(b: Vec<u8>) -> (r: Option<String>)
    ensures
        r matches Some(s) ==> utf8_of(b@) == Some(s@),
        r is None <==> utf8_of(b@) is None,
{
    String::from_utf8(b).ok()
}

/// What the protobuf varint at the front of `b` decodes to, and how many
/// bytes of `b` are left after it.
#[verifier::opaque]
pub open spec fn pb_varint_of(b: Seq<u8>) -> Option<(u64, usize)> {
    match varint_of(b) {
        Some((v, n)) => Some((v, (b.len() - n) as usize)),
        None => None,
    }
}

/// The bytes that a protobuf writer emits for the varint `v`.
#[verifier::opaque]
pub open spec fn pb_varint_bytes_of(v: u64) -> Seq<u8> {
    leb_bytes(v)
}

/// Relies on quick_protobuf's `BytesReader::read_varint64` and `len`: reads
/// the varint at the front of `b`, which takes at least one byte, and counts
/// the bytes left.
#[verifier::external_body]
fn pb_varint(b: &[u8]) -> (r: Option<(u64, usize)>)
    ensures
        r == pb_varint_of(b@),
        r matches Some((_, rest)) ==> rest < b@.len(),
{
    let mut rd = BytesReader::from_bytes(b);
    rd.read_varint64(b).ok().map(|v| (v, rd.len()))
}

/// Relies on quick_protobuf's `Writer::write_varint` over a `Vec`, which
/// appends at least one byte and cannot fail, and on `read_varint64`
/// reading those bytes back as `v` whatever follows them.
#[verifier::external_body]
fn pb_put_varint(out: &mut Vec<u8>, v: u64)
    ensures
        final(out)@ == old(out)@ + pb_varint_bytes_of(v),
        final(out)@.len() > old(out)@.len(),
        forall|rest: Seq<u8>|
            #[trigger] pb_varint_of(final(out)@.subrange(old(out)@.len() as int, final(out)@.len() as int) + rest)
                == Some((v, rest.len() as usize)),
{
    let _ = Writer::new(out).write_varint(v);
}

/// The protobuf varint at `pos`, read no further than `end`: its value and
/// the offset just after it.
pub open spec fn varint_in(d: Seq<u8>, pos: int, end: int) -> Option<(u64, int)> {
    if pos >= end {
        None
    } else {
        match pb_varint_of(d.subrange(pos, end)) {
            Some((v, rest)) => Some((v, end - rest)),
            None => None,
        }
    }
}

/// The bounds of the length-delimited value at `pos`, if it fits before `end`.
pub open spec fn delimited_in(d: Seq<u8>, pos: int, end: int) -> Option<(int, int)> {
    match varint_in(d, pos, end) {
        Some((l, s)) => if l <= end - s {
            Some((s, s + l))
        } else {
            None
        },
        None => None,
    }
}

/// The offset after a value of wire type `wire` at `pos`, if it is whole.
pub open spec fn skip_in(d: Seq<u8>, pos: int, end: int, wire: u64) -> Option<int> {
    if wire == 0 {
        match varint_in(d, pos, end) {
            Some((_, n)) => Some(n),
            None => None,
        }
    } else if wire == 1 || wire == 5 {
        let w: int = if wire == 1 { 8 } else { 4 };
        if end - pos < w {
            None
        } else {
            Some(pos + w)
        }
    } else if wire == 2 {
        match delimited_in(d, pos, end) {
            Some((_, e)) => Some(e),
            None => None,
        }
    } else {
        None
    }
}

/// A little-endian 32-bit number from four bytes.
pub open spec fn le32(a: u8, b: u8, c: u8, e: u8) -> u32 {
    (a as int + b as int * 256 + c as int * 65536 + e as int * 16777216) as u32
}

/// The modification time that the fields in `d[pos..end]` give, starting from
/// `acc`: field 1 sets the seconds, field 2 the fraction; later fields win.
pub open spec fn time_fields(d: Seq<u8>, pos: int, end: int, acc: (i64, Option<u32>)) -> Option<(i64, Option<u32>)>
    decreases end - pos,
{
    if pos >= end {
        Some(acc)
    } else {
        match varint_in(d, pos, end) {
            None => None,
            Some((key, p1)) => if !(pos < p1 <= end) {
                None
            } else if key == 8 {
                match varint_in(d, p1, end) {
                    Some((v, p2)) => if p1 < p2 <= end {
                        time_fields(d, p2, end, (v as i64, acc.1))
                    } else {
                        None
                    },
                    None => None,
                }
            } else if key == 21 {
                if end - p1 < 4 {
                    None
                } else {
                    time_fields(d, p1 + 4, end, (acc.0, Some(le32(d[p1], d[p1 + 1], d[p1 + 2], d[p1 + 3]))))
                }
            } else {
                match skip_in(d, p1, end, key % 8) {
                    Some(p2) => if p1 <= p2 <= end {
                        time_fields(d, p2, end, acc)
                    } else {
                        None
                    },
                    None => None,
                }
            },
        }
    }
}

/// The record fields that a node's data bytes hold: kind tag, file size,
/// block sizes, hash type, fanout, mode and modification time.
pub type DataFields = (u64, Option<u64>, Seq<u64>, Option<u64>, Option<u64>, Option<u32>, Option<UnixTime>);

/// The record that the fields in `d[pos..end]` give, starting from `acc`:
/// scalar fields keep their last value, block sizes accumulate in order, and
/// fields of other numbers are skipped by wire type.
pub open spec fn data_fields(d: Seq<u8>, pos: int, end: int, acc: DataFields) -> Option<DataFields>
    decreases end - pos,
{
    if pos >= end {
        Some(acc)
    } else {
        match varint_in(d, pos, end) {
            None => None,
            Some((key, p1)) => if !(pos < p1 <= end) {
                None
            } else if key == 8 || key == 24 || key == 32 || key == 40 || key == 48 || key == 56 {
                match varint_in(d, p1, end) {
                    Some((v, p2)) => if p1 < p2 <= end {
                        data_fields(d, p2, end, set_scalar(acc, key, v))
                    } else {
                        None
                    },
                    None => None,
                }
            } else if key == 66 {
                match delimited_in(d, p1, end) {
                    Some((s, e)) => if p1 < s <= e <= end {
                        match time_fields(d, s, e, (0, None)) {
                            Some(t) => data_fields(
                                d,
                                e,
                                end,
                                (acc.0, acc.1, acc.2, acc.3, acc.4, acc.5, Some(UnixTime { seconds: t.0, fractional_nanoseconds: t.1 })),
                            ),
                            None => None,
                        }
                    } else {
                        None
                    },
                    None => None,
                }
            } else {
                match skip_in(d, p1, end, key % 8) {
                    Some(p2) => if p1 <= p2 <= end {
                        data_fields(d, p2, end, acc)
                    } else {
                        None
                    },
                    None => None,
                }
            },
        }
    }
}

/// The record after a varint field with the given key.
pub open spec fn set_scalar(acc: DataFields, key: u64, v: u64) -> DataFields {
    if key == 8 {
        (v, acc.1, acc.2, acc.3, acc.4, acc.5, acc.6)
    } else if key == 24 {
        (acc.0, Some(v), acc.2, acc.3, acc.4, acc.5, acc.6)
    } else if key == 32 {
        (acc.0, acc.1, acc.2.push(v), acc.3, acc.4, acc.5, acc.6)
    } else if key == 40 {
        (acc.0, acc.1, acc.2, Some(v), acc.4, acc.5, acc.6)
    } else if key == 48 {
        (acc.0, acc.1, acc.2, acc.3, Some(v), acc.5, acc.6)
    } else {
        (acc.0, acc.1, acc.2, acc.3, acc.4, Some(v as u32), acc.6)
    }
}

/// The record fields of a node.
pub open spec fn fields_of(u: UnixFs) -> DataFields {
    (u.file_type.spec_tag(), u.file_size, u.block_sizes@, u.hash_type, u.fanout, u.mode, u.mtime)
}

pub open spec fn no_fields() -> DataFields {
    (0, None, Seq::empty(), None, None, None, None)
}

fn malformed() -> (e: CarError)
    ensures
        e.is_parsing(),
{
    CarError::Parsing("malformed protobuf message".to_string())
}

/// Reads a varint that starts at `*pos` and ends before `end`.
fn read_varint_in(data: &[u8], pos: &mut usize, end: usize) -> (r: Option<u64>)
    requires
        *old(pos) <= end <= data@.len(),
    ensures
        *old(pos) <= *final(pos) <= end,
        r is Some ==> *old(pos) < *final(pos),
        match varint_in(data@, *old(pos) as int, end as int) {
            Some((v, n)) => r == Some(v) && *final(pos) == n,
            None => r is None,
        },
{
    let p = *pos;
    if p >= end {
        return None;
    }
    match pb_varint(slice_subrange(data, p, end)) {
        Some((v, rest)) => {
            *pos = end - rest;
            Some(v)
        },
        None => None,
    }
}

/// Reads a length prefix at `*pos` and hands back the bounds of the bytes it
/// announces, moving `*pos` past them.
fn read_delimited(data: &[u8], pos: &mut usize, end: usize) -> (r: Option<(usize, usize)>)
    requires
        *old(pos) <= end <= data@.len(),
    ensures
        *old(pos) <= *final(pos) <= end,
        r matches Some((s, e)) ==> *old(pos) < s <= e && e == *final(pos),
        match delimited_in(data@, *old(pos) as int, end as int) {
            Some((s, e)) => r == Some((s as usize, e as usize)) && *final(pos) == e && *old(pos) < s <= e <= end,
            None => r is None,
        },
{
    match read_varint_in(data, pos, end) {
        Some(l) => {
            let s = *pos;
            if l > (end - s) as u64 {
                return None;
            }
            let e = s + l as usize;
            *pos = e;
            Some((s, e))
        },
        None => None,
    }
}

/// Skips one field value of the given wire type.
fn skip_field(data: &[u8], pos: &mut usize, end: usize, wire: u64) -> (r: bool)
    requires
        *old(pos) <= end <= data@.len(),
    ensures
        *old(pos) <= *final(pos) <= end,
        match skip_in(data@, *old(pos) as int, end as int, wire) {
            Some(n) => r && *final(pos) == n,
            None => !r,
        },
{
    if wire == 0 {
        match read_varint_in(data, pos, end) {
            Some(_) => true,
            None => false,
        }
    } else if wire == 1 || wire == 5 {
        let w: usize = if wire == 1 { 8 } else { 4 };
        if end - *pos < w {
            return false;
        }
        *pos = *pos + w;
        true
    } else if wire == 2 {
        match read_delimited(data, pos, end) {
            Some(_) => true,
            None => false,
        }
    } else {
        false
    }
}

/// Decodes a modification-time record held in `data[s..e]`.
fn decode_time(data: &[u8], s: usize, e: usize) -> (r: Result<UnixTime, CarError>)
    requires
        s <= e <= data@.len(),
    ensures
        match time_fields(data@, s as int, e as int, (0, None)) {
            Some(t) => r == Ok::<UnixTime, CarError>(UnixTime { seconds: t.0, fractional_nanoseconds: t.1 }),
            None => r is Err,
        },
{
    let mut pos = s;
    let mut seconds: i64 = 0;
    let mut frac: Option<u32> = None;
    while pos < e
        invariant
            s <= pos <= e <= data@.len(),
            time_fields(data@, s as int, e as int, (0, None)) == time_fields(data@, pos as int, e as int, (seconds, frac)),
        decreases e - pos,
    {
        let ghost p0 = pos as int;
        let key = match read_varint_in(data, &mut pos, e) {
            Some(k) => k,
            None => return Err(malformed()),
        };
        if key == 8 {
            match read_varint_in(data, &mut pos, e) {
                Some(v) => seconds = v as i64,
                None => return Err(malformed()),
            }
        } else if key == 21 {
            if e - pos < 4 {
                return Err(malformed());
            }
            let v: u32 = data[pos] as u32 + (data[pos + 1] as u32) * 256 + (data[pos + 2] as u32)
                * 65536 + (data[pos + 3] as u32) * 16777216;
            assert(v == le32(data@[pos as int], data@[pos + 1], data@[pos + 2], data@[pos + 3]));
            frac = Some(v);
            pos = pos + 4;
        } else if !skip_field(data, &mut pos, e, key % 8) {
            return Err(malformed());
        }
    }
    assert(time_fields(data@, pos as int, e as int, (seconds, frac)) == Some((seconds, frac)));
    Ok(UnixTime { seconds, fractional_nanoseconds: frac })
}

/// Decodes the filesystem record carried in a node's `Data` bytes: its kind,
/// sizes, mode and modification time. Links, name and identifier stay empty.
pub fn decode_data(data: &[u8]) -> (r: Result<UnixFs, CarError>)
    ensures
        r matches Ok(u) ==> u.links@.len() == 0 && u.cid is None && u.file_name is None,
        r matches Err(e) ==> e.is_parsing(),
        match data_fields(data@, 0, data@.len() as int, no_fields()) {
            Some(f) => if f.0 <= 5 {
                r matches Ok(u) && fields_of(u) == f
            } else {
                r is Err
            },
            None => r is Err,
        },
{
    let end = data.len();
    let mut pos: usize = 0;
    let mut tag: u64 = 0;
    let mut file_size: Option<u64> = None;
    let mut block_sizes: Vec<u64> = Vec::new();
    let mut hash_type: Option<u64> = None;
    let mut fanout: Option<u64> = None;
    let mut mode: Option<u32> = None;
    let mut mtime: Option<UnixTime> = None;
    assert(block_sizes@ =~= Seq::<u64>::empty());
    while pos < end
        invariant
            pos <= end == data@.len(),
            data_fields(data@, 0, end as int, no_fields()) == data_fields(
                data@,
                pos as int,
                end as int,
                (tag, file_size, block_sizes@, hash_type, fanout, mode, mtime),
            ),
        decreases end - pos,
    {
        let ghost acc = (tag, file_size, block_sizes@, hash_type, fanout, mode, mtime);
        let key = match read_varint_in(data, &mut pos, end) {
            Some(k) => k,
            None => return Err(malformed()),
        };
        if key == 8 || key == 24 || key == 32 || key == 40 || key == 48 || key == 56 {
            let v = match read_varint_in(data, &mut pos, end) {
                Some(v) => v,
                None => return Err(malformed()),
            };
            if key == 8 {
                tag = v;
            } else if key == 24 {
                file_size = Some(v);
            } else if key == 32 {
                block_sizes.push(v);
            } else if key == 40 {
                hash_type = Some(v);
            } else if key == 48 {
                fanout = Some(v);
            } else {
                mode = Some(v as u32);
            }
            assert((tag, file_size, block_sizes@, hash_type, fanout, mode, mtime) =~= set_scalar(acc, key, v));
        } else if key == 66 {
            match read_delimited(data, &mut pos, end) {
                Some((s, e)) => {
                    match decode_time(data, s, e) {
                        Ok(t) => mtime = Some(t),
                        Err(_) => return Err(malformed()),
                    }
                },
                None => return Err(malformed()),
            }
        } else if !skip_field(data, &mut pos, end, key % 8) {
            return Err(malformed());
        }
    }
    assert(data_fields(data@, pos as int, end as int, (tag, file_size, block_sizes@, hash_type, fanout, mode, mtime))
        == Some((tag, file_size, block_sizes@, hash_type, fanout, mode, mtime)));
    let file_type = match FileType::from_tag(tag) {
        Some(f) => f,
        None => return Err(CarError::Parsing("unknown file type".to_string())),
    };
    Ok(UnixFs {
        cid: None,
        mode,
        file_type,
        fanout,
        block_sizes,
        file_size,
        hash_type,
        links: Vec::new(),
        mtime,
        file_name: None,
    })
}


/// Whether the bytes `out`, whatever follows them, read as the record `acc`
/// up to their end.
spec fn reads_as(out: Seq<u8>, acc: DataFields) -> bool {
    forall|tail: Seq<u8>|
        (out + tail).len() <= usize::MAX ==> #[trigger] data_fields(out + tail, 0, (out + tail).len() as int, no_fields()) == data_fields(
            out + tail,
            out.len() as int,
            (out + tail).len() as int,
            acc,
        )
}

/// Whether the bytes `out`, whatever follows them, read as the time `acc`.
spec fn reads_time(out: Seq<u8>, acc: (i64, Option<u32>)) -> bool {
    forall|tail: Seq<u8>|
        (out + tail).len() <= usize::MAX ==> #[trigger] time_fields(out + tail, 0, (out + tail).len() as int, (0, None)) == time_fields(
            out + tail,
            out.len() as int,
            (out + tail).len() as int,
            acc,
        )
}

proof fn lemma_varint_at(d: Seq<u8>, pos: int, k: Seq<u8>, rest: Seq<u8>, v: u64)
    requires
        0 <= pos,
        pos + k.len() + rest.len() == d.len(),
        d.len() <= usize::MAX,
        d == d.subrange(0, pos) + (k + rest),
        k.len() > 0,
        pb_varint_of(k + rest) == Some((v, rest.len() as usize)),
    ensures
        varint_in(d, pos, d.len() as int) == Some((v, pos + k.len())),
{
    assert(d.subrange(pos, d.len() as int) =~= k + rest);
}

/// Appends a varint field with the given key and value.
fn put_field(out: &mut Vec<u8>, key: u64, v: u64, Ghost(acc): Ghost<DataFields>)
    requires
        reads_as(old(out)@, acc),
        key == 8 || key == 24 || key == 32 || key == 40 || key == 48 || key == 56,
    ensures
        reads_as(final(out)@, set_scalar(acc, key, v)),
        final(out)@.len() > old(out)@.len(),
{
    let ghost o0 = out@;
    pb_put_varint(out, key);
    let ghost o1 = out@;
    pb_put_varint(out, v);
    let ghost o2 = out@;
    let ghost kb = o1.subrange(o0.len() as int, o1.len() as int);
    let ghost vb = o2.subrange(o1.len() as int, o2.len() as int);
    assert forall|tail: Seq<u8>|
        (o2 + tail).len() <= usize::MAX implies #[trigger] data_fields(o2 + tail, 0, (o2 + tail).len() as int, no_fields()) == data_fields(
            o2 + tail,
            o2.len() as int,
            (o2 + tail).len() as int,
            set_scalar(acc, key, v),
        ) by {
        let d = o2 + tail;
        let end = d.len() as int;
        assert(d =~= o0 + (kb + vb + tail));
        assert(data_fields(o0 + (kb + vb + tail), 0, end, no_fields()) == data_fields(
            o0 + (kb + vb + tail),
            o0.len() as int,
            end,
            acc,
        ));
        assert(pb_varint_of(kb + (vb + tail)) == Some((key, (vb + tail).len() as usize)));
        assert(pb_varint_of(vb + tail) == Some((v, tail.len() as usize)));
        assert(d =~= d.subrange(0, o0.len() as int) + (kb + (vb + tail)));
        lemma_varint_at(d, o0.len() as int, kb, vb + tail, key);
        assert(d =~= d.subrange(0, o1.len() as int) + (vb + tail));
        lemma_varint_at(d, o1.len() as int, vb, tail, v);
    }
}

proof fn lemma_frame_varint(d: Seq<u8>, s: int, p: int, e: int)
    requires
        0 <= s <= p <= e <= d.len(),
    ensures
        match varint_in(d, p, e) {
            Some((v, n)) => varint_in(d.subrange(s, e), p - s, e - s) == Some((v, n - s)),
            None => varint_in(d.subrange(s, e), p - s, e - s) is None,
        },
{
    assert(d.subrange(p, e) =~= d.subrange(s, e).subrange(p - s, e - s));
}

proof fn lemma_frame_skip(d: Seq<u8>, s: int, p: int, e: int, w: u64)
    requires
        0 <= s <= p <= e <= d.len(),
    ensures
        match skip_in(d, p, e, w) {
            Some(n) => skip_in(d.subrange(s, e), p - s, e - s, w) == Some(n - s),
            None => skip_in(d.subrange(s, e), p - s, e - s, w) is None,
        },
{
    lemma_frame_varint(d, s, p, e);
}

/// Reading a time record depends only on the bytes between `s` and `e`.
proof fn lemma_time_frame(d: Seq<u8>, s: int, pos: int, e: int, acc: (i64, Option<u32>))
    requires
        0 <= s <= pos <= e <= d.len(),
    ensures
        time_fields(d, pos, e, acc) == time_fields(d.subrange(s, e), pos - s, e - s, acc),
    decreases e - pos,
{
    let sub = d.subrange(s, e);
    if pos < e {
        lemma_frame_varint(d, s, pos, e);
        match varint_in(d, pos, e) {
            Some((key, p1)) => {
                if pos < p1 <= e {
                    if key == 8 {
                        lemma_frame_varint(d, s, p1, e);
                        match varint_in(d, p1, e) {
                            Some((v, p2)) => {
                                if p1 < p2 <= e {
                                    lemma_time_frame(d, s, p2, e, (v as i64, acc.1));
                                }
                            },
                            None => {},
                        }
                    } else if key == 21 {
                        if e - p1 >= 4 {
                            assert(sub[p1 - s] == d[p1]);
                            assert(sub[p1 - s + 1] == d[p1 + 1]);
                            assert(sub[p1 - s + 2] == d[p1 + 2]);
                            assert(sub[p1 - s + 3] == d[p1 + 3]);
                            lemma_time_frame(d, s, p1 + 4, e, (acc.0, Some(le32(d[p1], d[p1 + 1], d[p1 + 2], d[p1 + 3]))));
                        }
                    } else {
                        lemma_frame_skip(d, s, p1, e, key % 8);
                        match skip_in(d, p1, e, key % 8) {
                            Some(p2) => {
                                if p1 <= p2 <= e {
                                    lemma_time_frame(d, s, p2, e, acc);
                                }
                            },
                            None => {},
                        }
                    }
                }
            },
            None => {},
        }
    }
}

/// Appends the seconds field of a time record.
fn put_seconds(out: &mut Vec<u8>, secs: i64, Ghost(acc): Ghost<(i64, Option<u32>)>)
    requires
        reads_time(old(out)@, acc),
    ensures
        reads_time(final(out)@, (secs, acc.1)),
{
    let ghost o0 = out@;
    pb_put_varint(out, 8);
    let ghost o1 = out@;
    pb_put_varint(out, secs as u64);
    let ghost o2 = out@;
    let ghost kb = o1.subrange(o0.len() as int, o1.len() as int);
    let ghost vb = o2.subrange(o1.len() as int, o2.len() as int);
    assert(((secs as u64) as i64) == secs) by (bit_vector);
    assert forall|tail: Seq<u8>|
        (o2 + tail).len() <= usize::MAX implies #[trigger] time_fields(o2 + tail, 0, (o2 + tail).len() as int, (0, None))
            == time_fields(o2 + tail, o2.len() as int, (o2 + tail).len() as int, (secs, acc.1)) by {
        let d = o2 + tail;
        assert(d =~= o0 + (kb + vb + tail));
        assert(pb_varint_of(kb + (vb + tail)) == Some((8u64, (vb + tail).len() as usize)));
        assert(pb_varint_of(vb + tail) == Some((secs as u64, tail.len() as usize)));
        assert(d =~= d.subrange(0, o0.len() as int) + (kb + (vb + tail)));
        lemma_varint_at(d, o0.len() as int, kb, vb + tail, 8);
        assert(d =~= d.subrange(0, o1.len() as int) + (vb + tail));
        lemma_varint_at(d, o1.len() as int, vb, tail, secs as u64);
    }
}

proof fn lemma_le32(f: u32)
    ensures
        le32((f % 256) as u8, ((f / 256) % 256) as u8, ((f / 65536) % 256) as u8, (f / 16777216) as u8) == f,
{
    assert((f % 256) as int + ((f / 256) % 256) as int * 256 + ((f / 65536) % 256) as int * 65536 + (f / 16777216) as int
        * 16777216 == f as int) by (nonlinear_arith);
}

/// Appends the fraction field of a time record.
fn put_fraction(out: &mut Vec<u8>, f: u32, Ghost(acc): Ghost<(i64, Option<u32>)>)
    requires
        reads_time(old(out)@, acc),
    ensures
        reads_time(final(out)@, (acc.0, Some(f))),
{
    let ghost o0 = out@;
    pb_put_varint(out, 21);
    let ghost o1 = out@;
    out.push((f % 256) as u8);
    out.push(((f / 256) % 256) as u8);
    out.push(((f / 65536) % 256) as u8);
    out.push((f / 16777216) as u8);
    let ghost o2 = out@;
    let ghost kb = o1.subrange(o0.len() as int, o1.len() as int);
    let ghost vb = o2.subrange(o1.len() as int, o2.len() as int);
    proof {
        lemma_le32(f);
    }
    assert(vb.len() == 4);
    assert forall|tail: Seq<u8>|
        (o2 + tail).len() <= usize::MAX implies #[trigger] time_fields(o2 + tail, 0, (o2 + tail).len() as int, (0, None))
            == time_fields(o2 + tail, o2.len() as int, (o2 + tail).len() as int, (acc.0, Some(f))) by {
        let d = o2 + tail;
        let p1 = o1.len() as int;
        assert(d =~= o0 + (kb + vb + tail));
        assert(pb_varint_of(kb + (vb + tail)) == Some((21u64, (vb + tail).len() as usize)));
        assert(d =~= d.subrange(0, o0.len() as int) + (kb + (vb + tail)));
        lemma_varint_at(d, o0.len() as int, kb, vb + tail, 21);
        assert(d[p1] == (f % 256) as u8);
        assert(d[p1 + 1] == ((f / 256) % 256) as u8);
        assert(d[p1 + 2] == ((f / 65536) % 256) as u8);
        assert(d[p1 + 3] == (f / 16777216) as u8);
    }
}

/// Appends the modification-time field of a data record.
#[verifier::rlimit(100)]
fn put_mtime(out: &mut Vec<u8>, t: UnixTime, Ghost(acc): Ghost<DataFields>)
    requires
        reads_as(old(out)@, acc),
    ensures
        reads_as(final(out)@, (acc.0, acc.1, acc.2, acc.3, acc.4, acc.5, Some(t))),
        final(out)@.len() > old(out)@.len(),
{
    let mut inner: Vec<u8> = Vec::new();
    assert(reads_time(inner@, (0, None))) by {
        assert forall|tail: Seq<u8>|
            (inner@ + tail).len() <= usize::MAX implies #[trigger] time_fields(inner@ + tail, 0, (inner@ + tail).len() as int, (0, None))
                == time_fields(inner@ + tail, inner@.len() as int, (inner@ + tail).len() as int, (0, None)) by {}
    };
    put_seconds(&mut inner, t.seconds, Ghost((0, None)));
    match t.fractional_nanoseconds {
        Some(f) => put_fraction(&mut inner, f, Ghost((t.seconds, None))),
        None => {},
    }
    let il = inner.len();
    let ghost ib = inner@;
    assert(ib + Seq::<u8>::empty() =~= ib);
    assert(time_fields(ib, 0, ib.len() as int, (0, None)) == Some((t.seconds, t.fractional_nanoseconds)));
    let ghost o0 = out@;
    pb_put_varint(out, 66);
    let ghost o1 = out@;
    pb_put_varint(out, il as u64);
    let ghost o2 = out@;
    let mut j: usize = 0;
    while j < il
        invariant
            il == ib.len(),
            inner@ == ib,
            j <= il,
            out@ == o2 + ib.subrange(0, j as int),
        decreases il - j,
    {
        out.push(inner[j]);
        assert(ib.subrange(0, j + 1) =~= ib.subrange(0, j as int).push(ib[j as int]));
        j = j + 1;
    }
    assert(ib.subrange(0, il as int) =~= ib);
    let ghost o3 = out@;
    let ghost kb = o1.subrange(o0.len() as int, o1.len() as int);
    let ghost lb = o2.subrange(o1.len() as int, o2.len() as int);
    let ghost nacc = (acc.0, acc.1, acc.2, acc.3, acc.4, acc.5, Some(t));
    assert forall|tail: Seq<u8>|
        (o3 + tail).len() <= usize::MAX implies #[trigger] data_fields(o3 + tail, 0, (o3 + tail).len() as int, no_fields())
            == data_fields(o3 + tail, o3.len() as int, (o3 + tail).len() as int, nacc) by {
        let d = o3 + tail;
        let end = d.len() as int;
        let s = o2.len() as int;
        let e = o3.len() as int;
        assert(d =~= o0 + (kb + lb + ib + tail));
        assert(data_fields(o0 + (kb + lb + ib + tail), 0, end, no_fields()) == data_fields(
            o0 + (kb + lb + ib + tail),
            o0.len() as int,
            end,
            acc,
        ));
        assert(pb_varint_of(kb + (lb + ib + tail)) == Some((66u64, (lb + ib + tail).len() as usize)));
        assert(pb_varint_of(lb + (ib + tail)) == Some((il as u64, (ib + tail).len() as usize)));
        assert(d =~= d.subrange(0, o0.len() as int) + (kb + (lb + ib + tail)));
        assert(kb + (lb + ib + tail) =~= kb + (lb + (ib + tail)));
        lemma_varint_at(d, o0.len() as int, kb, lb + ib + tail, 66);
        assert(d =~= d.subrange(0, o1.len() as int) + (lb + (ib + tail)));
        lemma_varint_at(d, o1.len() as int, lb, ib + tail, il as u64);
        assert(delimited_in(d, o1.len() as int, end) == Some((s, e)));
        lemma_time_frame(d, s, s, e, (0, None));
        assert(d.subrange(s, e) =~= ib);
    }
}

/// Serialises the filesystem record of a node: kind, sizes, hash type,
/// fanout, mode and modification time, in field order.
pub fn encode_data(u: &UnixFs) -> (r: Vec<u8>)
    ensures
        r@.len() > 0,
        data_fields(r@, 0, r@.len() as int, no_fields()) == Some(fields_of(*u)),
{
    let mut out: Vec<u8> = Vec::new();
    assert(reads_as(out@, no_fields())) by {
        assert forall|tail: Seq<u8>|
            (out@ + tail).len() <= usize::MAX implies #[trigger] data_fields(out@ + tail, 0, (out@ + tail).len() as int, no_fields())
                == data_fields(out@ + tail, out@.len() as int, (out@ + tail).len() as int, no_fields()) by {}
    };
    let tag = u.file_type.tag();
    put_field(&mut out, 8, tag, Ghost(no_fields()));
    let ghost mut acc = set_scalar(no_fields(), 8, tag);
    if let Some(v) = u.file_size {
        put_field(&mut out, 24, v, Ghost(acc));
        proof {
            acc = set_scalar(acc, 24, v);
        }
    }
    assert(acc.2 =~= u.block_sizes@.subrange(0, 0));
    let mut i: usize = 0;
    while i < u.block_sizes.len()
        invariant
            i <= u.block_sizes@.len(),
            reads_as(out@, acc),
            out@.len() > 0,
            acc == (u.file_type.spec_tag(), u.file_size, u.block_sizes@.subrange(0, i as int), None::<u64>, None::<u64>,
                None::<u32>, None::<UnixTime>),
        decreases u.block_sizes@.len() - i,
    {
        put_field(&mut out, 32, u.block_sizes[i], Ghost(acc));
        proof {
            acc = set_scalar(acc, 32, u.block_sizes@[i as int]);
            assert(acc.2 =~= u.block_sizes@.subrange(0, i + 1));
        }
        i = i + 1;
    }
    assert(u.block_sizes@.subrange(0, u.block_sizes@.len() as int) =~= u.block_sizes@);
    if let Some(v) = u.hash_type {
        put_field(&mut out, 40, v, Ghost(acc));
        proof {
            acc = set_scalar(acc, 40, v);
        }
    }
    if let Some(v) = u.fanout {
        put_field(&mut out, 48, v, Ghost(acc));
        proof {
            acc = set_scalar(acc, 48, v);
        }
    }
    if let Some(v) = u.mode {
        put_field(&mut out, 56, v as u64, Ghost(acc));
        proof {
            acc = set_scalar(acc, 56, v as u64);
            assert(((v as u64) as u32) == v);
        }
    }
    if let Some(t) = u.mtime {
        put_mtime(&mut out, t, Ghost(acc));
        proof {
            acc = (acc.0, acc.1, acc.2, acc.3, acc.4, acc.5, Some(t));
        }
    }
    assert(acc == fields_of(*u));
    let len = out.len();
    assert(len as int == out@.len() && out@ + Seq::<u8>::empty() =~= out@);
    out
}

/// What the decoder keeps of a link: target bytes, name, size.
pub type LinkView = (Seq<u8>, Seq<char>, u64);

/// The link that the fields of a link record in `d[pos..end]` give, starting
/// from `acc`: field 1 is the target identifier, which must be whole, field 2
/// the UTF-8 name, field 3 the size; later fields win, others are skipped.
pub open spec fn pb_link_fields(d: Seq<u8>, pos: int, end: int, acc: (Option<Seq<u8>>, Seq<char>, u64)) -> Option<
    (Option<Seq<u8>>, Seq<char>, u64),
>
    decreases end - pos,
{
    if pos >= end {
        Some(acc)
    } else {
        match varint_in(d, pos, end) {
            None => None,
            Some((key, p1)) => if !(pos < p1 <= end) {
                None
            } else if key == 10 || key == 18 {
                match delimited_in(d, p1, end) {
                    Some((a, b)) => if p1 < a <= b <= end {
                        if key == 10 {
                            match cid_prefix_of(d.subrange(a, b)) {
                                Some((w, _)) => if w == b - a {
                                    pb_link_fields(d, b, end, (Some(d.subrange(a, b)), acc.1, acc.2))
                                } else {
                                    None
                                },
                                None => None,
                            }
                        } else {
                            match utf8_of(d.subrange(a, b)) {
                                Some(n) => pb_link_fields(d, b, end, (acc.0, n, acc.2)),
                                None => None,
                            }
                        }
                    } else {
                        None
                    },
                    None => None,
                }
            } else if key == 24 {
                match varint_in(d, p1, end) {
                    Some((v, p2)) => if p1 < p2 <= end {
                        pb_link_fields(d, p2, end, (acc.0, acc.1, v))
                    } else {
                        None
                    },
                    None => None,
                }
            } else {
                match skip_in(d, p1, end, key % 8) {
                    Some(p2) => if p1 <= p2 <= end {
                        pb_link_fields(d, p2, end, acc)
                    } else {
                        None
                    },
                    None => None,
                }
            },
        }
    }
}

/// The link record in `d[s..e]`, if it is well formed and names a target.
pub open spec fn pb_link_of(d: Seq<u8>, s: int, e: int) -> Option<LinkView> {
    match pb_link_fields(d, s, e, (None, Seq::empty(), 0)) {
        Some((Some(h), n, t)) => Some((h, n, t)),
        _ => None,
    }
}

/// The body and links that the fields of a protobuf DAG node in `d[pos..end]`
/// give, starting from `acc`: field 1 is the body (the last one wins), each
/// field 2 a link record, in order; other fields are skipped.
pub open spec fn pb_node_fields(d: Seq<u8>, pos: int, end: int, acc: (Option<Seq<u8>>, Seq<LinkView>)) -> Option<
    (Option<Seq<u8>>, Seq<LinkView>),
>
    decreases end - pos,
{
    if pos >= end {
        Some(acc)
    } else {
        match varint_in(d, pos, end) {
            None => None,
            Some((key, p1)) => if !(pos < p1 <= end) {
                None
            } else if key == 10 || key == 18 {
                match delimited_in(d, p1, end) {
                    Some((a, b)) => if p1 < a <= b <= end {
                        if key == 10 {
                            pb_node_fields(d, b, end, (Some(d.subrange(a, b)), acc.1))
                        } else {
                            match pb_link_of(d, a, b) {
                                Some(l) => pb_node_fields(d, b, end, (acc.0, acc.1.push(l))),
                                None => None,
                            }
                        }
                    } else {
                        None
                    },
                    None => None,
                }
            } else {
                match skip_in(d, p1, end, key % 8) {
                    Some(p2) => if p1 <= p2 <= end {
                        pb_node_fields(d, p2, end, acc)
                    } else {
                        None
                    },
                    None => None,
                }
            },
        }
    }
}

/// The body and links of the protobuf DAG node `d`, or nothing where it is malformed.
pub open spec fn dag_pb_of(d: Seq<u8>) -> Option<(Option<Seq<u8>>, Seq<LinkView>)> {
    pb_node_fields(d, 0, d.len() as int, (None, Seq::empty()))
}

/// Whether the entries of a map node carry the body `body` under `Data` (or
/// no `Data` entry) and the links `ls` in their `Links` list.
pub open spec fn pb_shape(m: Seq<(String, Ipld)>, body: Option<Seq<u8>>, ls: Seq<LinkView>) -> bool {
    &&& links_of(links_entry(m)) == ls
    &&& match body {
        Some(b) => lookup(m, "Data"@) matches Some(Ipld::Bytes(v)) && v@ == b,
        None => lookup(m, "Data"@) is None,
    }
}

pub open spec fn body_view(b: Option<Vec<u8>>) -> Option<Seq<u8>> {
    match b {
        Some(v) => Some(v@),
        None => None,
    }
}

pub open spec fn hash_view(h: Option<Cid>) -> Option<Seq<u8>> {
    match h {
        Some(c) => Some(c@),
        None => None,
    }
}

/// Decodes one link record of a protobuf DAG node into a map node with
/// `Hash`, `Name` and `Tsize`; a missing name reads as empty, a missing size
/// as zero.
fn decode_pb_link(data: &[u8], s: usize, e: usize) -> (r: Result<Ipld, CarError>)
    requires
        s <= e <= data@.len(),
    ensures
        match pb_link_of(data@, s as int, e as int) {
            Some(v) => r matches Ok(n) && encoded_view(n, v),
            None => r is Err,
        },
{
    let mut pos = s;
    let mut hash: Option<Cid> = None;
    let mut name: String = String::new();
    let mut tsize: u64 = 0;
    while pos < e
        invariant
            s <= pos <= e <= data@.len(),
            pb_link_fields(data@, s as int, e as int, (None, Seq::empty(), 0)) == pb_link_fields(
                data@,
                pos as int,
                e as int,
                (hash_view(hash), name@, tsize),
            ),
        decreases e - pos,
    {
        let key = match read_varint_in(data, &mut pos, e) {
            Some(k) => k,
            None => return Err(malformed()),
        };
        if key == 10 || key == 18 {
            let (a, b) = match read_delimited(data, &mut pos, e) {
                Some(r) => r,
                None => return Err(malformed()),
            };
            let bytes = slice_subrange(data, a, b);
            if key == 10 {
                match Cid::from_bytes(bytes) {
                    Ok(c) => hash = Some(c),
                    Err(er) => return Err(er),
                }
            } else {
                match utf8_string(slice_to_vec(bytes)) {
                    Some(n) => name = n,
                    None => return Err(CarError::Parsing("link name is not UTF-8".to_string())),
                }
            }
        } else if key == 24 {
            match read_varint_in(data, &mut pos, e) {
                Some(v) => tsize = v,
                None => return Err(malformed()),
            }
        } else if !skip_field(data, &mut pos, e, key % 8) {
            return Err(malformed());
        }
    }
    let c = match hash {
        Some(c) => c,
        None => return Err(CarError::Parsing("link without a hash".to_string())),
    };
    let mut entries: Vec<(String, Ipld)> = Vec::new();
    entries.push(("Hash".to_string(), Ipld::Link(c)));
    entries.push(("Name".to_string(), Ipld::String(name)));
    entries.push(("Tsize".to_string(), Ipld::Integer(tsize as i128)));
    proof {
        reveal_strlit("Hash");
        reveal_strlit("Name");
        reveal_strlit("Tsize");
    }
    Ok(Ipld::Dict(entries))
}

/// Decodes a protobuf DAG node into a map node with `Data` where the node has
/// a body, then `Links`, a list of link maps in the order the node holds them.
pub fn decode_dag_pb(data: &[u8]) -> (r: Result<Ipld, CarError>)
    ensures
        r matches Ok(n) ==> n is Dict,
        match dag_pb_of(data@) {
            Some((body, ls)) => r matches Ok(Ipld::Dict(m)) && pb_shape(m@, body, ls),
            None => r matches Err(e) && e.is_parsing(),
        },
{
    let end = data.len();
    let mut pos: usize = 0;
    let mut links: Vec<Ipld> = Vec::new();
    let mut body: Option<Vec<u8>> = None;
    assert(links_of(links@) =~= Seq::<LinkView>::empty());
    while pos < end
        invariant
            pos <= end == data@.len(),
            dag_pb_of(data@) == pb_node_fields(
                data@,
                pos as int,
                end as int,
                (body_view(body), links_of(links@)),
            ),
        decreases end - pos,
    {
        let key = match read_varint_in(data, &mut pos, end) {
            Some(k) => k,
            None => return Err(malformed()),
        };
        if key == 10 || key == 18 {
            let (a, b) = match read_delimited(data, &mut pos, end) {
                Some(r) => r,
                None => return Err(malformed()),
            };
            if key == 10 {
                body = Some(slice_to_vec(slice_subrange(data, a, b)));
            } else {
                match decode_pb_link(data, a, b) {
                    Ok(l) => {
                        let ghost old_links = links@;
                        let ghost v = pb_link_of(data@, a as int, b as int)->Some_0;
                        proof {
                            lemma_link_of_view(l, v);
                        }
                        links.push(l);
                        assert(links@.drop_last() =~= old_links);
                    },
                    Err(_) => return Err(malformed()),
                }
            }
        } else if !skip_field(data, &mut pos, end, key % 8) {
            return Err(malformed());
        }
    }
    let ghost bv = body_view(body);
    let ghost lv = links_of(links@);
    let mut entries: Vec<(String, Ipld)> = Vec::new();
    if let Some(b) = body {
        entries.push(("Data".to_string(), Ipld::Bytes(b)));
    }
    entries.push(("Links".to_string(), Ipld::List(links)));
    proof {
        reveal_strlit("Data");
        reveal_strlit("Links");
        assert("Data"@ != "Links"@) by {
            assert("Data"@.len() != "Links"@.len());
        };
        let m = entries@;
        if m.len() == 2 {
            assert(m.drop_first()[0] == m[1]);
            assert(lookup(m.drop_first(), "Links"@) == Some(m[1].1));
        } else {
            assert(lookup(m.drop_first(), "Data"@) is None);
        }
    }
    Ok(Ipld::Dict(entries))
}

} // verus!
