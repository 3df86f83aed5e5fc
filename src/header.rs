use vstd::prelude::*;
use vstd::slice::{slice_subrange, slice_to_vec};

use crate::content_id::{cid_prefix_of, Cid};
use crate::reader::cid_views;
use crate::error::CarError;

verus! {

/// The archive's header: its format version and the identifiers of its roots,
/// in the order the header lists them.
#[derive(Debug, Clone)]
pub struct CarHeader {
    pub version: u64,
    pub roots: Vec<Cid>,
}

impl CarHeader {
    pub fn version(&self) -> (r: u64)
        ensures
            r == self.version,
    {
        self.version
    }

    /// Copies of the root identifiers, in header order.
    pub fn roots(&self) -> (r: Vec<Cid>)
        ensures
            r@.len() == self.roots@.len(),
            forall|i: int| 0 <= i < r@.len() ==> (#[trigger] r@[i])@ == self.roots@[i]@
                && r@[i].spec_codec() == self.roots@[i].spec_codec() && r@[i].wf() == self.roots@[i].wf(),
    {
        let mut out: Vec<Cid> = Vec::new();
        let mut i: usize = 0;
        while i < self.roots.len()
            invariant
                i <= self.roots@.len(),
                out@.len() == i,
                forall|k: int| 0 <= k < i ==> (#[trigger] out@[k])@ == self.roots@[k]@
                    && out@[k].spec_codec() == self.roots@[k].spec_codec() && out@[k].wf() == self.roots@[k].wf(),
            decreases self.roots@.len() - i,
        {
            out.push(self.roots[i].duplicate());
            i = i + 1;
        }
        out
    }
}

/// The big-endian number in `d[s..s+n]`, or nothing where it does not fit in 64 bits.
pub open spec fn be_checked(d: Seq<u8>, s: int, n: nat) -> Option<u64>
    decreases n,
{
    if n == 0 {
        Some(0)
    } else {
        match be_checked(d, s, (n - 1) as nat) {
            Some(v) => if v * 256 + d[s + n - 1] <= u64::MAX {
                Some((v * 256 + d[s + n - 1]) as u64)
            } else {
                None
            },
            None => None,
        }
    }
}

/// The head of the CBOR item at `pos`: major type, argument, and where the
/// item's content starts.
pub open spec fn head_at(d: Seq<u8>, pos: int) -> Option<(u8, u64, int)> {
    if pos < 0 || pos >= d.len() {
        None
    } else {
        let b = d[pos];
        let major = (b / 32) as u8;
        let info = b % 32;
        if info < 24 {
            Some((major, info as u64, pos + 1))
        } else {
            let w: int = if info == 24 {
                1
            } else if info == 25 {
                2
            } else if info == 26 {
                4
            } else if info == 27 {
                8
            } else {
                0
            };
            if w == 0 || d.len() - pos - 1 < w {
                None
            } else {
                match be_checked(d, pos + 1, w as nat) {
                    Some(v) => Some((major, v, pos + 1 + w)),
                    None => None,
                }
            }
        }
    }
}

/// A root at `pos`: tag 42 around a byte string of a zero byte and a whole
/// identifier; its bytes and the offset after it.
pub open spec fn root_at(d: Seq<u8>, pos: int) -> Option<(Seq<u8>, int)> {
    match head_at(d, pos) {
        Some((6, 42, p1)) => match head_at(d, p1) {
            Some((2, n, p2)) => if n == 0 || n > d.len() - p2 || d[p2] != 0 {
                None
            } else {
                match cid_prefix_of(d.subrange(p2 + 1, p2 + n)) {
                    Some((w, _)) => if w == n - 1 {
                        Some((d.subrange(p2 + 1, p2 + n), p2 + n))
                    } else {
                        None
                    },
                    None => None,
                }
            },
            _ => None,
        },
        _ => None,
    }
}

/// `count` roots in a row from `pos`, and the offset after them.
pub open spec fn roots_at(d: Seq<u8>, pos: int, count: nat) -> Option<(Seq<Seq<u8>>, int)>
    decreases count,
{
    if count == 0 {
        Some((Seq::empty(), pos))
    } else {
        match root_at(d, pos) {
            Some((b, p1)) => match roots_at(d, p1, (count - 1) as nat) {
                Some((rs, p2)) => Some((seq![b] + rs, p2)),
                None => None,
            },
            None => None,
        }
    }
}

/// The bytes of the text key `version`.
pub open spec fn version_key() -> Seq<u8> {
    seq![118u8, 101u8, 114u8, 115u8, 105u8, 111u8, 110u8]
}

/// The bytes of the text key `roots`.
pub open spec fn roots_key() -> Seq<u8> {
    seq![114u8, 111u8, 111u8, 116u8, 115u8]
}

pub type HeaderAcc = (Option<u64>, Option<Seq<Seq<u8>>>);

/// One map entry at `pos`: a `version` number or a `roots` list; any other key is refused.
pub open spec fn entry_at(d: Seq<u8>, pos: int, acc: HeaderAcc) -> Option<(HeaderAcc, int)> {
    match head_at(d, pos) {
        Some((3, l, p1)) => if l > d.len() - p1 {
            None
        } else {
            let key = d.subrange(p1, p1 + l);
            let p2 = p1 + l;
            if key == version_key() {
                match head_at(d, p2) {
                    Some((0, v, p3)) => Some(((Some(v), acc.1), p3)),
                    _ => None,
                }
            } else if key == roots_key() {
                match head_at(d, p2) {
                    Some((4, c, p3)) => match roots_at(d, p3, c as nat) {
                        Some((rs, p4)) => Some(((acc.0, Some(rs)), p4)),
                        None => None,
                    },
                    _ => None,
                }
            } else {
                None
            }
        },
        _ => None,
    }
}

/// `k` map entries in a row from `pos`.
pub open spec fn entries_at(d: Seq<u8>, pos: int, k: nat, acc: HeaderAcc) -> Option<(HeaderAcc, int)>
    decreases k,
{
    if k == 0 {
        Some((acc, pos))
    } else {
        match entry_at(d, pos, acc) {
            Some((a2, p2)) => entries_at(d, p2, (k - 1) as nat, a2),
            None => None,
        }
    }
}

/// The version and root identifiers that the header bytes `d` hold: one map
/// with both entries, and nothing after it.
pub open spec fn header_of(d: Seq<u8>) -> Option<(u64, Seq<Seq<u8>>)> {
    match head_at(d, 0) {
        Some((5, n, p)) => match entries_at(d, p, n as nat, (None, None)) {
            Some(((Some(v), Some(rs)), e)) => if e == d.len() {
                Some((v, rs))
            } else {
                None
            },
            _ => None,
        },
        _ => None,
    }
}

fn bad_header() -> (e: CarError)
    ensures
        e.is_parsing(),
{
    CarError::Parsing("malformed archive header".to_string())
}

proof fn lemma_be_none(d: Seq<u8>, s: int, n: nat, m: nat)
    requires
        n <= m,
        be_checked(d, s, n) is None,
    ensures
        be_checked(d, s, m) is None,
    decreases m - n,
{
    if n < m {
        lemma_be_none(d, s, n, (m - 1) as nat);
    }
}

/// Reads the head of a CBOR item at `*pos`: its major type and argument.
fn read_head(data: &[u8], pos: &mut usize) -> (r: Option<(u8, u64)>)
    requires
        *old(pos) <= data@.len(),
    ensures
        *old(pos) <= *final(pos) <= data@.len(),
        r is Some ==> *old(pos) < *final(pos),
        match head_at(data@, *old(pos) as int) {
            Some((m, v, n)) => r == Some((m, v)) && *final(pos) == n,
            None => r is None,
        },
{
    let p = *pos;
    if p >= data.len() {
        return None;
    }
    let b = data[p];
    let major = b / 32;
    let info = b % 32;
    if info < 24 {
        *pos = p + 1;
        return Some((major, info as u64));
    }
    let w: usize = if info == 24 {
        1
    } else if info == 25 {
        2
    } else if info == 26 {
        4
    } else if info == 27 {
        8
    } else {
        return None;
    };
    if data.len() - p - 1 < w {
        return None;
    }
    let mut v: u64 = 0;
    let mut i: usize = 0;
    let ghost len = data@.len();
    assert(head_at(data@, p as int) == match be_checked(data@, p + 1, w as nat) {
        Some(x) => Some((major, x, p + 1 + w)),
        None => None,
    });
    while i < w
        invariant
            head_at(data@, p as int) == match be_checked(data@, p + 1, w as nat) {
                Some(x) => Some((major, x, p + 1 + w)),
                None => None,
            },
            i <= w,
            p + 1 + w <= data@.len(),
            len == data@.len(),
            data.len() == len,
            *pos == p,
            *old(pos) == p,
            be_checked(data@, p + 1, i as nat) == Some(v),
        decreases w - i,
    {
        v = match v.checked_mul(256) {
            Some(x) => match x.checked_add(data[p + 1 + i] as u64) {
                Some(y) => y,
                None => {
                    assert(be_checked(data@, p + 1, (i + 1) as nat) is None);
                    proof {
                        lemma_be_none(data@, p + 1, (i + 1) as nat, w as nat);
                    }
                    return None;
                },
            },
            None => {
                assert(be_checked(data@, p + 1, (i + 1) as nat) is None);
                proof {
                    lemma_be_none(data@, p + 1, (i + 1) as nat, w as nat);
                }
                return None;
            },
        };
        i = i + 1;
    }
    *pos = p + 1 + w;
    Some((major, v))
}

/// Whether the text item at `s..e` holds the bytes `k`.
fn text_is(data: &[u8], s: usize, e: usize, k: &[u8]) -> (r: bool)
    requires
        s <= e <= data@.len(),
    ensures
        r == (data@.subrange(s as int, e as int) == k@),
{
    if e - s != k.len() {
        return false;
    }
    let mut i: usize = 0;
    while i < k.len()
        invariant
            s + k@.len() == e <= data@.len(),
            i <= k@.len(),
            forall|j: int| 0 <= j < i ==> data@[s + j] == k@[j],
        decreases k@.len() - i,
    {
        if data[s + i] != k[i] {
            assert(data@.subrange(s as int, e as int)[i as int] != k@[i as int]);
            return false;
        }
        i = i + 1;
    }
    assert(data@.subrange(s as int, e as int) =~= k@);
    true
}

/// Reads one root: a CBOR tag 42 around a byte string holding a zero byte
/// and then the identifier's binary form.
fn read_root(data: &[u8], pos: &mut usize) -> (r: Result<Cid, CarError>)
    requires
        *old(pos) <= data@.len(),
    ensures
        *old(pos) <= *final(pos) <= data@.len(),
        match root_at(data@, *old(pos) as int) {
            Some((b, n)) => r matches Ok(c) && c@ == b && *final(pos) == n,
            None => r is Err,
        },
{
    match read_head(data, pos) {
        Some((6, 42)) => {},
        _ => return Err(bad_header()),
    }
    let n = match read_head(data, pos) {
        Some((2, n)) => n,
        _ => return Err(bad_header()),
    };
    let p = *pos;
    if n == 0 || n > (data.len() - p) as u64 || data[p] != 0 {
        return Err(bad_header());
    }
    let e = p + n as usize;
    *pos = e;
    Cid::from_bytes(slice_subrange(data, p + 1, e))
}

spec fn prepend_roots(s: Seq<Seq<u8>>, o: Option<(Seq<Seq<u8>>, int)>) -> Option<(Seq<Seq<u8>>, int)> {
    match o {
        Some((r, p)) => Some((s + r, p)),
        None => None,
    }
}

/// Decodes the CBOR header record: a map with a `version` number and a
/// `roots` list of identifiers, and nothing after it.
pub fn decode_header(data: &[u8]) -> (r: Result<CarHeader, CarError>)
    ensures
        match header_of(data@) {
            Some((v, rs)) => r matches Ok(h) && h.version == v && cid_views(h.roots@) == rs,
            None => r is Err,
        },
{
    let vk: Vec<u8> = vec![118u8, 101u8, 114u8, 115u8, 105u8, 111u8, 110u8];
    let rk: Vec<u8> = vec![114u8, 111u8, 111u8, 116u8, 115u8];
    assert(vk@ =~= version_key());
    assert(rk@ =~= roots_key());
    let mut pos: usize = 0;
    let n = match read_head(data, &mut pos) {
        Some((5, n)) => n,
        _ => return Err(bad_header()),
    };
    let ghost p0 = pos as int;
    let mut version: Option<u64> = None;
    let mut roots: Option<Vec<Cid>> = None;
    let mut k: u64 = 0;
    while k < n
        invariant
            pos <= data@.len(),
            k <= n,
            vk@ == version_key(),
            rk@ == roots_key(),
            head_at(data@, 0) == Some((5u8, n, p0)),
            entries_at(data@, p0, n as nat, (None, None)) == entries_at(
                data@,
                pos as int,
                (n - k) as nat,
                (version, roots_view(roots)),
            ),
        decreases n - k,
    {
        let ghost acc = (version, roots_view(roots));
        let ghost ps = pos as int;
        let klen = match read_head(data, &mut pos) {
            Some((3, l)) => l,
            _ => return Err(bad_header()),
        };
        if klen > (data.len() - pos) as u64 {
            return Err(bad_header());
        }
        let ks = pos;
        let ke = pos + klen as usize;
        pos = ke;
        if text_is(data, ks, ke, vk.as_slice()) {
            match read_head(data, &mut pos) {
                Some((0, v)) => version = Some(v),
                _ => return Err(bad_header()),
            }
        } else if text_is(data, ks, ke, rk.as_slice()) {
            let count = match read_head(data, &mut pos) {
                Some((4, c)) => c,
                _ => return Err(bad_header()),
            };
            let ghost p3 = pos as int;
            assert(entry_at(data@, ps, acc) == match roots_at(data@, p3, count as nat) {
                Some((x, q)) => Some(((acc.0, Some(x)), q)),
                None => None,
            });
            let mut rs: Vec<Cid> = Vec::new();
            let mut j: u64 = 0;
            assert(cid_views(rs@) =~= Seq::<Seq<u8>>::empty());
            assert(roots_at(data@, p3, count as nat) == prepend_roots(cid_views(rs@), roots_at(data@, p3, count as nat))) by {
                match roots_at(data@, p3, count as nat) {
                    Some((x, q)) => {
                        assert(Seq::<Seq<u8>>::empty() + x =~= x);
                    },
                    None => {},
                }
            };
            while j < count
                invariant
                    pos <= data@.len(),
                    j <= count,
                    k < n,
                    head_at(data@, 0) == Some((5u8, n, p0)),
                    entry_at(data@, ps, acc) == match roots_at(data@, p3, count as nat) {
                        Some((x, q)) => Some(((acc.0, Some(x)), q)),
                        None => None,
                    },
                    entries_at(data@, p0, n as nat, (None, None)) == entries_at(data@, ps, (n - k) as nat, acc),
                    roots_at(data@, p3, count as nat) == prepend_roots(
                        cid_views(rs@),
                        roots_at(data@, pos as int, (count - j) as nat),
                    ),
                decreases count - j,
            {
                let ghost pj = pos as int;
                match read_root(data, &mut pos) {
                    Ok(c) => {
                        let ghost old_rs = cid_views(rs@);
                        rs.push(c);
                        assert(cid_views(rs@) =~= old_rs.push(c@));
                        proof {
                            match roots_at(data@, pos as int, (count - j - 1) as nat) {
                                Some((x, q)) => {
                                    assert(old_rs + (seq![c@] + x) =~= old_rs.push(c@) + x);
                                },
                                None => {},
                            }
                        }
                    },
                    Err(e) => {
                        assert(roots_at(data@, p3, count as nat) is None);
                        assert(entry_at(data@, ps, acc) is None);
                        assert(entries_at(data@, ps, (n - k) as nat, acc) is None);
                        return Err(e);
                    },
                }
                j = j + 1;
            }
            assert(cid_views(rs@) + Seq::<Seq<u8>>::empty() =~= cid_views(rs@));
            roots = Some(rs);
        } else {
            return Err(bad_header());
        }
        k = k + 1;
    }
    if pos != data.len() {
        return Err(bad_header());
    }
    match (version, roots) {
        (Some(v), Some(rs)) => Ok(CarHeader { version: v, roots: rs }),
        _ => Err(bad_header()),
    }
}

pub open spec fn roots_view(r: Option<Vec<Cid>>) -> Option<Seq<Seq<u8>>> {
    match r {
        Some(v) => Some(cid_views(v@)),
        None => None,
    }
}

} // verus!
