use vstd::prelude::*;

use crate::content_id::Cid;
use crate::error::CarError;
use crate::ipld::Ipld;
use crate::reader::CarReader;
use crate::content_id::{codec_of, DAG_PB_CODEC, RAW_CODEC};
use crate::reader::{cid_views, hashes, unixfs_of_block};
use crate::unixfs_codec::{decode, link_views};

verus! {

/// Appends `b` to `out`.
fn append(out: &mut Vec<u8>, b: &Vec<u8>)
    ensures
        final(out)@ == old(out)@ + b@,
{
    let ghost start = out@;
    let mut i: usize = 0;
    while i < b.len()
        invariant
            i <= b@.len(),
            out@ == start + b@.subrange(0, i as int),
        decreases b@.len() - i,
    {
        out.push(b[i]);
        assert(b@.subrange(0, i + 1) =~= b@.subrange(0, i as int).push(b@[i as int]));
        i = i + 1;
    }
    assert(b@.subrange(0, b@.len() as int) =~= b@);
}

/// What one block contributes when its content is written: the bytes of a
/// raw block, or the link targets of a filesystem node; nothing where the
/// block is missing or does not decode.
pub open spec fn node_output(reader: CarReader, c: Seq<u8>) -> Option<(Seq<u8>, Seq<Seq<u8>>)> {
    match reader.block_of(c) {
        None => None,
        Some(b) => if codec_of(c) == RAW_CODEC {
            Some((b, Seq::empty()))
        } else if codec_of(c) == DAG_PB_CODEC {
            match unixfs_of_block(b) {
                Some((_, ls)) => Some((Seq::empty(), hashes(ls))),
                None => None,
            }
        } else {
            None
        },
    }
}

/// The bytes that the blocks of one level give, in order, and the next level.
pub open spec fn level_output(reader: CarReader, level: Seq<Seq<u8>>) -> Option<(Seq<u8>, Seq<Seq<u8>>)>
    decreases level.len(),
{
    if level.len() == 0 {
        Some((Seq::empty(), Seq::empty()))
    } else {
        match level_output(reader, level.drop_last()) {
            None => None,
            Some((o, nx)) => match node_output(reader, level.last()) {
                None => None,
                Some((o2, h2)) => Some((o + o2, nx + h2)),
            },
        }
    }
}

/// The bytes that writing level after level gives, with at most `fuel`
/// levels; nothing on a failure or when the levels run out.
pub open spec fn write_levels(reader: CarReader, level: Seq<Seq<u8>>, fuel: nat) -> Option<Seq<u8>>
    decreases fuel,
{
    if level.len() == 0 {
        Some(Seq::empty())
    } else if fuel == 0 {
        None
    } else {
        match level_output(reader, level) {
            None => None,
            Some((o, nx)) => match write_levels(reader, nx, (fuel - 1) as nat) {
                Some(rest) => Some(o + rest),
                None => None,
            },
        }
    }
}

spec fn after(w: Seq<u8>, o: Option<Seq<u8>>) -> Option<Seq<u8>> {
    match o {
        Some(x) => Some(w + x),
        None => None,
    }
}

proof fn lemma_output_prefix(reader: CarReader, lv: Seq<Seq<u8>>, k: int)
    requires
        0 <= k <= lv.len(),
        level_output(reader, lv.subrange(0, k)) is None,
    ensures
        level_output(reader, lv) is None,
    decreases lv.len() - k,
{
    if k == lv.len() {
        assert(lv.subrange(0, k) =~= lv);
    } else {
        assert(lv.drop_last().subrange(0, k) =~= lv.subrange(0, k));
        lemma_output_prefix(reader, lv.drop_last(), k);
    }
}

/// Writes one block: a raw block's bytes go to `output`; a filesystem
/// node's link targets go to `next`, in order.
fn write_node(reader: &CarReader, c: &Cid, next: &mut Vec<Cid>, output: &mut Vec<u8>) -> (r: Result<(), CarError>)
    requires
        reader.wf(),
    ensures
        match node_output(*reader, c@) {
            None => r is Err,
            Some((o, hs)) => r is Ok && final(output)@ == old(output)@ + o && cid_views(final(next)@) == cid_views(
                old(next)@,
            ) + hs,
        },
        write_outcome(*reader, c@, r, old(output)@, final(output)@),
{
    match reader.ipld(c) {
        Ok(Ipld::Bytes(b)) => {
            append(output, &b);
            assert(cid_views(next@) + Seq::<Seq<u8>>::empty() =~= cid_views(next@));
            Ok(())
        },
        Ok(node) => {
            if let Ipld::Dict(_) = node {
                let u = match decode(&node) {
                    Ok(u) => u,
                    Err(e) => return Err(e),
                };
                let ghost ls = link_views(u.links@);
                let ghost nx = cid_views(next@);
                let mut j: usize = 0;
                assert(nx + hashes(ls.subrange(0, 0)) =~= nx);
                while j < u.links.len()
                    invariant
                        j <= u.links@.len(),
                        ls == link_views(u.links@),
                        cid_views(next@) == nx + hashes(ls.subrange(0, j as int)),
                    decreases u.links@.len() - j,
                {
                    let ghost old_next = next@;
                    next.push(u.links[j].hash.duplicate());
                    assert(cid_views(next@) =~= cid_views(old_next).push(u.links@[j as int].hash@));
                    assert(hashes(ls.subrange(0, j + 1)) =~= hashes(ls.subrange(0, j as int)).push(
                        u.links@[j as int].hash@,
                    ));
                    assert(nx + hashes(ls.subrange(0, j + 1)) =~= (nx + hashes(ls.subrange(0, j as int))).push(
                        u.links@[j as int].hash@,
                    ));
                    j = j + 1;
                }
                assert(ls.subrange(0, ls.len() as int) =~= ls);
                assert(output@ =~= output@ + Seq::<u8>::empty());
                Ok(())
            } else {
                Err(CarError::Parsing("not a map node".to_string()))
            }
        },
        Err(e) => Err(e),
    }
}

/// What writing the content reachable from the block `b` guarantees: a
/// missing block is `NotFound`, a raw block is written as it is, and a block
/// of an unsupported codec is refused.
pub open spec fn write_outcome(reader: CarReader, b: Seq<u8>, r: Result<(), CarError>, before: Seq<u8>, after: Seq<u8>) -> bool {
    &&& reader.block_of(b) is None ==> (r matches Err(e) && e.is_not_found())
    &&& (reader.block_of(b) is Some && crate::content_id::codec_of(b) == crate::content_id::RAW_CODEC) ==> (r is Ok
        && after == before + reader.block_of(b)->Some_0)
    &&& (reader.block_of(b) is Some && crate::content_id::codec_of(b) != crate::content_id::RAW_CODEC
        && crate::content_id::codec_of(b) != crate::content_id::DAG_PB_CODEC) ==> (r matches Err(e) && e.is_parsing())
}

/// Writes the content reachable from `cid` to `output`: raw blocks are
/// written as they are, filesystem nodes are expanded into their links,
/// level by level and in link order. A failing block ends the walk at once.
/// A level deeper than the number of indexed blocks can only come from a
/// cycle among the links, and is refused.
pub fn ipld_write(reader: &CarReader, cid: Cid, output: &mut Vec<u8>) -> (r: Result<(), CarError>)
    requires
        reader.wf(),
    ensures
        write_outcome(*reader, cid@, r, old(output)@, final(output)@),
        match write_levels(*reader, seq![cid@], (reader.index().len() + 1) as nat) {
            Some(o) => r is Ok && final(output)@ == old(output)@ + o,
            None => r is Err,
        },
{
    let mut level: Vec<Cid> = Vec::new();
    let bound = reader.index_len();
    let ghost start = seq![cid@];
    let ghost base = output@;
    let ghost total = write_levels(*reader, start, (bound + 1) as nat);
    assert(start.drop_last() =~= Seq::<Seq<u8>>::empty());
    assert(start.last() == cid@);
    assert(cid_views(level@) =~= Seq::<Seq<u8>>::empty());
    assert(level_output(*reader, Seq::<Seq<u8>>::empty()) == Some((Seq::<u8>::empty(), Seq::<Seq<u8>>::empty())));
    match write_node(reader, &cid, &mut level, output) {
        Ok(()) => {},
        Err(e) => {
            assert(level_output(*reader, start) is None);
            return Err(e);
        },
    }
    let ghost w0 = node_output(*reader, cid@)->Some_0.0;
    let ghost hs = node_output(*reader, cid@)->Some_0.1;
    proof {
        assert(Seq::<Seq<u8>>::empty() + hs =~= hs);
        assert(cid_views(level@) == hs);
        assert(Seq::<u8>::empty() + w0 =~= w0);
        assert(level_output(*reader, start) == Some((w0, cid_views(level@))));
    }
    let ghost mut w = w0;
    let mut depth: usize = 1;
    while level.len() > 0
        invariant
            reader.wf(),
            1 <= depth <= bound + 1,
            bound == reader.index().len(),
            bound < usize::MAX,
            output@ == base + w,
            start == seq![cid@],
            reader.block_of(cid@) is Some,
            codec_of(cid@) == RAW_CODEC || codec_of(cid@) == DAG_PB_CODEC,
            codec_of(cid@) == RAW_CODEC ==> level@.len() == 0,
            total == write_levels(*reader, start, (bound + 1) as nat),
            total == after(w, write_levels(*reader, cid_views(level@), (bound + 1 - depth) as nat)),
            write_outcome(*reader, cid@, Ok(()), base, output@),
        decreases bound + 1 - depth,
    {
        let ghost lv = cid_views(level@);
        let ghost fuel = (bound + 1 - depth) as nat;
        assert(codec_of(cid@) == DAG_PB_CODEC);
        if depth > bound {
            assert(write_levels(*reader, lv, fuel) is None);
            return Err(CarError::Parsing("cycle among the links".to_string()));
        }
        let mut next: Vec<Cid> = Vec::new();
        let mut i: usize = 0;
        let ghost wl = w;
        assert(lv.subrange(0, 0) =~= Seq::<Seq<u8>>::empty());
        assert(output@ =~= base + wl + Seq::<u8>::empty());
        assert(cid_views(next@) =~= Seq::<Seq<u8>>::empty());
        while i < level.len()
            invariant
                reader.wf(),
                i <= level@.len(),
                lv == cid_views(level@),
                lv.len() > 0,
                fuel >= 1,
                bound == reader.index().len(),
                start == seq![cid@],
                reader.block_of(cid@) is Some,
                codec_of(cid@) == DAG_PB_CODEC,
                total == write_levels(*reader, start, (bound + 1) as nat),
                total == after(wl, write_levels(*reader, lv, fuel)),
                write_outcome(*reader, cid@, Ok(()), base, base + wl),
                level_output(*reader, lv.subrange(0, i as int)) is Some,
                level_output(*reader, lv.subrange(0, i as int))->Some_0.1 == cid_views(next@),
                output@ == base + wl + level_output(*reader, lv.subrange(0, i as int))->Some_0.0,
            decreases level@.len() - i,
        {
            let ghost pre = lv.subrange(0, i as int);
            let ghost cur = lv.subrange(0, i + 1);
            assert(cur.drop_last() =~= pre);
            assert(cur.last() == level@[i as int]@);
            let ghost o_pre = level_output(*reader, pre)->Some_0.0;
            match write_node(reader, &level[i], &mut next, output) {
                Ok(()) => {
                    let ghost o2 = node_output(*reader, level@[i as int]@)->Some_0.0;
                    assert(base + wl + o_pre + o2 =~= base + wl + (o_pre + o2));
                },
                Err(e) => {
                    assert(level_output(*reader, cur) is None);
                    proof {
                        lemma_output_prefix(*reader, lv, i + 1);
                    }
                    assert(write_levels(*reader, lv, fuel) is None);
                    return Err(e);
                },
            }
            i = i + 1;
        }
        assert(lv.subrange(0, lv.len() as int) =~= lv);
        let ghost o_all = level_output(*reader, lv)->Some_0.0;
        proof {
            match write_levels(*reader, cid_views(next@), (fuel - 1) as nat) {
                Some(rest) => {
                    assert(wl + (o_all + rest) =~= (wl + o_all) + rest);
                },
                None => {},
            }
            w = wl + o_all;
            assert(output@ =~= base + w);
        }
        level = next;
        depth = depth + 1;
    }
    assert(w + Seq::<u8>::empty() =~= w);
    Ok(())
}

/// Parses the textual form of `cid` and writes the content reachable from it
/// to `output`, as `ipld_write` does.
pub fn cat_ipld_str(reader: &CarReader, cid: &str, output: &mut Vec<u8>) -> (r: Result<(), CarError>)
    requires
        reader.wf(),
    ensures
        crate::content_id::cid_text_of(cid@) is None ==> (r matches Err(e) && e.is_parsing()),
        (crate::content_id::cid_text_of(cid@) matches Some(b) && !(crate::content_id::cid_prefix_of(b) matches Some((w, _))
            && w == b.len())) ==> (r matches Err(e) && e.is_parsing()),
        (crate::content_id::cid_text_of(cid@) matches Some(b) && (crate::content_id::cid_prefix_of(b) matches Some((w, _))
            && w == b.len())) ==> write_outcome(*reader, crate::content_id::cid_text_of(cid@)->Some_0, r, old(output)@,
            final(output)@),
{
    match Cid::parse(cid) {
        Ok(c) => {
            assert(c@ == crate::content_id::cid_text_of(cid@)->Some_0);
            ipld_write(reader, c, output)
        },
        Err(e) => Err(e),
    }
}

} // verus!
