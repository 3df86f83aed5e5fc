use vstd::prelude::*;
use vstd::slice::{slice_subrange, slice_to_vec};

use crate::content_id::{codec_of, Cid, DAG_PB_CODEC, RAW_CODEC};
use crate::error::CarError;
use crate::header::{decode_header, header_of, CarHeader};
use crate::ipld::Ipld;
use crate::pb::{dag_pb_of, data_fields, decode_dag_pb, fields_of, no_fields, pb_shape, DataFields, LinkView};
use crate::section::{frame_bounds, frame_prefix, read_block, read_section, section_at, Section, MAX_ALLOWED_SECTION_SIZE};
use crate::unixfs::{FileType, UnixFs};
use crate::ipld::str_eq;
use crate::unixfs_codec::{decode, link_view, link_views};

verus! {

/// What the index keeps of a section: the identifier's bytes and codec, the
/// payload's offset and length.
pub open spec fn section_view(s: Section) -> (Seq<u8>, u64, int, int) {
    (s.cid@, s.cid.spec_codec(), s.offset as int, s.length as int)
}

pub open spec fn section_views(ss: Seq<Section>) -> Seq<(Seq<u8>, u64, int, int)> {
    ss.map_values(|s: Section| section_view(s))
}

/// The sections that reading frame after frame from `pos` to the end of the
/// data yields, or nothing where some frame is malformed.
pub open spec fn scan(data: Seq<u8>, pos: int) -> Option<Seq<(Seq<u8>, u64, int, int)>>
    decreases data.len() - pos,
{
    if pos >= data.len() {
        Some(Seq::empty())
    } else {
        match section_at(data, pos) {
            Some((b, c, off, len, next)) => if pos < next {
                match scan(data, next) {
                    Some(rest) => Some(seq![(b, c, off, len)] + rest),
                    None => None,
                }
            } else {
                None
            },
            None => None,
        }
    }
}

/// The offset of the first malformed frame when scanning from `pos`.
pub open spec fn scan_fault(data: Seq<u8>, pos: int) -> Option<int>
    decreases data.len() - pos,
{
    if pos >= data.len() {
        None
    } else {
        match section_at(data, pos) {
            Some((_, _, _, _, next)) => if pos < next {
                scan_fault(data, next)
            } else {
                Some(pos)
            },
            None => Some(pos),
        }
    }
}

/// Whether the frame at `p` declares a length within the ceiling that the
/// data does not hold.
pub open spec fn truncated_at(data: Seq<u8>, p: int) -> bool {
    frame_bounds(data, p) is None && (frame_prefix(data, p) matches Some((l, _)) && l <= MAX_ALLOWED_SECTION_SIZE)
}

spec fn prepend(s: Seq<(Seq<u8>, u64, int, int)>, o: Option<Seq<(Seq<u8>, u64, int, int)>>) -> Option<
    Seq<(Seq<u8>, u64, int, int)>,
> {
    match o {
        Some(r) => Some(s + r),
        None => None,
    }
}

/// An archive held in memory, with an index of its sections built by one
/// scan when it is opened.
pub struct CarReader {
    data: Vec<u8>,
    header: CarHeader,
    sections: Vec<Section>,
}

impl CarReader {
    /// The archive's bytes.
    pub closed spec fn bytes(&self) -> Seq<u8> {
        self.data@
    }

    /// The index, in scan order.
    pub closed spec fn index(&self) -> Seq<Section> {
        self.sections@
    }

    pub closed spec fn spec_header(&self) -> CarHeader {
        self.header
    }

    /// Every indexed payload lies inside the archive, and every identifier is whole.
    pub closed spec fn wf(&self) -> bool {
        &&& self.data@.len() <= usize::MAX
        &&& self.sections@.len() < usize::MAX
        &&& forall|i: int|
            0 <= i < self.sections@.len() ==> (#[trigger] self.sections@[i]).offset + self.sections@[i].length
                <= self.data@.len() && self.sections@[i].cid.wf()
    }

    /// The position of the first section whose identifier has the bytes `c`.
    pub open spec fn first_with(&self, c: Seq<u8>) -> Option<int> {
        if exists|i: int| #[trigger] self.is_first(c, i) {
            Some(choose|i: int| #[trigger] self.is_first(c, i))
        } else {
            None
        }
    }

    /// Whether position `i` holds the first section carrying `c`.
    pub open spec fn is_first(&self, c: Seq<u8>, i: int) -> bool {
        &&& 0 <= i < self.index().len()
        &&& self.index()[i].cid@ == c
        &&& forall|j: int| 0 <= j < i ==> (#[trigger] self.index()[j]).cid@ != c
    }

    /// The payload of the block with identifier bytes `c`: that of the first
    /// section that carries it.
    pub open spec fn block_of(&self, c: Seq<u8>) -> Option<Seq<u8>> {
        match self.first_with(c) {
            Some(i) => Some(
                self.bytes().subrange(
                    self.index()[i].offset as int,
                    self.index()[i].offset + self.index()[i].length,
                ),
            ),
            None => None,
        }
    }

    /// Opens an archive: reads the header block, then scans every section
    /// once to build the index.
    pub fn new(data: Vec<u8>) -> (r: Result<CarReader, CarError>)
        requires
            data@.len() <= usize::MAX,
            data@.len() <= u64::MAX,
        ensures
            r matches Ok(rd) ==> (rd.wf() && rd.bytes() == data@ && (frame_bounds(data@, 0) matches Some((_, e))
                && scan(data@, e) == Some(section_views(rd.index())))),
            (frame_bounds(data@, 0) matches Some((_, e)) && scan(data@, e) is None) ==> r is Err,
            data@.len() == 0 ==> r is Err,
            (frame_bounds(data@, 0) matches Some((s, e)) && header_of(data@.subrange(s, e)) is Some && scan(data@, e) is Some)
                ==> r is Ok,
            (frame_bounds(data@, 0) matches Some((s, e)) && header_of(data@.subrange(s, e)) is Some && (scan_fault(
            data@,
            e,
        ) matches Some(p) && truncated_at(data@, p))) ==> (r matches Err(er) && er.is_io()),
        r matches Ok(rd) ==> (frame_bounds(data@, 0) matches Some((s, e)) && header_of(data@.subrange(s, e)) == Some(
                (rd.spec_header().version, cid_views(rd.spec_header().roots@)),
            )),
    {
        let mut pos: usize = 0;
        let hb = match read_block(data.as_slice(), &mut pos) {
            Ok(Some(b)) => b,
            Ok(None) => return Err(CarError::Parsing("missing archive header".to_string())),
            Err(e) => return Err(e),
        };
        let ghost start = pos as int;
        let header = match decode_header(hb.as_slice()) {
            Ok(h) => h,
            Err(e) => return Err(e),
        };
        let mut sections: Vec<Section> = Vec::new();
        assert(section_views(sections@) =~= Seq::empty());
        loop
            invariant
                start <= pos <= data@.len(),
                1 <= start,
                sections@.len() <= pos - start,
                data@.len() <= usize::MAX,
                data@.len() <= u64::MAX,
                frame_bounds(data@, 0) matches Some((_, e)) && e == start,
                scan(data@, start) == prepend(section_views(sections@), scan(data@, pos as int)),
                scan_fault(data@, start) == scan_fault(data@, pos as int),
                forall|i: int|
                    0 <= i < sections@.len() ==> (#[trigger] sections@[i]).offset + sections@[i].length
                        <= data@.len() && sections@[i].cid.wf(),
            ensures
                scan(data@, start) == Some(section_views(sections@)),
                sections@.len() < usize::MAX,
                forall|i: int|
                    0 <= i < sections@.len() ==> (#[trigger] sections@[i]).offset + sections@[i].length
                        <= data@.len() && sections@[i].cid.wf(),
            decreases data@.len() - pos,
        {
            let ghost p0 = pos as int;
            match read_section(data.as_slice(), &mut pos) {
                Ok(Some(s)) => {
                    let ghost v = section_view(s);
                    assert(section_at(data@, p0) is Some);
                    assert(scan(data@, p0) == prepend(seq![v], scan(data@, pos as int)));
                    let ghost old_views = section_views(sections@);
                    sections.push(s);
                    assert(section_views(sections@) =~= old_views + seq![v]);
                    assert(scan(data@, start) == prepend(section_views(sections@), scan(data@, pos as int))) by {
                        match scan(data@, pos as int) {
                            Some(rest) => {
                                assert(old_views + (seq![v] + rest) =~= (old_views + seq![v]) + rest);
                            },
                            None => {},
                        }
                    };
                },
                Ok(None) => {
                    assert(pos == data@.len());
                    assert(scan(data@, pos as int) == Some(Seq::<(Seq<u8>, u64, int, int)>::empty()));
                    assert(section_views(sections@) + Seq::empty() =~= section_views(sections@));
                    break;
                },
                Err(e) => {
                    assert(scan(data@, p0) is None);
                    return Err(e);
                },
            }
        }
        let rd = CarReader { data, header, sections };
        assert(rd.wf());
        Ok(rd)
    }

    /// The number of indexed sections.
    pub fn index_len(&self) -> (r: usize)
        requires
            self.wf(),
        ensures
            r == self.index().len(),
            r < usize::MAX,
    {
        self.sections.len()
    }

    /// The header read when the archive was opened.
    pub fn header(&self) -> (r: &CarHeader)
        ensures
            *r == self.spec_header(),
    {
        &self.header
    }

    /// The indexed sections, in scan order.
    pub fn sections(&self) -> (r: Vec<Section>)
        ensures
            section_views(r@) == section_views(self.index()),
    {
        let mut out: Vec<Section> = Vec::new();
        let mut i: usize = 0;
        while i < self.sections.len()
            invariant
                i <= self.sections@.len(),
                section_views(out@) == section_views(self.sections@.subrange(0, i as int)),
            decreases self.sections@.len() - i,
        {
            let s = &self.sections[i];
            let ghost old_out = out@;
            let c = Section { cid: s.cid.duplicate(), offset: s.offset, length: s.length };
            assert(section_view(c) == section_view(self.sections@[i as int]));
            out.push(c);
            assert(self.sections@.subrange(0, i + 1) =~= self.sections@.subrange(0, i as int).push(
                self.sections@[i as int],
            ));
            assert(out@ =~= old_out.push(c));
            assert(section_views(out@) =~= section_views(old_out).push(section_view(c)));
            assert(section_views(self.sections@.subrange(0, i + 1)) =~= section_views(
                self.sections@.subrange(0, i as int),
            ).push(section_view(c)));
            i = i + 1;
        }
        assert(self.sections@.subrange(0, self.sections@.len() as int) =~= self.sections@);
        out
    }

    /// The position in the index of the first section carrying `cid`.
    fn find(&self, cid: &Cid) -> (r: Option<usize>)
        ensures
            r matches Some(i) ==> self.first_with(cid@) == Some(i as int),
            r is None ==> self.first_with(cid@) is None,
    {
        let mut i: usize = 0;
        while i < self.sections.len()
            invariant
                i <= self.sections@.len(),
                forall|j: int| 0 <= j < i ==> (#[trigger] self.sections@[j]).cid@ != cid@,
            decreases self.sections@.len() - i,
        {
            if self.sections[i].cid.same(cid) {
                assert(self.is_first(cid@, i as int));
                let ghost k = self.first_with(cid@)->Some_0;
                assert(self.is_first(cid@, k));
                assert(k == i as int) by {
                    if k < i as int {
                        assert(self.index()[k].cid@ != cid@);
                    } else if k > i as int {
                        assert(self.index()[i as int].cid@ != cid@);
                    }
                };
                return Some(i);
            }
            i = i + 1;
        }
        assert(!exists|j: int| #[trigger] self.is_first(cid@, j));
        None
    }

    /// The payload bytes of the block `cid`, read at the offset the index
    /// stored for it.
    pub fn read_section_data(&self, cid: &Cid) -> (r: Result<Vec<u8>, CarError>)
        requires
            self.wf(),
        ensures
            match self.block_of(cid@) {
                Some(b) => r matches Ok(v) && v@ == b,
                None => r matches Err(e) && e.is_not_found(),
            },
    {
        match self.find(cid) {
            Some(i) => {
                let s = &self.sections[i];
                assert(self.first_with(cid@) == Some(i as int));
                assert(s.offset + s.length <= self.data@.len());
                let start = s.offset as usize;
                let v = slice_to_vec(slice_subrange(self.data.as_slice(), start, start + s.length));
                Ok(v)
            },
            None => Err(CarError::NotFound("no section carries this identifier".to_string())),
        }
    }

    /// Decodes the block `cid` with the codec its identifier names: raw
    /// blocks become bytes, protobuf DAG nodes become maps; other codecs are
    /// refused.
    pub fn ipld(&self, cid: &Cid) -> (r: Result<Ipld, CarError>)
        requires
            self.wf(),
        ensures
            self.block_of(cid@) is None ==> (r matches Err(e) && e.is_not_found()),
            (self.block_of(cid@) is Some && codec_of(cid@) == RAW_CODEC) ==> (r matches Ok(Ipld::Bytes(v))
                && v@ == self.block_of(cid@)->Some_0),
            (self.block_of(cid@) is Some && codec_of(cid@) == DAG_PB_CODEC) ==> match dag_pb_of(
                self.block_of(cid@)->Some_0,
            ) {
                Some((body, ls)) => r matches Ok(Ipld::Dict(m)) && pb_shape(m@, body, ls),
                None => r matches Err(e) && e.is_parsing(),
            },
            (self.block_of(cid@) is Some && codec_of(cid@) != RAW_CODEC && codec_of(cid@) != DAG_PB_CODEC)
                ==> (r matches Err(e) && e.is_parsing()),
    {
        let data = match self.read_section_data(cid) {
            Ok(d) => d,
            Err(e) => return Err(e),
        };
        let codec = cid.codec();
        if codec == RAW_CODEC {
            Ok(Ipld::Bytes(data))
        } else if codec == DAG_PB_CODEC {
            decode_dag_pb(data.as_slice())
        } else {
            Err(CarError::Parsing("unsupported codec".to_string()))
        }
    }

    /// Decodes the block `cid` as a filesystem node that knows its identifier.
    pub fn unixfs(&self, cid: &Cid) -> (r: Result<UnixFs, CarError>)
        requires
            self.wf(),
        ensures
            self.block_of(cid@) is None ==> (r matches Err(e) && e.is_not_found()),
            (self.block_of(cid@) is Some && codec_of(cid@) != DAG_PB_CODEC) ==> (r matches Err(e) && e.is_parsing()),
            (self.block_of(cid@) is Some && codec_of(cid@) == DAG_PB_CODEC) ==> match unixfs_of_block(
                self.block_of(cid@)->Some_0,
            ) {
                Some((f, ls)) => r matches Ok(u) && fields_of(u) == f && link_views(u.links@) == ls
                    && (u.cid matches Some(c) && c@ == cid@) && u.file_name is None
                    && forall|i: int| 0 <= i < u.links@.len() ==> u.links@[i].file_type == FileType::Raw,
                None => r matches Err(e) && e.is_parsing(),
            },
    {
        let node = match self.ipld(cid) {
            Ok(n) => n,
            Err(e) => return Err(e),
        };
        match decode(&node) {
            Ok(mut u) => {
                u.cid = Some(cid.duplicate());
                Ok(u)
            },
            Err(e) => Err(e),
        }
    }

    /// The links that searching expands the block `c` into: none for a raw
    /// block, the node's links for a filesystem node; nothing where the block
    /// is missing or does not decode.
    #[verifier::opaque]
    pub open spec fn children(&self, c: Seq<u8>) -> Option<Seq<LinkView>> {
        if codec_of(c) == RAW_CODEC {
            Some(Seq::empty())
        } else {
            match self.block_of(c) {
                None => None,
                Some(b) => if codec_of(c) != DAG_PB_CODEC {
                    None
                } else {
                    match unixfs_of_block(b) {
                        Some((_, ls)) => Some(ls),
                        None => None,
                    }
                },
            }
        }
    }

    /// Expands the blocks of one level in order: the hash of the first link
    /// named `f`, or else the next level; nothing where a block fails.
    pub open spec fn level_step(&self, level: Seq<Seq<u8>>, f: Seq<char>) -> Option<Result<Seq<u8>, Seq<Seq<u8>>>>
        decreases level.len(),
    {
        if level.len() == 0 {
            Some(Err(Seq::empty()))
        } else {
            match self.level_step(level.drop_last(), f) {
                None => None,
                Some(Ok(h)) => Some(Ok(h)),
                Some(Err(nx)) => match self.children(level.last()) {
                    None => None,
                    Some(ls) => match first_named(ls, f) {
                        Some(h) => Some(Ok(h)),
                        None => Some(Err(nx + hashes(ls))),
                    },
                },
            }
        }
    }

    /// Once a prefix of a level has found a link or failed, so has the level.
    proof fn lemma_step_prefix(&self, lv: Seq<Seq<u8>>, k: int, f: Seq<char>)
        requires
            0 <= k <= lv.len(),
            !(self.level_step(lv.subrange(0, k), f) matches Some(Err(_))),
        ensures
            self.level_step(lv, f) == self.level_step(lv.subrange(0, k), f),
        decreases lv.len() - k,
    {
        if k == lv.len() {
            assert(lv.subrange(0, k) =~= lv);
        } else {
            assert(lv.drop_last().subrange(0, k) =~= lv.subrange(0, k));
            self.lemma_step_prefix(lv.drop_last(), k, f);
        }
    }

    /// Breadth-first search, level by level, with at most `fuel` levels:
    /// `Some(Some(h))` when a link named `f` is found, `Some(None)` when the
    /// graph is exhausted, nothing on a failure or when levels run out.
    pub open spec fn search_levels(&self, level: Seq<Seq<u8>>, f: Seq<char>, fuel: nat) -> Option<Option<Seq<u8>>>
        decreases fuel,
    {
        if level.len() == 0 {
            Some(None)
        } else if fuel == 0 {
            None
        } else {
            match self.level_step(level, f) {
                None => None,
                Some(Ok(h)) => Some(Some(h)),
                Some(Err(nx)) => self.search_levels(nx, f, (fuel - 1) as nat),
            }
        }
    }

    /// Searching from each root in turn: the first root whose graph holds a
    /// link named `f` decides; a failure ends the search at once.
    pub open spec fn search_spec(&self, roots: Seq<Seq<u8>>, f: Seq<char>) -> Option<Option<Seq<u8>>>
        decreases roots.len(),
    {
        if roots.len() == 0 {
            Some(None)
        } else {
            match self.search_levels(seq![roots[0]], f, (self.index().len() + 1) as nat) {
                Some(None) => self.search_spec(roots.drop_first(), f),
                other => other,
            }
        }
    }

    /// Expands one block of a level: the target of its first link named `f`,
    /// or else its link targets appended to `next`, in order.
    fn expand_node(&self, c: &Cid, f: &str, next: &mut Vec<Cid>) -> (r: Result<Option<Cid>, CarError>)
        requires
            self.wf(),
        ensures
            match self.children(c@) {
                None => r is Err,
                Some(ls) => match first_named(ls, f@) {
                    Some(h) => r matches Ok(Some(x)) && x@ == h,
                    None => r matches Ok(None) && cid_views(final(next)@) == cid_views(old(next)@) + hashes(ls),
                },
            },
    {
        reveal(CarReader::children);
        if c.codec() == RAW_CODEC {
            assert(cid_views(next@) + hashes(Seq::<LinkView>::empty()) =~= cid_views(next@));
            return Ok(None);
        }
        let node = match self.ipld(c) {
            Ok(n) => n,
            Err(e) => return Err(e),
        };
        if let Ipld::Dict(_) = node {
            let u = match decode(&node) {
                Ok(u) => u,
                Err(e) => return Err(e),
            };
            let ghost ls = link_views(u.links@);
            let ghost nx = cid_views(next@);
            assert(self.children(c@) == Some(ls));
            let mut j: usize = 0;
            assert(ls.subrange(0, ls.len() as int) =~= ls);
            assert(nx + hashes(ls.subrange(0, 0)) =~= nx);
            while j < u.links.len()
                invariant
                    j <= u.links@.len(),
                    ls == link_views(u.links@),
                    self.children(c@) == Some(ls),
                    first_named(ls, f@) == first_named(ls.subrange(j as int, ls.len() as int), f@),
                    cid_views(next@) == nx + hashes(ls.subrange(0, j as int)),
                decreases u.links@.len() - j,
            {
                let l = &u.links[j];
                let ghost rest = ls.subrange(j as int, ls.len() as int);
                assert(rest[0] == link_view(*l));
                assert(rest.drop_first() =~= ls.subrange(j + 1, ls.len() as int));
                if str_eq(l.name.as_str(), f) {
                    assert(first_named(rest, f@) == Some(l.hash@));
                    return Ok(Some(l.hash.duplicate()));
                }
                let ghost old_next = next@;
                next.push(l.hash.duplicate());
                assert(cid_views(next@) =~= cid_views(old_next).push(l.hash@));
                assert(hashes(ls.subrange(0, j + 1)) =~= hashes(ls.subrange(0, j as int)).push(l.hash@));
                assert(nx + hashes(ls.subrange(0, j + 1)) =~= (nx + hashes(ls.subrange(0, j as int))).push(l.hash@));
                j = j + 1;
            }
            assert(ls.subrange(u.links@.len() as int, ls.len() as int) =~= Seq::<LinkView>::empty());
            Ok(None)
        } else {
            Err(CarError::Parsing("not a map node".to_string()))
        }
    }

    /// Breadth-first search from one root for a link named `f`; the first
    /// match in level order wins. Raw blocks are leaves and are not read.
    /// A level deeper than the number of indexed blocks can only come from a
    /// cycle among the links, and is refused.
    #[verifier::rlimit(100)]
    fn search_from(&self, root: &Cid, f: &str) -> (r: Result<Option<Cid>, CarError>)
        requires
            self.wf(),
        ensures
            match self.search_levels(seq![root@], f@, (self.index().len() + 1) as nat) {
                Some(Some(h)) => r matches Ok(Some(c)) && c@ == h,
                Some(None) => r matches Ok(None),
                None => r is Err,
            },
    {
        let mut level: Vec<Cid> = Vec::new();
        level.push(root.duplicate());
        let bound = self.sections.len();
        let mut depth: usize = 0;
        let ghost start = cid_views(level@);
        assert(start =~= seq![root@]);
        while level.len() > 0
            invariant
                self.wf(),
                depth <= bound + 1,
                bound == self.index().len(),
                bound < usize::MAX,
                start == seq![root@],
                self.search_levels(start, f@, (bound + 1) as nat) == self.search_levels(
                    cid_views(level@),
                    f@,
                    (bound + 1 - depth) as nat,
                ),
            decreases bound + 1 - depth,
        {
            let ghost lv = cid_views(level@);
            let ghost fuel = (bound + 1 - depth) as nat;
            if depth > bound {
                assert(lv.len() > 0);
                assert(self.search_levels(lv, f@, fuel) is None);
                return Err(CarError::Parsing("cycle among the links".to_string()));
            }
            let mut next: Vec<Cid> = Vec::new();
            let mut i: usize = 0;
            assert(lv.subrange(0, 0) =~= Seq::<Seq<u8>>::empty());
            assert(cid_views(next@) =~= Seq::<Seq<u8>>::empty());
            while i < level.len()
                invariant
                    self.wf(),
                    i <= level@.len(),
                    lv == cid_views(level@),
                    lv.len() > 0,
                    fuel >= 1,
                    bound == self.index().len(),
                    start == seq![root@],
                    self.search_levels(start, f@, (bound + 1) as nat) == self.search_levels(lv, f@, fuel),
                    self.level_step(lv.subrange(0, i as int), f@) == Some(
                        Err::<Seq<u8>, Seq<Seq<u8>>>(cid_views(next@)),
                    ),
                decreases level@.len() - i,
            {
                let ghost pre = lv.subrange(0, i as int);
                let ghost cur = lv.subrange(0, i + 1);
                assert(cur.drop_last() =~= pre);
                assert(cur.last() == level@[i as int]@);
                match self.expand_node(&level[i], f, &mut next) {
                    Ok(Some(h)) => {
                        assert(self.level_step(cur, f@) == Some(Ok::<Seq<u8>, Seq<Seq<u8>>>(h@)));
                        proof {
                            self.lemma_step_prefix(lv, i + 1, f@);
                        }
                        assert(self.search_levels(lv, f@, fuel) == Some(Some(h@)));
                        return Ok(Some(h));
                    },
                    Ok(None) => {},
                    Err(e) => {
                        assert(self.level_step(cur, f@) is None);
                        proof {
                            self.lemma_step_prefix(lv, i + 1, f@);
                        }
                        assert(self.search_levels(lv, f@, fuel) is None);
                        return Err(e);
                    },
                }
                i = i + 1;
            }
            assert(lv.subrange(0, lv.len() as int) =~= lv);
            level = next;
            depth = depth + 1;
        }
        Ok(None)
    }

    /// Finds the identifier of the block that a link named `f` points to,
    /// searching breadth-first from each root in header order. Only when
    /// every root's graph is exhausted does the search report `NotFound`;
    /// any failure ends it at once.
    pub fn search_file_cid(&self, f: &str) -> (r: Result<Cid, CarError>)
        requires
            self.wf(),
        ensures
            match self.search_spec(cid_views(self.spec_header().roots@), f@) {
                Some(Some(h)) => r matches Ok(c) && c@ == h,
                Some(None) => r matches Err(e) && e.is_not_found(),
                None => r is Err,
            },
    {
        let roots = self.header.roots();
        let ghost all = cid_views(self.spec_header().roots@);
        assert(cid_views(roots@) =~= all);
        let mut k: usize = 0;
        assert(all.subrange(0, all.len() as int) =~= all);
        while k < roots.len()
            invariant
                self.wf(),
                k <= roots@.len(),
                all == cid_views(roots@),
                all == cid_views(self.spec_header().roots@),
                self.search_spec(all, f@) == self.search_spec(all.subrange(k as int, all.len() as int), f@),
            decreases roots@.len() - k,
        {
            let ghost rest = all.subrange(k as int, all.len() as int);
            assert(rest[0] == roots@[k as int]@);
            assert(rest.drop_first() =~= all.subrange(k + 1, all.len() as int));
            assert(seq![rest[0]] =~= seq![roots@[k as int]@]);
            let ghost here = self.search_levels(seq![rest[0]], f@, (self.index().len() + 1) as nat);
            assert(self.search_spec(rest, f@) == match here {
                Some(None) => self.search_spec(rest.drop_first(), f@),
                other => other,
            });
            match self.search_from(&roots[k], f) {
                Ok(Some(c)) => {
                    assert(here == Some(Some(c@)));
                    return Ok(c);
                },
                Ok(None) => {
                    assert(here == Some(None::<Seq<u8>>));
                },
                Err(e) => {
                    assert(here is None);
                    return Err(e);
                },
            }
            k = k + 1;
        }
        Err(CarError::NotFound("no link with this name".to_string()))
    }
}

/// The record fields and links of the filesystem node that the protobuf
/// DAG node `b` holds, or nothing where either does not decode.
pub open spec fn unixfs_of_block(b: Seq<u8>) -> Option<(DataFields, Seq<LinkView>)> {
    match dag_pb_of(b) {
        Some((Some(d), ls)) => match data_fields(d, 0, d.len() as int, no_fields()) {
            Some(f) => if f.0 <= 5 {
                Some((f, ls))
            } else {
                None
            },
            None => None,
        },
        _ => None,
    }
}

/// The hash of the first link named `f`.
pub open spec fn first_named(ls: Seq<LinkView>, f: Seq<char>) -> Option<Seq<u8>>
    decreases ls.len(),
{
    if ls.len() == 0 {
        None
    } else if ls[0].1 == f {
        Some(ls[0].0)
    } else {
        first_named(ls.drop_first(), f)
    }
}

/// The link targets, in order.
pub open spec fn hashes(ls: Seq<LinkView>) -> Seq<Seq<u8>> {
    ls.map_values(|v: LinkView| v.0)
}

/// The binary forms of identifiers, in order.
pub open spec fn cid_views(cs: Seq<Cid>) -> Seq<Seq<u8>> {
    cs.map_values(|c: Cid| c@)
}

/// Opens an archive in the first format version; see `CarReader::new`.
pub fn new_v1(data: Vec<u8>) -> (r: Result<CarReader, CarError>)
    requires
        data@.len() <= usize::MAX,
        data@.len() <= u64::MAX,
    ensures
        r matches Ok(rd) ==> (rd.wf() && rd.bytes() == data@ && (frame_bounds(data@, 0) matches Some((_, e))
            && scan(data@, e) == Some(section_views(rd.index())))),
        (frame_bounds(data@, 0) matches Some((_, e)) && scan(data@, e) is None) ==> r is Err,
        data@.len() == 0 ==> r is Err,
        (frame_bounds(data@, 0) matches Some((s, e)) && header_of(data@.subrange(s, e)) is Some && scan(data@, e) is Some)
            ==> r is Ok,
        (frame_bounds(data@, 0) matches Some((s, e)) && header_of(data@.subrange(s, e)) is Some && (scan_fault(
            data@,
            e,
        ) matches Some(p) && truncated_at(data@, p))) ==> (r matches Err(er) && er.is_io()),
        r matches Ok(rd) ==> (frame_bounds(data@, 0) matches Some((s, e)) && header_of(data@.subrange(s, e)) == Some(
            (rd.spec_header().version, cid_views(rd.spec_header().roots@)),
        )),
{
    CarReader::new(data)
}

} // verus!
