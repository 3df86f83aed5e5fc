use vstd::prelude::*;

use crate::error::CarError;
use crate::ipld::{lookup, map_get, Ipld};
use crate::pb::{data_fields, decode_data, encode_data, fields_of, no_fields};
use crate::unixfs::{FileType, Link, UnixFs};

verus! {

/// What decoding keeps of a link: the target's bytes, the name, the size.
pub open spec fn link_view(l: Link) -> (Seq<u8>, Seq<char>, u64) {
    (l.hash@, l.name@, l.tsize)
}

/// The link that one element of a `Links` list stands for: a map with a
/// `Hash` link gives one, with the name defaulting to empty and the size to
/// zero; any other element gives none.
pub open spec fn link_of(n: Ipld) -> Option<(Seq<u8>, Seq<char>, u64)> {
    match n {
        Ipld::Dict(m) => match lookup(m@, "Hash"@) {
            Some(Ipld::Link(c)) => Some((
                c@,
                match lookup(m@, "Name"@) {
                    Some(Ipld::String(s)) => s@,
                    _ => Seq::<char>::empty(),
                },
                match lookup(m@, "Tsize"@) {
                    Some(Ipld::Integer(i)) => i as u64,
                    _ => 0u64,
                },
            )),
            _ => None,
        },
        _ => None,
    }
}

/// The links that a `Links` list yields, in list order.
pub open spec fn links_of(l: Seq<Ipld>) -> Seq<(Seq<u8>, Seq<char>, u64)>
    decreases l.len(),
{
    if l.len() == 0 {
        Seq::empty()
    } else {
        match link_of(l.last()) {
            Some(v) => links_of(l.drop_last()).push(v),
            None => links_of(l.drop_last()),
        }
    }
}

/// The elements of the `Links` entry of a map node, or none where it has no list there.
pub open spec fn links_entry(m: Seq<(String, Ipld)>) -> Seq<Ipld> {
    match lookup(m, "Links"@) {
        Some(Ipld::List(l)) => l@,
        _ => Seq::empty(),
    }
}

/// The link views of a sequence of links.
pub open spec fn link_views(ls: Seq<Link>) -> Seq<(Seq<u8>, Seq<char>, u64)> {
    ls.map_values(|l: Link| link_view(l))
}

/// Turns a decoded block into a filesystem node. The block must be a map
/// whose `Data` entry holds the node's record; each element of its `Links`
/// list with a `Hash` link becomes a link of kind raw.
pub fn decode(node: &Ipld) -> (r: Result<UnixFs, CarError>)
    ensures
        !(node is Dict) ==> (r matches Err(e) && e.is_parsing()),
        node matches Ipld::Dict(m) ==> (!(lookup(m@, "Data"@) matches Some(Ipld::Bytes(_)))
            ==> (r matches Err(e) && e.is_parsing())),
        r matches Ok(u) ==> (node matches Ipld::Dict(m) && lookup(m@, "Data"@) matches Some(Ipld::Bytes(_))
            && link_views(u.links@) == links_of(links_entry(m@))
            && (forall|i: int| 0 <= i < u.links@.len() ==> u.links@[i].file_type == FileType::Raw)
            && u.cid is None && u.file_name is None),
        r matches Err(e) ==> e.is_parsing(),
        node matches Ipld::Dict(m) ==> (lookup(m@, "Data"@) matches Some(Ipld::Bytes(d)) ==> match data_fields(
            d@,
            0,
            d@.len() as int,
            no_fields(),
        ) {
            Some(f) => if f.0 <= 5 {
                r matches Ok(u) && fields_of(u) == f
            } else {
                r is Err
            },
            None => r is Err,
        }),
{
    match node {
        Ipld::Dict(m) => {
            let mut fs = match map_get(m, "Data") {
                Some(Ipld::Bytes(data)) => match decode_data(data.as_slice()) {
                    Ok(u) => u,
                    Err(e) => return Err(e),
                },
                _ => return Err(CarError::Parsing("ipld format error".to_string())),
            };
            proof {
                reveal_strlit("Data");
                reveal_strlit("Links");
                reveal_strlit("Hash");
                reveal_strlit("Name");
                reveal_strlit("Tsize");
            }
            let ghost entries = links_entry(m@);
            let ghost f0 = fields_of(fs);
            if let Some(Ipld::List(items)) = map_get(m, "Links") {
                let mut i: usize = 0;
                assert(items@.subrange(0, 0) =~= Seq::<Ipld>::empty());
                assert(link_views(fs.links@) =~= Seq::empty());
                while i < items.len()
                    invariant
                        i <= items@.len(),
                        entries == items@,
                        link_views(fs.links@) == links_of(items@.subrange(0, i as int)),
                        forall|k: int| 0 <= k < fs.links@.len() ==> fs.links@[k].file_type == FileType::Raw,
                        fs.cid is None,
                        fs.file_name is None,
                        fields_of(fs) == f0,
                    decreases items@.len() - i,
                {
                    let ghost pre = items@.subrange(0, i as int);
                    let ghost next = items@.subrange(0, i + 1);
                    assert(next.drop_last() =~= pre);
                    assert(next.last() == items@[i as int]);
                    if let Ipld::Dict(lm) = &items[i] {
                        if let Some(Ipld::Link(c)) = map_get(lm, "Hash") {
                            let name = match map_get(lm, "Name") {
                                Some(Ipld::String(s)) => s.clone(),
                                _ => String::new(),
                            };
                            let tsize: u64 = match map_get(lm, "Tsize") {
                                Some(Ipld::Integer(n)) => *n as u64,
                                _ => 0,
                            };
                            let ghost old_links = fs.links@;
                            fs.add_link(Link { hash: c.duplicate(), file_type: FileType::Raw, name, tsize });
                            assert(link_views(fs.links@) =~= link_views(old_links).push(link_views(fs.links@).last()));
                        }
                    }
                    i = i + 1;
                }
                assert(items@.subrange(0, items@.len() as int) =~= items@);
            } else {
                assert(links_entry(m@) =~= Seq::<Ipld>::empty());
            }
            Ok(fs)
        },
        _ => Err(CarError::Parsing("Not unixfs format".to_string())),
    }
}

/// The map that a link becomes: `Hash`, `Name` and `Tsize`, in that order.
pub open spec fn encoded_link(n: Ipld, l: Link) -> bool {
    encoded_view(n, link_view(l))
}

/// The map with `Hash`, `Name` and `Tsize`, in that order, that stands for
/// the link view `v`.
pub open spec fn encoded_view(n: Ipld, v: (Seq<u8>, Seq<char>, u64)) -> bool {
    n matches Ipld::Dict(m) && m@.len() == 3
        && m@[0].0@ == "Hash"@ && m@[1].0@ == "Name"@ && m@[2].0@ == "Tsize"@
        && (m@[0].1 matches Ipld::Link(c) && c@ == v.0)
        && (m@[1].1 matches Ipld::String(s) && s@ == v.1)
        && m@[2].1 == Ipld::Integer(v.2 as i128)
}

fn convert_to_ipld(l: &Link) -> (r: Ipld)
    ensures
        encoded_link(r, *l),
{
    let mut m: Vec<(String, Ipld)> = Vec::new();
    m.push(("Hash".to_string(), Ipld::Link(l.hash.duplicate())));
    m.push(("Name".to_string(), Ipld::String(l.name.clone())));
    m.push(("Tsize".to_string(), Ipld::Integer(l.tsize as i128)));
    proof {
        reveal_strlit("Hash");
        reveal_strlit("Name");
        reveal_strlit("Tsize");
    }
    Ipld::Dict(m)
}

/// Whether a map node is what a file or directory node encodes to: a `Data`
/// entry with bytes that read back as the node's record fields, then a
/// `Links` list with one map per link, in order.
pub open spec fn encoded_node(m: Seq<(String, Ipld)>, u: UnixFs) -> bool {
    m.len() == 2 && m[0].0@ == "Data"@ && m[1].0@ == "Links"@
        && (m[0].1 matches Ipld::Bytes(d) && data_fields(d@, 0, d@.len() as int, no_fields()) == Some(fields_of(u)))
        && (m[1].1 matches Ipld::List(l) && l@.len() == u.links@.len()
            && forall|i: int| 0 <= i < l@.len() ==> encoded_link(#[trigger] l@[i], u.links@[i]))
}

impl UnixFs {
    /// Turns a file or directory node into a map node; other kinds are refused.
    pub fn encode(&self) -> (r: Result<Ipld, CarError>)
        ensures
            (self.file_type == FileType::File || self.file_type == FileType::Directory) ==> (r matches Ok(
                Ipld::Dict(m),
            ) && encoded_node(m@, *self)),
            !(self.file_type == FileType::File || self.file_type == FileType::Directory) ==> (r matches Err(
                e,
            ) && e.is_parsing()),
    {
        match self.file_type {
            FileType::Directory | FileType::File => {
                let data = encode_data(self);
                let mut children: Vec<Ipld> = Vec::new();
                let mut i: usize = 0;
                while i < self.links.len()
                    invariant
                        i <= self.links@.len(),
                        children@.len() == i,
                        forall|k: int| 0 <= k < i ==> encoded_link(#[trigger] children@[k], self.links@[k]),
                    decreases self.links@.len() - i,
                {
                    children.push(convert_to_ipld(&self.links[i]));
                    i = i + 1;
                }
                let mut m: Vec<(String, Ipld)> = Vec::new();
                m.push(("Data".to_string(), Ipld::Bytes(data)));
                m.push(("Links".to_string(), Ipld::List(children)));
                proof {
                    reveal_strlit("Data");
                    reveal_strlit("Links");
                }
                Ok(Ipld::Dict(m))
            },
            _ => Err(CarError::Parsing("Not support unixfs format".to_string())),
        }
    }
}

proof fn lemma_link_of_encoded(n: Ipld, l: Link)
    requires
        encoded_link(n, l),
    ensures
        link_of(n) == Some(link_view(l)),
{
    lemma_link_of_view(n, link_view(l));
}

/// A map built as `encoded_view` says reads back as that link.
pub proof fn lemma_link_of_view(n: Ipld, v: (Seq<u8>, Seq<char>, u64))
    requires
        encoded_view(n, v),
    ensures
        link_of(n) == Some(v),
{
    reveal_strlit("Hash");
    reveal_strlit("Name");
    reveal_strlit("Tsize");
    let m = n->Dict_0@;
    assert("Hash"@ != "Name"@) by {
        assert("Hash"@[0] != "Name"@[0]);
    };
    assert("Hash"@ != "Tsize"@) by {
        assert("Hash"@.len() != "Tsize"@.len());
    };
    assert("Name"@ != "Tsize"@) by {
        assert("Name"@.len() != "Tsize"@.len());
    };
    assert(m.drop_first()[0] == m[1]);
    assert(m.drop_first().drop_first()[0] == m[2]);
    assert(lookup(m, "Hash"@) == Some(m[0].1));
    assert(lookup(m.drop_first(), "Name"@) == Some(m[1].1));
    assert(lookup(m, "Name"@) == Some(m[1].1));
    assert(lookup(m.drop_first().drop_first(), "Tsize"@) == Some(m[2].1));
    assert(lookup(m.drop_first(), "Tsize"@) == Some(m[2].1));
    assert(lookup(m, "Tsize"@) == Some(m[2].1));
}

proof fn lemma_links_prefix(l: Seq<Ipld>, u: UnixFs, k: int)
    requires
        0 <= k <= l.len(),
        l.len() == u.links@.len(),
        forall|i: int| 0 <= i < l.len() ==> encoded_link(#[trigger] l[i], u.links@[i]),
    ensures
        links_of(l.subrange(0, k)) == link_views(u.links@.subrange(0, k)),
    decreases k,
{
    if k == 0 {
        assert(link_views(u.links@.subrange(0, 0)) =~= Seq::empty());
    } else {
        lemma_links_prefix(l, u, k - 1);
        let p = l.subrange(0, k);
        assert(p.drop_last() =~= l.subrange(0, k - 1));
        assert(p.last() == l[k - 1]);
        lemma_link_of_encoded(l[k - 1], u.links@[k - 1]);
        assert(link_views(u.links@.subrange(0, k)) =~= link_views(u.links@.subrange(0, k - 1)).push(
            link_view(u.links@[k - 1]),
        ));
    }
}

/// Encoding a file or directory node and decoding the map it gives back
/// yields the same node: its `Data` bytes read back as the same kind, file
/// size, block sizes, hash type, fanout, mode and modification time, and its
/// `Links` list as the same links in the same order, with the same targets,
/// names and sizes. (Each decoded link is of kind raw, whatever it was before.)
pub proof fn lemma_round_trip(u: UnixFs, m: Seq<(String, Ipld)>)
    requires
        encoded_node(m, u),
    ensures
        lookup(m, "Data"@) == Some(m[0].1),
        m[0].1 matches Ipld::Bytes(d) && data_fields(d@, 0, d@.len() as int, no_fields()) == Some(fields_of(u)),
        fields_of(u).0 <= 5,
        links_of(links_entry(m)) == link_views(u.links@),
{
    reveal_strlit("Data");
    reveal_strlit("Links");
    assert("Data"@ != "Links"@) by {
        assert("Data"@.len() != "Links"@.len());
    };
    assert(m.drop_first()[0] == m[1]);
    assert(lookup(m.drop_first(), "Links"@) == Some(m[1].1));
    assert(lookup(m, "Links"@) == Some(m[1].1));
    let l = m[1].1->List_0@;
    lemma_links_prefix(l, u, l.len() as int);
    assert(l.subrange(0, l.len() as int) =~= l);
    assert(u.links@.subrange(0, l.len() as int) =~= u.links@);
}

} // verus!
