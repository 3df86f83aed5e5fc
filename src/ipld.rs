use vstd::prelude::*;

use crate::content_id::Cid;

verus! {

/// A decoded block: the generic labelled tree that block codecs produce.
/// A floating-point scalar is kept as a marker only: nothing here reads it.
#[derive(Debug)]
pub enum Ipld {
    Null,
    Bool(bool),
    Integer(i128),
    Float,
    String(String),
    Bytes(Vec<u8>),
    List(Vec<Ipld>),
    Dict(Vec<(String, Ipld)>),
    Link(Cid),
}

/// The value of the first entry of `m` whose key is `k`.
pub open spec fn lookup(m: Seq<(String, Ipld)>, k: Seq<char>) -> Option<Ipld>
    decreases m.len(),
{
    if m.len() == 0 {
        None
    } else if m[0].0@ == k {
        Some(m[0].1)
    } else {
        lookup(m.drop_first(), k)
    }
}

/// Whether the characters of `a` are those of `b`.
pub(crate) fn str_eq(a: &str, b: &str) -> (r: bool)
    ensures
        r == (a@ == b@),
{
    let a = a.to_string();
    let b = b.to_string();
    a == b
}

/// Finds the value stored under `k` in the entries of a map node.
pub fn map_get<'a>(m: &'a Vec<(String, Ipld)>, k: &str) -> (r: Option<&'a Ipld>)
    ensures
        match r {
            Some(v) => lookup(m@, k@) == Some(*v),
            None => lookup(m@, k@) is None,
        },
{
    let mut i: usize = 0;
    assert(m@.subrange(0, m@.len() as int) =~= m@);
    while i < m.len()
        invariant
            i <= m@.len(),
            lookup(m@, k@) == lookup(m@.subrange(i as int, m@.len() as int), k@),
        decreases m@.len() - i,
    {
        let ghost rest = m@.subrange(i as int, m@.len() as int);
        assert(rest.drop_first() =~= m@.subrange(i + 1, m@.len() as int));
        if str_eq(m[i].0.as_str(), k) {
            return Some(&m[i].1);
        }
        i = i + 1;
    }
    None
}

} // verus!
