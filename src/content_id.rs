use std::str::FromStr;
use vstd::prelude::*;
use vstd::slice::slice_to_vec;

use crate::error::CarError;

verus! {

/// The width in bytes and the codec tag of the content identifier at the front
/// of `b`, or nothing where `b` does not start with one.
pub uninterp spec fn cid_prefix_of(b: Seq<u8>) -> Option<(usize, u64)>;

/// The binary form of the content identifier written as text in `s`.
pub uninterp spec fn cid_text_of(s: Seq<char>) -> Option<Seq<u8>>;

/// Relies on `cid::Cid::read_bytes`, `encoded_len` and `codec`: reads the
/// identifier at the front of `b`, which takes at least one byte of it.
#[verifier::external_body]
pub(crate) fn cid_prefix(b: &[u8]) -> (r: Option<(usize, u64)>)
    ensures
        r == cid_prefix_of(b@),
        r matches Some((w, _)) ==> 0 < w <= b@.len(),
{
    ::cid::Cid::read_bytes(b).ok().map(|c| (c.encoded_len(), c.codec()))
}

/// Relies on `cid::Cid::from_str` and `to_bytes`: parses the textual form of
/// an identifier and hands back its binary form.
#[verifier::external_body]
fn cid_text_bytes(s: &str) -> (r: Option<Vec<u8>>)
    ensures
        r matches Some(v) ==> cid_text_of(s@) == Some(v@),
        r is None ==> cid_text_of(s@) is None,
{
    ::cid::Cid::from_str(s).ok().map(|c| c.to_bytes())
}

/// The codec tag of raw, uninterpreted blocks.
pub const RAW_CODEC: u64 = 0x55;

/// The codec tag of protobuf-framed merkle DAG nodes.
pub const DAG_PB_CODEC: u64 = 0x70;

/// A content identifier, kept as its canonical binary form together with the
/// codec tag that this form carries.
#[derive(Debug, Hash)]
pub struct Cid {
    bytes: Vec<u8>,
    codec: u64,
}

impl View for Cid {
    type V = Seq<u8>;

    closed spec fn view(&self) -> Seq<u8> {
        self.bytes@
    }
}

/// The codec tag that the identifier with binary form `b` carries.
pub open spec fn codec_of(b: Seq<u8>) -> u64 {
    match cid_prefix_of(b) {
        Some((_, c)) => c,
        None => 0,
    }
}

impl Cid {
    #[verifier::type_invariant]
    spec fn inv(&self) -> bool {
        cid_prefix_of(self.bytes@) == Some((self.bytes@.len() as usize, self.codec))
    }

    /// The identifier's bytes parse as one whole identifier with this codec.
    pub closed spec fn wf(&self) -> bool {
        cid_prefix_of(self.bytes@) == Some((self.bytes@.len() as usize, self.codec))
    }

    pub closed spec fn spec_codec(&self) -> u64 {
        self.codec
    }

    /// Builds an identifier from bytes already known to hold exactly one.
    pub(crate) fn from_parts(bytes: Vec<u8>, codec: u64) -> (r: Cid)
        requires
            cid_prefix_of(bytes@) == Some((bytes@.len() as usize, codec)),
        ensures
            r@ == bytes@,
            r.spec_codec() == codec,
            r.wf(),
    {
        Cid { bytes, codec }
    }

    /// Parses the binary form of an identifier; the bytes must hold exactly
    /// one identifier and nothing after it.
    pub fn from_bytes(b: &[u8]) -> (r: Result<Cid, CarError>)
        ensures
            r is Ok <==> (cid_prefix_of(b@) matches Some((w, _)) && w == b@.len()),
            r matches Ok(c) ==> c@ == b@ && c.wf(),
            r matches Err(e) ==> e.is_parsing(),
    {
        match cid_prefix(b) {
            Some((w, codec)) => {
                if w == b.len() {
                    let bytes = slice_to_vec(b);
                    Ok(Cid { bytes, codec })
                } else {
                    Err(CarError::Parsing("trailing bytes after the content identifier".to_string()))
                }
            },
            None => Err(CarError::Parsing("malformed content identifier".to_string())),
        }
    }

    /// Parses the textual form of an identifier.
    pub fn parse(s: &str) -> (r: Result<Cid, CarError>)
        ensures
            r is Ok ==> cid_text_of(s@) is Some,
            r matches Ok(c) ==> cid_text_of(s@) == Some(c@) && c.wf(),
            cid_text_of(s@) is None ==> (r matches Err(e) && e.is_parsing()),
            r is Ok <==> (cid_text_of(s@) matches Some(b) && (cid_prefix_of(b) matches Some((w, _)) && w == b.len())),
            r matches Err(e) ==> e.is_parsing(),
    {
        match cid_text_bytes(s) {
            Some(b) => Cid::from_bytes(b.as_slice()),
            None => Err(CarError::Parsing("malformed content identifier text".to_string())),
        }
    }

    /// The codec tag that tells how the identified block is encoded.
    pub fn codec(&self) -> (r: u64)
        ensures
            r == self.spec_codec(),
            r == codec_of(self@),
            self.wf(),
    {
        proof {
            use_type_invariant(self);
        }
        self.codec
    }

    /// A copy of this identifier.
    pub fn duplicate(&self) -> (r: Cid)
        ensures
            r@ == self@,
            r.spec_codec() == self.spec_codec(),
            r.wf() == self.wf(),
            r.wf(),
    {
        proof {
            use_type_invariant(self);
        }
        Cid { bytes: self.bytes.clone(), codec: self.codec }
    }

    /// The identifier's binary form.
    pub fn to_bytes(&self) -> (r: Vec<u8>)
        ensures
            r@ == self@,
    {
        self.bytes.clone()
    }

    /// Whether two identifiers have the same binary form.
    pub fn same(&self, o: &Cid) -> (r: bool)
        ensures
            r == (self@ == o@),
    {
        if self.bytes.len() != o.bytes.len() {
            return false;
        }
        let mut i: usize = 0;
        while i < self.bytes.len()
            invariant
                self.bytes@.len() == o.bytes@.len(),
                i <= self.bytes@.len(),
                forall|k: int| 0 <= k < i ==> self.bytes@[k] == o.bytes@[k],
            decreases self.bytes@.len() - i,
        {
            if self.bytes[i] != o.bytes[i] {
                return false;
            }
            i = i + 1;
        }
        assert(self.bytes@ =~= o.bytes@);
        true
    }
}

impl PartialEq for Cid {
    fn eq(&self, o: &Cid) -> (r: bool) {
        self.same(o)
    }
}

impl vstd::std_specs::cmp::PartialEqSpecImpl for Cid {
    open spec fn obeys_eq_spec() -> bool {
        true
    }

    open spec fn eq_spec(&self, o: &Cid) -> bool {
        self@ == o@
    }
}

impl Eq for Cid {}

impl Clone for Cid {
    fn clone(&self) -> (r: Cid)
        ensures
            r@ == self@,
    {
        self.duplicate()
    }
}

} // verus!
