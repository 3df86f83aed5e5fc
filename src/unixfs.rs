use vstd::prelude::*;

use crate::content_id::Cid;

verus! {

/// The kind of a filesystem node.
#[derive(Debug, PartialEq, Eq, Structural, Clone, Copy)]
pub enum FileType {
    Raw,
    Directory,
    File,
    Metadata,
    Symlink,
    HAMTShard,
}

impl FileType {
    /// The numeric tag that the node's data record carries for this kind.
    pub open spec fn spec_tag(self) -> u64 {
        match self {
            FileType::Raw => 0,
            FileType::Directory => 1,
            FileType::File => 2,
            FileType::Metadata => 3,
            FileType::Symlink => 4,
            FileType::HAMTShard => 5,
        }
    }

    /// The kind that a numeric tag stands for; tags above five stand for none.
    pub fn from_tag(t: u64) -> (r: Option<FileType>)
        ensures
            t <= 5 ==> (r matches Some(f) && f.spec_tag() == t),
            t > 5 ==> r is None,
    {
        match t {
            0 => Some(FileType::Raw),
            1 => Some(FileType::Directory),
            2 => Some(FileType::File),
            3 => Some(FileType::Metadata),
            4 => Some(FileType::Symlink),
            5 => Some(FileType::HAMTShard),
            _ => None,
        }
    }

    /// The numeric tag of this kind.
    pub fn tag(&self) -> (r: u64)
        ensures
            r == self.spec_tag(),
    {
        match self {
            FileType::Raw => 0,
            FileType::Directory => 1,
            FileType::File => 2,
            FileType::Metadata => 3,
            FileType::Symlink => 4,
            FileType::HAMTShard => 5,
        }
    }

    /// The lower-case name used when listing nodes.
    pub fn as_str(&self) -> (r: &'static str)
        ensures
            *self == FileType::Raw ==> r@ == "raw"@,
            *self == FileType::Directory ==> r@ == "directory"@,
            *self == FileType::File ==> r@ == "file"@,
            *self == FileType::Metadata ==> r@ == "metadata"@,
            *self == FileType::Symlink ==> r@ == "symlink"@,
            *self == FileType::HAMTShard ==> r@ == "hasmtshard"@,
    {
        proof {
            reveal_strlit("raw");
            reveal_strlit("directory");
            reveal_strlit("file");
            reveal_strlit("metadata");
            reveal_strlit("symlink");
            reveal_strlit("hasmtshard");
        }
        match self {
            FileType::Raw => "raw",
            FileType::Directory => "directory",
            FileType::File => "file",
            FileType::Metadata => "metadata",
            FileType::Symlink => "symlink",
            FileType::HAMTShard => "hasmtshard",
        }
    }

    /// The kind that a node has when nothing says otherwise.
    pub fn default_type() -> (r: FileType)
        ensures
            r == FileType::Raw,
    {
        FileType::Raw
    }
}

/// A modification time: whole seconds and an optional fraction of a second.
#[derive(Debug, PartialEq, Eq, Structural, Clone, Copy)]
pub struct UnixTime {
    pub seconds: i64,
    pub fractional_nanoseconds: Option<u32>,
}

/// A named, sized reference from a node to a child block.
#[derive(Debug, Clone)]
pub struct Link {
    pub hash: Cid,
    pub file_type: FileType,
    pub name: String,
    pub tsize: u64,
}

/// A filesystem node decoded from a block.
#[derive(Debug, Clone)]
pub struct UnixFs {
    pub cid: Option<Cid>,
    pub mode: Option<u32>,
    pub file_type: FileType,
    pub fanout: Option<u64>,
    pub block_sizes: Vec<u64>,
    pub file_size: Option<u64>,
    pub hash_type: Option<u64>,
    pub links: Vec<Link>,
    pub mtime: Option<UnixTime>,
    pub file_name: Option<String>,
}

impl UnixFs {
    /// An empty raw node that knows its own identifier.
    pub fn new(cid: Cid) -> (r: UnixFs)
        ensures
            r.cid == Some(cid),
            r.file_type == FileType::Raw,
            r.links@.len() == 0,
            r.block_sizes@.len() == 0,
            r.mode is None && r.fanout is None && r.file_size is None,
            r.hash_type is None && r.mtime is None && r.file_name is None,
    {
        UnixFs {
            cid: Some(cid),
            mode: None,
            file_type: FileType::Raw,
            fanout: None,
            block_sizes: Vec::new(),
            file_size: None,
            hash_type: None,
            links: Vec::new(),
            mtime: None,
            file_name: None,
        }
    }

    /// An empty directory node.
    pub fn new_directory() -> (r: UnixFs)
        ensures
            r.cid is None,
            r.file_type == FileType::Directory,
            r.links@.len() == 0,
            r.block_sizes@.len() == 0,
            r.mode is None && r.fanout is None && r.file_size is None,
            r.hash_type is None && r.mtime is None && r.file_name is None,
    {
        UnixFs {
            cid: None,
            mode: None,
            file_type: FileType::Directory,
            fanout: None,
            block_sizes: Vec::new(),
            file_size: None,
            hash_type: None,
            links: Vec::new(),
            mtime: None,
            file_name: None,
        }
    }

    /// Appends a child link and returns its position among the links.
    pub fn add_link(&mut self, child: Link) -> (r: usize)
        ensures
            r == old(self).links@.len(),
            final(self).links@ == old(self).links@.push(child),
            final(self).cid == old(self).cid,
            final(self).file_type == old(self).file_type,
            final(self).mode == old(self).mode,
            final(self).fanout == old(self).fanout,
            final(self).block_sizes == old(self).block_sizes,
            final(self).file_size == old(self).file_size,
            final(self).hash_type == old(self).hash_type,
            final(self).mtime == old(self).mtime,
            final(self).file_name == old(self).file_name,
    {
        let idx = self.links.len();
        self.links.push(child);
        idx
    }

    pub fn links(&self) -> (r: &Vec<Link>)
        ensures
            r == &self.links,
    {
        &self.links
    }

    pub fn mtime(&self) -> (r: Option<UnixTime>)
        ensures
            r == self.mtime,
    {
        self.mtime
    }

    pub fn mode(&self) -> (r: Option<u32>)
        ensures
            r == self.mode,
    {
        self.mode
    }

    pub fn fanout(&self) -> (r: Option<u64>)
        ensures
            r == self.fanout,
    {
        self.fanout
    }

    pub fn file_name(&self) -> (r: Option<&str>)
        ensures
            match r {
                Some(s) => (self.file_name matches Some(n) && s@ == n@),
                None => self.file_name is None,
            },
    {
        match &self.file_name {
            Some(n) => Some(n.as_str()),
            None => None,
        }
    }

    pub fn hash_type(&self) -> (r: Option<u64>)
        ensures
            r == self.hash_type,
    {
        self.hash_type
    }

    pub fn block_sizes(&self) -> (r: Vec<u64>)
        ensures
            r@ == self.block_sizes@,
    {
        self.block_sizes.clone()
    }

    pub fn file_size(&self) -> (r: Option<u64>)
        ensures
            r == self.file_size,
    {
        self.file_size
    }

    pub fn file_type(&self) -> (r: FileType)
        ensures
            r == self.file_type,
    {
        self.file_type
    }

    pub fn cid(&self) -> (r: Option<Cid>)
        ensures
            r matches Some(c) ==> (self.cid matches Some(d) && c@ == d@ && c.spec_codec() == d.spec_codec()),
            r is None <==> self.cid is None,
    {
        match &self.cid {
            Some(c) => Some(c.duplicate()),
            None => None,
        }
    }
}

} // verus!
