//! Unpacking an exploit or template archive: which entries are directories.
use crate::text::chars_vec;
use vstd::prelude::*;

verus! {

/// An archive as downloaded.
pub struct Untarrer {
    pub data: Vec<u8>,
}

/// An entry path names a directory when it ends in `/`.
pub open spec fn names_dir(path: Seq<char>) -> bool {
    path.len() > 0 && path.last() == '/'
}

impl Untarrer {
    /// Whether the entry at `path` is a directory to create rather than a file to
    /// write.
    pub fn is_dir_entry(path: &str) -> (r: bool)
        ensures
            r == names_dir(path@),
    {
        let v = chars_vec(path);
        v.len() > 0 && v[v.len() - 1] == '/'
    }
}

/// A listener that collects raw exploit output sent over TCP.
pub struct Tcp {
    host: String,
}

impl Tcp {
    pub fn new(host: String) -> (r: Tcp)
        ensures
            r.host_view() == host@,
    {
        Tcp { host }
    }

    pub closed spec fn host_view(&self) -> Seq<char> {
        self.host@
    }

    /// The address to listen on.
    pub fn host(&self) -> (r: &str)
        ensures
            r@ == self.host_view(),
    {
        self.host.as_str()
    }
}

} // verus!
