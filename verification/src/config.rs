//! The configuration file handle.
//!
//! The library only fixes where the configuration lives; reading and writing
//! the file is I/O and happens outside it.

use vstd::prelude::*;

verus! {

/// Handle on the service's configuration file.
pub struct ConfigFile {
    path: String,
}

impl ConfigFile {
    /// Where this handle points, as a sequence of characters.
    pub closed spec fn path_view(&self) -> Seq<char> {
        self.path@
    }

    /// The configuration always lives at `./conf.ini`.
    pub fn new() -> (r: ConfigFile)
        ensures
            r.path_view() == "./conf.ini"@,
    {
        ConfigFile { path: String::from_str("./conf.ini") }
    }

    /// Where the configuration file lives.
    pub fn path(&self) -> (r: &str)
        ensures
            r@ == self.path_view(),
    {
        self.path.as_str()
    }
}

} // verus!
