//! What the scanner reads from a package's files.

use vstd::prelude::*;

verus! {

/// A parsed PKGBUILD.
#[derive(Debug)]
pub struct ParsedPkgbuild {
    /// The names of the packages that it builds.
    pub pkgname: Vec<String>,
    pub pkgver: String,
    pub pkgrel: String,
    pub epoch: Option<String>,
    pub depends: Vec<String>,
    pub makedepends: Vec<String>,
    pub checkdepends: Vec<String>,
    pub optdepends: Vec<String>,
    pub provides: Vec<String>,
    /// The value of `install=`, as written.
    pub install: Option<String>,
    /// The file as it was read.
    pub raw_content: String,
}

impl Default for ParsedPkgbuild {
    /// A PKGBUILD that declares nothing.
    fn default() -> (r: Self)
        ensures
            r.pkgname@.len() == 0,
            r.pkgver@.len() == 0,
            r.pkgrel@.len() == 0,
            r.epoch is None,
            r.depends@.len() == 0,
            r.makedepends@.len() == 0,
            r.checkdepends@.len() == 0,
            r.optdepends@.len() == 0,
            r.provides@.len() == 0,
            r.install is None,
            r.raw_content@.len() == 0,
    {
        ParsedPkgbuild {
            pkgname: Vec::new(),
            pkgver: String::new(),
            pkgrel: String::new(),
            epoch: None,
            depends: Vec::new(),
            makedepends: Vec::new(),
            checkdepends: Vec::new(),
            optdepends: Vec::new(),
            provides: Vec::new(),
            install: None,
            raw_content: String::new(),
        }
    }
}

impl ParsedPkgbuild {
    /// The name of the first package, or the empty text where there is none.
    pub open spec fn first_name(self) -> Seq<char> {
        if self.pkgname@.len() > 0 {
            self.pkgname@[0]@
        } else {
            seq![]
        }
    }

    /// The name of the first package, or the empty text where there is none.
    pub fn first_pkgname(&self) -> (r: String)
        ensures
            r@ == self.first_name(),
    {
        if self.pkgname.len() > 0 {
            self.pkgname[0].clone()
        } else {
            String::new()
        }
    }
}

/// A hook of an install script, such as `post_install`.
#[derive(Debug)]
pub struct InstallHook {
    pub name: String,
    pub body: String,
}

/// An install script.
#[derive(Debug)]
pub struct ParsedInstallScript {
    /// The script as it was read.
    pub content: String,
    /// Where it was read from.
    pub path: String,
    /// The hooks that it defines.
    pub hooks: Vec<InstallHook>,
}

} // verus!
