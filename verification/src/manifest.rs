//! The project manifest, `micropython-rs.toml`: where the port and the
//! MicroPython sources are, and which crates belong to the project. Paths
//! are kept as the bytes they are spelled with.

use vstd::prelude::*;
use vstd::string::StringSliceAdditionalSpecFns;

use crate::text::copy_range;

verus! {

/// The manifest.
#[derive(Debug, Clone, PartialEq, Eq)]
pub struct Manifest {
    pub port: Option<Port>,
    pub micropython: Option<MicroPython>,
    pub crates: Vec<Crate>,
}

/// `[port]`: the directory of the MicroPython port, relative to the manifest.
#[derive(Debug, Clone, PartialEq, Eq)]
pub struct Port {
    pub path: Vec<u8>,
}

/// `[micropython]`: the MicroPython source tree, relative to the manifest.
#[derive(Debug, Clone, PartialEq, Eq)]
pub struct MicroPython {
    pub path: Vec<u8>,
}

/// `[[crate]]`: a crate of the project, relative to the manifest.
#[derive(Debug, Clone, PartialEq, Eq)]
pub struct Crate {
    pub path: Vec<u8>,
}

/// Where the manifest was found: the file and its directory.
#[derive(Debug, Clone, PartialEq, Eq)]
pub struct ManifestPaths {
    pub path: Vec<u8>,
    pub dir: Vec<u8>,
}

/// The name of the manifest file.
pub const MANIFEST_FILE_NAME: &'static str = "micropython-rs.toml";

impl Manifest {
    /// The port directory; the manifest must name one.
    pub fn required_port(&self) -> (r: Result<&Port, ManifestError>)
        ensures
            match r {
                Ok(p) => self.port == Some(*p),
                Err(e) => self.port is None && e == ManifestError::PortRequired,
            },
    {
        match &self.port {
            Some(p) => Ok(p),
            None => Err(ManifestError::PortRequired),
        }
    }

    /// The MicroPython tree; the manifest must name one.
    pub fn required_micropython(&self) -> (r: Result<&MicroPython, ManifestError>)
        ensures
            match r {
                Ok(m) => self.micropython == Some(*m),
                Err(e) => self.micropython is None && e == ManifestError::MicroPythonRequired,
            },
    {
        match &self.micropython {
            Some(m) => Ok(m),
            None => Err(ManifestError::MicroPythonRequired),
        }
    }
}

/// A section that the configuration build needs is missing.
#[derive(Debug, Clone, Copy, PartialEq, Eq, Structural)]
pub enum ManifestError {
    /// `` `[port]` is required by `micropython-build` ``
    PortRequired,
    /// `` `[micropython]` is required by `micropython-build` ``
    MicroPythonRequired,
}

/* ---------------------------------------------------------------------------
 * Finding the manifest
 * ------------------------------------------------------------------------- */

/// An absolute path given by its components below the root: each one
/// preceded by `/`.
pub open spec fn rooted(cs: Seq<Seq<u8>>) -> Seq<u8>
    decreases cs.len(),
{
    if cs.len() == 0 {
        seq![]
    } else {
        rooted(cs.drop_last()) + seq![0x2fu8] + cs.last()
    }
}

/// An absolute directory given by its components: `/` for the root.
pub open spec fn dir_path(cs: Seq<Seq<u8>>) -> Seq<u8> {
    if cs.len() == 0 {
        seq![0x2fu8]
    } else {
        rooted(cs)
    }
}

/// Where the manifest would be in a directory.
pub open spec fn manifest_path_in(cs: Seq<Seq<u8>>) -> Seq<u8> {
    rooted(cs.push(MANIFEST_FILE_NAME.spec_bytes()))
}

pub open spec fn components_view(cs: Seq<Vec<u8>>) -> Seq<Seq<u8>> {
    cs.map_values(|c: Vec<u8>| c@)
}

fn rooted_path(cs: &Vec<Vec<u8>>) -> (r: Vec<u8>)
    ensures
        r@ == rooted(components_view(cs@)),
{
    let mut out: Vec<u8> = Vec::new();
    let mut i: usize = 0;
    assert(components_view(cs@).take(0) =~= Seq::<Seq<u8>>::empty());
    while i < cs.len()
        invariant
            0 <= i <= cs@.len(),
            out@ == rooted(components_view(cs@).take(i as int)),
        decreases cs@.len() - i,
    {
        let ghost before = out@;
        assert(components_view(cs@).take(i + 1).drop_last() =~= components_view(cs@).take(
            i as int,
        ));
        out.push(0x2f);
        let mut c = copy_range(cs[i].as_slice(), 0, cs[i].len());
        assert(c@ =~= cs@[i as int]@);
        out.append(&mut c);
        i += 1;
    }
    assert(components_view(cs@).take(cs@.len() as int) =~= components_view(cs@));
    out
}

/// What the search for the manifest does after looking in a directory.
#[derive(Debug, Clone, PartialEq, Eq)]
pub enum SearchStep {
    /// The manifest is in this directory.
    Found(ManifestPaths),
    /// Look in the parent directory next, given by its components.
    Parent(Vec<Vec<u8>>),
    /// The root has been searched too: no directory above holds a manifest.
    NotFound,
}

/// The file whose existence decides the step from a directory, given by its
/// components below the root.
pub fn manifest_candidate(dir: &Vec<Vec<u8>>) -> (path: Vec<u8>)
    ensures
        path@ == manifest_path_in(components_view(dir@)),
{
    let ghost cs = components_view(dir@).push(MANIFEST_FILE_NAME.spec_bytes());
    let mut path = rooted_path(dir);
    path.push(0x2f);
    let name = MANIFEST_FILE_NAME.as_bytes();
    let mut name_bytes = copy_range(name, 0, name.len());
    path.append(&mut name_bytes);
    assert(cs.drop_last() =~= components_view(dir@));
    assert(path@ =~= rooted(cs.drop_last()) + seq![0x2fu8] + cs.last());
    path
}

/// One step of the search for the manifest, which starts in a directory and
/// walks up to the root: where the manifest exists in the directory (as
/// `manifest_candidate` names it), the search ends there; otherwise it goes
/// on in the parent, and ends without a manifest after the root.
pub fn search_step(dir: Vec<Vec<u8>>, exists: bool) -> (step: SearchStep)
    ensures
        exists ==> step is Found && step->Found_0.path@ == manifest_path_in(components_view(dir@))
            && step->Found_0.dir@ == dir_path(components_view(dir@)),
        !exists && dir@.len() > 0 ==> step is Parent && components_view(step->Parent_0@)
            == components_view(dir@).drop_last(),
        !exists && dir@.len() == 0 ==> step is NotFound,
{
    if exists {
        let path = manifest_candidate(&dir);
        let dir_bytes = if dir.len() == 0 {
            vec![0x2fu8]
        } else {
            rooted_path(&dir)
        };
        SearchStep::Found(ManifestPaths { path, dir: dir_bytes })
    } else if dir.len() > 0 {
        let mut parent = dir;
        let ghost all = parent@;
        parent.pop();
        assert(components_view(parent@) =~= components_view(all).drop_last());
        SearchStep::Parent(parent)
    } else {
        SearchStep::NotFound
    }
}

} // verus!
