//! Module files found under the module roots, and how each is classified.

use vstd::prelude::*;
use crate::text::{pieces_of, split_spec, views};

verus! {

/// The two families of module files.
#[derive(Clone, Copy, PartialEq, Eq, Structural, Debug)]
pub enum ModuleType {
    LMOD,
    TCL,
}

/// A module file found under one of the roots.
#[derive(Clone, Debug)]
pub struct ModuleFile {
    pub path: String,
    pub code: String,
    pub modtype: ModuleType,
    /// Filled once the file has been read.
    pub hash: Option<u32>,
}

/// What a `ModuleFile` holds, as plain values.
pub ghost struct FileModel {
    pub path: Seq<char>,
    pub code: Seq<char>,
    pub modtype: ModuleType,
    pub hash: Option<u32>,
}

impl View for ModuleFile {
    type V = FileModel;

    open spec fn view(&self) -> FileModel {
        FileModel { path: self.path@, code: self.code@, modtype: self.modtype, hash: self.hash }
    }
}

impl ModuleFile {
    /// A copy with the same contents.
    pub fn duplicate(&self) -> (r: ModuleFile)
        ensures
            r@ == self@,
    {
        ModuleFile {
            path: self.path.clone(),
            code: self.code.clone(),
            modtype: self.modtype,
            hash: self.hash,
        }
    }
}

/// The name of the xxHash32 digest of some bytes.
pub uninterp spec fn xxh32_of(b: Seq<u8>) -> u32;

/// Relies on fasthash::xx::hash32: the 32-bit xxHash digest (seed 0) of the
/// bytes, which depends on the bytes alone.
#[verifier::external_body]
fn content_hash(b: &[u8]) -> (r: u32)
    ensures
        r == xxh32_of(b@),
{
    fasthash::xx::hash32(b)
}

pub open spec fn lua_suffix() -> Seq<char> {
    seq!['.', 'l', 'u', 'a']
}

/// A relative path names an LMOD file when its file name has the extension
/// `lua` (a file named just `.lua` has none).
pub open spec fn is_lmod_path(rel: Seq<char>) -> bool {
    &&& rel.len() > 4
    &&& rel.subrange(rel.len() - 4, rel.len() as int) == lua_suffix()
    &&& rel[rel.len() - 5] != '/'
}

pub open spec fn module_type_of(rel: Seq<char>) -> ModuleType {
    if is_lmod_path(rel) {
        ModuleType::LMOD
    } else {
        ModuleType::TCL
    }
}

/// The module code: the relative path, without `.lua` for an LMOD file.
pub open spec fn module_code_of(rel: Seq<char>) -> Seq<char> {
    if is_lmod_path(rel) {
        rel.subrange(0, rel.len() - 4)
    } else {
        rel
    }
}

/// The record for a file at `path`, found at `rel` under its root, not yet read.
pub open spec fn candidate(path: Seq<char>, rel: Seq<char>) -> FileModel {
    FileModel { path, code: module_code_of(rel), modtype: module_type_of(rel), hash: None }
}

/// Whether a file or directory name is hidden from the walk.
pub fn is_hidden(name: &str) -> (r: bool)
    ensures
        r == (name@.len() > 0 && name@[0] == '.'),
{
    if name.unicode_len() == 0 {
        false
    } else {
        name.get_char(0) == '.'
    }
}

/// Whether the relative path names an LMOD file.
pub fn is_lmod(rel: &str) -> (r: bool)
    ensures
        r == is_lmod_path(rel@),
{
    let n = rel.unicode_len();
    if n <= 4 {
        return false;
    }
    let ok = rel.get_char(n - 5) != '/' && rel.get_char(n - 4) == '.' && rel.get_char(n - 3) == 'l'
        && rel.get_char(n - 2) == 'u' && rel.get_char(n - 1) == 'a';
    proof {
        let tail = rel@.subrange(n - 4, n as int);
        if ok {
            assert(tail =~= lua_suffix());
        } else if rel@[n - 5] != '/' {
            assert(tail[0] == rel@[n - 4] && tail[1] == rel@[n - 3] && tail[2] == rel@[n - 2]
                && tail[3] == rel@[n - 1]);
        }
    }
    ok
}

/// Classifies the file at `path`, found at `rel` under its root.
pub fn classify(path: &str, rel: &str) -> (r: ModuleFile)
    ensures
        r@ == candidate(path@, rel@),
{
    let lmod = is_lmod(rel);
    let n = rel.unicode_len();
    if lmod {
        ModuleFile {
            path: path.to_owned(),
            code: rel.substring_char(0, n - 4).to_owned(),
            modtype: ModuleType::LMOD,
            hash: None,
        }
    } else {
        ModuleFile {
            path: path.to_owned(),
            code: rel.to_owned(),
            modtype: ModuleType::TCL,
            hash: None,
        }
    }
}

/// The roots of a module search path: its pieces between colons.
pub fn module_roots(modulepath: &str) -> (r: Vec<String>)
    ensures
        views(r@) == split_spec(modulepath@, ':'),
{
    pieces_of(modulepath, ':')
}

/// Turns the files that the walk found, each an absolute path and the path
/// relative to its root, into module records in the same order.
pub fn crawl_gen(found: &Vec<(String, String)>) -> (r: Vec<ModuleFile>)
    ensures
        r.len() == found.len(),
        forall|i: int| 0 <= i < r.len() ==> (#[trigger] r[i])@ == candidate(found[i].0@, found[i].1@),
{
    let mut r: Vec<ModuleFile> = Vec::new();
    let mut i: usize = 0;
    while i < found.len()
        invariant
            i <= found.len(),
            r.len() == i,
            forall|k: int| 0 <= k < i ==> (#[trigger] r[k])@ == candidate(found[k].0@, found[k].1@),
        decreases found.len() - i,
    {
        let m = classify(found[i].0.as_str(), found[i].1.as_str());
        r.push(m);
        i = i + 1;
    }
    r
}

/// The record with the digest of the file's bytes attached.
pub fn with_hash(file: ModuleFile, bytes: &[u8]) -> (r: ModuleFile)
    ensures
        r@ == (FileModel { hash: Some(xxh32_of(bytes@)), ..file@ }),
{
    let h = content_hash(bytes);
    ModuleFile { hash: Some(h), ..file }
}

} // verus!
