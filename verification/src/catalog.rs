//! The catalog data model and the fingerprint extractor.
//!
//! A catalog is an ordered sequence of packages; each package owns files,
//! each file owns modules, and each module carries one 32-bit content
//! fingerprint. The extractor derives, per package, the flat list of its
//! fingerprints in nested traversal order (files in file order, modules in
//! module order), with no deduplication at this stage.

use vstd::prelude::*;

verus! {

/// One module of a package file, carrying its content fingerprint.
#[derive(Clone, Debug)]
pub struct Module {
    pub fingerprint: u32,
}

/// One released file of a package, owning zero or more modules.
#[derive(Clone, Debug)]
pub struct File {
    pub modules: Vec<Module>,
}

/// One catalog entry: a read-only package owning zero or more files.
#[derive(Clone, Debug)]
pub struct Package {
    pub latest_files: Vec<File>,
}

/// The fingerprints carried by a sequence of modules, in module order.
pub open spec fn module_fps(modules: Seq<Module>) -> Seq<u32> {
    modules.map_values(|m: Module| m.fingerprint)
}

/// The fingerprints of one file: its modules' fingerprints in order.
pub open spec fn file_fps(file: File) -> Seq<u32> {
    module_fps(file.modules@)
}

/// The fingerprints of a sequence of files, file by file in order.
pub open spec fn files_fps(files: Seq<File>) -> Seq<u32>
    decreases files.len(),
{
    if files.len() == 0 {
        Seq::empty()
    } else {
        files_fps(files.drop_last()) + file_fps(files.last())
    }
}

/// All fingerprints of one package, in nested traversal order.
pub open spec fn package_fps(p: Package) -> Seq<u32> {
    files_fps(p.latest_files@)
}

/// The per-package fingerprint lists of a whole catalog, in package order.
pub open spec fn catalog_fps(packages: Seq<Package>) -> Seq<Seq<u32>> {
    packages.map_values(|p: Package| package_fps(p))
}

/// The flat fingerprint list of one package, in nested traversal order.
pub fn fingerprints_of_package(p: &Package) -> (r: Vec<u32>)
    ensures
        r@ == package_fps(*p),
{
    let files = &p.latest_files;
    let mut r: Vec<u32> = Vec::new();
    let mut i: usize = 0;
    while i < files.len()
        invariant
            i <= files.len(),
            r@ == files_fps(files@.take(i as int)),
        decreases files.len() - i,
    {
        let modules = &files[i].modules;
        let mut j: usize = 0;
        while j < modules.len()
            invariant
                j <= modules.len(),
                modules@ == files@[i as int].modules@,
                i < files.len(),
                r@ == files_fps(files@.take(i as int)) + module_fps(modules@.take(j as int)),
            decreases modules.len() - j,
        {
            r.push(modules[j].fingerprint);
            proof {
                assert(modules@.take(j + 1int) =~= modules@.take(j as int).push(modules@[j as int]));
                assert(module_fps(modules@.take(j + 1int)) =~= module_fps(
                    modules@.take(j as int),
                ).push(modules@[j as int].fingerprint));
            }
            j = j + 1;
        }
        proof {
            assert(modules@.take(modules@.len() as int) =~= modules@);
            assert(files@.take(i + 1int).drop_last() =~= files@.take(i as int));
            assert(files@.take(i + 1int).last() == files@[i as int]);
        }
        i = i + 1;
    }
    proof {
        assert(files@.take(files@.len() as int) =~= files@);
    }
    r
}

/// Derives the per-package fingerprint lists of a catalog, preserving
/// package order and, within a package, nested traversal order. Absent
/// lists yield empty output, never a failure.
pub fn extract_fingerprints(packages: &Vec<Package>) -> (r: Vec<Vec<u32>>)
    ensures
        r@.len() == packages@.len(),
        forall|i: int| 0 <= i < r@.len() ==> #[trigger] r@[i]@ == package_fps(packages@[i]),
        r.deep_view() == catalog_fps(packages@),
{
    let mut r: Vec<Vec<u32>> = Vec::new();
    let mut i: usize = 0;
    while i < packages.len()
        invariant
            i <= packages.len(),
            r@.len() == i,
            forall|k: int| 0 <= k < i ==> #[trigger] r@[k]@ == package_fps(packages@[k]),
        decreases packages.len() - i,
    {
        r.push(fingerprints_of_package(&packages[i]));
        i = i + 1;
    }
    proof {
        assert forall|k: int| 0 <= k < r@.len() implies r.deep_view()[k] == catalog_fps(
            packages@,
        )[k] by {
            assert(r@[k].deep_view() =~= r@[k]@);
        }
        assert(r.deep_view() =~= catalog_fps(packages@));
    }
    r
}

} // verus!
