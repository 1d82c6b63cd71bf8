//! The records that a run produces.
use vstd::prelude::*;
use crate::text::views;

verus! {

/// Why a run stopped.
#[derive(Debug)]
pub enum Error {
    /// A required external program is not installed; holds its name.
    Dependency(String),
    /// An external program could not be started.
    ExecutionIO(String),
    /// An external program failed; holds what it reported.
    Execution(String),
    /// An ignore pattern did not compile; holds the compiler's message.
    Regex(String),
}

/// A package while its files are being checked.
#[derive(Debug)]
pub struct ProcessingPackage {
    pub name: String,
    pub file_dependencies: Vec<ProcessingFileDependency>,
}

impl ProcessingPackage {
    pub fn new(name: &str) -> (r: Self)
        ensures
            r.name@ == name@,
            r.file_dependencies@.len() == 0,
    {
        Self { name: String::from_str(name), file_dependencies: Vec::new() }
    }
}

/// One file and the libraries that it fails to resolve.
#[derive(Debug)]
pub struct ProcessingFileDependency {
    pub file_name: String,
    pub library_dependencies: Vec<String>,
}

impl ProcessingFileDependency {
    /// The library names form a set: none appears twice.
    pub open spec fn wf(&self) -> bool {
        views(self.library_dependencies@).no_duplicates()
    }
}

/// A checked package with its three indexes.
#[derive(Debug)]
pub struct Package {
    pub name: String,
    pub file_dependencies: Vec<FileDependency>,
    pub library_requirements: Vec<LibraryRequired>,
    pub packages_containing: Vec<PackagesContaining>,
}

impl Package {
    /// The record of a checked package, before its derived indexes are built.
    pub fn from(package: ProcessingPackage) -> (r: Package)
        ensures
            r.name == package.name,
            r.file_dependencies@.len() == package.file_dependencies@.len(),
            forall|i: int|
                0 <= i < r.file_dependencies@.len() ==> #[trigger] r.file_dependencies@[i]
                    == FileDependency::from_spec(package.file_dependencies@[i]),
            r.library_requirements@.len() == 0,
            r.packages_containing@.len() == 0,
    {
        let ProcessingPackage { name, file_dependencies } = package;
        let mut source = file_dependencies;
        let mut converted: Vec<FileDependency> = Vec::new();
        let ghost given = source@;
        while source.len() > 0
            invariant
                converted@.len() + source@.len() == given.len(),
                source@ == given.skip(converted@.len() as int),
                forall|k: int|
                    0 <= k < converted@.len() ==> #[trigger] converted@[k]
                        == FileDependency::from_spec(given[k]),
            decreases source@.len(),
        {
            let d = source.remove(0);
            converted.push(FileDependency::from(d));
        }
        Package {
            name,
            file_dependencies: converted,
            library_requirements: Vec::new(),
            packages_containing: Vec::new(),
        }
    }
}

/// A file of a checked package and the libraries that it fails to resolve.
#[derive(Debug)]
pub struct FileDependency {
    pub file_name: String,
    pub library_dependencies: Vec<String>,
}

impl FileDependency {
    pub open spec fn from_spec(d: ProcessingFileDependency) -> FileDependency {
        FileDependency { file_name: d.file_name, library_dependencies: d.library_dependencies }
    }

    /// The record of a file of a checked package.
    pub fn from(dependency: ProcessingFileDependency) -> (r: FileDependency)
        ensures
            r == FileDependency::from_spec(dependency),
    {
        FileDependency {
            file_name: dependency.file_name,
            library_dependencies: dependency.library_dependencies,
        }
    }
}

/// A library and the files of one package that fail to resolve it.
#[derive(Debug)]
pub struct LibraryRequired {
    pub library_name: String,
    pub files_requiring: Vec<String>,
}

/// A library and the packages that may provide it.
#[derive(Debug)]
pub struct PackagesContaining {
    pub library_name: String,
    pub packages_containing: Vec<String>,
}

} // verus!
