//! The parsed document: packages and their dependencies.

use crate::text::str_views;
use vstd::prelude::*;

verus! {

/// Node kind enumerable.
#[derive(Debug)]
pub enum NodeKind {
    Document,
    Package,
    Library,
}

/// The mathematical value of a dependency entry: the primary clause and the
/// alternative clauses offered as substitutes.
#[verifier::ext_equal]
pub struct LibraryView {
    pub name: Seq<char>,
    pub alternates: Seq<Seq<char>>,
}

/// The mathematical value of a package record.
#[verifier::ext_equal]
pub struct PackageView {
    pub name: Seq<char>,
    pub description: Seq<char>,
    pub depends: Seq<LibraryView>,
}

/// The view of each library in a sequence of libraries.
pub open spec fn lib_views(v: Seq<Library>) -> Seq<LibraryView> {
    Seq::new(v.len(), |i: int| v[i]@)
}

/// The view of each package in a sequence of packages.
pub open spec fn pkg_views(v: Seq<Package>) -> Seq<PackageView> {
    Seq::new(v.len(), |i: int| v[i]@)
}

/// The package node and each of its library nodes carry the tag of their
/// own kind.
pub open spec fn package_kinds_ok(p: Package) -> bool {
    &&& p.kind is Package
    &&& forall|i: int| 0 <= i < p.depends@.len() ==> (#[trigger] p.depends@[i]).kind is Library
}

/// The document node and every node under it carry the tag of their own
/// kind.
pub open spec fn document_kinds_ok(d: Document) -> bool {
    &&& d.kind is Document
    &&& forall|i: int| 0 <= i < d.packages@.len() ==> package_kinds_ok(#[trigger] d.packages@[i])
}

/// Describes a document node: an ordered sequence of packages.
#[derive(Debug)]
pub struct Document {
    pub kind: NodeKind,
    pub packages: Vec<Package>,
}

impl View for Document {
    type V = Seq<PackageView>;

    open spec fn view(&self) -> Seq<PackageView> {
        pkg_views(self.packages@)
    }
}

impl Document {
    pub fn new(packages: Vec<Package>) -> (d: Document)
        ensures
            d.kind is Document,
            d.packages == packages,
            d@ == pkg_views(packages@),
    {
        Document { kind: NodeKind::Document, packages }
    }
}

/// Describes a package node.
#[derive(Debug)]
pub struct Package {
    pub kind: NodeKind,
    pub name: String,
    pub description: String,
    pub depends: Vec<Library>,
}

impl View for Package {
    type V = PackageView;

    open spec fn view(&self) -> PackageView {
        PackageView {
            name: self.name@,
            description: self.description@,
            depends: lib_views(self.depends@),
        }
    }
}

impl Package {
    pub fn new(name: String, description: String, depends: Vec<Library>) -> (p: Package)
        ensures
            p.kind is Package,
            p.name == name,
            p.description == description,
            p.depends == depends,
            p@ == (PackageView {
                name: name@,
                description: description@,
                depends: lib_views(depends@),
            }),
    {
        Package { kind: NodeKind::Package, name, description, depends }
    }
}

/// Describes a library node (e.g. a dependency).
#[derive(Debug)]
pub struct Library {
    pub kind: NodeKind,
    pub name: String,
    pub alternates: Vec<String>,
}

impl View for Library {
    type V = LibraryView;

    open spec fn view(&self) -> LibraryView {
        LibraryView { name: self.name@, alternates: str_views(self.alternates@) }
    }
}

impl Library {
    pub fn new(name: String, alternates: Vec<String>) -> (l: Library)
        ensures
            l.kind is Library,
            l.name == name,
            l.alternates == alternates,
            l@ == (LibraryView { name: name@, alternates: str_views(alternates@) }),
    {
        Library { kind: NodeKind::Library, name, alternates }
    }
}

} // verus!
