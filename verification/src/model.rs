//! The vocabulary of contract evidence: facets, representation kinds, revisions.

use vstd::prelude::*;
use crate::order::{push_rank_key, push_text_key, rank_key, text_key};

verus! {

/// The dimensions along which a logical contract can be stated.
#[derive(Debug, Clone, Copy, PartialEq, Eq, PartialOrd, Ord, Hash, Structural)]
pub enum ContractFacet {
    Structure,
    Executable,
    Semantic,
    Failure,
    Concurrency,
    Recovery,
    Verification,
}

pub open spec fn facet_rank(f: ContractFacet) -> u32 {
    match f {
        ContractFacet::Structure => 0,
        ContractFacet::Executable => 1,
        ContractFacet::Semantic => 2,
        ContractFacet::Failure => 3,
        ContractFacet::Concurrency => 4,
        ContractFacet::Recovery => 5,
        ContractFacet::Verification => 6,
    }
}

pub fn facet_rank_of(f: ContractFacet) -> (r: u32)
    ensures
        r == facet_rank(f),
{
    match f {
        ContractFacet::Structure => 0,
        ContractFacet::Executable => 1,
        ContractFacet::Semantic => 2,
        ContractFacet::Failure => 3,
        ContractFacet::Concurrency => 4,
        ContractFacet::Recovery => 5,
        ContractFacet::Verification => 6,
    }
}

/// Lower-case name of a facet.
pub open spec fn facet_name_spec(f: ContractFacet) -> Seq<char> {
    match f {
        ContractFacet::Structure => "structural"@,
        ContractFacet::Executable => "executable"@,
        ContractFacet::Semantic => "semantic"@,
        ContractFacet::Failure => "failure"@,
        ContractFacet::Concurrency => "concurrency"@,
        ContractFacet::Recovery => "recovery"@,
        ContractFacet::Verification => "verification"@,
    }
}

pub fn facet_name(f: ContractFacet) -> (r: &'static str)
    ensures
        r@ == facet_name_spec(f),
{
    match f {
        ContractFacet::Structure => "structural",
        ContractFacet::Executable => "executable",
        ContractFacet::Semantic => "semantic",
        ContractFacet::Failure => "failure",
        ContractFacet::Concurrency => "concurrency",
        ContractFacet::Recovery => "recovery",
        ContractFacet::Verification => "verification",
    }
}

impl crate::order::SortKey for ContractFacet {
    open spec fn sort_key(&self) -> Seq<u32> {
        rank_key(facet_rank(*self))
    }

    fn sort_key_exec(&self) -> (k: Vec<u32>) {
        let mut k: Vec<u32> = Vec::new();
        push_rank_key(&mut k, facet_rank_of(*self));
        k
    }
}

/// The kinds of artifact that can represent a contract.
#[derive(Debug, Clone, Copy, PartialEq, Eq, PartialOrd, Ord, Hash, Structural)]
pub enum RepresentationKind {
    ExecutableSurface,
    SourceCode,
    Schema,
    TypeDefinition,
    Validator,
    Test,
    Documentation,
    Configuration,
    GeneratedArtifact,
    Other,
}

pub open spec fn kind_rank(k: RepresentationKind) -> u32 {
    match k {
        RepresentationKind::ExecutableSurface => 0,
        RepresentationKind::SourceCode => 1,
        RepresentationKind::Schema => 2,
        RepresentationKind::TypeDefinition => 3,
        RepresentationKind::Validator => 4,
        RepresentationKind::Test => 5,
        RepresentationKind::Documentation => 6,
        RepresentationKind::Configuration => 7,
        RepresentationKind::GeneratedArtifact => 8,
        RepresentationKind::Other => 9,
    }
}

pub fn kind_rank_of(k: RepresentationKind) -> (r: u32)
    ensures
        r == kind_rank(k),
{
    match k {
        RepresentationKind::ExecutableSurface => 0,
        RepresentationKind::SourceCode => 1,
        RepresentationKind::Schema => 2,
        RepresentationKind::TypeDefinition => 3,
        RepresentationKind::Validator => 4,
        RepresentationKind::Test => 5,
        RepresentationKind::Documentation => 6,
        RepresentationKind::Configuration => 7,
        RepresentationKind::GeneratedArtifact => 8,
        RepresentationKind::Other => 9,
    }
}

/// The recorded state of an alignment between a representation and a contract.
#[derive(Debug, Clone, Copy, PartialEq, Eq, PartialOrd, Ord, Hash, Structural)]
pub enum AlignmentState {
    Confirmed,
    Rejected,
    Unresolved,
}

/// The revision at which a source was observed.
#[derive(Debug, Clone, PartialEq, Eq)]
pub enum Revision {
    Exact(String),
    Unversioned,
    Unknown,
}

pub enum RevisionView {
    Exact(Seq<char>),
    Unversioned,
    Unknown,
}

impl View for Revision {
    type V = RevisionView;

    open spec fn view(&self) -> RevisionView {
        match self {
            Revision::Exact(v) => RevisionView::Exact(v@),
            Revision::Unversioned => RevisionView::Unversioned,
            Revision::Unknown => RevisionView::Unknown,
        }
    }
}

/// Ordering key of a revision: exact revisions first (by value), then
/// unversioned, then unknown.
pub open spec fn revision_key(r: RevisionView) -> Seq<u32> {
    match r {
        RevisionView::Exact(v) => rank_key(0) + text_key(v),
        RevisionView::Unversioned => rank_key(1) + text_key(Seq::empty()),
        RevisionView::Unknown => rank_key(2) + text_key(Seq::empty()),
    }
}

pub fn push_revision_key(k: &mut Vec<u32>, r: &Revision)
    ensures
        final(k)@ == old(k)@ + revision_key(r@),
{
    match r {
        Revision::Exact(v) => {
            push_rank_key(k, 0);
            push_text_key(k, v.as_str());
        },
        Revision::Unversioned => {
            push_rank_key(k, 1);
            push_text_key(k, "");
        },
        Revision::Unknown => {
            push_rank_key(k, 2);
            push_text_key(k, "");
        },
    }
    proof {
        assert(""@ =~= Seq::<char>::empty()) by {
            reveal_strlit("");
        }
    }
    assert(final(k)@ =~= old(k)@ + revision_key(r@));
}

pub fn revision_eq(a: &Revision, b: &Revision) -> (r: bool)
    ensures
        r == (a@ == b@),
{
    match (a, b) {
        (Revision::Exact(x), Revision::Exact(y)) => crate::text::text_eq(x.as_str(), y.as_str()),
        (Revision::Unversioned, Revision::Unversioned) => true,
        (Revision::Unknown, Revision::Unknown) => true,
        _ => false,
    }
}

pub fn clone_revision(r: &Revision) -> (c: Revision)
    ensures
        c@ == r@,
{
    match r {
        Revision::Exact(v) => Revision::Exact(v.clone()),
        Revision::Unversioned => Revision::Unversioned,
        Revision::Unknown => Revision::Unknown,
    }
}

} // verus!
