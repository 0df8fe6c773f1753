//! Errors of the analysis pipeline.

use vstd::prelude::*;
use crate::text::{owned, push_str};

verus! {

#[derive(Debug, Clone, PartialEq, Eq)]
pub enum AnalysisError {
    InvalidRepository(String),
    InvalidSourceRoot(String),
    Io(String),
    InvalidSemanticPath(String),
    InvalidCandidate(String),
    InvalidSchema(String),
    InvalidJson(String),
    InvalidRustProjection(String),
    InvalidAlignment(String),
    Graph(String),
}

/// An analysis error with its detail as text.
pub enum AnalysisErrorView {
    InvalidRepository(Seq<char>),
    InvalidSourceRoot(Seq<char>),
    Io(Seq<char>),
    InvalidSemanticPath(Seq<char>),
    InvalidCandidate(Seq<char>),
    InvalidSchema(Seq<char>),
    InvalidJson(Seq<char>),
    InvalidRustProjection(Seq<char>),
    InvalidAlignment(Seq<char>),
    Graph(Seq<char>),
}

impl View for AnalysisError {
    type V = AnalysisErrorView;

    open spec fn view(&self) -> AnalysisErrorView {
        match self {
            AnalysisError::InvalidRepository(v) => AnalysisErrorView::InvalidRepository(v@),
            AnalysisError::InvalidSourceRoot(v) => AnalysisErrorView::InvalidSourceRoot(v@),
            AnalysisError::Io(v) => AnalysisErrorView::Io(v@),
            AnalysisError::InvalidSemanticPath(v) => AnalysisErrorView::InvalidSemanticPath(v@),
            AnalysisError::InvalidCandidate(v) => AnalysisErrorView::InvalidCandidate(v@),
            AnalysisError::InvalidSchema(v) => AnalysisErrorView::InvalidSchema(v@),
            AnalysisError::InvalidJson(v) => AnalysisErrorView::InvalidJson(v@),
            AnalysisError::InvalidRustProjection(v) => AnalysisErrorView::InvalidRustProjection(v@),
            AnalysisError::InvalidAlignment(v) => AnalysisErrorView::InvalidAlignment(v@),
            AnalysisError::Graph(v) => AnalysisErrorView::Graph(v@),
        }
    }
}

/// The text that introduces each kind of analysis error.
pub open spec fn error_prefix(e: AnalysisError) -> Seq<char> {
    match e {
        AnalysisError::InvalidRepository(_) => "invalid repository identity: "@,
        AnalysisError::InvalidSourceRoot(_) => "invalid source root: "@,
        AnalysisError::Io(_) => "filesystem analysis failed: "@,
        AnalysisError::InvalidSemanticPath(_) => "invalid semantic path: "@,
        AnalysisError::InvalidCandidate(_) => "invalid representation candidate: "@,
        AnalysisError::InvalidSchema(_) => "invalid JSON Schema evidence: "@,
        AnalysisError::InvalidJson(_) => "invalid "@,
        AnalysisError::InvalidRustProjection(_) => "invalid Rust projection: "@,
        AnalysisError::InvalidAlignment(_) => "invalid alignment: "@,
        AnalysisError::Graph(_) => "invalid contract graph: "@,
    }
}

/// The detail that an analysis error carries.
pub open spec fn error_detail(e: AnalysisError) -> Seq<char> {
    match e {
        AnalysisError::InvalidRepository(v) => v@,
        AnalysisError::InvalidSourceRoot(v) => v@,
        AnalysisError::Io(v) => v@,
        AnalysisError::InvalidSemanticPath(v) => v@,
        AnalysisError::InvalidCandidate(v) => v@,
        AnalysisError::InvalidSchema(v) => v@,
        AnalysisError::InvalidJson(v) => v@,
        AnalysisError::InvalidRustProjection(v) => v@,
        AnalysisError::InvalidAlignment(v) => v@,
        AnalysisError::Graph(v) => v@,
    }
}

impl AnalysisError {
    /// The human-readable description of the error.
    pub fn message(&self) -> (r: String)
        ensures
            r@ == error_prefix(*self) + error_detail(*self),
    {
        let (prefix, detail) = match self {
            AnalysisError::InvalidRepository(v) => ("invalid repository identity: ", v),
            AnalysisError::InvalidSourceRoot(v) => ("invalid source root: ", v),
            AnalysisError::Io(v) => ("filesystem analysis failed: ", v),
            AnalysisError::InvalidSemanticPath(v) => ("invalid semantic path: ", v),
            AnalysisError::InvalidCandidate(v) => ("invalid representation candidate: ", v),
            AnalysisError::InvalidSchema(v) => ("invalid JSON Schema evidence: ", v),
            AnalysisError::InvalidJson(v) => ("invalid ", v),
            AnalysisError::InvalidRustProjection(v) => ("invalid Rust projection: ", v),
            AnalysisError::InvalidAlignment(v) => ("invalid alignment: ", v),
            AnalysisError::Graph(v) => ("invalid contract graph: ", v),
        };
        let mut r = owned(prefix);
        push_str(&mut r, detail.as_str());
        r
    }
}

} // verus!
