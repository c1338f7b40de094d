//! What can go wrong while a request is served.

use vstd::prelude::*;

verus! {

/// The part of a report that could not be read.
#[derive(Clone, Copy, Debug, PartialEq, Eq, Structural)]
pub enum Field {
    /// The commitment identifier of the commitment report.
    CommpCid,
    /// The piece size of the commitment report.
    PieceSize,
    /// The size of the content of the commitment report.
    CarFileSize,
    /// A line of the deal report that carries no value.
    Stdout,
    /// The deal identifier of the deal report.
    DealUuid,
    /// The client wallet of the deal report.
    ClientWallet,
    /// The commitment identifier of the deal report.
    Commp,
    /// The start epoch of the deal report.
    StartEpoch,
    /// The end epoch of the deal report.
    EndEpoch,
    /// The provider collateral of the deal report.
    ProviderCollateral,
}

/// The words in which the failure to read `field` is reported.
pub open spec fn field_message(field: Field) -> Seq<char> {
    match field {
        Field::CommpCid => "Resolve commp cid failure"@,
        Field::PieceSize => "Resolve piece size failure"@,
        Field::CarFileSize => "Resolve car file size failure"@,
        Field::Stdout => "Resolve stdout failure"@,
        Field::DealUuid => "Resolve deal uuid failure"@,
        Field::ClientWallet => "Resolve client wallet failure"@,
        Field::Commp => "Resolve CommP failure"@,
        Field::StartEpoch => "Resolve start epoch failure"@,
        Field::EndEpoch => "Resolve end epoch failure"@,
        Field::ProviderCollateral => "Resolve provider collateral failure"@,
    }
}

impl Field {
    /// The words in which the failure to read this field is reported.
    pub fn message(self) -> (r: &'static str)
        ensures
            r@ == field_message(self),
    {
        match self {
            Field::CommpCid => "Resolve commp cid failure",
            Field::PieceSize => "Resolve piece size failure",
            Field::CarFileSize => "Resolve car file size failure",
            Field::Stdout => "Resolve stdout failure",
            Field::DealUuid => "Resolve deal uuid failure",
            Field::ClientWallet => "Resolve client wallet failure",
            Field::Commp => "Resolve CommP failure",
            Field::StartEpoch => "Resolve start epoch failure",
            Field::EndEpoch => "Resolve end epoch failure",
            Field::ProviderCollateral => "Resolve provider collateral failure",
        }
    }
}

/// Why a request could not be served.
#[derive(Debug)]
pub enum Failure {
    /// The content could not be fetched; the cause is given.
    Fetch(String),
    /// A tool could not be started, or the commitment tool failed; what it
    /// wrote to its diagnostic stream is given.
    Process(String),
    /// A tool failed, and what it wrote to its diagnostic stream is not text.
    Undecodable,
    /// A tool was given up on, because it did not exit in time.
    TimedOut,
    /// A report could not be read; the field that failed is given.
    Parse(Field),
    /// The deal tool failed for good; what it wrote to its diagnostic stream
    /// is given.
    Deal(String),
    /// The provider went on asking for another price until no attempt was left.
    RetriesExhausted,
}

/// A [`Failure`] as plain values.
pub enum FailureView {
    Fetch(Seq<char>),
    Process(Seq<char>),
    Undecodable,
    TimedOut,
    Parse(Field),
    Deal(Seq<char>),
    RetriesExhausted,
}

impl View for Failure {
    type V = FailureView;

    open spec fn view(&self) -> FailureView {
        match self {
            Failure::Fetch(cause) => FailureView::Fetch(cause@),
            Failure::Process(diagnostic) => FailureView::Process(diagnostic@),
            Failure::Undecodable => FailureView::Undecodable,
            Failure::TimedOut => FailureView::TimedOut,
            Failure::Parse(field) => FailureView::Parse(*field),
            Failure::Deal(diagnostic) => FailureView::Deal(diagnostic@),
            Failure::RetriesExhausted => FailureView::RetriesExhausted,
        }
    }
}

/// The words in which `failure` is reported to whoever sent the request: the
/// cause or the diagnostic where there is one, as it stands.
pub open spec fn description_of(failure: FailureView) -> Seq<char> {
    match failure {
        FailureView::Fetch(cause) => cause,
        FailureView::Process(diagnostic) => diagnostic,
        FailureView::Undecodable => "diagnostic stream is not valid UTF-8"@,
        FailureView::TimedOut => "tool did not exit in time"@,
        FailureView::Parse(field) => field_message(field),
        FailureView::Deal(diagnostic) => diagnostic,
        FailureView::RetriesExhausted => "storage price retries exhausted"@,
    }
}

impl Failure {
    /// The words in which this failure is reported to whoever sent the request.
    pub fn description(&self) -> (r: String)
        ensures
            r@ == description_of(self@),
    {
        match self {
            Failure::Fetch(cause) => cause.clone(),
            Failure::Process(diagnostic) => diagnostic.clone(),
            Failure::Undecodable => "diagnostic stream is not valid UTF-8".to_owned(),
            Failure::TimedOut => "tool did not exit in time".to_owned(),
            Failure::Parse(field) => field.message().to_owned(),
            Failure::Deal(diagnostic) => diagnostic.clone(),
            Failure::RetriesExhausted => "storage price retries exhausted".to_owned(),
        }
    }
}

} // verus!
