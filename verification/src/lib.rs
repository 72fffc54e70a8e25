//! Periodic flight-price watcher: planning, scheduling, normalization and
//! storage of priced flight offers.
//!
//! The crate expands a set of configured trips into concrete search requests,
//! computes a budget-respecting daily schedule, parses the price API's
//! string-encoded money and timestamp fields into typed values, normalizes
//! raw search responses into [`offer::Offer`] records, and persists them
//! transactionally through SQLite.
#![allow(unused_imports)]

use vstd::prelude::*;

pub mod clock;
pub mod digits;
pub mod money;
pub mod offer;
pub mod request;
pub mod response;
pub mod schedule;
pub mod session;
pub mod storage;

verus! {

/// Everything that can go wrong across the pipeline.  The parse variants
/// carry the offending input so that a skipped item stays observable.
#[derive(Debug)]
pub enum Error {
    LoadingConfig,
    ReadingConfig,
    ParsingConfig,
    ScheduleInfeasible,
    EstablishingDbConnection,
    CreatingTransaction(String),
    CommitingTransaction(String),
    PreparingDbQuery(String),
    ExecutingDbQuery(String),
    NoIdAssigned,
    EncodingJson,
    SendingRequest,
    ReadingResponse,
    ResponseNotOk(String),
    DecodingJson(String),
    NoPricing,
    NoFlights,
    ParsingMoney(String),
    ParsingTime(String),
    FormattingTime,
}

/// Mathematical image of an [`Error`]: string payloads become character
/// sequences, so that contracts can compare errors by value.
pub enum ErrorView {
    LoadingConfig,
    ReadingConfig,
    ParsingConfig,
    ScheduleInfeasible,
    EstablishingDbConnection,
    CreatingTransaction(Seq<char>),
    CommitingTransaction(Seq<char>),
    PreparingDbQuery(Seq<char>),
    ExecutingDbQuery(Seq<char>),
    NoIdAssigned,
    EncodingJson,
    SendingRequest,
    ReadingResponse,
    ResponseNotOk(Seq<char>),
    DecodingJson(Seq<char>),
    NoPricing,
    NoFlights,
    ParsingMoney(Seq<char>),
    ParsingTime(Seq<char>),
    FormattingTime,
}

impl View for Error {
    type V = ErrorView;

    open spec fn view(&self) -> ErrorView {
        match self {
            Error::LoadingConfig => ErrorView::LoadingConfig,
            Error::ReadingConfig => ErrorView::ReadingConfig,
            Error::ParsingConfig => ErrorView::ParsingConfig,
            Error::ScheduleInfeasible => ErrorView::ScheduleInfeasible,
            Error::EstablishingDbConnection => ErrorView::EstablishingDbConnection,
            Error::CreatingTransaction(s) => ErrorView::CreatingTransaction(s@),
            Error::CommitingTransaction(s) => ErrorView::CommitingTransaction(s@),
            Error::PreparingDbQuery(s) => ErrorView::PreparingDbQuery(s@),
            Error::ExecutingDbQuery(s) => ErrorView::ExecutingDbQuery(s@),
            Error::NoIdAssigned => ErrorView::NoIdAssigned,
            Error::EncodingJson => ErrorView::EncodingJson,
            Error::SendingRequest => ErrorView::SendingRequest,
            Error::ReadingResponse => ErrorView::ReadingResponse,
            Error::ResponseNotOk(s) => ErrorView::ResponseNotOk(s@),
            Error::DecodingJson(s) => ErrorView::DecodingJson(s@),
            Error::NoPricing => ErrorView::NoPricing,
            Error::NoFlights => ErrorView::NoFlights,
            Error::ParsingMoney(s) => ErrorView::ParsingMoney(s@),
            Error::ParsingTime(s) => ErrorView::ParsingTime(s@),
            Error::FormattingTime => ErrorView::FormattingTime,
        }
    }
}

impl DeepView for Error {
    type V = ErrorView;

    open spec fn deep_view(&self) -> ErrorView {
        self.view()
    }
}

} // verus!
