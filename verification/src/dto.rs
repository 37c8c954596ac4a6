//! The request and response messages of the dictionary protocol.
use vstd::prelude::*;

verus! {

/// A request sent by a client to the dictionary server.
#[derive(Debug, Clone, PartialEq, Eq)]
pub enum Request {
    Get { key: String },
    Put { key: String, val: String },
    Stats,
}

/// A response sent back by the dictionary server.
///
/// Whenever `ok` is `false`, `err` carries a human-readable description.
#[derive(Debug, Clone, PartialEq, Eq)]
pub enum Response {
    Get { ok: bool, val: Option<String>, err: Option<String> },
    Put { ok: bool, err: Option<String> },
    Stats { ok: bool, total: Option<u64>, good: Option<u64>, bad: Option<u64> },
    Empty,
}

/// The mathematical value of a `Request`: the same shape over `Seq<char>`.
pub enum ReqModel {
    Get { key: Seq<char> },
    Put { key: Seq<char>, val: Seq<char> },
    Stats,
}

/// The mathematical value of a `Response`.
pub enum ResModel {
    Get { ok: bool, val: Option<Seq<char>>, err: Option<Seq<char>> },
    Put { ok: bool, err: Option<Seq<char>> },
    Stats { ok: bool, total: Option<u64>, good: Option<u64>, bad: Option<u64> },
    Empty,
}

/// The view of an optional string: the optional sequence of its characters.
pub open spec fn opt_view(o: Option<String>) -> Option<Seq<char>> {
    match o {
        Option::None => Option::None,
        Option::Some(s) => Option::Some(s@),
    }
}

impl View for Request {
    type V = ReqModel;

    open spec fn view(&self) -> ReqModel {
        match self {
            Request::Get { key } => ReqModel::Get { key: key@ },
            Request::Put { key, val } => ReqModel::Put { key: key@, val: val@ },
            Request::Stats => ReqModel::Stats,
        }
    }
}

impl View for Response {
    type V = ResModel;

    open spec fn view(&self) -> ResModel {
        match self {
            Response::Get { ok, val, err } => ResModel::Get {
                ok: *ok,
                val: opt_view(*val),
                err: opt_view(*err),
            },
            Response::Put { ok, err } => ResModel::Put { ok: *ok, err: opt_view(*err) },
            Response::Stats { ok, total, good, bad } => ResModel::Stats {
                ok: *ok,
                total: *total,
                good: *good,
                bad: *bad,
            },
            Response::Empty => ResModel::Empty,
        }
    }
}

impl Default for Response {
    /// The fallback response for requests the server does not handle.
    fn default() -> (r: Response)
        ensures
            r@ == ResModel::Empty,
    {
        Response::Empty
    }
}

} // verus!
