use vstd::prelude::*;

verus! {

/// Normalized representation of one store value, covering every value kind the
/// store reports, plus `Absent` for a key that does not exist at fetch time.
#[derive(Debug, PartialEq)]
pub enum ValueModel {
    /// A single scalar string value.
    Scalar(String),
    /// An ordered list of strings.
    List(Vec<String>),
    /// An unordered collection of member strings.
    Members(Vec<String>),
    /// Members paired with their scores, in rank order.
    RankedSet(Vec<(String, String)>),
    /// Field-to-value pairs; insertion order carries no meaning.
    FieldMap(Vec<(String, String)>),
    /// The key does not exist.
    Absent,
}

/// The value kind the store reports for a key, each answering to one
/// `ValueModel` variant.
#[derive(Debug, Clone, Copy, PartialEq, Eq, Structural)]
pub enum StoreKind {
    /// The store calls this kind "string".
    Scalar,
    /// The store calls this kind "list".
    List,
    /// The store calls this kind "set".
    Members,
    /// The store calls this kind "zset".
    RankedSet,
    /// The store calls this kind "hash".
    FieldMap,
    /// Any other report, in particular "none": the key does not exist (or its
    /// kind has no place in the model), so the fetch reports the value absent.
    Absent,
}

/// Which kind a store type report names.
pub open spec fn kind_of(report: Seq<char>) -> StoreKind {
    if report == "string"@ {
        StoreKind::Scalar
    } else if report == "list"@ {
        StoreKind::List
    } else if report == "set"@ {
        StoreKind::Members
    } else if report == "zset"@ {
        StoreKind::RankedSet
    } else if report == "hash"@ {
        StoreKind::FieldMap
    } else {
        StoreKind::Absent
    }
}

/// Classify a store type report into the one kind it names, so a fetched
/// payload lands in exactly one `ValueModel` variant.
pub fn classify_kind(report: &String) -> (k: StoreKind)
    ensures
        k == kind_of(report@),
{
    if *report == String::from_str("string") {
        StoreKind::Scalar
    } else if *report == String::from_str("list") {
        StoreKind::List
    } else if *report == String::from_str("set") {
        StoreKind::Members
    } else if *report == String::from_str("zset") {
        StoreKind::RankedSet
    } else if *report == String::from_str("hash") {
        StoreKind::FieldMap
    } else {
        StoreKind::Absent
    }
}

/// A request for work, submitted by any caller and consumed exactly once by the
/// worker.
#[derive(Debug, PartialEq)]
pub enum Command {
    /// Re-enumerate the keys of the selected database.
    RefreshKeys,
    /// Open (or replace) the store connection.
    Connect { address: String, port: u16, database: i64 },
    /// Fetch the value stored under `key`.
    SelectValue { key: String },
}

/// One state delta published by the worker; consumed exactly once by the
/// result sink.
#[derive(Debug, PartialEq)]
pub enum Outcome {
    /// The key enumeration succeeded (an empty list is a legitimate result).
    KeysUpdated(Vec<String>),
    /// A `Connect` command succeeded.
    ConnectionEstablished,
    /// A `Connect` command failed; the worker holds no connection.
    ConnectionFailed,
    /// A `SelectValue` command completed (`Absent` when the key vanished).
    ValueSelected(ValueModel),
    /// Key enumeration hit an I/O error; distinct from a legitimate empty list.
    RefreshFailed,
    /// A value fetch hit an I/O error; distinct from `ValueSelected(Absent)`.
    ValueFetchFailed,
}

} // verus!
