//! The error type of the reporting pipeline and the per-function
//! simulation outcome.

use vstd::prelude::*;
use crate::text::has_prefix;

verus! {

/// `std::io::Error`, carried through opaquely.
#[verifier::external_type_specification]
#[verifier::external_body]
pub struct ExIoError(std::io::Error);

/// `serde_json::Error`, carried through opaquely.
#[verifier::external_type_specification]
#[verifier::external_body]
pub struct ExJsonError(serde_json::Error);

/// `toml::de::Error`, carried through opaquely.
#[verifier::external_type_specification]
#[verifier::external_body]
pub struct ExTomlError(toml::de::Error);

/// The error type for report operations.
#[derive(Debug)]
pub enum ReportError {
    /// An I/O operation failed (file read/write, etc.).
    Io(std::io::Error),
    /// Stellar XDR base64 decode / encode failure.
    Xdr(String),
    /// JSON parse or deserialise failure.
    Json(serde_json::Error),
    /// TOML parse failure.
    Toml(toml::de::Error),
    /// A required field was missing from a response or configuration file.
    MissingField(String),
    /// The RPC endpoint returned an error response.
    Rpc(String),
    /// A CLI command could not be spawned or exited with a non-zero status.
    CommandFailed(String),
    /// Generic error message.
    Message(String),
}

/// `Display` of a `std::io::Error`; its text comes from the operating
/// system, so nothing is claimed of it.
#[verifier::external_body]
pub(crate) fn io_error_text(e: &std::io::Error) -> String {
    format!("{}", e)
}

/// `Display` of a `serde_json::Error`; nothing is claimed of the text.
#[verifier::external_body]
pub(crate) fn json_error_text(e: &serde_json::Error) -> String {
    format!("{}", e)
}

/// `Display` of a `toml::de::Error`; nothing is claimed of the text.
#[verifier::external_body]
pub(crate) fn toml_error_text(e: &toml::de::Error) -> String {
    format!("{}", e)
}

impl ReportError {
    /// The human-readable description of the error.
    pub fn to_string(&self) -> (s: String)
        ensures
            match self {
                ReportError::Io(_) => has_prefix(s@, "I/O error: "@),
                ReportError::Xdr(m) => s@ == "XDR decode error: "@ + m@,
                ReportError::Json(_) => has_prefix(s@, "JSON error: "@),
                ReportError::Toml(_) => has_prefix(s@, "TOML error: "@),
                ReportError::MissingField(f) => s@ == "missing required field: "@ + f@,
                ReportError::Rpc(m) => s@ == "RPC error: "@ + m@,
                ReportError::CommandFailed(m) => s@ == "command failed: "@ + m@,
                ReportError::Message(m) => s@ == m@,
            },
    {
        let mut s = String::new();
        match self {
            ReportError::Io(e) => {
                s.append("I/O error: ");
                let t = io_error_text(e);
                s.append(t.as_str());
                assert(s@.subrange(0, "I/O error: "@.len() as int) =~= "I/O error: "@);
            },
            ReportError::Xdr(m) => {
                s.append("XDR decode error: ");
                s.append(m.as_str());
            },
            ReportError::Json(e) => {
                s.append("JSON error: ");
                let t = json_error_text(e);
                s.append(t.as_str());
                assert(s@.subrange(0, "JSON error: "@.len() as int) =~= "JSON error: "@);
            },
            ReportError::Toml(e) => {
                s.append("TOML error: ");
                let t = toml_error_text(e);
                s.append(t.as_str());
                assert(s@.subrange(0, "TOML error: "@.len() as int) =~= "TOML error: "@);
            },
            ReportError::MissingField(f) => {
                s.append("missing required field: ");
                s.append(f.as_str());
            },
            ReportError::Rpc(m) => {
                s.append("RPC error: ");
                s.append(m.as_str());
            },
            ReportError::CommandFailed(m) => {
                s.append("command failed: ");
                s.append(m.as_str());
            },
            ReportError::Message(m) => {
                s.append(m.as_str());
            },
        }
        s
    }
}

impl From<String> for ReportError {
    fn from(msg: String) -> (e: Self) {
        ReportError::Message(msg)
    }
}

impl vstd::std_specs::convert::FromSpecImpl<String> for ReportError {
    open spec fn obeys_from_spec() -> bool {
        true
    }

    open spec fn from_spec(msg: String) -> Self {
        ReportError::Message(msg)
    }
}

impl From<std::io::Error> for ReportError {
    fn from(e: std::io::Error) -> (r: Self) {
        ReportError::Io(e)
    }
}

impl vstd::std_specs::convert::FromSpecImpl<std::io::Error> for ReportError {
    open spec fn obeys_from_spec() -> bool {
        true
    }

    open spec fn from_spec(e: std::io::Error) -> Self {
        ReportError::Io(e)
    }
}

impl From<serde_json::Error> for ReportError {
    fn from(e: serde_json::Error) -> (r: Self) {
        ReportError::Json(e)
    }
}

impl vstd::std_specs::convert::FromSpecImpl<serde_json::Error> for ReportError {
    open spec fn obeys_from_spec() -> bool {
        true
    }

    open spec fn from_spec(e: serde_json::Error) -> Self {
        ReportError::Json(e)
    }
}

impl From<toml::de::Error> for ReportError {
    fn from(e: toml::de::Error) -> (r: Self) {
        ReportError::Toml(e)
    }
}

impl vstd::std_specs::convert::FromSpecImpl<toml::de::Error> for ReportError {
    open spec fn obeys_from_spec() -> bool {
        true
    }

    open spec fn from_spec(e: toml::de::Error) -> Self {
        ReportError::Toml(e)
    }
}

/// Outcome of simulating one exported function.
pub enum SimulationOutcome {
    /// Successfully extracted resource metrics.
    Metrics {
        instructions: u32,
        read_bytes: u32,
        write_bytes: u32,
        /// Memory bytes, when the response carries them.
        memory_bytes: Option<u32>,
        /// Base64-encoded `SorobanTransactionData` from the RPC response.
        transaction_data_xdr: String,
    },
    /// Simulation did not produce metrics (recoverable).
    Failed(SimulationFailure),
}

/// Single reason why a function simulation failed to produce metrics.
#[derive(Debug)]
pub enum SimulationFailure {
    /// `stellar contract invoke --build-only` exited non-zero.
    Invoke(String),
    /// The RPC `simulateTransaction` response contained an `"error"` field.
    Rpc(String),
    /// The RPC response didn't contain a decodable `SorobanTransactionData`.
    MetricsExtraction(String),
}

} // verus!
