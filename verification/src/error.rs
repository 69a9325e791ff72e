//! The framework's error type.
//!
//! Concrete error sources (I/O, configuration parsing, serialization,
//! transport, ...) are captured as distinct variants so callers can match on
//! them; each carries the description of its cause.
use vstd::prelude::*;

use crate::text::push_str;

verus! {

/// The single error type surfaced by the framework.
#[derive(Debug, Clone, PartialEq, Eq)]
#[non_exhaustive]
pub enum HpcError {
    /// An underlying I/O failure, annotated with the path that caused it when
    /// one is available.
    Io { path: Option<String>, source: String },
    /// A configuration file could not be parsed.
    ConfigParse(String),
    /// A configuration value could not be serialized back to TOML.
    ConfigSerialize(String),
    /// A configuration file was structurally valid but semantically invalid.
    ConfigInvalid(String),
    /// JSON (de)serialization failure.
    Serde(String),
    /// The embedded key/value store reported an error.
    Store(String),
    /// A requested entity (node, deployment, filesystem...) does not exist.
    NotFound(String),
    /// The requested operation is invalid for the current state.
    InvalidState(String),
    /// A gRPC / transport-layer failure.
    Rpc(String),
    /// Metrics collection failed.
    Metrics(String),
    /// A benchmark could not be executed.
    Bench(String),
    /// A command (deploy / filesystem op) failed to execute.
    Command(String),
    /// A value could not be represented in the target protocol type.
    Conversion(String),
}

/// The human-readable rendering of an error.
pub open spec fn error_text(e: HpcError) -> Seq<char> {
    match e {
        HpcError::Io { path, source } => "i/o error"@ + (match path {
            Some(p) => " at "@ + p@,
            None => Seq::<char>::empty(),
        }) + ": "@ + source@,
        HpcError::ConfigParse(m) => "failed to parse configuration: "@ + m@,
        HpcError::ConfigSerialize(m) => "failed to serialize configuration: "@ + m@,
        HpcError::ConfigInvalid(m) => "invalid configuration: "@ + m@,
        HpcError::Serde(m) => "serialization error: "@ + m@,
        HpcError::Store(m) => "state store error: "@ + m@,
        HpcError::NotFound(m) => "not found: "@ + m@,
        HpcError::InvalidState(m) => "invalid state: "@ + m@,
        HpcError::Rpc(m) => "rpc error: "@ + m@,
        HpcError::Metrics(m) => "metrics collection error: "@ + m@,
        HpcError::Bench(m) => "benchmark error: "@ + m@,
        HpcError::Command(m) => "command execution failed: "@ + m@,
        HpcError::Conversion(m) => "protocol conversion error: "@ + m@,
    }
}

impl HpcError {
    /// Construct an [`HpcError::Io`] without an associated path.
    pub fn io(source: &str) -> (e: HpcError)
        ensures
            e matches HpcError::Io { path, source: s } && path.is_none() && s@ == source@,
    {
        HpcError::Io { path: None, source: source.to_owned() }
    }

    /// Construct an [`HpcError::Io`] annotated with the offending path.
    pub fn io_at(path: &str, source: &str) -> (e: HpcError)
        ensures
            e matches HpcError::Io { path: Some(p), source: s } && p@ == path@ && s@ == source@,
    {
        HpcError::Io { path: Some(path.to_owned()), source: source.to_owned() }
    }

    /// Convenience constructor for [`HpcError::Store`].
    pub fn store(msg: &str) -> (e: HpcError)
        ensures
            e matches HpcError::Store(m) && m@ == msg@,
    {
        HpcError::Store(msg.to_owned())
    }

    /// Convenience constructor for [`HpcError::InvalidState`].
    pub fn invalid_state(msg: &str) -> (e: HpcError)
        ensures
            e matches HpcError::InvalidState(m) && m@ == msg@,
    {
        HpcError::InvalidState(msg.to_owned())
    }

    /// Convenience constructor for [`HpcError::Conversion`].
    pub fn conversion(msg: &str) -> (e: HpcError)
        ensures
            e matches HpcError::Conversion(m) && m@ == msg@,
    {
        HpcError::Conversion(msg.to_owned())
    }

    /// True when the error is plausibly transient and the operation could be
    /// retried: transport and I/O failures.
    pub fn is_retryable(&self) -> (b: bool)
        ensures
            b == (self is Rpc || self is Io),
    {
        match self {
            HpcError::Rpc(_) | HpcError::Io { .. } => true,
            _ => false,
        }
    }

    /// The human-readable rendering of the error.
    pub fn describe(&self) -> (s: String)
        ensures
            s@ == error_text(*self),
    {
        let mut s = String::new();
        match self {
            HpcError::Io { path, source } => {
                push_str(&mut s, "i/o error");
                match path {
                    Some(p) => {
                        push_str(&mut s, " at ");
                        push_str(&mut s, p.as_str());
                    },
                    None => {},
                }
                push_str(&mut s, ": ");
                push_str(&mut s, source.as_str());
            },
            HpcError::ConfigParse(m) => {
                push_str(&mut s, "failed to parse configuration: ");
                push_str(&mut s, m.as_str());
            },
            HpcError::ConfigSerialize(m) => {
                push_str(&mut s, "failed to serialize configuration: ");
                push_str(&mut s, m.as_str());
            },
            HpcError::ConfigInvalid(m) => {
                push_str(&mut s, "invalid configuration: ");
                push_str(&mut s, m.as_str());
            },
            HpcError::Serde(m) => {
                push_str(&mut s, "serialization error: ");
                push_str(&mut s, m.as_str());
            },
            HpcError::Store(m) => {
                push_str(&mut s, "state store error: ");
                push_str(&mut s, m.as_str());
            },
            HpcError::NotFound(m) => {
                push_str(&mut s, "not found: ");
                push_str(&mut s, m.as_str());
            },
            HpcError::InvalidState(m) => {
                push_str(&mut s, "invalid state: ");
                push_str(&mut s, m.as_str());
            },
            HpcError::Rpc(m) => {
                push_str(&mut s, "rpc error: ");
                push_str(&mut s, m.as_str());
            },
            HpcError::Metrics(m) => {
                push_str(&mut s, "metrics collection error: ");
                push_str(&mut s, m.as_str());
            },
            HpcError::Bench(m) => {
                push_str(&mut s, "benchmark error: ");
                push_str(&mut s, m.as_str());
            },
            HpcError::Command(m) => {
                push_str(&mut s, "command execution failed: ");
                push_str(&mut s, m.as_str());
            },
            HpcError::Conversion(m) => {
                push_str(&mut s, "protocol conversion error: ");
                push_str(&mut s, m.as_str());
            },
        }
        proof {
            assert(s@ =~= error_text(*self));
        }
        s
    }
}

} // verus!
