//! What a probing run reports: one evidence label per target, and the
//! settings the run was made with.

use crate::addr::IpAddress;
use vstd::prelude::*;
use vstd::string::*;

verus! {

/// The classification of one probed target.
#[derive(Clone, Copy, Debug, PartialEq, Eq, Hash, Structural)]
pub enum Evidence {
    Okay,
    Blocked,
    ConnectError,
    Error,
}

impl Evidence {
    /// The label under which the evidence is exported.
    pub open spec fn label_spec(self) -> Seq<char> {
        match self {
            Evidence::Okay => "ok"@,
            Evidence::Blocked => "blocked"@,
            Evidence::ConnectError => "connect_error"@,
            Evidence::Error => "unknown_error"@,
        }
    }

    /// The label under which the evidence is exported.
    pub fn label(&self) -> (r: &'static str)
        ensures
            r@ == self.label_spec(),
    {
        match self {
            Evidence::Okay => "ok",
            Evidence::Blocked => "blocked",
            Evidence::ConnectError => "connect_error",
            Evidence::Error => "unknown_error",
        }
    }

    /// The label as an owned string.
    pub fn to_string(&self) -> (r: String)
        ensures
            r@ == self.label_spec(),
    {
        String::from_str(self.label())
    }
}

/// The settings of a probing run.
#[derive(Clone, Debug)]
pub struct ReporterConfig {
    pub http: bool,
    pub tx_junk: bool,
    pub ip: IpAddress,
    pub path: String,
    pub retry_count: usize,
    pub timeout_secs: u64,
    pub probe_count: usize,
}

/// One target of a run with what was found for it.
#[derive(Clone, Debug)]
pub struct ReportRow {
    pub target: String,
    pub evidence: Evidence,
}

/// A finished run as it is handed to a collection endpoint.
#[derive(Clone, Debug)]
pub struct AgencyReport {
    pub version: String,
    pub config: ReporterConfig,
    pub data: Vec<ReportRow>,
}

} // verus!
