//! Error taxonomy and raw-input limits.

use vstd::prelude::*;
use vstd::string::StringSliceAdditionalSpecFns;
use crate::text::{contains_pat, str_contains};

verus! {

/// The error type of the library.
#[derive(Debug)]
pub enum AnalyticsCoreError {
    /// The input SQL text is malformed.
    SqlParse(String),
    /// The manifest fails a structural or semantic check.
    MdlValidation(String),
    /// A size, length or format limit on raw input is exceeded.
    InputValidation(String),
    /// An access rule or access check fails for the given session properties.
    PermissionDenied(String),
    /// A resource bound was hit during analysis or execution.
    ResourceExhausted(String),
    /// An invariant was violated; should not occur in correct operation.
    Internal(String),
    /// An error raised by the downstream execution engine, passed through.
    Engine(String),
}

impl AnalyticsCoreError {
    /// Which variant this error is, for contracts and callers.
    pub open spec fn is_input_validation(&self) -> bool {
        matches!(self, AnalyticsCoreError::InputValidation(_))
    }

    /// Which variant this error is, for contracts and callers.
    pub open spec fn is_mdl_validation(&self) -> bool {
        matches!(self, AnalyticsCoreError::MdlValidation(_))
    }

    /// Which variant this error is, for contracts and callers.
    pub open spec fn is_sql_parse(&self) -> bool {
        matches!(self, AnalyticsCoreError::SqlParse(_))
    }

    /// The text the error carries (ghost).
    pub open spec fn spec_message(&self) -> Seq<char> {
        match self {
            AnalyticsCoreError::SqlParse(m) => m@,
            AnalyticsCoreError::MdlValidation(m) => m@,
            AnalyticsCoreError::InputValidation(m) => m@,
            AnalyticsCoreError::PermissionDenied(m) => m@,
            AnalyticsCoreError::ResourceExhausted(m) => m@,
            AnalyticsCoreError::Internal(m) => m@,
            AnalyticsCoreError::Engine(m) => m@,
        }
    }

    /// The text carried by the error.
    pub fn message(&self) -> (r: &String)
        ensures
            r@ == self.spec_message(),
    {
        match self {
            AnalyticsCoreError::SqlParse(m) => m,
            AnalyticsCoreError::MdlValidation(m) => m,
            AnalyticsCoreError::InputValidation(m) => m,
            AnalyticsCoreError::PermissionDenied(m) => m,
            AnalyticsCoreError::ResourceExhausted(m) => m,
            AnalyticsCoreError::Internal(m) => m,
            AnalyticsCoreError::Engine(m) => m,
        }
    }
}

/// The result type of the library's operations.
pub type AnalyticsCoreResult<T> = Result<T, AnalyticsCoreError>;

/// The error type of the plan-rewrite rules.
#[derive(Debug, Clone)]
pub enum AnalyticsError {
    /// An access check failed during rewriting.
    PermissionDenied(String),
}

/// Maximum SQL query length in bytes.
pub const MAX_SQL_LENGTH: usize = 1048576;

/// Maximum nested-subquery depth; enforced by the downstream engine, defined
/// and surfaced here.
pub const MAX_SQL_DEPTH: usize = 100;

/// Maximum manifest text size in bytes.
pub const MAX_MDL_SIZE: usize = 10485760;

/// Check an incoming SQL text against the raw-input limits: it must be
/// non-empty and at most `MAX_SQL_LENGTH` bytes.
pub fn validate_sql(sql: &str) -> (r: Result<(), AnalyticsCoreError>)
    requires
        sql.spec_bytes().len() <= usize::MAX,
    ensures
        r.is_ok() <==> 0 < sql.spec_bytes().len() <= MAX_SQL_LENGTH,
        r is Err ==> (r->Err_0).is_input_validation(),
{
    let n: usize = sql.len();
    if n == 0 {
        return Err(
            AnalyticsCoreError::InputValidation(
                String::from_str("SQL query cannot be empty"),
            ),
        );
    }
    if n > MAX_SQL_LENGTH {
        return Err(
            AnalyticsCoreError::InputValidation(
                String::from_str("SQL query exceeds the maximum length"),
            ),
        );
    }
    Ok(())
}

/// The sequence of the patterns held suspicious that occur in the text, in
/// a fixed order.
pub open spec fn spec_suspicious(sql: Seq<char>) -> Seq<Seq<char>> {
    (if contains_pat(sql, "; DROP"@) {
        seq!["; DROP"@]
    } else {
        Seq::empty()
    }) + (if contains_pat(sql, "; DELETE"@) {
        seq!["; DELETE"@]
    } else {
        Seq::empty()
    }) + (if contains_pat(sql, "; UPDATE"@) {
        seq!["; UPDATE"@]
    } else {
        Seq::empty()
    }) + (if contains_pat(sql, "--"@) {
        seq!["--"@]
    } else {
        Seq::empty()
    })
}

/// The substrings that are reported as suspicious. They never block
/// execution; the caller may log them.
pub fn suspicious_sql_patterns(sql: &str) -> (r: Vec<String>)
    ensures
        crate::plan::names_view(r@) == spec_suspicious(sql@),
{
    let mut found: Vec<String> = Vec::new();
    if str_contains(sql, "; DROP") {
        found.push(String::from_str("; DROP"));
    }
    if str_contains(sql, "; DELETE") {
        found.push(String::from_str("; DELETE"));
    }
    if str_contains(sql, "; UPDATE") {
        found.push(String::from_str("; UPDATE"));
    }
    if str_contains(sql, "--") {
        found.push(String::from_str("--"));
    }
    proof {
        assert(crate::plan::names_view(found@) =~= spec_suspicious(sql@));
    }
    found
}

/// Check a manifest text against the raw-input size limit in bytes.
pub fn validate_mdl_size(mdl_json: &str) -> (r: Result<(), AnalyticsCoreError>)
    requires
        mdl_json.spec_bytes().len() <= usize::MAX,
    ensures
        r.is_ok() <==> mdl_json.spec_bytes().len() <= MAX_MDL_SIZE,
        r is Err ==> (r->Err_0).is_input_validation(),
{
    let n: usize = mdl_json.len();
    if n > MAX_MDL_SIZE {
        return Err(
            AnalyticsCoreError::InputValidation(
                String::from_str("manifest text exceeds the maximum size"),
            ),
        );
    }
    Ok(())
}

} // verus!
