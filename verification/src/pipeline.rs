//! The per-query pipeline decisions: whether a raw input line proceeds at
//! all, which addresses are visited for it, and how the enrichment outcome
//! is folded into the final record. The browser and HTTP work itself is
//! done by the caller, which only performs what these decisions say.

use vstd::prelude::*;
use crate::sanitize::{sanitize_input, spec_sanitize};
use crate::record::{Record, FieldMap, FieldEntries};
use crate::aggregate::{aggregate, spec_aggregate};

verus! {

/// The fault kinds of the pipeline. A field that fails to resolve is not
/// among them: that is a normal absence, never surfaced as a failure.
#[derive(Clone, Copy, PartialEq, Eq, Structural, Debug)]
pub enum PipelineError {
    /// The sanitizer rejected the identifier; recoverable, re-prompt or
    /// skip.
    InvalidIdentifier,
    /// The browser session could not be created or navigated; abandons the
    /// current query, with no retry.
    SessionFault,
    /// The geolocation call or its decoding failed; the query proceeds
    /// without enrichment.
    EnrichmentFault,
    /// Writing the output failed; already-computed results stay in memory.
    PersistenceFault,
}

/// Only a session fault abandons the current query's processing; no fault
/// aborts the remaining identifiers of a batch.
pub fn aborts_query(e: PipelineError) -> (r: bool)
    ensures
        r == (e is SessionFault),
{
    match e {
        PipelineError::SessionFault => true,
        _ => false,
    }
}

/// Configuration handed to the pipeline at construction time.
pub struct Config {
    /// Browser profile storage location.
    pub profile_path: String,
    /// Base URL of the reputation-lookup site.
    pub target_base_url: String,
    /// Base URL of the geolocation service.
    pub api_base_url: String,
    /// Seconds to wait after navigation before extraction begins.
    pub settle_delay: u64,
}

pub open spec fn spec_lookup_url(base: Seq<char>, id: Seq<char>) -> Seq<char> {
    base + "/reputation_center/lookup?search="@ + id
}

pub open spec fn spec_api_url(base: Seq<char>, id: Seq<char>) -> Seq<char> {
    base + "/"@ + id
}

/// The reputation-lookup page address for one identifier.
pub fn lookup_url(cfg: &Config, id: &str) -> (u: String)
    ensures
        u@ == spec_lookup_url(cfg.target_base_url@, id@),
{
    let mut u = cfg.target_base_url.clone();
    u.append("/reputation_center/lookup?search=");
    u.append(id);
    u
}

/// The geolocation query address for one identifier.
pub fn api_url(cfg: &Config, id: &str) -> (u: String)
    ensures
        u@ == spec_api_url(cfg.api_base_url@, id@),
{
    let mut u = cfg.api_base_url.clone();
    u.append("/");
    u.append(id);
    u
}

/// What to do with one raw input line.
pub enum QueryPlan {
    /// The sanitizer rejected the line; nothing is visited for it.
    Rejected,
    /// Proceed with the sanitized identifier and these two addresses.
    Proceed { identifier: String, lookup: String, api: String },
}

/// Decides the fate of one raw input line. The browser session and the
/// geolocation service are reached only through the addresses of a
/// `Proceed` plan, so a rejected line reaches neither.
pub fn plan_query(cfg: &Config, raw: &str) -> (p: QueryPlan)
    ensures
        match p {
            QueryPlan::Rejected => spec_sanitize(raw@) is None,
            QueryPlan::Proceed { identifier, lookup, api } => {
                &&& spec_sanitize(raw@) == Some(identifier@)
                &&& lookup@ == spec_lookup_url(cfg.target_base_url@, identifier@)
                &&& api@ == spec_api_url(cfg.api_base_url@, identifier@)
            },
        },
{
    match sanitize_input(raw) {
        None => QueryPlan::Rejected,
        Some(id) => {
            let lookup = lookup_url(cfg, id.as_str());
            let api = api_url(cfg, id.as_str());
            QueryPlan::Proceed { identifier: id, lookup, api }
        },
    }
}

/// Completes one query from its scrape record and the outcome of the
/// enrichment call. A fault degrades to "no enrichment group": the record
/// is still produced, and the fault never abandons the query.
pub fn finish_query(scrape: Record, enrichment: Result<FieldMap, PipelineError>) -> (r: Record)
    requires
        scrape.wf(),
        enrichment matches Ok(m) ==> m.wf(),
    ensures
        r.wf(),
        match enrichment {
            Ok(m) => r@ == spec_aggregate(scrape@, Some(m@)),
            Err(_) => r@ == scrape@,
        },
{
    match enrichment {
        Ok(m) => aggregate(scrape, Some(m)),
        Err(_) => aggregate(scrape, None),
    }
}

} // verus!
