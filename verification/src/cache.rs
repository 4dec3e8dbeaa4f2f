//! Decisions of the dashboard's on-disk cache: schema, grouping, filters and freshness.
use vstd::prelude::*;

use crate::clients::ClientMatch;
use crate::grouping::GroupBy;
use crate::text::{opt_string_equal, str_equal};

verus! {

/// The schema version that the current cache writer produces.
pub const CACHE_SCHEMA_VERSION: u32 = 17;

/// Cached data older than this (one hour, in milliseconds) is shown but refreshed.
pub const CACHE_STALE_THRESHOLD_MS: u64 = 3600000;

/// How well a quota-value estimate is supported by observations.
#[derive(Debug, Clone, Copy, PartialEq, Eq, Structural)]
pub enum QuotaConfidence {
    High,
    Medium,
    Low,
}

impl Default for QuotaConfidence {
    fn default() -> (r: Self)
        ensures
            r == QuotaConfidence::Low,
    {
        QuotaConfidence::Low
    }
}

/// The label of a confidence level.
pub open spec fn confidence_label(c: QuotaConfidence) -> Seq<char> {
    match c {
        QuotaConfidence::High => "High"@,
        QuotaConfidence::Medium => "Medium"@,
        QuotaConfidence::Low => "Low"@,
    }
}

impl QuotaConfidence {
    /// The label of this confidence level: `High`, `Medium` or `Low`.
    pub fn as_str(self) -> (r: &'static str)
        ensures
            r@ == confidence_label(self),
    {
        match self {
            QuotaConfidence::High => "High",
            QuotaConfidence::Medium => "Medium",
            QuotaConfidence::Low => "Low",
        }
    }
}

/// The confidence a stored label denotes: `High`, `Medium`, and `Low` for anything else.
pub open spec fn spec_parse_quota_confidence(value: Seq<char>) -> QuotaConfidence {
    if value == "High"@ {
        QuotaConfidence::High
    } else if value == "Medium"@ {
        QuotaConfidence::Medium
    } else {
        QuotaConfidence::Low
    }
}

/// Reads a stored confidence label; unknown labels read as `Low`.
pub fn parse_quota_confidence(value: &str) -> (r: QuotaConfidence)
    ensures
        r == spec_parse_quota_confidence(value@),
{
    if str_equal(value, "High") {
        QuotaConfidence::High
    } else if str_equal(value, "Medium") {
        QuotaConfidence::Medium
    } else {
        QuotaConfidence::Low
    }
}

/// Reading back the label of a confidence level gives that level.
pub proof fn lemma_confidence_label_round_trip(c: QuotaConfidence)
    ensures
        spec_parse_quota_confidence(confidence_label(c)) == c,
{
    reveal_strlit("High");
    reveal_strlit("Medium");
    reveal_strlit("Low");
    assert("Medium"@.len() != "High"@.len());
    assert("Low"@.len() != "High"@.len());
    assert("Low"@.len() != "Medium"@.len());
}

/// The outcome of loading the cache: fresh data, data to show while refreshing, or nothing.
#[derive(Debug, Clone, Copy, PartialEq, Eq, Structural)]
pub enum CacheVerdict {
    Fresh,
    Stale,
    Miss,
}

/// What a cache file records about how its data was produced.
#[derive(Debug, Clone)]
pub struct CachedHeader {
    pub schema_version: u32,
    /// The stored grouping, when the stored name parses as one.
    pub group_by: Option<GroupBy>,
    pub since: Option<String>,
    pub until: Option<String>,
    pub year: Option<String>,
    /// Milliseconds since the Unix epoch at which the cache was written.
    pub timestamp: u64,
}

/// Equality of optional strings by their characters.
pub open spec fn opt_str_eq(a: Option<String>, b: Option<String>) -> bool {
    match (a, b) {
        (Some(x), Some(y)) => x@ == y@,
        (None, None) => true,
        _ => false,
    }
}

/// The verdict on a cache with header `h` for the request (`group_by`, `since`, `until`,
/// `year`), given how its clients match, whether its data converts, and the time `now`.
pub open spec fn spec_cache_verdict(
    h: CachedHeader,
    group_by: GroupBy,
    since: Option<String>,
    until: Option<String>,
    year: Option<String>,
    client_match: ClientMatch,
    data_converts: bool,
    now_ms: u64,
) -> CacheVerdict {
    let outdated = h.schema_version < CACHE_SCHEMA_VERSION;
    if h.schema_version > CACHE_SCHEMA_VERSION {
        CacheVerdict::Miss
    } else if outdated && h.group_by is None {
        CacheVerdict::Miss
    } else if h.group_by != Some(group_by) {
        CacheVerdict::Miss
    } else if !opt_str_eq(h.since, since) || !opt_str_eq(h.until, until) || !opt_str_eq(h.year, year) {
        CacheVerdict::Miss
    } else if client_match == ClientMatch::Mismatch || !data_converts {
        CacheVerdict::Miss
    } else if outdated || client_match == ClientMatch::Subset {
        CacheVerdict::Stale
    } else if (if now_ms >= h.timestamp { now_ms - h.timestamp } else { 0 }) > CACHE_STALE_THRESHOLD_MS {
        CacheVerdict::Stale
    } else {
        CacheVerdict::Fresh
    }
}

/// Decides whether a read cache is fresh, stale (shown while refreshing) or a miss.
pub fn cache_verdict(
    header: &CachedHeader,
    group_by: GroupBy,
    since: &Option<String>,
    until: &Option<String>,
    year: &Option<String>,
    client_match: ClientMatch,
    data_converts: bool,
    now_ms: u64,
) -> (r: CacheVerdict)
    ensures
        r == spec_cache_verdict(*header, group_by, *since, *until, *year, client_match, data_converts, now_ms),
{
    if header.schema_version > CACHE_SCHEMA_VERSION {
        return CacheVerdict::Miss;
    }
    let schema_outdated = header.schema_version < CACHE_SCHEMA_VERSION;
    if schema_outdated && header.group_by.is_none() {
        return CacheVerdict::Miss;
    }
    match header.group_by {
        Some(g) => {
            if g != group_by {
                return CacheVerdict::Miss;
            }
        },
        None => return CacheVerdict::Miss,
    }
    if !opt_string_equal(&header.since, since) || !opt_string_equal(&header.until, until)
        || !opt_string_equal(&header.year, year) {
        return CacheVerdict::Miss;
    }
    if client_match == ClientMatch::Mismatch || !data_converts {
        return CacheVerdict::Miss;
    }
    if schema_outdated || client_match == ClientMatch::Subset {
        return CacheVerdict::Stale;
    }
    let cache_age = now_ms.saturating_sub(header.timestamp);
    if cache_age > CACHE_STALE_THRESHOLD_MS {
        CacheVerdict::Stale
    } else {
        CacheVerdict::Fresh
    }
}

/// A fresh verdict needs a current schema, the requested grouping and filters, exactly the
/// enabled clients, data that converts, and a cache written within the last hour.
pub proof fn lemma_fresh_cache_matches_request(
    h: CachedHeader,
    group_by: GroupBy,
    since: Option<String>,
    until: Option<String>,
    year: Option<String>,
    client_match: ClientMatch,
    data_converts: bool,
    now_ms: u64,
)
    requires
        spec_cache_verdict(h, group_by, since, until, year, client_match, data_converts, now_ms)
            == CacheVerdict::Fresh,
    ensures
        h.schema_version == CACHE_SCHEMA_VERSION,
        h.group_by == Some(group_by),
        opt_str_eq(h.since, since) && opt_str_eq(h.until, until) && opt_str_eq(h.year, year),
        client_match == ClientMatch::Exact,
        data_converts,
        now_ms <= h.timestamp || now_ms - h.timestamp <= CACHE_STALE_THRESHOLD_MS,
{
}

/// A cache from a newer schema, for another grouping, or with clients the user did not
/// enable is never used.
pub proof fn lemma_unusable_cache_misses(
    h: CachedHeader,
    group_by: GroupBy,
    since: Option<String>,
    until: Option<String>,
    year: Option<String>,
    client_match: ClientMatch,
    data_converts: bool,
    now_ms: u64,
)
    requires
        h.schema_version > CACHE_SCHEMA_VERSION || h.group_by != Some(group_by)
            || client_match == ClientMatch::Mismatch,
    ensures
        spec_cache_verdict(h, group_by, since, until, year, client_match, data_converts, now_ms)
            == CacheVerdict::Miss,
{
}

/// A cache written for other date filters is never used: when its stored `since`, `until`
/// or `year` filter differs from the requested one (as text, or present on one side only),
/// the verdict is a miss whatever the clients, the data and the cache's age.
pub proof fn lemma_other_filters_miss(
    h: CachedHeader,
    group_by: GroupBy,
    since: Option<String>,
    until: Option<String>,
    year: Option<String>,
    client_match: ClientMatch,
    data_converts: bool,
    now_ms: u64,
)
    requires
        crate::ledger::opt_view(h.since) != crate::ledger::opt_view(since)
            || crate::ledger::opt_view(h.until) != crate::ledger::opt_view(until)
            || crate::ledger::opt_view(h.year) != crate::ledger::opt_view(year),
    ensures
        spec_cache_verdict(h, group_by, since, until, year, client_match, data_converts, now_ms)
            == CacheVerdict::Miss,
{
}

/// The verdict in full: a cache is a miss exactly when its schema is newer than the
/// current one, it was written for another grouping (or, from an older schema, names none),
/// for other date filters, with clients the user did not enable, or its data does not read
/// back; a cache that is used is fresh exactly when it has the current schema, exactly the
/// enabled clients, and was written at most the stale threshold before `now_ms` (or later);
/// otherwise it is stale.
pub proof fn lemma_verdict_characterised(
    h: CachedHeader,
    group_by: GroupBy,
    since: Option<String>,
    until: Option<String>,
    year: Option<String>,
    client_match: ClientMatch,
    data_converts: bool,
    now_ms: u64,
)
    ensures
        ({
            let v = spec_cache_verdict(h, group_by, since, until, year, client_match, data_converts, now_ms);
            let unusable = h.schema_version > CACHE_SCHEMA_VERSION || h.group_by != Some(group_by)
                || crate::ledger::opt_view(h.since) != crate::ledger::opt_view(since)
                || crate::ledger::opt_view(h.until) != crate::ledger::opt_view(until)
                || crate::ledger::opt_view(h.year) != crate::ledger::opt_view(year)
                || client_match == ClientMatch::Mismatch || !data_converts;
            let young = now_ms <= h.timestamp || now_ms - h.timestamp <= CACHE_STALE_THRESHOLD_MS;
            &&& (v == CacheVerdict::Miss) == unusable
            &&& (v == CacheVerdict::Fresh) == (!unusable && h.schema_version == CACHE_SCHEMA_VERSION
                && client_match == ClientMatch::Exact && young)
        }),
{
}

/// A cache whose data does not read back is never used.
pub proof fn lemma_unconvertible_cache_misses(
    h: CachedHeader,
    group_by: GroupBy,
    since: Option<String>,
    until: Option<String>,
    year: Option<String>,
    client_match: ClientMatch,
    now_ms: u64,
)
    ensures
        spec_cache_verdict(h, group_by, since, until, year, client_match, false, now_ms)
            == CacheVerdict::Miss,
{
}

/// A usable cache (fresh or stale) was written for exactly the requested grouping and date
/// filters, with clients that are all enabled, and data that reads back.
pub proof fn lemma_usable_cache_matches_request(
    h: CachedHeader,
    group_by: GroupBy,
    since: Option<String>,
    until: Option<String>,
    year: Option<String>,
    client_match: ClientMatch,
    data_converts: bool,
    now_ms: u64,
)
    requires
        spec_cache_verdict(h, group_by, since, until, year, client_match, data_converts, now_ms)
            != CacheVerdict::Miss,
    ensures
        h.schema_version <= CACHE_SCHEMA_VERSION,
        h.group_by == Some(group_by),
        crate::ledger::opt_view(h.since) == crate::ledger::opt_view(since),
        crate::ledger::opt_view(h.until) == crate::ledger::opt_view(until),
        crate::ledger::opt_view(h.year) == crate::ledger::opt_view(year),
        client_match != ClientMatch::Mismatch,
        data_converts,
{
}

/// What opening the cache file at its current location gave.
#[derive(Debug, Clone, Copy, PartialEq, Eq, Structural)]
pub enum CacheFileState {
    /// The file opened.
    Opened,
    /// There is no file there.
    NotFound,
    /// The file exists but could not be opened.
    Unreadable,
}

/// Where the cached data is read from.
#[derive(Debug, Clone)]
pub enum CacheSource {
    /// The file at the current location.
    Current,
    /// The cache file in each of these older directories, in order, until one reads.
    Legacy(Vec<String>),
    /// Nowhere: the cache misses.
    Nothing,
}

/// The cache is read from the current location when its file opens; when there is no file
/// there, from the legacy directory (if there is one) unless the configuration directory was
/// overridden, in which case old locations are not looked at; and from nowhere when the
/// current file exists but cannot be opened.
pub fn cache_source(
    current: CacheFileState,
    config_dir_overridden: bool,
    legacy_dir: &Option<String>,
) -> (r: CacheSource)
    ensures
        current == CacheFileState::Opened ==> r is Current,
        current == CacheFileState::Unreadable ==> r is Nothing,
        current == CacheFileState::NotFound ==> (r matches CacheSource::Legacy(dirs) && (if config_dir_overridden {
            dirs@.len() == 0
        } else {
            match legacy_dir {
                Some(d) => dirs@.len() == 1 && dirs@[0]@ == d@,
                None => dirs@.len() == 0,
            }
        })),
{
    match current {
        CacheFileState::Opened => CacheSource::Current,
        CacheFileState::Unreadable => CacheSource::Nothing,
        CacheFileState::NotFound => {
            let mut dirs: Vec<String> = Vec::new();
            if !config_dir_overridden {
                match legacy_dir {
                    Some(d) => dirs.push(d.clone()),
                    None => {},
                }
            }
            CacheSource::Legacy(dirs)
        },
    }
}

} // verus!
