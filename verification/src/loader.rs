//! The usage loader's settings and the list of sources a scan covers.
use vstd::prelude::*;

use std::path::PathBuf;

use crate::clients::strings_view;

verus! {

/// `std::path::PathBuf`, carried through the loader's settings without being looked into.
#[verifier::external_type_specification]
#[verifier::external_body]
pub struct ExPathBuf(PathBuf);

/// Where and over which dates usage is loaded from.
#[derive(Debug, Clone)]
pub struct DataLoader {
    pub _sessions_path: Option<PathBuf>,
    pub since: Option<String>,
    pub until: Option<String>,
    pub year: Option<String>,
}

impl DataLoader {
    /// A loader over all dates.
    pub fn new(sessions_path: Option<PathBuf>) -> (r: Self)
        ensures
            r._sessions_path == sessions_path,
            r.since is None,
            r.until is None,
            r.year is None,
    {
        DataLoader { _sessions_path: sessions_path, since: None, until: None, year: None }
    }

    /// A loader restricted by the given date filters.
    pub fn with_filters(
        sessions_path: Option<PathBuf>,
        since: Option<String>,
        until: Option<String>,
        year: Option<String>,
    ) -> (r: Self)
        ensures
            r._sessions_path == sessions_path,
            r.since == since,
            r.until == until,
            r.year == year,
    {
        DataLoader { _sessions_path: sessions_path, since, until, year }
    }

    /// The source names a scan covers: the enabled clients in order, then the synthetic
    /// source when it is included.
    pub fn scan_sources(enabled_clients: &Vec<String>, include_synthetic: bool) -> (r: Vec<String>)
        ensures
            strings_view(r@) == if include_synthetic {
                strings_view(enabled_clients@).push("synthetic"@)
            } else {
                strings_view(enabled_clients@)
            },
    {
        let mut out: Vec<String> = Vec::new();
        let n = enabled_clients.len();
        let mut i: usize = 0;
        while i < n
            invariant
                n == enabled_clients@.len(),
                i <= n,
                strings_view(out@) =~= strings_view(enabled_clients@.take(i as int)),
            decreases n - i,
        {
            let ghost before = out@;
            let c = enabled_clients[i].clone();
            assert(c@ == enabled_clients@[i as int]@);
            out.push(c);
            assert(out@ == before.push(c));
            assert(enabled_clients@.take(i + 1) =~= enabled_clients@.take(i as int).push(
                enabled_clients@[i as int],
            ));
            assert(strings_view(before).len() == i);
            assert forall|j: int| 0 <= j <= i implies #[trigger] strings_view(out@)[j] == strings_view(enabled_clients@.take(i + 1))[j] by {
                if j < i {
                    assert(strings_view(before)[j] == strings_view(enabled_clients@.take(i as int))[j]);
                }
            }
            assert(strings_view(out@) =~= strings_view(enabled_clients@.take(i + 1)));
            i = i + 1;
        }
        assert(enabled_clients@.take(n as int) =~= enabled_clients@);
        if include_synthetic {
            let ghost before = out@;
            let syn = "synthetic".to_owned();
            out.push(syn);
            assert(strings_view(out@) =~= strings_view(before).push("synthetic"@));
        }
        out
    }
}

} // verus!
