//! Running request counts of a proxy session.

use vstd::prelude::*;

verus! {

/// Requests seen and requests rewritten so far (each count wraps around
/// like an atomic counter).
#[derive(Debug)]
pub struct Stats {
    pub requests: u64,
    pub compressed_requests: u64,
}

/// `n + 1`, wrapping to zero past `u64::MAX`.
pub open spec fn next_count(n: u64) -> u64 {
    if n == u64::MAX {
        0
    } else {
        (n + 1) as u64
    }
}

impl Default for Stats {
    fn default() -> (r: Stats)
        ensures
            r.requests == 0,
            r.compressed_requests == 0,
    {
        Stats { requests: 0, compressed_requests: 0 }
    }
}

impl Stats {
    /// Counts one request, and one rewritten request when `compressed`.
    pub fn record(&mut self, compressed: bool)
        ensures
            final(self).requests == next_count(old(self).requests),
            final(self).compressed_requests == if compressed {
                next_count(old(self).compressed_requests)
            } else {
                old(self).compressed_requests
            },
    {
        self.requests = self.requests.wrapping_add(1);
        if compressed {
            self.compressed_requests = self.compressed_requests.wrapping_add(1);
        }
    }
}

/// Every rewritten request is a request: the rewritten count never passes
/// the request count while the request count does not wrap.
pub proof fn law_compressed_within_requests(requests: u64, compressed_requests: u64, c: bool)
    requires
        compressed_requests <= requests < u64::MAX,
    ensures
        (if c {
            next_count(compressed_requests)
        } else {
            compressed_requests
        }) <= next_count(requests),
{
}

} // verus!
