//! A bounded, in-memory record of handled requests.
use vstd::prelude::*;
use crate::text::{is_prefix_of, starts_with};

verus! {

/// One handled request.
#[derive(Debug, Clone)]
pub struct RequestLog {
    pub request_id: String,
    pub method: String,
    pub path: String,
    pub client_ip: String,
    pub status_code: u16,
    pub duration_ms: u128,
    pub user_id: Option<String>,
    pub timestamp: String,
}

/// Relies on chrono::Utc::now, rendered by DateTime::to_rfc3339: the current
/// UTC time as RFC 3339 text. Nothing is promised of the value.
#[verifier::external_body]
fn utc_timestamp() -> String {
    chrono::Utc::now().to_rfc3339()
}

/// The last `max` entries of `s` (all of them when there are fewer).
pub open spec fn keep_last<A>(s: Seq<A>, max: nat) -> Seq<A> {
    if s.len() <= max {
        s
    } else {
        s.subrange(s.len() - max, s.len() as int)
    }
}

/// `log` carries these request details, whatever its timestamp.
pub open spec fn describes(
    log: RequestLog,
    request_id: Seq<char>,
    method: Seq<char>,
    path: Seq<char>,
    client_ip: Seq<char>,
    status_code: u16,
    duration_ms: u128,
    user_id: Option<String>,
) -> bool {
    &&& log.request_id@ == request_id
    &&& log.method@ == method
    &&& log.path@ == path
    &&& log.client_ip@ == client_ip
    &&& log.status_code == status_code
    &&& log.duration_ms == duration_ms
    &&& log.user_id == user_id
}

/// The status signals a failure.
pub open spec fn is_error_status(status: u16) -> bool {
    status >= 400
}

/// Number of failed requests among `logs`.
pub open spec fn error_total(logs: Seq<RequestLog>) -> nat
    decreases logs.len(),
{
    if logs.len() == 0 {
        0
    } else {
        error_total(logs.drop_last()) + if is_error_status(logs.last().status_code) { 1nat } else { 0nat }
    }
}

/// Sum of the durations of `logs`.
pub open spec fn duration_total(logs: Seq<RequestLog>) -> nat
    decreases logs.len(),
{
    if logs.len() == 0 {
        0
    } else {
        duration_total(logs.drop_last()) + logs.last().duration_ms as nat
    }
}

/// Request log holding at most `max_logs` entries, oldest dropped first.
pub struct RequestLogger {
    logs: Vec<RequestLog>,
    max_logs: usize,
}

impl RequestLogger {
    /// The recorded entries, oldest first.
    pub closed spec fn entries(&self) -> Seq<RequestLog> {
        self.logs@
    }

    /// The bound on the number of entries.
    pub closed spec fn capacity(&self) -> nat {
        self.max_logs as nat
    }

    /// An empty log that keeps at most `max_logs` entries.
    pub fn new(max_logs: usize) -> (r: Self)
        ensures
            r.entries().len() == 0,
            r.capacity() == max_logs,
    {
        RequestLogger { logs: Vec::new(), max_logs }
    }

    /// Append `log`, then drop the oldest entries beyond the bound.
    pub fn record(&mut self, log: RequestLog)
        ensures
            final(self).entries() == keep_last(old(self).entries().push(log), old(self).capacity()),
            final(self).capacity() == old(self).capacity(),
    {
        self.logs.push(log);
        if self.logs.len() > self.max_logs {
            let excess = self.logs.len() - self.max_logs;
            let kept = self.logs.split_off(excess);
            self.logs = kept;
        }
    }

    /// Record one handled request, stamped with the current UTC time.
    pub fn log_request(
        &mut self,
        request_id: &str,
        method: &str,
        path: &str,
        client_ip: &str,
        status_code: u16,
        duration_ms: u128,
        user_id: Option<String>,
    )
        ensures
            final(self).capacity() == old(self).capacity(),
            exists|log: RequestLog|
                #[trigger] describes(log, request_id@, method@, path@, client_ip@, status_code, duration_ms, user_id)
                    && final(self).entries() == keep_last(old(self).entries().push(log), old(self).capacity()),
    {
        let log = RequestLog {
            request_id: String::from_str(request_id),
            method: String::from_str(method),
            path: String::from_str(path),
            client_ip: String::from_str(client_ip),
            status_code,
            duration_ms,
            user_id,
            timestamp: utc_timestamp(),
        };
        let ghost entry = log;
        assert(describes(entry, request_id@, method@, path@, client_ip@, status_code, duration_ms, entry.user_id));
        self.record(log);
    }

    /// All entries, oldest first.
    pub fn get_logs(&self) -> (r: &[RequestLog])
        ensures
            r@ == self.entries(),
    {
        self.logs.as_slice()
    }

    /// Entries whose path begins with `path`, oldest first.
    pub fn get_logs_by_path(&self, path: &str) -> (r: Vec<&RequestLog>)
        ensures
            r@.map_values(|x: &RequestLog| *x) == self.entries().filter(|l: RequestLog| is_prefix_of(path@, l.path@)),
    {
        let ghost keep = |l: RequestLog| is_prefix_of(path@, l.path@);
        let mut r: Vec<&RequestLog> = Vec::new();
        let mut i: usize = 0;
        while i < self.logs.len()
            invariant
                i <= self.entries().len(),
                keep == (|l: RequestLog| is_prefix_of(path@, l.path@)),
                r@.map_values(|x: &RequestLog| *x) == self.entries().take(i as int).filter(keep),
            decreases self.logs.len() - i,
        {
            let ghost before = r@;
            assert(self.entries().take(i as int + 1).drop_last() =~= self.entries().take(i as int));
            let hit = starts_with(self.logs[i].path.as_str(), path);
            if hit {
                r.push(&self.logs[i]);
                assert(r@.map_values(|x: &RequestLog| *x) =~= before.map_values(|x: &RequestLog| *x).push(self.entries()[i as int]));
            }
            assert(r@.map_values(|x: &RequestLog| *x) == self.entries().take(i as int + 1).filter(keep)) by {
                reveal(Seq::filter);
                assert(self.entries().take(i as int + 1).last() == self.entries()[i as int]);
                assert(keep(self.entries()[i as int]) == hit);
            }
            i += 1;
        }
        assert(self.entries().take(self.entries().len() as int) =~= self.entries());
        r
    }

    /// Entries with status code `status`, oldest first.
    pub fn get_logs_by_status(&self, status: u16) -> (r: Vec<&RequestLog>)
        ensures
            r@.map_values(|x: &RequestLog| *x) == self.entries().filter(|l: RequestLog| l.status_code == status),
    {
        let ghost keep = |l: RequestLog| l.status_code == status;
        let mut r: Vec<&RequestLog> = Vec::new();
        let mut i: usize = 0;
        while i < self.logs.len()
            invariant
                i <= self.entries().len(),
                keep == (|l: RequestLog| l.status_code == status),
                r@.map_values(|x: &RequestLog| *x) == self.entries().take(i as int).filter(keep),
            decreases self.logs.len() - i,
        {
            let ghost before = r@;
            assert(self.entries().take(i as int + 1).drop_last() =~= self.entries().take(i as int));
            let hit = self.logs[i].status_code == status;
            if hit {
                r.push(&self.logs[i]);
                assert(r@.map_values(|x: &RequestLog| *x) =~= before.map_values(|x: &RequestLog| *x).push(self.entries()[i as int]));
            }
            assert(r@.map_values(|x: &RequestLog| *x) == self.entries().take(i as int + 1).filter(keep)) by {
                reveal(Seq::filter);
                assert(self.entries().take(i as int + 1).last() == self.entries()[i as int]);
            }
            i += 1;
        }
        assert(self.entries().take(self.entries().len() as int) =~= self.entries());
        r
    }

    /// Number of entries with a status of 400 or above.
    pub fn error_count(&self) -> (r: usize)
        ensures
            r == error_total(self.entries()),
    {
        let mut n: usize = 0;
        let mut i: usize = 0;
        while i < self.logs.len()
            invariant
                i <= self.entries().len(),
                n == error_total(self.entries().take(i as int)),
                n <= i,
            decreases self.logs.len() - i,
        {
            assert(self.entries().take(i as int + 1).drop_last() =~= self.entries().take(i as int));
            if self.logs[i].status_code >= 400 {
                n += 1;
            }
            i += 1;
        }
        assert(self.entries().take(self.entries().len() as int) =~= self.entries());
        n
    }

    /// Sum of all durations, or `None` when it does not fit in a `u128`.
    pub fn total_duration(&self) -> (r: Option<u128>)
        ensures
            r is Some <==> duration_total(self.entries()) <= u128::MAX,
            r is Some ==> r->Some_0 == duration_total(self.entries()),
    {
        let mut total: u128 = 0;
        let mut i: usize = 0;
        while i < self.logs.len()
            invariant
                i <= self.entries().len(),
                total == duration_total(self.entries().take(i as int)),
            decreases self.logs.len() - i,
        {
            assert(self.entries().take(i as int + 1).drop_last() =~= self.entries().take(i as int));
            match total.checked_add(self.logs[i].duration_ms) {
                Some(t) => total = t,
                None => {
                    proof {
                        lemma_duration_total_grows(self.entries(), i as int + 1);
                    }
                    return None;
                }
            }
            i += 1;
        }
        assert(self.entries().take(self.entries().len() as int) =~= self.entries());
        Some(total)
    }

    /// Number of entries.
    pub fn count(&self) -> (r: usize)
        ensures
            r == self.entries().len(),
    {
        self.logs.len()
    }

    /// Forget every entry.
    pub fn clear(&mut self)
        ensures
            final(self).entries().len() == 0,
            final(self).capacity() == old(self).capacity(),
    {
        self.logs.clear();
    }
}

/// The duration sum of a prefix never exceeds that of the whole.
proof fn lemma_duration_total_grows(s: Seq<RequestLog>, n: int)
    requires
        0 <= n <= s.len(),
    ensures
        duration_total(s.take(n)) <= duration_total(s),
    decreases s.len(),
{
    if n < s.len() {
        assert(s.drop_last().take(n) =~= s.take(n));
        lemma_duration_total_grows(s.drop_last(), n);
    } else {
        assert(s.take(n) =~= s);
    }
}

} // verus!
