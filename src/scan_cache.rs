//! A time-to-live cache over the list of visible Wi-Fi networks, with
//! single-flight refresh: however many callers find it stale at once, one
//! scan runs, and every caller then reads what that scan found.
//!
//! Time is a count of milliseconds on a monotonic clock that the caller reads.
use crate::codec::texts;
use crate::text::{lines_of, split_lines};
use vstd::prelude::*;

verus! {

/// Most network names that a scan keeps.
pub const MAX_SSIDS: usize = 9;

/// How long a successful scan stays fresh, in milliseconds.
pub const SSID_CACHE_TTL_MS: u64 = 10_000;

/// The network names worth offering among the lines a scan printed: each
/// non-empty name once, in first-seen order, at most `MAX_SSIDS` of them.
pub open spec fn chosen_ssids(lines: Seq<Seq<char>>) -> Seq<Seq<char>>
    decreases lines.len(),
{
    if lines.len() == 0 {
        Seq::empty()
    } else {
        let prev = chosen_ssids(lines.drop_last());
        let line = lines.last();
        if line.len() > 0 && !prev.contains(line) && prev.len() < MAX_SSIDS {
            prev.push(line)
        } else {
            prev
        }
    }
}

/// Picks the network names from the lines of a scan's output.
pub fn select_ssids(lines: &Vec<String>) -> (r: Vec<String>)
    ensures
        texts(r@) == chosen_ssids(texts(lines@)),
{
    let mut out: Vec<String> = Vec::new();
    let mut i: usize = 0;
    while i < lines.len()
        invariant
            i <= lines.len(),
            texts(out@) == chosen_ssids(texts(lines@.take(i as int))),
        decreases lines.len() - i,
    {
        let line = &lines[i];
        let ghost prev = texts(out@);
        proof {
            assert(texts(lines@.take(i + 1)).drop_last() =~= texts(lines@.take(i as int)));
            assert(texts(lines@.take(i + 1)).last() == line@);
        }
        let mut seen = false;
        let mut j: usize = 0;
        while j < out.len()
            invariant
                j <= out.len(),
                prev == texts(out@),
                seen == exists|k: int| 0 <= k < j && prev[k] == line@,
            decreases out.len() - j,
        {
            let same = out[j] == *line;
            proof {
                assert(prev[j as int] == out@[j as int]@);
                if same {
                    assert(0 <= j < j + 1 && prev[j as int] == line@);
                } else if seen {
                    let k = choose|k: int| 0 <= k < j && prev[k] == line@;
                    assert(0 <= k < j + 1 && prev[k] == line@);
                } else {
                    assert forall|k: int| 0 <= k < j + 1 implies prev[k] != line@ by {
                        if k < j {
                            assert(!(0 <= k < j && prev[k] == line@));
                        }
                    }
                }
            }
            if same {
                seen = true;
            }
            j = j + 1;
        }
        proof {
            if prev.contains(line@) {
                let k = choose|k: int| 0 <= k < prev.len() && prev[k] == line@;
                assert(0 <= k < j && prev[k] == line@);
            }
        }
        if line.as_str().unicode_len() > 0 && !seen && out.len() < MAX_SSIDS {
            out.push(line.clone());
            assert(texts(out@) =~= prev.push(line@));
        }
        i = i + 1;
    }
    assert(lines@.take(i as int) =~= lines@);
    out
}

/// Picks the network names from what a scan printed, one name per line.
pub fn ssids_from_scan_output(output: &str) -> (r: Vec<String>)
    ensures
        texts(r@) == chosen_ssids(lines_of(output@)),
{
    let lines = split_lines(output);
    assert(texts(lines@) =~= lines_of(output@));
    select_ssids(&lines)
}

/// What a cache holds.
pub struct CacheView {
    pub ssids: Seq<Seq<char>>,
    pub expires_at: Option<u64>,
    pub refreshing: bool,
}

/// What a call to the cache hands back, as the caller sees it.
pub enum StepView {
    Fresh(Seq<Seq<char>>),
    Refresh,
    Wait,
}

/// The cache holds a result that has not expired at `now`.
pub open spec fn is_fresh(c: CacheView, now: u64) -> bool {
    c.expires_at matches Some(t) && now < t
}

/// When a scan that ended at `now` stops being fresh.
pub open spec fn expiry_after(now: u64) -> u64 {
    if now as int + SSID_CACHE_TTL_MS as int > u64::MAX {
        u64::MAX
    } else {
        (now + SSID_CACHE_TTL_MS) as u64
    }
}

/// A caller asks the cache at `now`: a fresh list is handed back as it is;
/// otherwise the first caller starts a refresh and every caller waits.
pub open spec fn poll_model(c: CacheView, now: u64) -> (CacheView, StepView) {
    if is_fresh(c, now) {
        (c, StepView::Fresh(c.ssids))
    } else if !c.refreshing {
        (CacheView { refreshing: true, ..c }, StepView::Refresh)
    } else {
        (c, StepView::Wait)
    }
}

/// A refresh ends at `now`: a found list replaces the entry and is fresh for
/// the time to live; a failed scan keeps the old entry and its expiry.
pub open spec fn finish_model(c: CacheView, found: Option<Seq<Seq<char>>>, now: u64) -> CacheView {
    match found {
        Some(l) => CacheView { ssids: l, expires_at: Some(expiry_after(now)), refreshing: false },
        None => CacheView { refreshing: false, ..c },
    }
}

/// The cache entry, and whether a refresh is in flight.
pub struct ScanCache {
    ssids: Vec<String>,
    expires_at: Option<u64>,
    refreshing: bool,
}

/// What a call to `ScanCache::poll` asks of its caller.
#[derive(Debug)]
pub enum CacheStep {
    /// The cached list, fresh.
    Fresh(Vec<String>),
    /// Run one scan, then report it with `ScanCache::finish_refresh`; then
    /// wait as for `Wait`.
    Refresh,
    /// Wait until the refresh in flight ends, then ask again.
    Wait,
}

impl CacheStep {
    pub open spec fn view(&self) -> StepView {
        match self {
            CacheStep::Fresh(l) => StepView::Fresh(texts(l@)),
            CacheStep::Refresh => StepView::Refresh,
            CacheStep::Wait => StepView::Wait,
        }
    }
}

impl View for ScanCache {
    type V = CacheView;

    closed spec fn view(&self) -> CacheView {
        CacheView {
            ssids: texts(self.ssids@),
            expires_at: self.expires_at,
            refreshing: self.refreshing,
        }
    }
}

impl ScanCache {
    /// An empty cache that has never been filled.
    pub fn new() -> (r: Self)
        ensures
            r@ == (CacheView { ssids: Seq::empty(), expires_at: None, refreshing: false }),
    {
        let r = ScanCache { ssids: Vec::new(), expires_at: None, refreshing: false };
        assert(texts(r.ssids@) =~= Seq::<Seq<char>>::empty());
        r
    }

    /// Asks the cache at `now`. Marking the refresh as in flight happens in
    /// the same call that finds the entry stale, so one refresh runs at a time.
    pub fn poll(&mut self, now: u64) -> (r: CacheStep)
        ensures
            (final(self)@, r.view()) == poll_model(old(self)@, now),
    {
        let fresh = match self.expires_at {
            Some(t) => now < t,
            None => false,
        };
        if fresh {
            CacheStep::Fresh(self.ssids.clone())
        } else if !self.refreshing {
            self.refreshing = true;
            CacheStep::Refresh
        } else {
            CacheStep::Wait
        }
    }

    /// Records the end of a refresh at `now`: `Some` with the names found, or
    /// `None` when the scan failed.
    pub fn finish_refresh(&mut self, found: Option<Vec<String>>, now: u64)
        ensures
            final(self)@ == finish_model(
                old(self)@,
                match found {
                    Some(l) => Some(texts(l@)),
                    None => None,
                },
                now,
            ),
    {
        match found {
            Some(l) => {
                self.ssids = l;
                self.expires_at = Some(now.saturating_add(SSID_CACHE_TTL_MS));
            },
            None => {},
        }
        self.refreshing = false;
    }
}

/// A burst of callers asking at the given times, with no refresh ending in
/// between: the cache afterwards, and how many of them were told to refresh.
pub open spec fn run_polls(c: CacheView, times: Seq<u64>) -> (CacheView, nat)
    decreases times.len(),
{
    if times.len() == 0 {
        (c, 0)
    } else {
        let (next, step) = poll_model(c, times[0]);
        let (last, n) = run_polls(next, times.drop_first());
        (
            last,
            if step is Refresh {
                n + 1
            } else {
                n
            },
        )
    }
}

proof fn lemma_burst_while_refreshing(c: CacheView, times: Seq<u64>)
    requires
        c.refreshing,
        forall|i: int| 0 <= i < times.len() ==> !is_fresh(c, #[trigger] times[i]),
    ensures
        run_polls(c, times) == (c, 0nat),
    decreases times.len(),
{
    if times.len() > 0 {
        assert(!is_fresh(c, times[0]));
        lemma_burst_while_refreshing(c, times.drop_first());
    }
}

/// Single flight: a burst of callers that all find the cache stale, with no
/// refresh in flight, starts exactly one refresh.
pub proof fn lemma_single_flight(c: CacheView, times: Seq<u64>)
    requires
        !c.refreshing,
        times.len() > 0,
        forall|i: int| 0 <= i < times.len() ==> !is_fresh(c, #[trigger] times[i]),
    ensures
        run_polls(c, times).1 == 1,
{
    assert(!is_fresh(c, times[0]));
    let next = CacheView { refreshing: true, ..c };
    assert forall|i: int| 0 <= i < times.drop_first().len() implies !is_fresh(
        next,
        #[trigger] times.drop_first()[i],
    ) by {
        assert(!is_fresh(c, times[i + 1]));
    }
    lemma_burst_while_refreshing(next, times.drop_first());
}

/// Once a refresh ends with a list found at `t`, every caller that asks
/// before the time to live has passed is handed that same list.
pub proof fn lemma_refresh_result_shared(
    c: CacheView,
    found: Seq<Seq<char>>,
    t: u64,
    now: u64,
)
    requires
        now < expiry_after(t),
    ensures
        poll_model(finish_model(c, Some(found), t), now) == (
            finish_model(c, Some(found), t),
            StepView::Fresh(found),
        ),
{
}

/// Once the time to live of a found list has passed, the next caller starts
/// a new refresh, whatever the list holds.
pub proof fn lemma_expired_list_refreshes(
    c: CacheView,
    found: Seq<Seq<char>>,
    t: u64,
    now: u64,
)
    requires
        now >= expiry_after(t),
    ensures
        poll_model(finish_model(c, Some(found), t), now).1 is Refresh,
{
}

} // verus!
