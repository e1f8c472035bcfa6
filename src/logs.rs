use vstd::prelude::*;
use crate::poller::{FetchError, PollScheduler, PollView};
use crate::text::{list_contains, text_contains, text_contains_exec, texts};

verus! {

/// One firewall log line, immutable once ingested.
#[derive(Debug)]
pub struct LogEntry {
    pub timestamp: u64,
    pub source: String,
    pub destination: String,
    pub interface: String,
    pub action: String,
    pub protocol: String,
    pub message: String,
}

pub struct LogEntryView {
    pub timestamp: u64,
    pub source: Seq<char>,
    pub destination: Seq<char>,
    pub interface: Seq<char>,
    pub action: Seq<char>,
    pub protocol: Seq<char>,
    pub message: Seq<char>,
}

impl View for LogEntry {
    type V = LogEntryView;

    open spec fn view(&self) -> LogEntryView {
        LogEntryView {
            timestamp: self.timestamp,
            source: self.source@,
            destination: self.destination@,
            interface: self.interface@,
            action: self.action@,
            protocol: self.protocol@,
            message: self.message@,
        }
    }
}

impl Clone for LogEntry {
    fn clone(&self) -> (r: Self)
        ensures
            r@ == self@,
    {
        LogEntry {
            timestamp: self.timestamp,
            source: self.source.clone(),
            destination: self.destination.clone(),
            interface: self.interface.clone(),
            action: self.action.clone(),
            protocol: self.protocol.clone(),
            message: self.message.clone(),
        }
    }
}

impl LogEntry {
    /// Entry identity used to suppress duplicates: two entries are the same
    /// when every field is equal.
    pub fn same_as(&self, other: &LogEntry) -> (r: bool)
        ensures
            r == (self@ == other@),
    {
        self.timestamp == other.timestamp && self.source == other.source
            && self.destination == other.destination && self.interface == other.interface
            && self.action == other.action && self.protocol == other.protocol
            && self.message == other.message
    }
}

/// The views of a sequence of entries.
pub open spec fn entry_views(s: Seq<LogEntry>) -> Seq<LogEntryView> {
    s.map_values(|e: LogEntry| e@)
}

/// Which entries a query (or the poller) wants. An empty allow-list accepts
/// every value; `search` must occur in the message, the source or the
/// destination; the time bounds are inclusive.
#[derive(Debug)]
pub struct LogFilter {
    pub interfaces: Vec<String>,
    pub actions: Vec<String>,
    pub search: String,
    pub since: Option<u64>,
    pub until: Option<u64>,
}

pub struct LogFilterView {
    pub interfaces: Seq<Seq<char>>,
    pub actions: Seq<Seq<char>>,
    pub search: Seq<char>,
    pub since: Option<u64>,
    pub until: Option<u64>,
}

impl View for LogFilter {
    type V = LogFilterView;

    open spec fn view(&self) -> LogFilterView {
        LogFilterView {
            interfaces: texts(self.interfaces@),
            actions: texts(self.actions@),
            search: self.search@,
            since: self.since,
            until: self.until,
        }
    }
}

impl LogFilterView {
    pub open spec fn matches(self, e: LogEntryView) -> bool {
        &&& (self.interfaces.len() == 0 || self.interfaces.contains(e.interface))
        &&& (self.actions.len() == 0 || self.actions.contains(e.action))
        &&& (text_contains(e.message, self.search) || text_contains(e.source, self.search)
            || text_contains(e.destination, self.search))
        &&& (self.since matches Some(t) ==> t <= e.timestamp)
        &&& (self.until matches Some(t) ==> e.timestamp <= t)
    }
}

/// The entries of `s` that `f` accepts, in their order.
pub open spec fn select(s: Seq<LogEntryView>, f: LogFilterView) -> Seq<LogEntryView>
    decreases s.len(),
{
    if s.len() == 0 {
        s
    } else {
        let r = select(s.drop_last(), f);
        if f.matches(s.last()) {
            r.push(s.last())
        } else {
            r
        }
    }
}

/// Page `page` (from zero) of `size` items of `s`; shorter or empty past the end.
pub open spec fn page_of<A>(s: Seq<A>, page: nat, size: nat) -> Seq<A> {
    let start = page * size;
    let end = start + size;
    s.subrange(
        if start < s.len() { start as int } else { s.len() as int },
        if end < s.len() { end as int } else { s.len() as int },
    )
}

impl Clone for LogFilter {
    fn clone(&self) -> (r: Self)
        ensures
            r@ == self@,
    {
        LogFilter {
            interfaces: clone_texts(&self.interfaces),
            actions: clone_texts(&self.actions),
            search: self.search.clone(),
            since: self.since,
            until: self.until,
        }
    }
}

fn clone_texts(v: &Vec<String>) -> (r: Vec<String>)
    ensures
        texts(r@) == texts(v@),
{
    let mut r: Vec<String> = Vec::new();
    let mut i: usize = 0;
    while i < v.len()
        invariant
            0 <= i <= v@.len(),
            r@.len() == i,
            forall|k: int| 0 <= k < i ==> r@[k]@ == v@[k]@,
        decreases v@.len() - i,
    {
        r.push(v[i].clone());
        i = i + 1;
    }
    assert(texts(r@) =~= texts(v@));
    r
}

impl LogFilter {
    /// The filter that accepts every entry.
    pub fn accept_all() -> (r: LogFilter)
        ensures
            r@.interfaces.len() == 0,
            r@.actions.len() == 0,
            r@.search.len() == 0,
            r@.since is None,
            r@.until is None,
    {
        LogFilter {
            interfaces: Vec::new(),
            actions: Vec::new(),
            search: String::new(),
            since: None,
            until: None,
        }
    }

    pub fn matches(&self, e: &LogEntry) -> (r: bool)
        ensures
            r == self@.matches(e@),
    {
        let iface = self.interfaces.len() == 0 || list_contains(&self.interfaces, &e.interface);
        let action = self.actions.len() == 0 || list_contains(&self.actions, &e.action);
        let text = text_contains_exec(&e.message, &self.search)
            || text_contains_exec(&e.source, &self.search)
            || text_contains_exec(&e.destination, &self.search);
        let after = match self.since {
            Some(t) => t <= e.timestamp,
            None => true,
        };
        let before = match self.until {
            Some(t) => e.timestamp <= t,
            None => true,
        };
        iface && action && text && after && before
    }
}

/// One page of a query, with the number of all matching entries.
#[derive(Debug)]
pub struct LogPage {
    pub entries: Vec<LogEntry>,
    pub total: usize,
}

/// Appends `e`, dropping the oldest entry first when `cap` entries are held.
pub open spec fn bounded_push<A>(s: Seq<A>, cap: nat, e: A) -> Seq<A> {
    if s.len() < cap {
        s.push(e)
    } else {
        s.push(e).drop_first()
    }
}

/// Inserts `e` unless an identical entry is already held.
pub open spec fn insert_entry(s: Seq<LogEntryView>, cap: nat, e: LogEntryView) -> Seq<LogEntryView> {
    if s.contains(e) {
        s
    } else {
        bounded_push(s, cap, e)
    }
}

/// Inserts the entries of `incoming` one after another.
pub open spec fn merge_entries(s: Seq<LogEntryView>, cap: nat, incoming: Seq<LogEntryView>) -> Seq<
    LogEntryView,
>
    decreases incoming.len(),
{
    if incoming.len() == 0 {
        s
    } else {
        insert_entry(merge_entries(s, cap, incoming.drop_last()), cap, incoming.last())
    }
}

/// Inserting keeps a store duplicate-free.
pub proof fn lemma_insert_no_duplicates(s: Seq<LogEntryView>, cap: nat, e: LogEntryView)
    requires
        s.no_duplicates(),
    ensures
        insert_entry(s, cap, e).no_duplicates(),
{
    if !s.contains(e) {
        let p = s.push(e);
        assert forall|i: int, j: int| 0 <= i < p.len() && 0 <= j < p.len() && i != j implies p[i]
            != p[j] by {
            if i == s.len() {
                assert(s[j] != e);
            } else if j == s.len() {
                assert(s[i] != e);
            }
        }
        assert(p.no_duplicates());
        if s.len() >= cap {
            let d = p.drop_first();
            assert forall|i: int, j: int| 0 <= i < d.len() && 0 <= j < d.len() && i != j implies d[i]
                != d[j] by {
                assert(d[i] == p[i + 1] && d[j] == p[j + 1]);
            }
        }
    }
}

/// A merge never leaves two identical entries in a store that had none.
pub proof fn law_merge_no_duplicates(s: Seq<LogEntryView>, cap: nat, incoming: Seq<LogEntryView>)
    requires
        s.no_duplicates(),
    ensures
        merge_entries(s, cap, incoming).no_duplicates(),
    decreases incoming.len(),
{
    if incoming.len() > 0 {
        law_merge_no_duplicates(s, cap, incoming.drop_last());
        lemma_insert_no_duplicates(merge_entries(s, cap, incoming.drop_last()), cap, incoming.last());
    }
}

/// A merge never lets a store grow past its capacity.
pub proof fn law_merge_bounded(s: Seq<LogEntryView>, cap: nat, incoming: Seq<LogEntryView>)
    requires
        s.len() <= cap,
    ensures
        merge_entries(s, cap, incoming).len() <= cap,
    decreases incoming.len(),
{
    if incoming.len() > 0 {
        law_merge_bounded(s, cap, incoming.drop_last());
    }
}

/// Eviction is first in, first out: a new entry that reaches a full store
/// pushes out exactly the oldest entry, and nothing else moves.
pub proof fn law_evicts_oldest(s: Seq<LogEntryView>, cap: nat, e: LogEntryView)
    requires
        s.len() == cap,
        cap > 0,
        !s.contains(e),
    ensures
        insert_entry(s, cap, e) == s.subrange(1, s.len() as int).push(e),
        insert_entry(s, cap, e).len() == cap,
{
    assert(insert_entry(s, cap, e) =~= s.subrange(1, s.len() as int).push(e));
}

/// `r` keeps the earlier store `s` from position `k` on, in order and at its
/// front, followed only by entries of `incoming`; and if any earlier entry
/// went, `r` is full.
pub open spec fn keeps_newest(s: Seq<LogEntryView>, r: Seq<LogEntryView>, cap: nat, incoming: Seq<LogEntryView>, k: int) -> bool {
    &&& 0 <= k <= s.len()
    &&& r.len() >= s.len() - k
    &&& r.take(s.len() - k) == s.skip(k)
    &&& forall|j: int| s.len() - k <= j < r.len() ==> incoming.contains(#[trigger] r[j])
    &&& k > 0 ==> r.len() == cap
}

/// Over a whole merge, eviction is first in, first out: what remains of the
/// earlier entries is their newest part, in order and ahead of every entry
/// the merge added, and earlier entries go only when the store is full.
pub proof fn law_merge_fifo(s: Seq<LogEntryView>, cap: nat, incoming: Seq<LogEntryView>)
    requires
        s.len() <= cap,
    ensures
        exists|k: int| keeps_newest(s, merge_entries(s, cap, incoming), cap, incoming, k),
    decreases incoming.len(),
{
    if incoming.len() == 0 {
        assert(s.take(s.len() as int) =~= s.skip(0));
        assert(keeps_newest(s, s, cap, incoming, 0));
        assert(merge_entries(s, cap, incoming) == s);
    } else {
        let front = incoming.drop_last();
        let e = incoming.last();
        law_merge_fifo(s, cap, front);
        law_merge_bounded(s, cap, front);
        let r = merge_entries(s, cap, front);
        let k = choose|k: int| keeps_newest(s, r, cap, front, k);
        let r2 = insert_entry(r, cap, e);
        assert(merge_entries(s, cap, incoming) == r2);
        assert forall|x: LogEntryView| front.contains(x) implies incoming.contains(x) by {
            let j = choose|j: int| 0 <= j < front.len() && front[j] == x;
            assert(incoming[j] == x);
        }
        assert(incoming.contains(e)) by {
            assert(incoming[incoming.len() - 1] == e);
        }
        if r.contains(e) {
            assert(keeps_newest(s, r2, cap, incoming, k));
        } else if r.len() < cap {
            assert(r2 == r.push(e));
            assert(r2.take(s.len() - k) =~= r.take(s.len() - k));
            assert forall|j: int| s.len() - k <= j < r2.len() implies incoming.contains(#[trigger] r2[j]) by {
                if j < r.len() {
                    assert(r2[j] == r[j]);
                    assert(front.contains(r[j]));
                }
            }
            assert(keeps_newest(s, r2, cap, incoming, k));
        } else {
            assert(r2 == r.push(e).drop_first());
            let k2 = if k < s.len() { k + 1 } else { k };
            assert(r2.take(s.len() - k2) =~= s.skip(k2)) by {
                if k < s.len() {
                    assert forall|j: int| 0 <= j < s.len() - k2 implies r2[j] == s.skip(k2)[j] by {
                        assert(r.take(s.len() - k)[j + 1] == s.skip(k)[j + 1]);
                    }
                }
            }
            assert forall|j: int| s.len() - k2 <= j < r2.len() implies incoming.contains(#[trigger] r2[j]) by {
                if j + 1 < r.len() {
                    assert(r2[j] == r[j + 1]);
                    assert(front.contains(r[j + 1]));
                } else {
                    assert(r2[j] == e);
                }
            }
            assert(keeps_newest(s, r2, cap, incoming, k2));
        }
    }
}

/// Merging entries that are all held already changes nothing.
pub proof fn lemma_merge_held(s: Seq<LogEntryView>, cap: nat, incoming: Seq<LogEntryView>)
    requires
        forall|j: int| 0 <= j < incoming.len() ==> s.contains(#[trigger] incoming[j]),
    ensures
        merge_entries(s, cap, incoming) == s,
    decreases incoming.len(),
{
    if incoming.len() > 0 {
        let front = incoming.drop_last();
        assert forall|j: int| 0 <= j < front.len() implies s.contains(#[trigger] front[j]) by {
            assert(front[j] == incoming[j]);
        }
        lemma_merge_held(s, cap, front);
        assert(s.contains(incoming[incoming.len() - 1]));
    }
}

/// Merging the same batch twice inserts each distinct entry at most once: if
/// every entry of the batch is held after the first merge, the second merge
/// changes nothing.
pub proof fn law_merge_idempotent(s: Seq<LogEntryView>, cap: nat, incoming: Seq<LogEntryView>)
    requires
        forall|j: int|
            0 <= j < incoming.len() ==> merge_entries(s, cap, incoming).contains(#[trigger] incoming[j]),
    ensures
        merge_entries(merge_entries(s, cap, incoming), cap, incoming) == merge_entries(s, cap, incoming),
{
    lemma_merge_held(merge_entries(s, cap, incoming), cap, incoming);
}

/// Once polling has stopped, a tick result that arrives later (from any run)
/// leaves the cache untouched; after a restart, a result of the previous run
/// is ignored as well.
pub proof fn law_no_merge_after_stop(
    v: LogCacheView,
    ticket: u64,
    result: Result<Seq<LogEntryView>, FetchError>,
    interval_ms: u64,
)
    ensures
        ({
            let stopped = LogCacheView { poll: v.poll.stopped(), ..v };
            stopped.after_tick(ticket, result) == stopped
        }),
        ({
            let restarted = LogCacheView { poll: v.poll.started(interval_ms), ..v };
            restarted.after_tick(v.poll.generation, result) == restarted
        }),
{
}

/// Mathematical state of a log cache.
pub struct LogCacheView {
    pub entries: Seq<LogEntryView>,
    pub capacity: nat,
    pub last_poll_error: Option<FetchError>,
    pub filters: LogFilterView,
    pub poll: PollView,
}

impl LogCacheView {
    pub open spec fn wf(self) -> bool {
        &&& self.entries.len() <= self.capacity
        &&& self.entries.no_duplicates()
    }

    pub open spec fn merged(self, incoming: Seq<LogEntryView>) -> LogCacheView {
        LogCacheView { entries: merge_entries(self.entries, self.capacity, incoming), ..self }
    }

    /// The effect of a poll tick's result: merged (clearing the error slot) or
    /// recorded, if the tick belongs to the current run; otherwise nothing.
    pub open spec fn after_tick(self, ticket: u64, result: Result<Seq<LogEntryView>, FetchError>) -> LogCacheView {
        if !self.poll.accepts(ticket) {
            self
        } else {
            match result {
                Ok(incoming) => LogCacheView { last_poll_error: None, ..self.merged(incoming) },
                Err(e) => LogCacheView { last_poll_error: Some(e), ..self },
            }
        }
    }

    pub open spec fn query(self, f: LogFilterView, page: nat, size: nat) -> Seq<LogEntryView> {
        page_of(select(self.entries, f), page, size)
    }
}

pub open spec fn result_view(r: Result<Vec<LogEntry>, FetchError>) -> Result<Seq<LogEntryView>, FetchError> {
    match r {
        Ok(v) => Ok(entry_views(v@)),
        Err(e) => Err(e),
    }
}

/// A bounded, duplicate-free store of log entries, newest last, with the
/// filter the poller fetches with and the poller's own state.
pub struct LogCache {
    entries: Vec<LogEntry>,
    capacity: usize,
    last_poll_error: Option<FetchError>,
    filters: LogFilter,
    poll: PollScheduler,
}

impl View for LogCache {
    type V = LogCacheView;

    closed spec fn view(&self) -> LogCacheView {
        LogCacheView {
            entries: entry_views(self.entries@),
            capacity: self.capacity as nat,
            last_poll_error: self.last_poll_error,
            filters: self.filters@,
            poll: self.poll@,
        }
    }
}

impl LogCache {
    pub fn new(capacity: usize, poll_interval_ms: u64) -> (r: LogCache)
        ensures
            r@.wf(),
            r@.entries.len() == 0,
            r@.capacity == capacity,
            r@.last_poll_error is None,
            r@.filters.interfaces.len() == 0 && r@.filters.actions.len() == 0,
            r@.filters.search.len() == 0 && r@.filters.since is None && r@.filters.until is None,
            r@.poll == (PollView { running: false, interval_ms: poll_interval_ms, generation: 0 }),
    {
        let r = LogCache {
            entries: Vec::new(),
            capacity,
            last_poll_error: None,
            filters: LogFilter::accept_all(),
            poll: PollScheduler::new(poll_interval_ms),
        };
        assert(r@.entries =~= Seq::<LogEntryView>::empty());
        r
    }

    fn holds(&self, e: &LogEntry) -> (r: bool)
        ensures
            r == self@.entries.contains(e@),
    {
        let mut i: usize = 0;
        while i < self.entries.len()
            invariant
                0 <= i <= self.entries@.len(),
                forall|k: int| 0 <= k < i ==> self.entries@[k]@ != e@,
            decreases self.entries@.len() - i,
        {
            if self.entries[i].same_as(e) {
                assert(self@.entries[i as int] == e@);
                return true;
            }
            i = i + 1;
        }
        false
    }

    fn insert(&mut self, e: &LogEntry)
        ensures
            final(self)@ == (LogCacheView {
                entries: insert_entry(old(self)@.entries, old(self)@.capacity, e@),
                ..old(self)@
            }),
            old(self)@.wf() ==> final(self)@.wf(),
    {
        proof {
            if old(self)@.wf() {
                lemma_insert_no_duplicates(old(self)@.entries, old(self)@.capacity, e@);
            }
        }
        if self.holds(e) {
            return;
        }
        let ghost before = self.entries@;
        self.entries.push(e.clone());
        assert(entry_views(self.entries@) =~= entry_views(before).push(e@));
        if self.entries.len() > self.capacity {
            let ghost pushed = self.entries@;
            self.entries.remove(0);
            assert(entry_views(self.entries@) =~= entry_views(pushed).drop_first());
        }
    }

    /// Merges a batch of entries: each one not already held is appended, the
    /// oldest entries giving way when the cache is full.
    pub fn merge(&mut self, incoming: &Vec<LogEntry>)
        ensures
            final(self)@ == old(self)@.merged(entry_views(incoming@)),
            old(self)@.wf() ==> final(self)@.wf(),
    {
        let ghost start = self@;
        let mut i: usize = 0;
        while i < incoming.len()
            invariant
                0 <= i <= incoming@.len(),
                start.wf() ==> self@.wf(),
                self@ == start.merged(entry_views(incoming@.take(i as int))),
            decreases incoming@.len() - i,
        {
            self.insert(&incoming[i]);
            i = i + 1;
            assert(entry_views(incoming@.take(i as int)).drop_last() =~= entry_views(
                incoming@.take(i - 1),
            ));
        }
        assert(incoming@.take(i as int) =~= incoming@);
    }

    /// Hands the result of a poll tick to the cache. It is merged (or its
    /// error recorded) only if `ticket` belongs to the current run; returns
    /// whether it was.
    pub fn apply_tick(&mut self, ticket: u64, result: Result<Vec<LogEntry>, FetchError>) -> (applied: bool)
        ensures
            final(self)@ == old(self)@.after_tick(ticket, result_view(result)),
            applied == old(self)@.poll.accepts(ticket),
            old(self)@.wf() ==> final(self)@.wf(),
    {
        if !self.poll.is_current(ticket) {
            return false;
        }
        match result {
            Ok(incoming) => {
                self.merge(&incoming);
                self.last_poll_error = None;
            },
            Err(e) => {
                self.last_poll_error = Some(e);
            },
        }
        true
    }

    /// Replaces the filter that later ticks fetch with.
    pub fn update_filters(&mut self, filters: LogFilter)
        ensures
            final(self)@ == (LogCacheView { filters: filters@, ..old(self)@ }),
    {
        self.filters = filters;
    }

    pub fn filters(&self) -> (r: &LogFilter)
        ensures
            r@ == self@.filters,
    {
        &self.filters
    }

    /// Empties the store and the error slot; a running poller keeps running.
    pub fn clear_cache(&mut self)
        ensures
            final(self)@ == (LogCacheView {
                entries: Seq::empty(),
                last_poll_error: None,
                ..old(self)@
            }),
    {
        self.entries = Vec::new();
        self.last_poll_error = None;
        assert(self@.entries =~= Seq::<LogEntryView>::empty());
    }

    /// Starts polling, replacing a running poller; returns the new run's ticket.
    pub fn start_polling(&mut self, interval_ms: u64) -> (ticket: u64)
        ensures
            final(self)@ == (LogCacheView { poll: old(self)@.poll.started(interval_ms), ..old(self)@ }),
            ticket == final(self)@.poll.generation,
    {
        self.poll.start(interval_ms)
    }

    /// Stops polling: no tick result is merged after this returns.
    pub fn stop_polling(&mut self)
        ensures
            final(self)@ == (LogCacheView { poll: old(self)@.poll.stopped(), ..old(self)@ }),
    {
        self.poll.stop();
    }

    pub fn is_polling(&self) -> (r: bool)
        ensures
            r == self@.poll.running,
    {
        self.poll.is_running()
    }

    pub fn is_current(&self, ticket: u64) -> (r: bool)
        ensures
            r == self@.poll.accepts(ticket),
    {
        self.poll.is_current(ticket)
    }

    pub fn len(&self) -> (r: usize)
        ensures
            r == self@.entries.len(),
    {
        self.entries.len()
    }

    pub fn capacity(&self) -> (r: usize)
        ensures
            r == self@.capacity,
    {
        self.capacity
    }

    pub fn last_poll_error(&self) -> (r: Option<FetchError>)
        ensures
            r == self@.last_poll_error,
    {
        self.last_poll_error
    }

    /// One page of the held entries that `filter` accepts (oldest first), with
    /// the number of all accepted entries. Reads the cache only.
    pub fn get_logs(&self, filter: &LogFilter, page: usize, page_size: usize) -> (r: LogPage)
        ensures
            r.total == select(self@.entries, filter@).len(),
            entry_views(r.entries@) == self@.query(filter@, page as nat, page_size as nat),
    {
        let ghost f = filter@;
        let ghost all = self@.entries;
        let ghost ps: int = page as int * page_size as int;
        let start: usize = match page.checked_mul(page_size) {
            Some(v) => v,
            None => usize::MAX,
        };
        let end: usize = start.saturating_add(page_size);
        let mut out: Vec<LogEntry> = Vec::new();
        let mut count: usize = 0;
        let mut i: usize = 0;
        while i < self.entries.len()
            invariant
                0 <= i <= self.entries@.len(),
                all == entry_views(self.entries@),
                f == filter@,
                ps == page as int * page_size as int,
                start == (if ps <= usize::MAX { ps } else { usize::MAX as int }),
                end == (if start + page_size <= usize::MAX { start + page_size } else { usize::MAX as int }),
                count <= i,
                count == select(all.take(i as int), f).len(),
                entry_views(out@) == page_of(select(all.take(i as int), f), page as nat, page_size as nat),
            decreases self.entries@.len() - i,
        {
            let ghost prev = select(all.take(i as int), f);
            assert(all.take(i + 1).drop_last() =~= all.take(i as int));
            assert(all.take(i + 1).last() == all[i as int]);
            if filter.matches(&self.entries[i]) {
                let ghost outv = entry_views(out@);
                if start <= count && count < end {
                    out.push(self.entries[i].clone());
                    assert(entry_views(out@) =~= outv.push(all[i as int]));
                }
                count = count + 1;
                assert(page_of(prev.push(all[i as int]), page as nat, page_size as nat) =~= (if ps <= prev.len() && prev.len() < ps + page_size {
                    outv.push(all[i as int])
                } else {
                    outv
                }));
            }
            i = i + 1;
        }
        assert(all.take(i as int) =~= all);
        LogPage { entries: out, total: count }
    }

    /// All held entries, oldest first.
    pub fn entries(&self) -> (r: Vec<LogEntry>)
        ensures
            entry_views(r@) == self@.entries,
    {
        let mut r: Vec<LogEntry> = Vec::new();
        let mut i: usize = 0;
        while i < self.entries.len()
            invariant
                0 <= i <= self.entries@.len(),
                r@.len() == i,
                forall|k: int| 0 <= k < i ==> r@[k]@ == self.entries@[k]@,
            decreases self.entries@.len() - i,
        {
            r.push(self.entries[i].clone());
            i = i + 1;
        }
        assert(entry_views(r@) =~= self@.entries);
        r
    }
}

} // verus!
