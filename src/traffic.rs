use vstd::prelude::*;
use crate::logs::bounded_push;
use crate::poller::{FetchError, PollScheduler, PollView};
use crate::text::{lemma_lex_asymmetric, lemma_lex_transitive, text_lt, text_lt_exec, utf8_of};

verus! {

/// Counters of one interface at one time, as the device reports them.
#[derive(Debug)]
pub struct TrafficSample {
    pub interface: String,
    pub timestamp: u64,
    pub bytes_in: u64,
    pub bytes_out: u64,
    pub packets_in: u64,
    pub packets_out: u64,
}

pub struct TrafficSampleView {
    pub interface: Seq<char>,
    pub timestamp: u64,
    pub bytes_in: u64,
    pub bytes_out: u64,
    pub packets_in: u64,
    pub packets_out: u64,
}

impl View for TrafficSample {
    type V = TrafficSampleView;

    open spec fn view(&self) -> TrafficSampleView {
        TrafficSampleView {
            interface: self.interface@,
            timestamp: self.timestamp,
            bytes_in: self.bytes_in,
            bytes_out: self.bytes_out,
            packets_in: self.packets_in,
            packets_out: self.packets_out,
        }
    }
}

impl Clone for TrafficSample {
    fn clone(&self) -> (r: Self)
        ensures
            r@ == self@,
    {
        TrafficSample {
            interface: self.interface.clone(),
            timestamp: self.timestamp,
            bytes_in: self.bytes_in,
            bytes_out: self.bytes_out,
            packets_in: self.packets_in,
            packets_out: self.packets_out,
        }
    }
}

pub open spec fn sample_views(s: Seq<TrafficSample>) -> Seq<TrafficSampleView> {
    s.map_values(|x: TrafficSample| x@)
}

/// Why a traffic query has nothing to return.
#[derive(Debug, Clone, Copy, PartialEq, Eq, Structural)]
pub enum TrafficError {
    NoData,
}

/// The samples of `s` taken between `from` and `to`, both included, in order.
pub open spec fn in_window(s: Seq<TrafficSampleView>, from: u64, to: u64) -> Seq<TrafficSampleView>
    decreases s.len(),
{
    if s.len() == 0 {
        s
    } else {
        let r = in_window(s.drop_last(), from, to);
        if from <= s.last().timestamp <= to {
            r.push(s.last())
        } else {
            r
        }
    }
}

/// The history of one interface, oldest first.
pub struct SeriesView {
    pub name: Seq<char>,
    pub samples: Seq<TrafficSampleView>,
}

struct Series {
    name: String,
    samples: Vec<TrafficSample>,
}

impl View for Series {
    type V = SeriesView;

    closed spec fn view(&self) -> SeriesView {
        SeriesView { name: self.name@, samples: sample_views(self.samples@) }
    }
}

spec fn series_views(s: Seq<Series>) -> Seq<SeriesView> {
    s.map_values(|x: Series| x@)
}

/// What `get_top` ranks interfaces by.
#[derive(Debug, Clone, Copy, PartialEq, Eq, Structural)]
pub enum Metric {
    /// `bytes_in + bytes_out`
    Bytes,
    /// `packets_in + packets_out`
    Packets,
}

pub open spec fn metric_of(s: TrafficSampleView, by: Metric) -> int {
    match by {
        Metric::Bytes => s.bytes_in + s.bytes_out,
        Metric::Packets => s.packets_in + s.packets_out,
    }
}

/// `a` ranks before `b`: a larger metric on the latest sample, or the same
/// metric and a name that comes first.
pub open spec fn outranks(a: SeriesView, b: SeriesView, by: Metric) -> bool {
    let ka = metric_of(a.samples.last(), by);
    let kb = metric_of(b.samples.last(), by);
    ka > kb || (ka == kb && text_lt(a.name, b.name))
}

pub proof fn lemma_outranks_order(a: SeriesView, b: SeriesView, c: SeriesView, by: Metric)
    ensures
        outranks(a, b, by) ==> !outranks(b, a, by),
        outranks(a, b, by) && outranks(b, c, by) ==> outranks(a, c, by),
{
    lemma_lex_asymmetric(utf8_of(a.name), utf8_of(b.name));
    lemma_lex_transitive(utf8_of(a.name), utf8_of(b.name), utf8_of(c.name));
}

/// `idx` lists the top interfaces of `v` by `by`, best first, at most `n` of
/// them: only interfaces with a sample, each once, none left out that ranks
/// before a listed one, and all of them when fewer than `n` are listed.
pub open spec fn is_top(v: TrafficCacheView, n: nat, by: Metric, idx: Seq<int>) -> bool {
    &&& idx.len() <= n
    &&& idx.no_duplicates()
    &&& forall|k: int| 0 <= k < idx.len() ==> 0 <= #[trigger] idx[k] < v.series.len() && v.series[idx[k]].samples.len() > 0
    &&& idx.len() < n ==> forall|j: int| 0 <= j < v.series.len() && #[trigger] v.series[j].samples.len() > 0 ==> idx.contains(j)
    &&& forall|k: int, j: int|
        0 <= k < idx.len() && 0 <= j < v.series.len() && v.series[j].samples.len() > 0 && !idx.take(k).contains(j)
            ==> j == idx[k] || !#[trigger] outranks(v.series[j], #[trigger] v.series[idx[k]], by)
}

pub open spec fn as_ints(s: Seq<usize>) -> Seq<int> {
    s.map_values(|x: usize| x as int)
}

/// Mathematical state of a traffic cache.
pub struct TrafficCacheView {
    pub series: Seq<SeriesView>,
    pub window: nat,
    pub last_poll_error: Option<FetchError>,
    pub poll: PollView,
}

impl TrafficCacheView {
    /// Every history fits the window, and each interface has one history.
    pub open spec fn wf(self) -> bool {
        &&& forall|i: int| 0 <= i < self.series.len() ==> #[trigger] self.series[i].samples.len() <= self.window
        &&& forall|i: int, j: int|
            0 <= i < j < self.series.len() ==> #[trigger] self.series[i].name != #[trigger] self.series[j].name
    }

    /// `i` is the first position of a history of `name`.
    pub open spec fn first_at(self, name: Seq<char>, i: int) -> bool {
        &&& 0 <= i < self.series.len()
        &&& self.series[i].name == name
        &&& forall|j: int| 0 <= j < i ==> #[trigger] self.series[j].name != name
    }

    pub open spec fn has(self, name: Seq<char>) -> bool {
        exists|i: int| #[trigger] self.first_at(name, i)
    }

    pub open spec fn index_of(self, name: Seq<char>) -> int {
        choose|i: int| #[trigger] self.first_at(name, i)
    }

    /// The history of `name`; empty if none was ever received.
    pub open spec fn samples_of(self, name: Seq<char>) -> Seq<TrafficSampleView> {
        if self.has(name) {
            self.series[self.index_of(name)].samples
        } else {
            Seq::empty()
        }
    }

    /// Appends a sample to its interface's history, dropping the oldest sample
    /// when the history holds `window` samples already.
    pub open spec fn updated(self, s: TrafficSampleView) -> TrafficCacheView {
        if self.has(s.interface) {
            let i = self.index_of(s.interface);
            TrafficCacheView {
                series: self.series.update(
                    i,
                    SeriesView { name: s.interface, samples: bounded_push(self.series[i].samples, self.window, s) },
                ),
                ..self
            }
        } else {
            TrafficCacheView {
                series: self.series.push(
                    SeriesView { name: s.interface, samples: bounded_push(Seq::empty(), self.window, s) },
                ),
                ..self
            }
        }
    }

    pub open spec fn merged(self, incoming: Seq<TrafficSampleView>) -> TrafficCacheView
        decreases incoming.len(),
    {
        if incoming.len() == 0 {
            self
        } else {
            self.merged(incoming.drop_last()).updated(incoming.last())
        }
    }

    pub open spec fn after_tick(self, ticket: u64, result: Result<Seq<TrafficSampleView>, FetchError>) -> TrafficCacheView {
        if !self.poll.accepts(ticket) {
            self
        } else {
            match result {
                Ok(incoming) => TrafficCacheView { last_poll_error: None, ..self.merged(incoming) },
                Err(e) => TrafficCacheView { last_poll_error: Some(e), ..self },
            }
        }
    }
}

/// An update keeps every history within the window and one history per interface.
pub proof fn lemma_updated_wf(v: TrafficCacheView, s: TrafficSampleView)
    requires
        v.wf(),
    ensures
        v.updated(s).wf(),
{
    let w = v.updated(s);
    if v.has(s.interface) {
        let i = v.index_of(s.interface);
        assert forall|a: int, b: int| 0 <= a < b < w.series.len() implies #[trigger] w.series[a].name
            != #[trigger] w.series[b].name by {
            if a == i {
                assert(v.series[i].name == s.interface);
            }
        }
    } else {
        assert forall|a: int, b: int| 0 <= a < b < w.series.len() implies #[trigger] w.series[a].name
            != #[trigger] w.series[b].name by {
            if b == v.series.len() && v.series[a].name == s.interface {
                assert forall|j: int| 0 <= j < a implies #[trigger] v.series[j].name != s.interface by {
                    assert(v.series[j].name != v.series[a].name);
                }
                assert(v.first_at(s.interface, a));
            }
        }
    }
}

/// No sequence of updates lets an interface's history grow past the window.
pub proof fn law_window_bounded(v: TrafficCacheView, incoming: Seq<TrafficSampleView>)
    requires
        v.wf(),
    ensures
        v.merged(incoming).wf(),
        v.merged(incoming).window == v.window,
        forall|i: int| 0 <= i < v.merged(incoming).series.len()
            ==> #[trigger] v.merged(incoming).series[i].samples.len() <= v.window,
    decreases incoming.len(),
{
    if incoming.len() > 0 {
        law_window_bounded(v, incoming.drop_last());
        lemma_updated_wf(v.merged(incoming.drop_last()), incoming.last());
    }
}

/// A series query returns only samples taken inside the requested window.
pub proof fn law_series_within_window(s: Seq<TrafficSampleView>, from: u64, to: u64)
    ensures
        forall|k: int| 0 <= k < in_window(s, from, to).len()
            ==> from <= #[trigger] in_window(s, from, to)[k].timestamp <= to,
        in_window(s, from, to).len() <= s.len(),
    decreases s.len(),
{
    if s.len() > 0 {
        law_series_within_window(s.drop_last(), from, to);
    }
}

/// Once polling has stopped, a tick result that arrives later (from any run)
/// leaves the cache untouched; after a restart, a result of the previous run
/// is ignored as well.
pub proof fn law_traffic_no_merge_after_stop(
    v: TrafficCacheView,
    ticket: u64,
    result: Result<Seq<TrafficSampleView>, FetchError>,
    interval_ms: u64,
)
    ensures
        ({
            let stopped = TrafficCacheView { poll: v.poll.stopped(), ..v };
            stopped.after_tick(ticket, result) == stopped
        }),
        ({
            let restarted = TrafficCacheView { poll: v.poll.started(interval_ms), ..v };
            restarted.after_tick(v.poll.generation, result) == restarted
        }),
{
}

pub open spec fn traffic_result_view(r: Result<Vec<TrafficSample>, FetchError>) -> Result<Seq<TrafficSampleView>, FetchError> {
    match r {
        Ok(v) => Ok(sample_views(v@)),
        Err(e) => Err(e),
    }
}

/// Per-interface ring buffers of traffic samples, with the poller's state.
pub struct TrafficCache {
    series: Vec<Series>,
    window: usize,
    last_poll_error: Option<FetchError>,
    poll: PollScheduler,
}

impl View for TrafficCache {
    type V = TrafficCacheView;

    closed spec fn view(&self) -> TrafficCacheView {
        TrafficCacheView {
            series: series_views(self.series@),
            window: self.window as nat,
            last_poll_error: self.last_poll_error,
            poll: self.poll@,
        }
    }
}

fn clone_samples(v: &Vec<TrafficSample>) -> (r: Vec<TrafficSample>)
    ensures
        sample_views(r@) == sample_views(v@),
{
    let mut r: Vec<TrafficSample> = Vec::new();
    let mut i: usize = 0;
    while i < v.len()
        invariant
            0 <= i <= v@.len(),
            r@.len() == i,
            forall|k: int| 0 <= k < i ==> r@[k]@ == v@[k]@,
        decreases v@.len() - i,
    {
        r.push(v[i].clone());
        i = i + 1;
    }
    assert(sample_views(r@) =~= sample_views(v@));
    r
}

impl TrafficCache {
    pub fn new(window: usize, poll_interval_ms: u64) -> (r: TrafficCache)
        ensures
            r@.wf(),
            r@.series.len() == 0,
            r@.window == window,
            r@.last_poll_error is None,
            r@.poll == (PollView { running: false, interval_ms: poll_interval_ms, generation: 0 }),
    {
        let r = TrafficCache {
            series: Vec::new(),
            window,
            last_poll_error: None,
            poll: PollScheduler::new(poll_interval_ms),
        };
        assert(r@.series =~= Seq::<SeriesView>::empty());
        r
    }

    fn find(&self, name: &String) -> (r: Option<usize>)
        ensures
            match r {
                Some(i) => i < self@.series.len() && self@.has(name@) && self@.index_of(name@) == i,
                None => !self@.has(name@),
            },
    {
        let mut i: usize = 0;
        while i < self.series.len()
            invariant
                0 <= i <= self.series@.len(),
                forall|k: int| 0 <= k < i ==> self.series@[k].name@ != name@,
            decreases self.series@.len() - i,
        {
            if self.series[i].name == *name {
                assert(self@.series[i as int].name == name@);
                proof {
                    assert forall|k: int| 0 <= k < i implies #[trigger] self@.series[k].name != name@ by {
                        assert(self@.series[k].name == self.series@[k].name@);
                    }
                    assert(self@.first_at(name@, i as int));
                    let j = self@.index_of(name@);
                    assert(self@.first_at(name@, j));
                    if j < i {
                        assert(self@.series[j].name != name@);
                    } else if i < j {
                        assert(self@.series[i as int].name != name@);
                    }
                }
                return Some(i);
            }
            i = i + 1;
        }
        assert forall|k: int| 0 <= k < self@.series.len() implies #[trigger] self@.series[k].name != name@ by {
            assert(self@.series[k].name == self.series@[k].name@);
        }
        assert forall|k: int| !#[trigger] self@.first_at(name@, k) by {
            if 0 <= k < self@.series.len() {
                assert(self@.series[k].name != name@);
            }
        }
        None
    }

    /// Appends a sample to its interface's history (see `TrafficCacheView::updated`).
    pub fn update(&mut self, sample: &TrafficSample)
        ensures
            final(self)@ == old(self)@.updated(sample@),
            old(self)@.wf() ==> final(self)@.wf(),
    {
        let ghost before = self@;
        proof {
            if before.wf() {
                lemma_updated_wf(before, sample@);
            }
        }
        match self.find(&sample.interface) {
            Some(i) => {
                let window = self.window;
                let ghost old_series = self.series@;
                let mut samples = clone_samples(&self.series[i].samples);
                samples.push(sample.clone());
                let ghost pushed = samples@;
                assert(sample_views(pushed) =~= sample_views(self.series@[i as int].samples@).push(sample@));
                if samples.len() > window {
                    samples.remove(0);
                    assert(sample_views(samples@) =~= sample_views(pushed).drop_first());
                }
                let name = sample.interface.clone();
                self.series.set(i, Series { name, samples });
                assert(self@.series =~= before.series.update(
                    i as int,
                    SeriesView { name: sample@.interface, samples: bounded_push(before.series[i as int].samples, before.window, sample@) },
                ));
            },
            None => {
                let mut samples: Vec<TrafficSample> = Vec::new();
                if self.window > 0 {
                    samples.push(sample.clone());
                }
                assert(sample_views(samples@) =~= bounded_push(Seq::empty(), before.window, sample@));
                let name = sample.interface.clone();
                self.series.push(Series { name, samples });
                assert(self@.series =~= before.series.push(
                    SeriesView { name: sample@.interface, samples: bounded_push(Seq::empty(), before.window, sample@) },
                ));
            },
        }
    }

    /// Appends a batch of samples in order.
    pub fn merge(&mut self, incoming: &Vec<TrafficSample>)
        ensures
            final(self)@ == old(self)@.merged(sample_views(incoming@)),
            old(self)@.wf() ==> final(self)@.wf(),
    {
        let ghost start = self@;
        let mut i: usize = 0;
        while i < incoming.len()
            invariant
                0 <= i <= incoming@.len(),
                start.wf() ==> self@.wf(),
                self@ == start.merged(sample_views(incoming@.take(i as int))),
            decreases incoming@.len() - i,
        {
            self.update(&incoming[i]);
            i = i + 1;
            assert(sample_views(incoming@.take(i as int)).drop_last() =~= sample_views(
                incoming@.take(i - 1),
            ));
        }
        assert(incoming@.take(i as int) =~= incoming@);
    }

    /// Hands the result of a poll tick to the cache; merged (or its error
    /// recorded) only if `ticket` belongs to the current run.
    pub fn apply_tick(&mut self, ticket: u64, result: Result<Vec<TrafficSample>, FetchError>) -> (applied: bool)
        ensures
            final(self)@ == old(self)@.after_tick(ticket, traffic_result_view(result)),
            applied == old(self)@.poll.accepts(ticket),
            old(self)@.wf() ==> final(self)@.wf(),
    {
        if !self.poll.is_current(ticket) {
            return false;
        }
        match result {
            Ok(incoming) => {
                self.merge(&incoming);
                self.last_poll_error = None;
            },
            Err(e) => {
                self.last_poll_error = Some(e);
            },
        }
        true
    }

    /// The most recent sample of `name`.
    pub fn get_current(&self, name: &String) -> (r: Result<TrafficSample, TrafficError>)
        ensures
            self@.samples_of(name@).len() == 0 ==> r == Err::<TrafficSample, TrafficError>(TrafficError::NoData),
            self@.samples_of(name@).len() > 0 ==> r is Ok && r->Ok_0@ == self@.samples_of(name@).last(),
    {
        match self.find(name) {
            None => Err(TrafficError::NoData),
            Some(i) => {
                let n = self.series[i].samples.len();
                if n == 0 {
                    Err(TrafficError::NoData)
                } else {
                    Ok(self.series[i].samples[n - 1].clone())
                }
            },
        }
    }

    /// The samples of `name` taken between `from` and `to` (both included),
    /// oldest first; fewer, or none, where the history is short.
    pub fn get_series(&self, name: &String, from: u64, to: u64) -> (r: Vec<TrafficSample>)
        ensures
            sample_views(r@) == in_window(self@.samples_of(name@), from, to),
    {
        let mut out: Vec<TrafficSample> = Vec::new();
        match self.find(name) {
            None => {
                assert(sample_views(out@) =~= Seq::<TrafficSampleView>::empty());
            },
            Some(idx) => {
                let samples = &self.series[idx].samples;
                let ghost all = sample_views(samples@);
                assert(all == self@.samples_of(name@));
                let mut i: usize = 0;
                while i < samples.len()
                    invariant
                        0 <= i <= samples@.len(),
                        all == sample_views(samples@),
                        sample_views(out@) == in_window(all.take(i as int), from, to),
                    decreases samples@.len() - i,
                {
                    assert(all.take(i + 1).drop_last() =~= all.take(i as int));
                    let ts = samples[i].timestamp;
                    if from <= ts && ts <= to {
                        let ghost outv = sample_views(out@);
                        out.push(samples[i].clone());
                        assert(sample_views(out@) =~= outv.push(all[i as int]));
                    }
                    i = i + 1;
                }
                assert(all.take(i as int) =~= all);
            },
        }
        out
    }

    /// Empties every history and the error slot; a running poller keeps running.
    pub fn clear_cache(&mut self)
        ensures
            final(self)@ == (TrafficCacheView { series: Seq::empty(), last_poll_error: None, ..old(self)@ }),
    {
        self.series = Vec::new();
        self.last_poll_error = None;
        assert(self@.series =~= Seq::<SeriesView>::empty());
    }

    /// Starts polling, replacing a running poller; returns the new run's ticket.
    pub fn start_polling(&mut self, interval_ms: u64) -> (ticket: u64)
        ensures
            final(self)@ == (TrafficCacheView { poll: old(self)@.poll.started(interval_ms), ..old(self)@ }),
            ticket == final(self)@.poll.generation,
    {
        self.poll.start(interval_ms)
    }

    /// Stops polling: no tick result is merged after this returns.
    pub fn stop_polling(&mut self)
        ensures
            final(self)@ == (TrafficCacheView { poll: old(self)@.poll.stopped(), ..old(self)@ }),
    {
        self.poll.stop();
    }

    pub fn is_polling(&self) -> (r: bool)
        ensures
            r == self@.poll.running,
    {
        self.poll.is_running()
    }

    pub fn is_current(&self, ticket: u64) -> (r: bool)
        ensures
            r == self@.poll.accepts(ticket),
    {
        self.poll.is_current(ticket)
    }

    pub fn window(&self) -> (r: usize)
        ensures
            r == self@.window,
    {
        self.window
    }

    pub fn last_poll_error(&self) -> (r: Option<FetchError>)
        ensures
            r == self@.last_poll_error,
    {
        self.last_poll_error
    }

    /// The number of samples held for `name`.
    pub fn sample_count(&self, name: &String) -> (r: usize)
        ensures
            r == self@.samples_of(name@).len(),
    {
        match self.find(name) {
            None => 0,
            Some(i) => self.series[i].samples.len(),
        }
    }
}

fn contains_index(v: &Vec<usize>, x: usize) -> (r: bool)
    ensures
        r == as_ints(v@).contains(x as int),
{
    let mut i: usize = 0;
    while i < v.len()
        invariant
            0 <= i <= v@.len(),
            forall|k: int| 0 <= k < i ==> v@[k] != x,
        decreases v@.len() - i,
    {
        if v[i] == x {
            assert(as_ints(v@)[i as int] == x as int);
            return true;
        }
        i = i + 1;
    }
    false
}

fn metric_exec(s: &TrafficSample, by: Metric) -> (r: u128)
    ensures
        r == metric_of(s@, by),
{
    match by {
        Metric::Bytes => s.bytes_in as u128 + s.bytes_out as u128,
        Metric::Packets => s.packets_in as u128 + s.packets_out as u128,
    }
}

impl Series {
    fn outranks(&self, other: &Series, by: Metric) -> (r: bool)
        requires
            self@.samples.len() > 0,
            other@.samples.len() > 0,
        ensures
            r == outranks(self@, other@, by),
    {
        let ka = metric_exec(&self.samples[self.samples.len() - 1], by);
        let kb = metric_exec(&other.samples[other.samples.len() - 1], by);
        ka > kb || (ka == kb && text_lt_exec(&self.name, &other.name))
    }
}

impl TrafficCache {
    fn top_indices(&self, n: usize, by: Metric) -> (r: Vec<usize>)
        ensures
            is_top(self@, n as nat, by, as_ints(r@)),
    {
        let ghost v = self@;
        let mut picked: Vec<usize> = Vec::new();
        let mut done = false;
        while !done && picked.len() < n
            invariant
                v == self@,
                picked@.len() <= n,
                as_ints(picked@).no_duplicates(),
                forall|k: int| 0 <= k < picked@.len() ==> 0 <= #[trigger] as_ints(picked@)[k] < v.series.len()
                    && v.series[as_ints(picked@)[k]].samples.len() > 0,
                done ==> forall|j: int| 0 <= j < v.series.len() && #[trigger] v.series[j].samples.len() > 0
                    ==> as_ints(picked@).contains(j),
                forall|k: int, j: int|
                    0 <= k < picked@.len() && 0 <= j < v.series.len() && v.series[j].samples.len() > 0
                        && !as_ints(picked@).take(k).contains(j) ==> j == as_ints(picked@)[k]
                        || !#[trigger] outranks(v.series[j], #[trigger] v.series[as_ints(picked@)[k]], by),
            decreases n - picked@.len() + (if done { 0int } else { 1int }),
        {
            let ghost p = as_ints(picked@);
            let mut best: Option<usize> = None;
            let mut i: usize = 0;
            while i < self.series.len()
                invariant
                    v == self@,
                    p == as_ints(picked@),
                    0 <= i <= self.series@.len(),
                    best is None ==> forall|j: int| 0 <= j < i && #[trigger] v.series[j].samples.len() > 0 ==> p.contains(j),
                    best matches Some(b) ==> b < i && v.series[b as int].samples.len() > 0 && !p.contains(b as int)
                        && forall|j: int| 0 <= j < i && v.series[j].samples.len() > 0 && !p.contains(j)
                            ==> j == b || !#[trigger] outranks(v.series[j], v.series[b as int], by),
                decreases self.series@.len() - i,
            {
                assert(v.series[i as int] == self.series@[i as int]@);
                if self.series[i].samples.len() > 0 && !contains_index(&picked, i) {
                    match best {
                        None => {
                            best = Some(i);
                        },
                        Some(b) => {
                            assert(v.series[b as int] == self.series@[b as int]@);
                            if self.series[i].outranks(&self.series[b], by) {
                                proof {
                                    assert forall|j: int| 0 <= j < i && v.series[j].samples.len() > 0 && !p.contains(j)
                                        implies j == i || !#[trigger] outranks(v.series[j], v.series[i as int], by) by {
                                        lemma_outranks_order(v.series[j], v.series[i as int], v.series[b as int], by);
                                    }
                                }
                                best = Some(i);
                            }
                        },
                    }
                }
                i = i + 1;
            }
            match best {
                None => {
                    done = true;
                },
                Some(b) => {
                    picked.push(b);
                    let ghost q = as_ints(picked@);
                    assert(q =~= p.push(b as int));
                    assert forall|k: int| 0 <= k < p.len() implies q.take(k) =~= p.take(k) by {}
                    assert(q.take(p.len() as int) =~= p);
                    assert forall|x: int, y: int| 0 <= x < q.len() && 0 <= y < q.len() && x != y implies q[x] != q[y] by {
                        if x == p.len() {
                            assert(p.contains(q[y]) || y == p.len());
                        } else if y == p.len() {
                            assert(p.contains(q[x]));
                        }
                    }
                },
            }
        }
        picked
    }

    /// The names of the `n` interfaces that rank first by `by` (see `is_top`).
    pub fn get_top(&self, n: usize, by: Metric) -> (r: Vec<String>)
        ensures
            exists|idx: Seq<int>| #![auto]
                is_top(self@, n as nat, by, idx) && r@.len() == idx.len()
                && forall|k: int| 0 <= k < idx.len() ==> r@[k]@ == self@.series[idx[k]].name,
    {
        let idx = self.top_indices(n, by);
        let ghost gi = as_ints(idx@);
        let mut r: Vec<String> = Vec::new();
        let mut k: usize = 0;
        while k < idx.len()
            invariant
                gi == as_ints(idx@),
                is_top(self@, n as nat, by, gi),
                0 <= k <= idx@.len(),
                r@.len() == k,
                forall|m: int| 0 <= m < k ==> r@[m]@ == self@.series[gi[m]].name,
            decreases idx@.len() - k,
        {
            assert(0 <= gi[k as int] < self@.series.len());
            let i = idx[k];
            assert(self@.series[i as int] == self.series@[i as int]@);
            r.push(self.series[i].name.clone());
            k = k + 1;
        }
        r
    }
}

} // verus!
