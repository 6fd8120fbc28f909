//! Merging a calendar's sources: resolve each, concatenate in declaration
//! order, run the calendar's steps and drop events whose times repeat.
use vstd::prelude::*;

use crate::config::{CalendarConfig, Config, SourceConfig};
use crate::error::Error;
use crate::ical::{Event, EventView};
use crate::parser::{ical_accepts, parse_calendar, parsed_events, sanitized};
use crate::steps::{compiled_specs, event_views, process, process_events, reversed, step_specs, steps_compile, views_of, CompiledStep};
use crate::text::text_eq;

verus! {

/// The outcome of merging one calendar: its events and the failures of the
/// sources that could not be resolved.
#[derive(Debug)]
pub struct MergeResult {
    pub events: Vec<Event>,
    pub errors: Vec<(String, Error)>,
}

impl MergeResult {
    pub fn new(events: Vec<Event>, errors: Vec<(String, Error)>) -> (r: MergeResult)
        ensures
            r.events == events,
            r.errors == errors,
    {
        MergeResult { events, errors }
    }
}

/// What one source yields: its events with the failures met inside a
/// referenced calendar, or its own failure under its identifier.
pub type SourceResult = Result<(Vec<Event>, Vec<(String, Error)>), (String, Error)>;

/// The key that identifies duplicates: start and end time.
pub open spec fn time_key(e: EventView) -> (Option<i64>, Option<i64>) {
    (e.start, e.end)
}

/// The first event of each key, in order.
pub open spec fn dedup(evs: Seq<EventView>) -> Seq<EventView>
    decreases evs.len(),
{
    if evs.len() == 0 {
        Seq::empty()
    } else {
        let d = dedup(evs.drop_last());
        if exists|j: int| 0 <= j < evs.len() - 1 && time_key(#[trigger] evs[j]) == time_key(evs.last()) {
            d
        } else {
            d.push(evs.last())
        }
    }
}

/// Deduplication keeps exactly the first event of each (start, end) pair:
/// the kept events have distinct keys, each is the first event of its key in
/// the input, and the first event of every key is kept.
pub proof fn lemma_dedup_keeps_first(evs: Seq<EventView>)
    ensures
        forall|i: int, j: int|
            0 <= i < j < dedup(evs).len() ==> time_key(#[trigger] dedup(evs)[i]) != time_key(
                #[trigger] dedup(evs)[j],
            ),
        forall|i: int|
            0 <= i < dedup(evs).len() ==> exists|j: int|
                0 <= j < evs.len() && #[trigger] dedup(evs)[i] == evs[j] && is_first_of_key(evs, j),
        forall|j: int| 0 <= j < evs.len() && #[trigger] is_first_of_key(evs, j) ==> dedup(evs).contains(evs[j]),
    decreases evs.len(),
{
    if evs.len() > 0 {
        let p = evs.drop_last();
        let x = evs.last();
        let n = evs.len() - 1;
        lemma_dedup_keeps_first(p);
        let dp = dedup(p);
        let d = dedup(evs);
        assert forall|j: int| 0 <= j < n implies (#[trigger] is_first_of_key(evs, j)) == is_first_of_key(p, j) by {
            assert(evs[j] == p[j]);
            assert forall|k: int| 0 <= k < j implies evs[k] == p[k] by {}
        }
        if exists|j: int| 0 <= j < evs.len() - 1 && time_key(#[trigger] evs[j]) == time_key(evs.last()) {
            assert(d == dp);
            assert forall|i: int| 0 <= i < d.len() implies exists|j: int|
                0 <= j < evs.len() && #[trigger] d[i] == evs[j] && is_first_of_key(evs, j) by {
                let j = choose|j: int| 0 <= j < p.len() && #[trigger] dp[i] == p[j] && is_first_of_key(p, j);
                assert(evs[j] == p[j]);
            }
            assert forall|j: int| 0 <= j < evs.len() && #[trigger] is_first_of_key(evs, j) implies d.contains(evs[j]) by {
                if j == n {
                    let w = choose|w: int| 0 <= w < evs.len() - 1 && time_key(#[trigger] evs[w]) == time_key(evs.last());
                    assert(time_key(evs[w]) == time_key(evs[j]));
                } else {
                    assert(is_first_of_key(p, j));
                    assert(evs[j] == p[j]);
                }
            }
        } else {
            assert(d == dp.push(x));
            assert forall|i: int| 0 <= i < dp.len() implies time_key(#[trigger] dp[i]) != time_key(x) by {
                let j = choose|j: int| 0 <= j < p.len() && #[trigger] dp[i] == p[j] && is_first_of_key(p, j);
                assert(evs[j] == p[j]);
            }
            assert forall|i: int, j: int| 0 <= i < j < d.len() implies time_key(#[trigger] d[i]) != time_key(
                #[trigger] d[j],
            ) by {
                if j == dp.len() {
                    assert(d[i] == dp[i]);
                } else {
                    assert(d[i] == dp[i] && d[j] == dp[j]);
                }
            }
            assert forall|i: int| 0 <= i < d.len() implies exists|j: int|
                0 <= j < evs.len() && #[trigger] d[i] == evs[j] && is_first_of_key(evs, j) by {
                if i == dp.len() {
                    assert(d[i] == evs[n]);
                    assert(is_first_of_key(evs, n));
                } else {
                    let j = choose|j: int| 0 <= j < p.len() && #[trigger] dp[i] == p[j] && is_first_of_key(p, j);
                    assert(evs[j] == p[j]);
                    assert(d[i] == dp[i]);
                }
            }
            assert forall|j: int| 0 <= j < evs.len() && #[trigger] is_first_of_key(evs, j) implies d.contains(evs[j]) by {
                if j == n {
                    assert(d[dp.len() as int] == evs[j]);
                } else {
                    assert(is_first_of_key(p, j));
                    let i = choose|i: int| 0 <= i < dp.len() && dp[i] == p[j];
                    assert(d[i] == dp[i]);
                }
            }
        }
    }
}

/// No earlier event has the same key as event `j`.
pub open spec fn is_first_of_key(evs: Seq<EventView>, j: int) -> bool {
    forall|k: int| 0 <= k < j ==> time_key(#[trigger] evs[k]) != time_key(evs[j])
}

/// Each source resolves on its own: outcome `k` is what source `k` alone
/// resolves to, whatever the other sources do.
pub proof fn lemma_sources_independent(
    config: Config,
    feeds: Seq<(String, Result<String, String>)>,
    srcs: Seq<SourceConfig>,
    fuel: nat,
)
    ensures
        sources_spec(config, feeds, srcs, fuel).len() == srcs.len(),
        forall|k: int|
            0 <= k < srcs.len() ==> #[trigger] sources_spec(config, feeds, srcs, fuel)[k] == source_spec(
                config,
                feeds,
                srcs[k],
                fuel,
            ),
    decreases srcs.len(),
{
    if srcs.len() > 0 {
        lemma_sources_independent(config, feeds, srcs.drop_last(), fuel);
        assert forall|k: int| 0 <= k < srcs.len() implies #[trigger] sources_spec(config, feeds, srcs, fuel)[k]
            == source_spec(config, feeds, srcs[k], fuel) by {
            if k < srcs.len() - 1 {
                assert(srcs.drop_last()[k] == srcs[k]);
            }
        }
    }
}

/// A source that fails adds its own failure to the merge's failures.
pub proof fn lemma_failure_listed(os: Seq<SourceOutcome>, j: int)
    requires
        0 <= j < os.len(),
        os[j] is Err,
    ensures
        failures(os).contains(os[j]->Err_0),
    decreases os.len(),
{
    let prev = os.drop_last();
    if j == os.len() - 1 {
        assert(failures(os).last() == os[j]->Err_0);
    } else {
        lemma_failure_listed(prev, j);
        let k = choose|k: int| 0 <= k < failures(prev).len() && failures(prev)[k] == prev[j]->Err_0;
        match os.last() {
            Ok((_, errs)) => {
                assert(failures(os)[k] == failures(prev)[k]);
            },
            Err(f) => {
                assert(failures(os)[k] == failures(prev)[k]);
            },
        }
    }
}

/// A source that resolves contributes its events, in order, to what the
/// calendar's steps and deduplication see.
pub proof fn lemma_resolved_listed(os: Seq<SourceOutcome>, j: int)
    requires
        0 <= j < os.len(),
        os[j] is Ok,
    ensures
        exists|before: Seq<EventView>, after: Seq<EventView>|
            resolved_events(os) == before + os[j]->Ok_0.0 + after,
    decreases os.len(),
{
    let prev = os.drop_last();
    if j == os.len() - 1 {
        assert(resolved_events(os) == resolved_events(prev) + os[j]->Ok_0.0 + Seq::<EventView>::empty());
    } else {
        lemma_resolved_listed(prev, j);
        let (b, a) = choose|b: Seq<EventView>, a: Seq<EventView>|
            resolved_events(prev) == b + prev[j]->Ok_0.0 + a;
        match os.last() {
            Ok((evs, _)) => {
                assert(resolved_events(os) == b + os[j]->Ok_0.0 + (a + evs));
            },
            Err(_) => {
                assert(resolved_events(os) == b + os[j]->Ok_0.0 + a);
            },
        }
    }
}

/// A feed whose fetch failed does not stop the merge: the calendar's other
/// sources still resolve as they would alone, and the failure is listed
/// under the feed's URL.
pub proof fn lemma_failed_fetch_reported(
    config: Config,
    feeds: Seq<(String, Result<String, String>)>,
    name: Seq<char>,
    fuel: nat,
    j: int,
)
    requires
        config.has_calendar(name),
        steps_compile(config.cal(calendar_index(config, name)).steps@),
        0 <= j < config.cal(calendar_index(config, name)).sources@.len(),
        config.cal(calendar_index(config, name)).sources@[j] matches SourceConfig::Url { url, .. }
            && (feed_index(feeds, url@) matches Some(i) ==> feeds[i].1 is Err),
    ensures
        ({
            let srcs = config.cal(calendar_index(config, name)).sources@;
            let os = sources_spec(config, feeds, srcs, fuel);
            &&& merge_spec(config, feeds, name, fuel) == Ok::<(Seq<EventView>, Seq<Failure>), FailureKind>(
                (dedup(process(step_specs(config.cal(calendar_index(config, name)).steps@), resolved_events(os))), failures(os)),
            )
            &&& failures(os).contains((srcs[j].spec_identifier(), FailureKind::Fetch))
            &&& forall|k: int| 0 <= k < srcs.len() ==> #[trigger] os[k] == source_spec(config, feeds, srcs[k], fuel)
        }),
{
    let srcs = config.cal(calendar_index(config, name)).sources@;
    lemma_sources_independent(config, feeds, srcs, fuel);
    let os = sources_spec(config, feeds, srcs, fuel);
    assert(os[j] == source_spec(config, feeds, srcs[j], fuel));
    lemma_failure_listed(os, j);
}

/// The kind of a failure.
#[derive(Debug, Clone, Copy, PartialEq, Eq, Structural)]
pub enum FailureKind {
    Config,
    Fetch,
    Parse,
    Regex,
    CalendarNotFound,
}

pub open spec fn kind_of(e: Error) -> FailureKind {
    match e {
        Error::Config(_) => FailureKind::Config,
        Error::Fetch(_) => FailureKind::Fetch,
        Error::Parse(_) => FailureKind::Parse,
        Error::Regex(_) => FailureKind::Regex,
        Error::CalendarNotFound(_) => FailureKind::CalendarNotFound,
    }
}

impl Error {
    /// The kind of the error.
    pub fn kind(&self) -> (r: FailureKind)
        ensures
            r == kind_of(*self),
    {
        match self {
            Error::Config(_) => FailureKind::Config,
            Error::Fetch(_) => FailureKind::Fetch,
            Error::Parse(_) => FailureKind::Parse,
            Error::Regex(_) => FailureKind::Regex,
            Error::CalendarNotFound(_) => FailureKind::CalendarNotFound,
        }
    }
}

/// A failure: the identifier of the source it belongs to, and its kind.
pub type Failure = (Seq<char>, FailureKind);

pub open spec fn failure_of(f: (String, Error)) -> Failure {
    (f.0@, kind_of(f.1))
}

pub open spec fn failures_of(v: Seq<(String, Error)>) -> Seq<Failure> {
    v.map_values(|f: (String, Error)| failure_of(f))
}

/// What a source resolves to: its events and the failures met inside a
/// referenced calendar, or its own failure.
pub type SourceOutcome = Result<(Seq<EventView>, Seq<Failure>), Failure>;

pub open spec fn outcome_of(r: SourceResult) -> SourceOutcome {
    match r {
        Ok((evs, errs)) => Ok((event_views(evs@), failures_of(errs@))),
        Err(f) => Err(failure_of(f)),
    }
}

pub open spec fn outcomes_of(rs: Seq<SourceResult>) -> Seq<SourceOutcome> {
    rs.map_values(|r: SourceResult| outcome_of(r))
}

/// The events of the sources that resolved, in source order.
pub open spec fn resolved_events(os: Seq<SourceOutcome>) -> Seq<EventView>
    decreases os.len(),
{
    if os.len() == 0 {
        Seq::empty()
    } else {
        let prev = resolved_events(os.drop_last());
        match os.last() {
            Ok((evs, _)) => prev + evs,
            Err(_) => prev,
        }
    }
}

/// Every failure, in source order: a failed source's own, and those met
/// inside the calendars that resolved sources refer to.
pub open spec fn failures(os: Seq<SourceOutcome>) -> Seq<Failure>
    decreases os.len(),
{
    if os.len() == 0 {
        Seq::empty()
    } else {
        let prev = failures(os.drop_last());
        match os.last() {
            Ok((_, errs)) => prev + errs,
            Err(f) => prev.push(f),
        }
    }
}

/// Failures met inside a referenced calendar, under the referring source's
/// identifier: `<id>: <inner id>`.
pub open spec fn tagged(id: Seq<char>, errs: Seq<Failure>) -> Seq<Failure> {
    errs.map_values(|f: Failure| (id + ": "@ + f.0, f.1))
}

pub open spec fn merge_model(r: Result<MergeResult, Error>) -> Result<(Seq<EventView>, Seq<Failure>), FailureKind> {
    match r {
        Ok(m) => Ok((event_views(m.events@), failures_of(m.errors@))),
        Err(e) => Err(kind_of(e)),
    }
}

/// Merging calendar `name`: its sources resolved in declaration order, the
/// events of those that resolved concatenated, run through the calendar's
/// steps and deduplicated, with every failure. References may nest `fuel`
/// deep.
pub open spec fn merge_spec(
    config: Config,
    feeds: Seq<(String, Result<String, String>)>,
    name: Seq<char>,
    fuel: nat,
) -> Result<(Seq<EventView>, Seq<Failure>), FailureKind>
    decreases fuel, 2nat, 0nat,
{
    if !config.has_calendar(name) {
        Err(FailureKind::CalendarNotFound)
    } else {
        let cal = config.cal(calendar_index(config, name));
        if !steps_compile(cal.steps@) {
            Err(FailureKind::Config)
        } else {
            let os = sources_spec(config, feeds, cal.sources@, fuel);
            Ok((dedup(process(step_specs(cal.steps@), resolved_events(os))), failures(os)))
        }
    }
}

/// What each of the sources resolves to.
pub open spec fn sources_spec(
    config: Config,
    feeds: Seq<(String, Result<String, String>)>,
    srcs: Seq<SourceConfig>,
    fuel: nat,
) -> Seq<SourceOutcome>
    decreases fuel, 1nat, srcs.len(),
{
    if srcs.len() == 0 {
        Seq::empty()
    } else {
        sources_spec(config, feeds, srcs.drop_last(), fuel).push(
            source_spec(config, feeds, srcs.last(), fuel),
        )
    }
}

/// What one source resolves to. A feed: the events parsed from its fetched
/// text, through the source's steps; a fetch failure, text that does not
/// parse or a step that does not compile fails it. A reference: the merged
/// events of the referenced calendar through the source's steps, with that
/// merge's failures tagged; a failing merge fails it.
pub open spec fn source_spec(
    config: Config,
    feeds: Seq<(String, Result<String, String>)>,
    s: SourceConfig,
    fuel: nat,
) -> SourceOutcome
    decreases fuel, 0nat, 0nat,
{
    let id = s.spec_identifier();
    match s {
        SourceConfig::Url { url, steps } => match feed_index(feeds, url@) {
            None => Err((id, FailureKind::Fetch)),
            Some(i) => match feeds[i].1 {
                Err(_) => Err((id, FailureKind::Fetch)),
                Ok(t) => if !ical_accepts(sanitized(t@)) {
                    Err((id, FailureKind::Parse))
                } else if !steps_compile(steps@) {
                    Err((id, FailureKind::Regex))
                } else {
                    Ok((process(step_specs(steps@), parsed_events(sanitized(t@))), Seq::empty()))
                },
            },
        },
        SourceConfig::Calendar { calendar, steps } => if fuel == 0 {
            Err((id, FailureKind::Config))
        } else {
            match merge_spec(config, feeds, calendar@, (fuel - 1) as nat) {
                Err(k) => Err((id, k)),
                Ok((evs, errs)) => if !steps_compile(steps@) {
                    Err((id, FailureKind::Regex))
                } else {
                    Ok((process(step_specs(steps@), evs), tagged(id, errs)))
                },
            }
        },
    }
}

fn same_key(a: (Option<i64>, Option<i64>), b: (Option<i64>, Option<i64>)) -> (r: bool)
    ensures
        r == (a == b),
{
    let first = match (a.0, b.0) {
        (Some(x), Some(y)) => x == y,
        (None, None) => true,
        _ => false,
    };
    let second = match (a.1, b.1) {
        (Some(x), Some(y)) => x == y,
        (None, None) => true,
        _ => false,
    };
    first && second
}

/// Keeps the first event of each (start, end) pair, in order.
pub fn deduplicate_events(events: Vec<Event>) -> (r: Vec<Event>)
    ensures
        event_views(r@) == dedup(event_views(events@)),
{
    let ghost orig = event_views(events@);
    let n = events.len();
    let mut pending = reversed(events);
    let mut seen: Vec<(Option<i64>, Option<i64>)> = Vec::new();
    let mut out: Vec<Event> = Vec::new();
    while pending.len() > 0
        invariant
            n == orig.len(),
            pending@.len() <= n,
            forall|k: int| 0 <= k < pending@.len() ==> (#[trigger] pending@[k])@ == orig[n - 1 - k],
            seen@.len() == n - pending@.len(),
            forall|k: int| 0 <= k < seen@.len() ==> #[trigger] seen@[k] == time_key(orig[k]),
            event_views(out@) == dedup(orig.subrange(0, n - pending@.len())),
        decreases pending@.len(),
    {
        let ghost done = n - pending@.len();
        let event = pending.pop().unwrap();
        let key = (event.start(), event.end());
        let mut found = false;
        let mut j: usize = 0;
        while j < seen.len()
            invariant
                j <= seen@.len(),
                found <==> exists|k: int| 0 <= k < j && seen@[k] == key,
            decreases seen@.len() - j,
        {
            if same_key(seen[j], key) {
                found = true;
            }
            j += 1;
        }
        proof {
            let cur = orig.subrange(0, done + 1);
            assert(cur.drop_last() =~= orig.subrange(0, done));
            assert(cur.last() == event@);
            if found {
                let k = choose|k: int| 0 <= k < seen@.len() && seen@[k] == key;
                assert(time_key(cur[k]) == time_key(cur.last()));
            } else {
                assert forall|k: int| 0 <= k < cur.len() - 1 implies time_key(#[trigger] cur[k]) != time_key(
                    cur.last(),
                ) by {
                    assert(seen@[k] == time_key(orig[k]));
                }
            }
        }
        seen.push(key);
        if !found {
            out.push(event);
            assert(event_views(out@) =~= dedup(orig.subrange(0, done)).push(event@));
        }
    }
    proof {
        assert(orig.subrange(0, n as int) =~= orig);
    }
    out
}

/// Joins the results of a calendar's sources: the events of those that
/// resolved, in source order, through the calendar's steps and then
/// deduplicated; the failures of all of them, in source order.
pub fn combine_sources(steps: &[CompiledStep], results: Vec<SourceResult>) -> (r: MergeResult)
    ensures
        event_views(r.events@) == dedup(process(compiled_specs(steps@), resolved_events(outcomes_of(results@)))),
        failures_of(r.errors@) == failures(outcomes_of(results@)),
{
    let ghost orig = results@;
    let n = results.len();
    let mut pending = reversed(results);
    let mut all: Vec<Event> = Vec::new();
    let mut errors: Vec<(String, Error)> = Vec::new();
    while pending.len() > 0
        invariant
            n == orig.len(),
            pending@.len() <= n,
            forall|k: int| 0 <= k < pending@.len() ==> #[trigger] pending@[k] == orig[n - 1 - k],
            event_views(all@) == resolved_events(outcomes_of(orig.subrange(0, n - pending@.len()))),
            failures_of(errors@) == failures(outcomes_of(orig.subrange(0, n - pending@.len()))),
        decreases pending@.len(),
    {
        let ghost done = n - pending@.len();
        let result = pending.pop().unwrap();
        proof {
            let cur = outcomes_of(orig.subrange(0, done + 1));
            assert(cur.drop_last() =~= outcomes_of(orig.subrange(0, done)));
            assert(cur.last() == outcome_of(result));
        }
        match result {
            Ok((events, nested)) => {
                let ghost before_all = all@;
                let ghost before_err = errors@;
                let ghost new_events = events@;
                let ghost new_errors = nested@;
                let mut events = events;
                let mut nested = nested;
                all.append(&mut events);
                errors.append(&mut nested);
                assert(event_views(all@) =~= event_views(before_all) + event_views(new_events));
                assert(failures_of(errors@) =~= failures_of(before_err) + failures_of(new_errors));
            },
            Err(failure) => {
                let ghost before_err = errors@;
                errors.push(failure);
                assert(failures_of(errors@) =~= failures_of(before_err).push(failure_of(failure)));
            },
        }
    }
    proof {
        assert(orig.subrange(0, n as int) =~= orig);
    }
    let processed = process_events(all, steps);
    MergeResult::new(deduplicate_events(processed), errors)
}

/// Fetched feed text, or the fetch failure, by URL.
pub type Feeds = [(String, Result<String, String>)];

/// The entry of the first feed fetched for the URL, if any.
pub open spec fn feed_index(feeds: Seq<(String, Result<String, String>)>, url: Seq<char>) -> Option<int> {
    if exists|i: int| 0 <= i < feeds.len() && (#[trigger] feeds[i]).0@ == url {
        let i = choose|i: int|
            0 <= i < feeds.len() && (#[trigger] feeds[i]).0@ == url && forall|j: int|
                0 <= j < i ==> (#[trigger] feeds[j]).0@ != url;
        Some(i)
    } else {
        None
    }
}

fn find_feed(feeds: &Feeds, url: &str) -> (r: Option<usize>)
    ensures
        r matches Some(i) ==> i < feeds@.len() && feed_index(feeds@, url@) == Some(i as int),
        r is None ==> feed_index(feeds@, url@) is None,
{
    let mut i: usize = 0;
    while i < feeds.len()
        invariant
            i <= feeds@.len(),
            forall|j: int| 0 <= j < i ==> (#[trigger] feeds@[j]).0@ != url@,
        decreases feeds@.len() - i,
    {
        if text_eq(feeds[i].0.as_str(), url) {
            proof {
                assert(feeds@[i as int].0@ == url@);
                let c = choose|c: int|
                    0 <= c < feeds@.len() && (#[trigger] feeds@[c]).0@ == url@ && forall|j: int|
                        0 <= j < c ==> (#[trigger] feeds@[j]).0@ != url@;
                if c < i {
                } else if c > i {
                    assert(feeds@[i as int].0@ == url@);
                }
            }
            return Some(i);
        }
        i += 1;
    }
    None
}


/// `<context>: <inner>`, the identifier of a failure met inside a
/// referenced calendar.
fn nested_identifier(context: &String, inner: &String) -> (r: String)
    ensures
        r@ == context@ + ": "@ + inner@,
{
    context.clone().concat(": ").concat(inner.as_str())
}

/// Puts failures met inside a referenced calendar under the referring
/// source's identifier.
fn tag_failures(id: &String, errors: Vec<(String, Error)>) -> (r: Vec<(String, Error)>)
    ensures
        failures_of(r@) == tagged(id@, failures_of(errors@)),
{
    let ghost orig = errors@;
    let n = errors.len();
    let mut pending = reversed(errors);
    let mut out: Vec<(String, Error)> = Vec::new();
    while pending.len() > 0
        invariant
            n == orig.len(),
            pending@.len() <= n,
            forall|k: int| 0 <= k < pending@.len() ==> #[trigger] pending@[k] == orig[n - 1 - k],
            out@.len() == n - pending@.len(),
            forall|k: int| 0 <= k < out@.len() ==> #[trigger] failure_of(out@[k]) == (id@ + ": "@ + orig[k].0@, kind_of(orig[k].1)),
        decreases pending@.len(),
    {
        let (inner, e) = pending.pop().unwrap();
        out.push((nested_identifier(id, &inner), e));
    }
    assert(failures_of(out@) =~= tagged(id@, failures_of(orig)));
    out
}

/// Resolves one source: a feed is parsed from its fetched text, a reference
/// is merged with the same snapshot; the source's own steps then run on the
/// events. A failure is tagged with the source's identifier.
fn resolve_source(source: &SourceConfig, config: &Config, feeds: &Feeds, fuel: usize) -> (r: SourceResult)
    ensures
        outcome_of(r) == source_spec(*config, feeds@, *source, fuel as nat),
    decreases fuel, 0nat,
{
    let identifier = source.identifier();
    let (events, nested) = match source {
        SourceConfig::Url { url, .. } => {
            let text = match find_feed(feeds, url.as_str()) {
                Some(i) => match &feeds[i].1 {
                    Ok(text) => text,
                    Err(m) => {
                        return Err((identifier, Error::Fetch(m.clone())));
                    },
                },
                None => {
                    return Err((identifier, Error::Fetch(String::from_str("feed was not fetched"))));
                },
            };
            match parse_calendar(text.as_str()) {
                Ok(calendar) => (calendar.into_events(), Vec::new()),
                Err(e) => {
                    return Err((identifier, e));
                },
            }
        },
        SourceConfig::Calendar { calendar, .. } => {
            if fuel == 0 {
                return Err((identifier, Error::Config(String::from_str("Calendar references nest too deeply"))));
            }
            match merge_at(calendar.as_str(), config, feeds, fuel - 1) {
                Ok(merged) => {
                    let MergeResult { events, errors } = merged;
                    (events, tag_failures(&identifier, errors))
                },
                Err(e) => {
                    return Err((identifier, e));
                },
            }
        },
    };
    match CompiledStep::compile_many(source.steps()) {
        Ok(steps) => {
            let kept = process_events(events, steps.as_slice());
            assert(nested@.len() == 0 ==> failures_of(nested@) =~= Seq::<Failure>::empty());
            Ok((kept, nested))
        },
        Err(e) => Err((identifier, e)),
    }
}

/// The first calendar of this name.
pub open spec fn calendar_index(config: Config, name: Seq<char>) -> int {
    choose|i: int|
        0 <= i < config.calendars@.len() && config.name(i) == name && forall|j: int|
            0 <= j < i ==> config.name(j) != name
}

fn merge_at(calendar_id: &str, config: &Config, feeds: &Feeds, fuel: usize) -> (r: Result<MergeResult, Error>)
    ensures
        merge_model(r) == merge_spec(*config, feeds@, calendar_id@, fuel as nat),
    decreases fuel, 2nat,
{
    let index = match config.find_calendar(calendar_id) {
        Some(i) => i,
        None => {
            return Err(Error::CalendarNotFound(String::from_str(calendar_id)));
        },
    };
    proof {
        lemma_first_index(*config, calendar_id@, index as int);
    }
    let calendar: &CalendarConfig = &config.calendars[index].1;
    let steps = match CompiledStep::compile_many(calendar.steps.as_slice()) {
        Ok(steps) => steps,
        Err(e) => {
            return Err(Error::Config(String::from_str("Failed to compile calendar-level steps: ").concat(e.message().as_str())));
        },
    };
    let mut results: Vec<SourceResult> = Vec::new();
    let mut j: usize = 0;
    while j < calendar.sources.len()
        invariant
            j <= calendar.sources@.len(),
            outcomes_of(results@) == sources_spec(*config, feeds@, calendar.sources@.subrange(0, j as int), fuel as nat),
        decreases calendar.sources@.len() - j,
    {
        let r = resolve_source(&calendar.sources[j], config, feeds, fuel);
        let ghost prev = results@;
        results.push(r);
        proof {
            let sub = calendar.sources@.subrange(0, j as int + 1);
            assert(sub.drop_last() =~= calendar.sources@.subrange(0, j as int));
            assert(outcomes_of(results@) =~= outcomes_of(prev).push(outcome_of(r)));
        }
        j += 1;
    }
    assert(calendar.sources@.subrange(0, j as int) =~= calendar.sources@);
    let merged = combine_sources(steps.as_slice(), results);
    Ok(merged)
}

/// Merges the calendar of this name against one configuration snapshot and
/// the feeds fetched for it, as `merge_spec` says; references may nest as
/// deep as there are calendars.
pub fn merge_calendars(calendar_id: &str, config: &Config, feeds: &Feeds) -> (r: Result<MergeResult, Error>)
    ensures
        merge_model(r) == merge_spec(*config, feeds@, calendar_id@, config.calendars@.len() as nat),
{
    merge_at(calendar_id, config, feeds, config.calendars.len())
}

/// The URLs of the feed sources, in order.
pub open spec fn source_urls(srcs: Seq<SourceConfig>) -> Seq<Seq<char>>
    decreases srcs.len(),
{
    if srcs.len() == 0 {
        Seq::empty()
    } else {
        let prev = source_urls(srcs.drop_last());
        match srcs.last().spec_url() {
            Some(u) => prev.push(u),
            None => prev,
        }
    }
}

/// The feed URLs of calendar `root` and of the calendars it reaches, among
/// the first `c` calendars, in calendar order.
pub open spec fn reached_urls(config: Config, root: int, c: int) -> Seq<Seq<char>>
    decreases c,
{
    if c <= 0 {
        Seq::empty()
    } else {
        let prev = reached_urls(config, root, c - 1);
        if c - 1 == root || config.reaches(root, c - 1) {
            prev + source_urls(config.cal(c - 1).sources@)
        } else {
            prev
        }
    }
}

/// The URLs whose feeds merging the calendar of this name reads: those of
/// its own sources and of every calendar it reaches through references.
pub fn required_urls(config: &Config, calendar_id: &str) -> (r: Result<Vec<String>, Error>)
    ensures
        !config.has_calendar(calendar_id@) <==> (r matches Err(e) && e is CalendarNotFound),
        r matches Ok(urls) ==> views_of(urls@) == reached_urls(
            *config,
            calendar_index(*config, calendar_id@),
            config.calendars@.len() as int,
        ),
{
    let index = match config.find_calendar(calendar_id) {
        Some(i) => i,
        None => {
            return Err(Error::CalendarNotFound(String::from_str(calendar_id)));
        },
    };
    let ghost ci = calendar_index(*config, calendar_id@);
    proof {
        lemma_first_index(*config, calendar_id@, index as int);
    }
    let reach = config.reachable_from(index);
    let n = config.calendars.len();
    let mut urls: Vec<String> = Vec::new();
    let mut c: usize = 0;
    while c < n
        invariant
            n == config.calendars@.len(),
            c <= n,
            index == ci,
            reach@.len() == n,
            forall|k: int| 0 <= k < n ==> (#[trigger] reach@[k] <==> config.reaches(ci, k)),
            views_of(urls@) == reached_urls(*config, ci, c as int),
        decreases n - c,
    {
        if c == index || reach[c] {
            let sources = &config.calendars[c].1.sources;
            let mut j: usize = 0;
            while j < sources.len()
                invariant
                    c < n,
                    *sources == config.cal(c as int).sources,
                    j <= sources@.len(),
                    views_of(urls@) == reached_urls(*config, ci, c as int) + source_urls(
                        sources@.subrange(0, j as int),
                    ),
                decreases sources@.len() - j,
            {
                let ghost before = views_of(urls@);
                let ghost sub = sources@.subrange(0, j as int + 1);
                assert(sub.drop_last() =~= sources@.subrange(0, j as int));
                if let SourceConfig::Url { url, .. } = &sources[j] {
                    urls.push(url.clone());
                    assert(views_of(urls@) =~= before.push(url@));
                }
                j += 1;
            }
            assert(sources@.subrange(0, j as int) =~= sources@);
        }
        c += 1;
    }
    Ok(urls)
}

proof fn lemma_first_index(config: Config, name: Seq<char>, i: int)
    requires
        0 <= i < config.calendars@.len(),
        config.name(i) == name,
        forall|j: int| 0 <= j < i ==> config.name(j) != name,
    ensures
        calendar_index(config, name) == i,
{
    let c = calendar_index(config, name);
    assert(0 <= c < config.calendars@.len() && config.name(c) == name && forall|j: int|
        0 <= j < c ==> config.name(j) != name);
    if c < i {
        assert(config.name(c) != name);
    } else if c > i {
        assert(config.name(i) != name);
    }
}

} // verus!
