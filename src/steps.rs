//! The per-event step pipeline: filters and rewrites, run in order.
use vstd::prelude::*;

use crate::case::{lower_of, lowercase, sentence_case, sentence_of, title_case, title_of, upper_of, uppercase};
use crate::config::{reminder_field, CaseTransform, MatchMode, Step};
use crate::error::Error;
use crate::ical::{Event, EventView};
use crate::pattern::{pattern_matches, pattern_replace, regex_is_match, regex_replace_all, regex_valid, Pattern};
use crate::text::text_eq;

verus! {

/// Whether a step keeps or rejects the event.
#[derive(Debug, Clone, Copy, PartialEq, Eq, Structural)]
pub enum StepResult {
    Keep,
    Reject,
}

/// A pattern and the fields it is tried on.
pub type PatternSpec = (Seq<char>, Seq<Seq<char>>);

/// What a step does, as a value.
pub enum StepSpec {
    /// An allow step (`deny` false) or a deny step (`deny` true).
    Filter { deny: bool, patterns: Seq<PatternSpec>, mode: MatchMode },
    Replace { pattern: Seq<char>, replacement: Seq<char>, field: Seq<char> },
    Strip { field: Seq<char> },
    Case { transform: CaseTransform, field: Seq<char> },
}

/// The text of a named field: `summary`, `description` or `location`.
pub open spec fn field_text(e: EventView, f: Seq<char>) -> Option<Seq<char>> {
    if f == "summary"@ {
        e.summary
    } else if f == "description"@ {
        e.description
    } else if f == "location"@ {
        e.location
    } else {
        None
    }
}

/// The event with a named field set to `t`; unchanged for other names.
pub open spec fn with_field(e: EventView, f: Seq<char>, t: Seq<char>) -> EventView {
    if f == "summary"@ {
        EventView { summary: Some(t), ..e }
    } else if f == "description"@ {
        EventView { description: Some(t), ..e }
    } else if f == "location"@ {
        EventView { location: Some(t), ..e }
    } else {
        e
    }
}

/// The pattern matches the text of at least one of the fields.
pub open spec fn pattern_hits(pattern: Seq<char>, fields: Seq<Seq<char>>, e: EventView) -> bool {
    exists|k: int|
        0 <= k < fields.len() && (#[trigger] field_text(e, fields[k])) is Some && regex_is_match(
            pattern,
            field_text(e, fields[k])->Some_0,
        )
}

/// The match predicate of an allow or deny step.
pub open spec fn filter_predicate(patterns: Seq<PatternSpec>, mode: MatchMode, e: EventView) -> bool {
    match mode {
        MatchMode::Any => exists|i: int|
            0 <= i < patterns.len() && #[trigger] pattern_hits(patterns[i].0, patterns[i].1, e),
        MatchMode::All => forall|i: int|
            0 <= i < patterns.len() ==> #[trigger] pattern_hits(patterns[i].0, patterns[i].1, e),
    }
}

pub open spec fn case_of(t: CaseTransform, s: Seq<char>) -> Seq<char> {
    match t {
        CaseTransform::Lower => lower_of(s),
        CaseTransform::Upper => upper_of(s),
        CaseTransform::Sentence => sentence_of(s),
        CaseTransform::Title => title_of(s),
    }
}

/// The event after one step, and whether the step keeps it.
pub open spec fn outcome(s: StepSpec, e: EventView) -> (EventView, StepResult) {
    match s {
        StepSpec::Filter { deny, patterns, mode } => (
            e,
            if filter_predicate(patterns, mode, e) != deny {
                StepResult::Keep
            } else {
                StepResult::Reject
            },
        ),
        StepSpec::Replace { pattern, replacement, field } => (
            match field_text(e, field) {
                Some(t) => with_field(e, field, regex_replace_all(pattern, t, replacement)),
                None => e,
            },
            StepResult::Keep,
        ),
        StepSpec::Strip { field } => (
            if field == reminder_field() {
                EventView { has_alarms: false, ..e }
            } else {
                e
            },
            StepResult::Keep,
        ),
        StepSpec::Case { transform, field } => (
            match field_text(e, field) {
                Some(t) => with_field(e, field, case_of(transform, t)),
                None => e,
            },
            StepResult::Keep,
        ),
    }
}

/// Steps run in order, stopping at the first that rejects.
pub open spec fn run_steps(steps: Seq<StepSpec>, e: EventView) -> (EventView, StepResult)
    decreases steps.len(),
{
    if steps.len() == 0 {
        (e, StepResult::Keep)
    } else {
        let (e1, r) = outcome(steps[0], e);
        if r == StepResult::Reject {
            (e1, StepResult::Reject)
        } else {
            run_steps(steps.subrange(1, steps.len() as int), e1)
        }
    }
}

/// The events that the steps keep, as the steps leave them, in order.
pub open spec fn process(steps: Seq<StepSpec>, evs: Seq<EventView>) -> Seq<EventView>
    decreases evs.len(),
{
    if evs.len() == 0 {
        Seq::empty()
    } else {
        let rest = process(steps, evs.drop_last());
        let (e, r) = run_steps(steps, evs.last());
        if r == StepResult::Keep {
            rest.push(e)
        } else {
            rest
        }
    }
}

pub open spec fn views_of(v: Seq<String>) -> Seq<Seq<char>> {
    v.map_values(|s: String| s@)
}

pub open spec fn event_views(v: Seq<Event>) -> Seq<EventView> {
    v.map_values(|e: Event| e@)
}

pub open spec fn step_patterns(patterns: Seq<String>, fields: Seq<String>) -> Seq<PatternSpec> {
    patterns.map_values(|p: String| (p@, views_of(fields)))
}

/// What a configured step does.
pub open spec fn step_spec(s: Step) -> StepSpec {
    match s {
        Step::Allow { patterns, mode, fields } => StepSpec::Filter {
            deny: false,
            patterns: step_patterns(patterns@, fields@),
            mode,
        },
        Step::Deny { patterns, mode, fields } => StepSpec::Filter {
            deny: true,
            patterns: step_patterns(patterns@, fields@),
            mode,
        },
        Step::Replace { pattern, replacement, field } => StepSpec::Replace {
            pattern: pattern@,
            replacement: replacement@,
            field: field@,
        },
        Step::Strip { field } => StepSpec::Strip { field: field@ },
        Step::Case { transform, field } => StepSpec::Case { transform, field: field@ },
    }
}

pub open spec fn step_specs(steps: Seq<Step>) -> Seq<StepSpec> {
    steps.map_values(|s: Step| step_spec(s))
}

/// The patterns of a step all compile.
pub open spec fn step_compiles(s: Step) -> bool {
    match s {
        Step::Allow { patterns, .. } => forall|i: int|
            0 <= i < patterns@.len() ==> regex_valid(#[trigger] patterns@[i]@),
        Step::Deny { patterns, .. } => forall|i: int|
            0 <= i < patterns@.len() ==> regex_valid(#[trigger] patterns@[i]@),
        Step::Replace { pattern, .. } => regex_valid(pattern@),
        _ => true,
    }
}

pub open spec fn steps_compile(steps: Seq<Step>) -> bool {
    forall|i: int| 0 <= i < steps.len() ==> step_compiles(#[trigger] steps[i])
}

/// A compiled regular expression and the fields it is tried on.
#[derive(Debug)]
pub struct CompiledPattern {
    regex: Pattern,
    fields: Vec<String>,
}

impl CompiledPattern {
    pub closed spec fn spec(&self) -> PatternSpec {
        (self.regex.spec_source(), views_of(self.fields@))
    }

    pub fn new(pattern: &str, fields: Vec<String>) -> (r: Result<CompiledPattern, Error>)
        ensures
            r is Ok <==> regex_valid(pattern@),
            r matches Ok(c) ==> c.spec() == (pattern@, views_of(fields@)),
            r matches Err(e) ==> e is Regex,
    {
        match Pattern::compile(pattern) {
            Ok(regex) => Ok(CompiledPattern { regex, fields }),
            Err(m) => Err(Error::Regex(m)),
        }
    }

    /// Whether the pattern matches the text of at least one of its fields.
    pub fn matches(&self, event: &Event) -> (r: bool)
        ensures
            r == pattern_hits(self.spec().0, self.spec().1, event@),
    {
        let n = self.fields.len();
        let mut k: usize = 0;
        while k < n
            invariant
                n == self.fields@.len(),
                k <= n,
                forall|j: int|
                    0 <= j < k ==> !((#[trigger] field_text(event@, self.fields@[j]@)) is Some
                        && regex_is_match(
                        self.regex.spec_source(),
                        field_text(event@, self.fields@[j]@)->Some_0,
                    )),
            decreases n - k,
        {
            if let Some(text) = event_field(event, self.fields[k].as_str()) {
                if pattern_matches(&self.regex, text.as_str()) {
                    assert(views_of(self.fields@)[k as int] == self.fields@[k as int]@);
                    return true;
                }
            }
            k += 1;
        }
        proof {
            assert forall|j: int| 0 <= j < views_of(self.fields@).len() implies !(
            #[trigger] field_text(event@, views_of(self.fields@)[j]) is Some && regex_is_match(
                self.regex.spec_source(),
                field_text(event@, views_of(self.fields@)[j])->Some_0,
            )) by {
                assert(views_of(self.fields@)[j] == self.fields@[j]@);
            }
        }
        false
    }
}

pub open spec fn pattern_specs(ps: Seq<CompiledPattern>) -> Seq<PatternSpec> {
    ps.map_values(|p: CompiledPattern| p.spec())
}

/// A step with its regular expressions compiled.
#[derive(Debug)]
pub enum CompiledStep {
    Allow { patterns: Vec<CompiledPattern>, mode: MatchMode },
    Deny { patterns: Vec<CompiledPattern>, mode: MatchMode },
    Replace { regex: Pattern, replacement: String, field: String },
    Strip { field: String },
    Case { transform: CaseTransform, field: String },
}

/// The text of a named field of the event.
fn event_field(event: &Event, field: &str) -> (r: Option<String>)
    ensures
        r matches Some(t) ==> field_text(event@, field@) == Some(t@),
        r is None <==> field_text(event@, field@) is None,
{
    let t = if text_eq(field, "summary") {
        event.summary()
    } else if text_eq(field, "description") {
        event.description()
    } else if text_eq(field, "location") {
        event.location()
    } else {
        None
    };
    match t {
        Some(s) => Some(s.to_string()),
        None => None,
    }
}

/// Sets a named field of the event; other names leave it unchanged.
fn set_event_field(event: &mut Event, field: &str, text: &str)
    ensures
        final(event)@ == with_field(old(event)@, field@, text@),
{
    if text_eq(field, "summary") {
        event.set_summary(text);
    } else if text_eq(field, "description") {
        event.set_description(text);
    } else if text_eq(field, "location") {
        event.set_location(text);
    }
}

fn apply_case(transform: CaseTransform, text: &str) -> (r: String)
    ensures
        r@ == case_of(transform, text@),
{
    match transform {
        CaseTransform::Lower => lowercase(text),
        CaseTransform::Upper => uppercase(text),
        CaseTransform::Sentence => sentence_case(text),
        CaseTransform::Title => title_case(text),
    }
}

fn copy_strings(v: &Vec<String>) -> (r: Vec<String>)
    ensures
        r@ == v@,
{
    let mut r: Vec<String> = Vec::new();
    let mut i: usize = 0;
    while i < v.len()
        invariant
            i <= v@.len(),
            r@ == v@.subrange(0, i as int),
        decreases v@.len() - i,
    {
        r.push(v[i].clone());
        i += 1;
        assert(r@ =~= v@.subrange(0, i as int));
    }
    r
}

/// Compiles each pattern with its own copy of the fields.
fn compile_patterns(patterns: &Vec<String>, fields: &Vec<String>) -> (r: Result<Vec<CompiledPattern>, Error>)
    ensures
        r is Ok <==> forall|i: int| 0 <= i < patterns@.len() ==> regex_valid(#[trigger] patterns@[i]@),
        r matches Ok(v) ==> pattern_specs(v@) == step_patterns(patterns@, fields@),
        r matches Err(e) ==> e is Regex,
{
    let mut out: Vec<CompiledPattern> = Vec::new();
    let mut i: usize = 0;
    while i < patterns.len()
        invariant
            i <= patterns@.len(),
            out@.len() == i,
            forall|k: int| 0 <= k < i ==> regex_valid(#[trigger] patterns@[k]@),
            forall|k: int| 0 <= k < i ==> (#[trigger] out@[k]).spec() == (patterns@[k]@, views_of(fields@)),
        decreases patterns@.len() - i,
    {
        match CompiledPattern::new(patterns[i].as_str(), copy_strings(fields)) {
            Ok(c) => {
                out.push(c);
            },
            Err(e) => {
                return Err(e);
            },
        }
        i += 1;
    }
    assert(pattern_specs(out@) =~= step_patterns(patterns@, fields@));
    Ok(out)
}

/// Whether the match predicate holds for the event.
fn filter_holds(patterns: &Vec<CompiledPattern>, mode: MatchMode, event: &Event) -> (r: bool)
    ensures
        r == filter_predicate(pattern_specs(patterns@), mode, event@),
{
    let n = patterns.len();
    let ghost ps = pattern_specs(patterns@);
    let mut i: usize = 0;
    match mode {
        MatchMode::Any => {
            while i < n
                invariant
                    n == patterns@.len(),
                    ps == pattern_specs(patterns@),
                    mode == MatchMode::Any,
                    i <= n,
                    forall|k: int| 0 <= k < i ==> !#[trigger] pattern_hits(ps[k].0, ps[k].1, event@),
                decreases n - i,
            {
                assert(ps[i as int] == patterns@[i as int].spec());
                if patterns[i].matches(event) {
                    assert(pattern_hits(ps[i as int].0, ps[i as int].1, event@));
                    return true;
                }
                i += 1;
            }
            false
        },
        MatchMode::All => {
            while i < n
                invariant
                    n == patterns@.len(),
                    ps == pattern_specs(patterns@),
                    mode == MatchMode::All,
                    i <= n,
                    forall|k: int| 0 <= k < i ==> #[trigger] pattern_hits(ps[k].0, ps[k].1, event@),
                decreases n - i,
            {
                assert(ps[i as int] == patterns@[i as int].spec());
                if !patterns[i].matches(event) {
                    assert(!pattern_hits(ps[i as int].0, ps[i as int].1, event@));
                    return false;
                }
                i += 1;
            }
            true
        },
    }
}

impl CompiledStep {
    /// What the compiled step does.
    pub open spec fn spec(&self) -> StepSpec {
        match self {
            CompiledStep::Allow { patterns, mode } => StepSpec::Filter {
                deny: false,
                patterns: pattern_specs(patterns@),
                mode: *mode,
            },
            CompiledStep::Deny { patterns, mode } => StepSpec::Filter {
                deny: true,
                patterns: pattern_specs(patterns@),
                mode: *mode,
            },
            CompiledStep::Replace { regex, replacement, field } => StepSpec::Replace {
                pattern: regex.spec_source(),
                replacement: replacement@,
                field: field@,
            },
            CompiledStep::Strip { field } => StepSpec::Strip { field: field@ },
            CompiledStep::Case { transform, field } => StepSpec::Case {
                transform: *transform,
                field: field@,
            },
        }
    }

    /// Compiles one step; fails if one of its patterns does not compile.
    pub fn compile(step: &Step) -> (r: Result<CompiledStep, Error>)
        ensures
            r is Ok <==> step_compiles(*step),
            r matches Ok(c) ==> c.spec() == step_spec(*step),
            r matches Err(e) ==> e is Regex,
    {
        match step {
            Step::Allow { patterns, mode, fields } => {
                match compile_patterns(patterns, fields) {
                    Ok(compiled) => Ok(CompiledStep::Allow { patterns: compiled, mode: *mode }),
                    Err(e) => Err(e),
                }
            },
            Step::Deny { patterns, mode, fields } => {
                match compile_patterns(patterns, fields) {
                    Ok(compiled) => Ok(CompiledStep::Deny { patterns: compiled, mode: *mode }),
                    Err(e) => Err(e),
                }
            },
            Step::Replace { pattern, replacement, field } => {
                match Pattern::compile(pattern.as_str()) {
                    Ok(regex) => Ok(
                        CompiledStep::Replace {
                            regex,
                            replacement: replacement.clone(),
                            field: field.clone(),
                        },
                    ),
                    Err(m) => Err(Error::Regex(m)),
                }
            },
            Step::Strip { field } => Ok(CompiledStep::Strip { field: field.clone() }),
            Step::Case { transform, field } => Ok(
                CompiledStep::Case { transform: *transform, field: field.clone() },
            ),
        }
    }

    /// Compiles each step in order; fails on the first that does not compile.
    pub fn compile_many(steps: &[Step]) -> (r: Result<Vec<CompiledStep>, Error>)
        ensures
            r is Ok <==> steps_compile(steps@),
            r matches Ok(v) ==> compiled_specs(v@) == step_specs(steps@),
            r matches Err(e) ==> e is Regex,
    {
        let mut out: Vec<CompiledStep> = Vec::new();
        let mut i: usize = 0;
        while i < steps.len()
            invariant
                i <= steps@.len(),
                out@.len() == i,
                forall|k: int| 0 <= k < i ==> step_compiles(#[trigger] steps@[k]),
                forall|k: int| 0 <= k < i ==> (#[trigger] out@[k]).spec() == step_spec(steps@[k]),
            decreases steps@.len() - i,
        {
            match CompiledStep::compile(&steps[i]) {
                Ok(c) => {
                    out.push(c);
                },
                Err(e) => {
                    return Err(e);
                },
            }
            i += 1;
        }
        assert(compiled_specs(out@) =~= step_specs(steps@));
        Ok(out)
    }

    /// Runs the step on the event, rewriting it in place, and says whether it
    /// stays.
    pub fn apply(&self, event: &mut Event) -> (r: StepResult)
        ensures
            (final(event)@, r) == outcome(self.spec(), old(event)@),
    {
        match self {
            CompiledStep::Allow { patterns, mode } => {
                if filter_holds(patterns, *mode, event) {
                    StepResult::Keep
                } else {
                    StepResult::Reject
                }
            },
            CompiledStep::Deny { patterns, mode } => {
                if filter_holds(patterns, *mode, event) {
                    StepResult::Reject
                } else {
                    StepResult::Keep
                }
            },
            CompiledStep::Replace { regex, replacement, field } => {
                if let Some(text) = event_field(event, field.as_str()) {
                    let new_text = pattern_replace(regex, text.as_str(), replacement.as_str());
                    set_event_field(event, field.as_str(), new_text.as_str());
                }
                StepResult::Keep
            },
            CompiledStep::Strip { field } => {
                if text_eq(field.as_str(), "reminder") {
                    event.strip_alarms();
                }
                StepResult::Keep
            },
            CompiledStep::Case { transform, field } => {
                if let Some(text) = event_field(event, field.as_str()) {
                    let new_text = apply_case(*transform, text.as_str());
                    set_event_field(event, field.as_str(), new_text.as_str());
                }
                StepResult::Keep
            },
        }
    }
}

pub open spec fn compiled_specs(steps: Seq<CompiledStep>) -> Seq<StepSpec> {
    steps.map_values(|s: CompiledStep| s.spec())
}

/// Runs the steps in order on the event, stopping at the first rejection.
pub fn apply_steps(event: &mut Event, steps: &[CompiledStep]) -> (r: StepResult)
    ensures
        (final(event)@, r) == run_steps(compiled_specs(steps@), old(event)@),
{
    let ghost all = compiled_specs(steps@);
    let n = steps.len();
    let mut i: usize = 0;
    assert(all.subrange(0, n as int) =~= all);
    while i < n
        invariant
            n == steps@.len(),
            all == compiled_specs(steps@),
            i <= n,
            run_steps(all, old(event)@) == run_steps(all.subrange(i as int, n as int), event@),
        decreases n - i,
    {
        let ghost rest = all.subrange(i as int, n as int);
        assert(rest[0] == steps@[i as int].spec());
        assert(rest.subrange(1, rest.len() as int) =~= all.subrange(i as int + 1, n as int));
        if steps[i].apply(event) == StepResult::Reject {
            return StepResult::Reject;
        }
        i += 1;
    }
    StepResult::Keep
}

/// The items in reverse order.
pub(crate) fn reversed<T>(v: Vec<T>) -> (r: Vec<T>)
    ensures
        r@.len() == v@.len(),
        forall|k: int| 0 <= k < v@.len() ==> r@[k] == v@[v@.len() - 1 - k],
{
    let ghost orig = v@;
    let mut v = v;
    let mut r: Vec<T> = Vec::new();
    while v.len() > 0
        invariant
            v@.len() + r@.len() == orig.len(),
            v@ == orig.subrange(0, v@.len() as int),
            forall|k: int| 0 <= k < r@.len() ==> r@[k] == orig[orig.len() - 1 - k],
        decreases v@.len(),
    {
        let e = v.pop().unwrap();
        r.push(e);
    }
    r
}

/// Runs the steps on each event and keeps those that no step rejects.
pub fn process_events(events: Vec<Event>, steps: &[CompiledStep]) -> (r: Vec<Event>)
    ensures
        event_views(r@) == process(compiled_specs(steps@), event_views(events@)),
{
    let ghost orig = events@;
    let ghost specs = compiled_specs(steps@);
    let n = events.len();
    let mut pending = reversed(events);
    let mut out: Vec<Event> = Vec::new();
    while pending.len() > 0
        invariant
            n == orig.len(),
            specs == compiled_specs(steps@),
            pending@.len() <= n,
            forall|k: int| 0 <= k < pending@.len() ==> pending@[k] == orig[n - 1 - k],
            event_views(out@) == process(specs, event_views(orig.subrange(0, n - pending@.len()))),
        decreases pending@.len(),
    {
        let ghost done = n - pending@.len();
        let mut event = pending.pop().unwrap();
        let ghost before = event@;
        proof {
            let cur = event_views(orig.subrange(0, done + 1));
            assert(cur.drop_last() =~= event_views(orig.subrange(0, done)));
            assert(cur.last() == before);
        }
        if apply_steps(&mut event, steps) == StepResult::Keep {
            out.push(event);
            assert(event_views(out@) =~= process(specs, event_views(orig.subrange(0, done))).push(event@));
        }
    }
    proof {
        assert(orig.subrange(0, n as int) =~= orig);
    }
    out
}

/// The pattern matches the text of the named field.
pub open spec fn matches_field(pattern: Seq<char>, field: Seq<char>, e: EventView) -> bool {
    field_text(e, field) is Some && regex_is_match(pattern, field_text(e, field)->Some_0)
}

/// The pattern matches at least one of the named fields.
pub open spec fn matches_some_field(pattern: Seq<char>, fields: Seq<String>, e: EventView) -> bool {
    exists|k: int| 0 <= k < fields.len() && #[trigger] matches_field(pattern, fields[k]@, e)
}

/// An allow step leaves the event as it is. In mode `Any` it keeps the event
/// exactly when at least one pattern matches at least one configured field;
/// in mode `All`, exactly when every pattern matches at least one configured
/// field. A field with no text matches nothing.
pub proof fn lemma_allow_keeps(patterns: Vec<String>, mode: MatchMode, fields: Vec<String>, e: EventView)
    ensures
        outcome(step_spec(Step::Allow { patterns, mode, fields }), e).0 == e,
        mode == MatchMode::Any ==> (outcome(step_spec(Step::Allow { patterns, mode, fields }), e).1
            == StepResult::Keep <==> exists|i: int|
            0 <= i < patterns@.len() && #[trigger] matches_some_field(patterns@[i]@, fields@, e)),
        mode == MatchMode::All ==> (outcome(step_spec(Step::Allow { patterns, mode, fields }), e).1
            == StepResult::Keep <==> forall|i: int|
            0 <= i < patterns@.len() ==> #[trigger] matches_some_field(patterns@[i]@, fields@, e)),
{
    lemma_hits_fields(patterns, fields, e);
    let ps = step_patterns(patterns@, fields@);
    let kept = filter_predicate(ps, mode, e);
    assert(outcome(step_spec(Step::Allow { patterns, mode, fields }), e).1 == if kept {
        StepResult::Keep
    } else {
        StepResult::Reject
    });
    if mode == MatchMode::Any {
        if kept {
            let i = choose|i: int| 0 <= i < ps.len() && #[trigger] pattern_hits(ps[i].0, ps[i].1, e);
            assert(matches_some_field(patterns@[i]@, fields@, e));
        }
        if exists|i: int| 0 <= i < patterns@.len() && #[trigger] matches_some_field(patterns@[i]@, fields@, e) {
            let i = choose|i: int| 0 <= i < patterns@.len() && #[trigger] matches_some_field(patterns@[i]@, fields@, e);
            assert(pattern_hits(ps[i].0, ps[i].1, e));
        }
    } else {
        if kept {
            assert forall|i: int| 0 <= i < patterns@.len() implies #[trigger] matches_some_field(
                patterns@[i]@,
                fields@,
                e,
            ) by {
                assert(pattern_hits(ps[i].0, ps[i].1, e));
            }
        }
        if forall|i: int| 0 <= i < patterns@.len() ==> #[trigger] matches_some_field(patterns@[i]@, fields@, e) {
            assert forall|i: int| 0 <= i < ps.len() implies #[trigger] pattern_hits(ps[i].0, ps[i].1, e) by {
                assert(matches_some_field(patterns@[i]@, fields@, e));
            }
        }
    }
}

/// The match predicate of a configured step, pattern by pattern.
proof fn lemma_hits_fields(patterns: Vec<String>, fields: Vec<String>, e: EventView)
    ensures
        step_patterns(patterns@, fields@).len() == patterns@.len(),
        forall|i: int|
            0 <= i < patterns@.len() ==> (#[trigger] pattern_hits(
                step_patterns(patterns@, fields@)[i].0,
                step_patterns(patterns@, fields@)[i].1,
                e,
            ) <==> matches_some_field(patterns@[i]@, fields@, e)),
{
    let ps = step_patterns(patterns@, fields@);
    assert forall|i: int| 0 <= i < patterns@.len() implies (#[trigger] pattern_hits(ps[i].0, ps[i].1, e)
        <==> matches_some_field(patterns@[i]@, fields@, e)) by {
        assert(ps[i] == (patterns@[i]@, views_of(fields@)));
        if pattern_hits(ps[i].0, ps[i].1, e) {
            let k = choose|k: int|
                0 <= k < ps[i].1.len() && (#[trigger] field_text(e, ps[i].1[k])) is Some && regex_is_match(
                    ps[i].0,
                    field_text(e, ps[i].1[k])->Some_0,
                );
            assert(matches_field(patterns@[i]@, fields@[k]@, e));
        }
        if matches_some_field(patterns@[i]@, fields@, e) {
            let k = choose|k: int| 0 <= k < fields@.len() && #[trigger] matches_field(patterns@[i]@, fields@[k]@, e);
            assert(views_of(fields@)[k] == fields@[k]@);
            assert(field_text(e, ps[i].1[k]) is Some);
        }
    }
}

/// A deny step rejects an event exactly when the allow step with the same
/// patterns, mode and fields keeps it; neither changes the event.
pub proof fn lemma_deny_negates_allow(patterns: Vec<String>, mode: MatchMode, fields: Vec<String>, e: EventView)
    ensures
        outcome(step_spec(Step::Deny { patterns, mode, fields }), e).0 == e,
        outcome(step_spec(Step::Deny { patterns, mode, fields }), e).1 == StepResult::Reject
            <==> outcome(step_spec(Step::Allow { patterns, mode, fields }), e).1 == StepResult::Keep,
{
}

/// A strip step on the reminder field drops the event's alarms and nothing
/// else; a strip step on any other field fails validation.
pub proof fn lemma_strip_reminders(field: String, e: EventView)
    ensures
        field@ == reminder_field() ==> outcome(step_spec(Step::Strip { field }), e) == (
        EventView { has_alarms: false, ..e }, StepResult::Keep),
        outcome(step_spec(Step::Strip { field }), e).0.summary == e.summary,
        outcome(step_spec(Step::Strip { field }), e).0.description == e.description,
        outcome(step_spec(Step::Strip { field }), e).0.location == e.location,
        outcome(step_spec(Step::Strip { field }), e).0.start == e.start,
        outcome(step_spec(Step::Strip { field }), e).0.end == e.end,
        field@ != reminder_field() ==> !crate::config::step_valid(Step::Strip { field }),
{
}

} // verus!
