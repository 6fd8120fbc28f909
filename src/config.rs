//! Configuration model and its load-time validation.
use vstd::prelude::*;

use crate::error::Error;
use crate::pattern::{regex_valid, Pattern};
use crate::text::text_eq;

verus! {

/// A configuration snapshot: named calendar definitions, in a fixed order.
#[derive(Debug)]
pub struct Config {
    pub calendars: Vec<(String, CalendarConfig)>,
}

/// A calendar: its sources and the steps run on their merged events.
#[derive(Debug)]
pub struct CalendarConfig {
    pub sources: Vec<SourceConfig>,
    pub steps: Vec<Step>,
}

/// Where a calendar's events come from.
#[derive(Debug)]
pub enum SourceConfig {
    /// A remote feed.
    Url { url: String, steps: Vec<Step> },
    /// Another configured calendar, by name.
    Calendar { calendar: String, steps: Vec<Step> },
}

/// How the patterns of an allow or deny step combine.
#[derive(Debug, Clone, Copy, PartialEq, Eq, Structural)]
pub enum MatchMode {
    /// At least one pattern matches.
    Any,
    /// Every pattern matches.
    All,
}

/// Case rewriting applied by a case step.
#[derive(Debug, Clone, Copy, PartialEq, Eq, Structural)]
pub enum CaseTransform {
    Lower,
    Upper,
    Sentence,
    Title,
}

/// One filter or rewrite stage of the event pipeline.
#[derive(Debug)]
pub enum Step {
    Allow { patterns: Vec<String>, mode: MatchMode, fields: Vec<String> },
    Deny { patterns: Vec<String>, mode: MatchMode, fields: Vec<String> },
    Replace { pattern: String, replacement: String, field: String },
    Strip { field: String },
    Case { transform: CaseTransform, field: String },
}

impl MatchMode {
    /// The mode used when none is configured.
    pub fn default_mode() -> (r: MatchMode)
        ensures
            r == MatchMode::Any,
    {
        MatchMode::Any
    }
}

/// The fields an allow or deny step reads when none are configured.
pub fn default_step_fields() -> (r: Vec<String>)
    ensures
        r@.len() == 2,
        r@[0]@ == "summary"@,
        r@[1]@ == "description"@,
{
    let mut v: Vec<String> = Vec::new();
    v.push(String::from_str("summary"));
    v.push(String::from_str("description"));
    v
}

/// The field a replace or case step rewrites when none is configured.
pub fn default_step_field() -> (r: String)
    ensures
        r@ == "summary"@,
{
    String::from_str("summary")
}

/// The replacement text of a replace step when none is configured.
pub fn default_replacement() -> (r: String)
    ensures
        r@ == Seq::<char>::empty(),
{
    String::new()
}

/// The prefix that tags the identifier of a calendar reference.
pub open spec fn calendar_tag() -> Seq<char> {
    "calendar:"@
}

impl SourceConfig {
    pub open spec fn spec_steps(&self) -> Seq<Step> {
        match self {
            SourceConfig::Url { steps, .. } => steps@,
            SourceConfig::Calendar { steps, .. } => steps@,
        }
    }

    /// The name used for this source in error reports.
    pub open spec fn spec_identifier(&self) -> Seq<char> {
        match self {
            SourceConfig::Url { url, .. } => url@,
            SourceConfig::Calendar { calendar, .. } => calendar_tag() + calendar@,
        }
    }

    /// The feed URL, if this source is a feed.
    pub open spec fn spec_url(&self) -> Option<Seq<char>> {
        match self {
            SourceConfig::Url { url, .. } => Some(url@),
            SourceConfig::Calendar { .. } => None,
        }
    }

    /// The calendar this source refers to, if it is a reference.
    pub open spec fn spec_reference(&self) -> Option<Seq<char>> {
        match self {
            SourceConfig::Url { .. } => None,
            SourceConfig::Calendar { calendar, .. } => Some(calendar@),
        }
    }

    /// The steps run on this source's events.
    pub fn steps(&self) -> (r: &[Step])
        ensures
            r@ == self.spec_steps(),
    {
        match self {
            SourceConfig::Url { steps, .. } => steps.as_slice(),
            SourceConfig::Calendar { steps, .. } => steps.as_slice(),
        }
    }

    /// The URL, or `calendar:` followed by the referenced calendar's name.
    pub fn identifier(&self) -> (r: String)
        ensures
            r@ == self.spec_identifier(),
    {
        match self {
            SourceConfig::Url { url, .. } => url.clone(),
            SourceConfig::Calendar { calendar, .. } => {
                String::from_str("calendar:").concat(calendar.as_str())
            },
        }
    }
}

/// The field name a strip step accepts.
pub open spec fn reminder_field() -> Seq<char> {
    "reminder"@
}

/// What load-time validation demands of one step.
pub open spec fn step_valid(s: Step) -> bool {
    match s {
        Step::Allow { patterns, .. } => patterns@.len() > 0 && forall|i: int|
            0 <= i < patterns@.len() ==> regex_valid(#[trigger] patterns@[i]@),
        Step::Deny { patterns, .. } => patterns@.len() > 0 && forall|i: int|
            0 <= i < patterns@.len() ==> regex_valid(#[trigger] patterns@[i]@),
        Step::Replace { pattern, .. } => regex_valid(pattern@),
        Step::Strip { field } => field@ == reminder_field(),
        Step::Case { .. } => true,
    }
}

pub open spec fn steps_valid(steps: Seq<Step>) -> bool {
    forall|i: int| 0 <= i < steps.len() ==> step_valid(#[trigger] steps[i])
}

impl Config {
    /// The definition of calendar `i`.
    pub open spec fn cal(&self, i: int) -> CalendarConfig {
        self.calendars@[i].1
    }

    /// The name of calendar `i`.
    pub open spec fn name(&self, i: int) -> Seq<char> {
        self.calendars@[i].0@
    }

    /// Whether a calendar of this name is configured.
    pub open spec fn has_calendar(&self, name: Seq<char>) -> bool {
        exists|i: int| 0 <= i < self.calendars@.len() && #[trigger] self.name(i) == name
    }

    /// What validation demands of one source.
    pub open spec fn source_valid(&self, s: SourceConfig) -> bool {
        match s {
            SourceConfig::Url { url, steps } => url@.len() > 0 && steps_valid(steps@),
            SourceConfig::Calendar { calendar, steps } => calendar@.len() > 0
                && self.has_calendar(calendar@) && steps_valid(steps@),
        }
    }

    /// What validation demands of calendar `i`, cycles aside.
    pub open spec fn calendar_valid(&self, i: int) -> bool {
        &&& self.cal(i).sources@.len() > 0
        &&& forall|j: int|
            0 <= j < self.cal(i).sources@.len() ==> self.source_valid(
                #[trigger] self.cal(i).sources@[j],
            )
        &&& steps_valid(self.cal(i).steps@)
    }

    /// Some source references a calendar that is not configured.
    pub open spec fn has_dangling_reference(&self) -> bool {
        exists|i: int, j: int|
            0 <= i < self.calendars@.len() && 0 <= j < self.cal(i).sources@.len()
                && (#[trigger] self.cal(i).sources@[j]).spec_reference() is Some
                && !self.has_calendar(self.cal(i).sources@[j].spec_reference()->Some_0)
    }

    /// Calendar `i` has a source that refers to calendar `k`.
    pub open spec fn references(&self, i: int, k: int) -> bool {
        &&& 0 <= i < self.calendars@.len()
        &&& 0 <= k < self.calendars@.len()
        &&& exists|j: int|
            0 <= j < self.cal(i).sources@.len() && (#[trigger] self.cal(i).sources@[j]).spec_reference()
                == Some(self.name(k))
    }

    /// `p` is a chain of calendars, each referring to the next.
    pub open spec fn is_reference_path(&self, p: Seq<int>) -> bool {
        &&& p.len() >= 1
        &&& 0 <= p[0] < self.calendars@.len()
        &&& forall|t: int| 0 <= t < p.len() - 1 ==> #[trigger] self.references(p[t], p[t + 1])
    }

    /// Some calendar reaches itself through references (a self-reference included).
    pub open spec fn has_cycle(&self) -> bool {
        exists|p: Seq<int>|
            #[trigger] self.is_reference_path(p) && p.len() >= 2 && p[0] == p[p.len() - 1]
    }

    /// No two calendars share a name.
    pub open spec fn names_unique(&self) -> bool {
        forall|i: int, j: int| 0 <= i < j < self.calendars@.len() ==> self.name(i) != self.name(j)
    }

    /// Everything load-time validation demands of a configuration.
    pub open spec fn spec_valid(&self) -> bool {
        &&& self.calendars@.len() > 0
        &&& self.names_unique()
        &&& forall|i: int| 0 <= i < self.calendars@.len() ==> #[trigger] self.calendar_valid(i)
        &&& !self.has_cycle()
    }

    /// Checks the structural rules of the whole snapshot; fails with a
    /// configuration error on the first rule broken.
    pub fn validate(&self) -> (r: Result<(), Error>)
        ensures
            r is Ok <==> self.spec_valid(),
            r matches Err(e) ==> e is Config,
            self.has_cycle() ==> r is Err,
            self.has_dangling_reference() ==> r is Err,
    {
        if self.calendars.len() == 0 {
            return Err(Error::Config(String::from_str("No calendars configured")));
        }
        let n = self.calendars.len();
        let mut i: usize = 0;
        while i < n
            invariant
                n == self.calendars@.len(),
                i <= n,
                forall|k: int| 0 <= k < i ==> #[trigger] self.calendar_valid(k),
            decreases n - i,
        {
            let (id, calendar) = &self.calendars[i];
            if calendar.sources.len() == 0 {
                assert(!self.calendar_valid(i as int));
                return Err(Error::Config(in_calendar(id, " has no sources")));
            }
            let m = calendar.sources.len();
            let mut j: usize = 0;
            while j < m
                invariant
                    n == self.calendars@.len(),
                    i < n,
                    *calendar == self.cal(i as int),
                    m == calendar.sources@.len(),
                    j <= m,
                    forall|k: int| 0 <= k < j ==> self.source_valid(#[trigger] calendar.sources@[k]),
                decreases m - j,
            {
                let ghost src = calendar.sources@[j as int];
                match &calendar.sources[j] {
                    SourceConfig::Url { url, steps } => {
                        if url.unicode_len() == 0 {
                            assert(!self.source_valid(src));
                            assert(!self.calendar_valid(i as int));
                            return Err(Error::Config(in_calendar(id, " has a source with an empty URL")));
                        }
                        let checked = Config::validate_steps(steps.as_slice());
                        if checked.is_err() {
                            assert(!self.source_valid(src));
                            assert(!self.calendar_valid(i as int));
                            return checked;
                        }
                    },
                    SourceConfig::Calendar { calendar: ref_id, steps } => {
                        if ref_id.unicode_len() == 0 {
                            assert(!self.source_valid(src));
                            assert(!self.calendar_valid(i as int));
                            return Err(Error::Config(in_calendar(id, " has a source with an empty calendar reference")));
                        }
                        if self.find_calendar(ref_id.as_str()).is_none() {
                            proof {
                                assert(!self.source_valid(src));
                                assert(!self.calendar_valid(i as int));
                            }
                            return Err(Error::Config(in_calendar(id, " references unknown calendar '").concat(
                                ref_id.as_str(),
                            ).concat("'")));
                        }
                        let checked = Config::validate_steps(steps.as_slice());
                        if checked.is_err() {
                            assert(!self.source_valid(src));
                            assert(!self.calendar_valid(i as int));
                            return checked;
                        }
                    },
                }
                j += 1;
            }
            let checked = Config::validate_steps(calendar.steps.as_slice());
            if checked.is_err() {
                assert(!self.calendar_valid(i as int));
                return checked;
            }
            assert(self.calendar_valid(i as int));
            i += 1;
        }
        assert(!self.has_dangling_reference()) by {
            if self.has_dangling_reference() {
                let (a, b) = choose|a: int, b: int|
                    0 <= a < self.calendars@.len() && 0 <= b < self.cal(a).sources@.len()
                        && (#[trigger] self.cal(a).sources@[b]).spec_reference() is Some
                        && !self.has_calendar(self.cal(a).sources@[b].spec_reference()->Some_0);
                assert(self.calendar_valid(a));
                assert(self.source_valid(self.cal(a).sources@[b]));
            }
        }
        let unique = self.check_unique_names();
        if unique.is_err() {
            return unique;
        }
        self.detect_cycle()
    }

    /// Fails with a configuration error exactly when two calendars share a
    /// name.
    pub fn check_unique_names(&self) -> (r: Result<(), Error>)
        ensures
            r is Ok <==> self.names_unique(),
            r matches Err(e) ==> e is Config,
    {
        let n = self.calendars.len();
        let mut j: usize = 0;
        while j < n
            invariant
                n == self.calendars@.len(),
                j <= n,
                forall|a: int, b: int| 0 <= a < b < j ==> self.name(a) != self.name(b),
            decreases n - j,
        {
            let mut i: usize = 0;
            while i < j
                invariant
                    n == self.calendars@.len(),
                    i <= j < n,
                    forall|a: int| 0 <= a < i ==> self.name(a) != self.name(j as int),
                decreases j - i,
            {
                if text_eq(self.calendars[i].0.as_str(), self.calendars[j].0.as_str()) {
                    assert(self.name(i as int) == self.name(j as int));
                    return Err(Error::Config(in_calendar(&self.calendars[j].0, " is defined more than once")));
                }
                i += 1;
            }
            j += 1;
        }
        assert(self.names_unique()) by {
            assert forall|a: int, b: int| 0 <= a < b < n implies self.name(a) != self.name(b) by {}
        }
        Ok(())
    }

    /// Fails with a configuration error, naming a calendar on the cycle,
    /// exactly when some calendar reaches itself through references. Each
    /// calendar's reachable set is grown to a fixed point from its direct
    /// references.
    pub fn detect_cycle(&self) -> (r: Result<(), Error>)
        ensures
            r is Ok <==> !self.has_cycle(),
            r matches Err(e) ==> e is Config,
    {
        let n = self.calendars.len();
        let m = self.reference_matrix();
        let mut v: usize = 0;
        while v < n
            invariant
                n == self.calendars@.len(),
                v <= n,
                self.matrix_matches(&m),
                forall|k: int| 0 <= k < v ==> !#[trigger] self.reaches(k, k),
            decreases n - v,
        {
            let reach = self.reach_closure(&m, v);
            if reach[v] {
                proof {
                    let p = choose|p: Seq<int>|
                        #[trigger] self.is_reference_path(p) && p.len() >= 2 && p[0] == v
                            && p[p.len() - 1] == v;
                    assert(self.is_reference_path(p));
                }
                return Err(Error::Config(in_calendar(&self.calendars[v].0, " is part of a reference cycle")));
            }
            proof {
                if self.reaches(v as int, v as int) {
                    let p = choose|p: Seq<int>|
                        #[trigger] self.is_reference_path(p) && p.len() >= 2 && p[0] == v
                            && p[p.len() - 1] == v;
                    self.lemma_closed_contains_path(reach@, p);
                }
            }
            v += 1;
        }
        assert(!self.has_cycle()) by {
            if self.has_cycle() {
                let p = choose|p: Seq<int>|
                    #[trigger] self.is_reference_path(p) && p.len() >= 2 && p[0] == p[p.len() - 1];
                assert(self.reaches(p[0], p[0]));
            }
        }
        Ok(())
    }

    /// Calendar `w` can be reached from calendar `v` through one or more references.
    pub open spec fn reaches(&self, v: int, w: int) -> bool {
        exists|p: Seq<int>|
            #[trigger] self.is_reference_path(p) && p.len() >= 2 && p[0] == v && p[p.len() - 1] == w
    }

    pub open spec fn matrix_matches(&self, m: &Vec<Vec<bool>>) -> bool {
        &&& m@.len() == self.calendars@.len()
        &&& forall|i: int| 0 <= i < m@.len() ==> (#[trigger] m@[i])@.len() == self.calendars@.len()
        &&& forall|i: int, k: int|
            0 <= i < m@.len() && 0 <= k < m@.len() ==> (#[trigger] m@[i]@[k] <==> self.references(i, k))
    }

    /// Whether calendar `i` has a source that refers to calendar `k`.
    fn refers_to(&self, i: usize, k: usize) -> (r: bool)
        requires
            i < self.calendars@.len(),
            k < self.calendars@.len(),
        ensures
            r == self.references(i as int, k as int),
    {
        let sources = &self.calendars[i].1.sources;
        let name = &self.calendars[k].0;
        let mut j: usize = 0;
        while j < sources.len()
            invariant
                i < self.calendars@.len(),
                k < self.calendars@.len(),
                *sources == self.cal(i as int).sources,
                *name == self.calendars@[k as int].0,
                j <= sources@.len(),
                forall|t: int| 0 <= t < j ==> (#[trigger] sources@[t]).spec_reference() != Some(self.name(k as int)),
            decreases sources@.len() - j,
        {
            if let SourceConfig::Calendar { calendar, .. } = &sources[j] {
                if text_eq(calendar.as_str(), name.as_str()) {
                    assert(sources@[j as int].spec_reference() == Some(self.name(k as int)));
                    return true;
                }
            }
            j += 1;
        }
        false
    }

    /// The reference relation as a matrix over calendar indices.
    fn reference_matrix(&self) -> (m: Vec<Vec<bool>>)
        ensures
            self.matrix_matches(&m),
    {
        let n = self.calendars.len();
        let mut m: Vec<Vec<bool>> = Vec::new();
        let mut i: usize = 0;
        while i < n
            invariant
                n == self.calendars@.len(),
                i <= n,
                m@.len() == i,
                forall|a: int| 0 <= a < i ==> (#[trigger] m@[a])@.len() == n,
                forall|a: int, k: int| 0 <= a < i && 0 <= k < n ==> (#[trigger] m@[a]@[k] <==> self.references(a, k)),
            decreases n - i,
        {
            let mut row: Vec<bool> = Vec::new();
            let mut k: usize = 0;
            while k < n
                invariant
                    n == self.calendars@.len(),
                    i < n,
                    k <= n,
                    row@.len() == k,
                    forall|b: int| 0 <= b < k ==> (#[trigger] row@[b] <==> self.references(i as int, b)),
                decreases n - k,
            {
                row.push(self.refers_to(i, k));
                k += 1;
            }
            m.push(row);
            i += 1;
        }
        m
    }

    proof fn lemma_extend(&self, v: int, i: int, k: int)
        requires
            self.reaches(v, i),
            self.references(i, k),
        ensures
            self.reaches(v, k),
    {
        let p = choose|p: Seq<int>|
            #[trigger] self.is_reference_path(p) && p.len() >= 2 && p[0] == v && p[p.len() - 1] == i;
        let q = p.push(k);
        assert forall|t: int| 0 <= t < q.len() - 1 implies #[trigger] self.references(q[t], q[t + 1]) by {
            if t < p.len() - 1 {
                assert(self.references(p[t], p[t + 1]));
            }
        }
        assert(self.is_reference_path(q));
    }

    proof fn lemma_direct(&self, v: int, k: int)
        requires
            self.references(v, k),
        ensures
            self.reaches(v, k),
    {
        let q = seq![v, k];
        assert forall|t: int| 0 <= t < q.len() - 1 implies #[trigger] self.references(q[t], q[t + 1]) by {}
        assert(self.is_reference_path(q));
    }

    /// A set of calendars that holds every direct reference of `p[0]` and is
    /// closed under references holds the end of the path `p`.
    proof fn lemma_closed_contains_path(&self, reach: Seq<bool>, p: Seq<int>)
        requires
            self.is_reference_path(p),
            p.len() >= 2,
            reach.len() == self.calendars@.len(),
            forall|k: int| 0 <= k < reach.len() && self.references(p[0], k) ==> #[trigger] reach[k],
            forall|i: int, k: int|
                0 <= i < reach.len() && 0 <= k < reach.len() && reach[i] && #[trigger] self.references(i, k) ==> reach[k],
        ensures
            reach[p[p.len() - 1]],
        decreases p.len(),
    {
        let z: int = 0;
        assert(self.references(p[z], p[z + 1]));
        if p.len() > 2 {
            let q = p.drop_last();
            assert forall|t: int| 0 <= t < q.len() - 1 implies #[trigger] self.references(q[t], q[t + 1]) by {
                assert(self.references(p[t], p[t + 1]));
            }
            assert(q[0] == p[0]);
            self.lemma_closed_contains_path(reach, q);
            let y: int = p.len() - 2;
            assert(self.references(p[y], p[y + 1]));
        }
    }

    /// Every calendar reachable from calendar `v` through one or more references.
    fn reach_closure(&self, m: &Vec<Vec<bool>>, v: usize) -> (reach: Vec<bool>)
        requires
            self.matrix_matches(m),
            v < self.calendars@.len(),
        ensures
            reach@.len() == self.calendars@.len(),
            forall|k: int| 0 <= k < reach@.len() && #[trigger] reach@[k] ==> self.reaches(v as int, k),
            forall|k: int| 0 <= k < reach@.len() && self.references(v as int, k) ==> #[trigger] reach@[k],
            forall|i: int, k: int|
                0 <= i < reach@.len() && 0 <= k < reach@.len() && reach@[i] && #[trigger] self.references(i, k) ==> reach@[k],
    {
        let n = m.len();
        let mut reach: Vec<bool> = Vec::new();
        let mut k: usize = 0;
        while k < n
            invariant
                self.matrix_matches(m),
                n == m@.len(),
                v < n,
                k <= n,
                reach@.len() == k,
                forall|b: int| 0 <= b < k ==> (#[trigger] reach@[b] <==> self.references(v as int, b)),
            decreases n - k,
        {
            reach.push(m[v][k]);
            k += 1;
        }
        assert forall|b: int| 0 <= b < n && #[trigger] reach@[b] implies self.reaches(v as int, b) by {
            self.lemma_direct(v as int, b);
        }
        let mut changed = true;
        while changed
            invariant
                self.matrix_matches(m),
                n == m@.len(),
                v < n,
                reach@.len() == n,
                forall|b: int| 0 <= b < n && #[trigger] reach@[b] ==> self.reaches(v as int, b),
                forall|b: int| 0 <= b < n && self.references(v as int, b) ==> #[trigger] reach@[b],
                !changed ==> forall|i: int, b: int|
                    0 <= i < n && 0 <= b < n && reach@[i] && #[trigger] self.references(i, b) ==> reach@[b],
            decreases 2 * (n - num_true(reach@)) + if changed { 1int } else { 0int },
        {
            proof {
                lemma_num_true_bound(reach@);
            }
            let ghost before = reach@;
            changed = false;
            let mut i: usize = 0;
            while i < n
                invariant
                    self.matrix_matches(m),
                    n == m@.len(),
                    v < n,
                    i <= n,
                    reach@.len() == n,
                    forall|b: int| 0 <= b < n && #[trigger] reach@[b] ==> self.reaches(v as int, b),
                    forall|b: int| 0 <= b < n && self.references(v as int, b) ==> #[trigger] reach@[b],
                    changed ==> num_true(reach@) > num_true(before),
                    !changed ==> reach@ == before,
                    !changed ==> forall|a: int, b: int|
                        0 <= a < i && 0 <= b < n && reach@[a] && #[trigger] self.references(a, b) ==> reach@[b],
                decreases n - i,
            {
                if reach[i] {
                    let mut k: usize = 0;
                    while k < n
                        invariant
                            self.matrix_matches(m),
                            n == m@.len(),
                            v < n,
                            i < n,
                            k <= n,
                            reach@.len() == n,
                            reach@[i as int],
                            forall|b: int| 0 <= b < n && #[trigger] reach@[b] ==> self.reaches(v as int, b),
                            forall|b: int| 0 <= b < n && self.references(v as int, b) ==> #[trigger] reach@[b],
                            changed ==> num_true(reach@) > num_true(before),
                            !changed ==> reach@ == before,
                            !changed ==> forall|a: int, b: int|
                                0 <= a < i && 0 <= b < n && reach@[a] && #[trigger] self.references(a, b) ==> reach@[b],
                            !changed ==> forall|b: int|
                                0 <= b < k && #[trigger] self.references(i as int, b) ==> reach@[b],
                        decreases n - k,
                    {
                        if m[i][k] && !reach[k] {
                            proof {
                                self.lemma_extend(v as int, i as int, k as int);
                                lemma_num_true_set(reach@, k as int);
                            }
                            reach.set(k, true);
                            changed = true;
                        }
                        k += 1;
                    }
                }
                i += 1;
            }
            proof {
                lemma_num_true_bound(reach@);
            }
        }
        reach
    }

    /// `r[k]` says whether calendar `k` can be reached from calendar `v`
    /// through one or more references.
    pub fn reachable_from(&self, v: usize) -> (r: Vec<bool>)
        requires
            v < self.calendars@.len(),
        ensures
            r@.len() == self.calendars@.len(),
            forall|k: int| 0 <= k < r@.len() ==> (#[trigger] r@[k] <==> self.reaches(v as int, k)),
    {
        let m = self.reference_matrix();
        let reach = self.reach_closure(&m, v);
        proof {
            assert forall|k: int| 0 <= k < reach@.len() && self.reaches(v as int, k) implies #[trigger] reach@[k] by {
                let p = choose|p: Seq<int>|
                    #[trigger] self.is_reference_path(p) && p.len() >= 2 && p[0] == v && p[p.len() - 1] == k;
                self.lemma_closed_contains_path(reach@, p);
            }
        }
        reach
    }

    /// The index of the calendar of this name, if any.
    pub fn find_calendar(&self, name: &str) -> (r: Option<usize>)
        ensures
            r matches Some(i) ==> i < self.calendars@.len() && self.name(i as int) == name@ && forall|j: int|
                0 <= j < i ==> self.name(j) != name@,
            r is None <==> !self.has_calendar(name@),
    {
        let n = self.calendars.len();
        let mut i: usize = 0;
        while i < n
            invariant
                n == self.calendars@.len(),
                i <= n,
                forall|k: int| 0 <= k < i ==> self.name(k) != name@,
            decreases n - i,
        {
            if text_eq(self.calendars[i].0.as_str(), name) {
                assert(self.name(i as int) == name@);
                return Some(i);
            }
            i += 1;
        }
        None
    }
}

/// A configuration in which some calendar reaches itself through references,
/// directly or through others, fails validation.
pub proof fn lemma_cycle_is_invalid(config: Config)
    requires
        config.has_cycle(),
    ensures
        !config.spec_valid(),
{
}

/// A configuration in which a source references a calendar that it does not
/// define fails validation.
pub proof fn lemma_dangling_reference_is_invalid(config: Config)
    requires
        config.has_dangling_reference(),
    ensures
        !config.spec_valid(),
{
    let (a, b) = choose|a: int, b: int|
        0 <= a < config.calendars@.len() && 0 <= b < config.cal(a).sources@.len()
            && (#[trigger] config.cal(a).sources@[b]).spec_reference() is Some
            && !config.has_calendar(config.cal(a).sources@[b].spec_reference()->Some_0);
    assert(!config.source_valid(config.cal(a).sources@[b]));
    assert(!config.calendar_valid(a));
}

/// The number of `true` entries.
pub open spec fn num_true(s: Seq<bool>) -> nat
    decreases s.len(),
{
    if s.len() == 0 {
        0
    } else {
        num_true(s.drop_last()) + if s.last() { 1nat } else { 0nat }
    }
}

proof fn lemma_num_true_bound(s: Seq<bool>)
    ensures
        num_true(s) <= s.len(),
    decreases s.len(),
{
    if s.len() > 0 {
        lemma_num_true_bound(s.drop_last());
    }
}

proof fn lemma_num_true_set(s: Seq<bool>, k: int)
    requires
        0 <= k < s.len(),
        !s[k],
    ensures
        num_true(s.update(k, true)) == num_true(s) + 1,
    decreases s.len(),
{
    let u = s.update(k, true);
    if k == s.len() - 1 {
        assert(u.drop_last() =~= s.drop_last());
    } else {
        lemma_num_true_set(s.drop_last(), k);
        assert(u.drop_last() =~= s.drop_last().update(k, true));
    }
}

/// `Calendar '<id>'` followed by `what`.
fn in_calendar(id: &String, what: &str) -> (r: String) {
    String::from_str("Calendar '").concat(id.as_str()).concat("'").concat(what)
}

impl Config {
    /// Checks each step of a list; fails on the first that validation rejects.
    pub fn validate_steps(steps: &[Step]) -> (r: Result<(), Error>)
        ensures
            r is Ok <==> steps_valid(steps@),
            r matches Err(e) ==> e is Config,
    {
        let n = steps.len();
        let mut i: usize = 0;
        while i < n
            invariant
                n == steps@.len(),
                i <= n,
                forall|k: int| 0 <= k < i ==> step_valid(#[trigger] steps@[k]),
            decreases n - i,
        {
            let checked = validate_step(&steps[i]);
            if checked.is_err() {
                return checked;
            }
            i += 1;
        }
        Ok(())
    }
}

/// Checks one step: its patterns compile, an allow or deny step has at least
/// one pattern, and a strip step names the reminder field.
fn validate_step(step: &Step) -> (r: Result<(), Error>)
    ensures
        r is Ok <==> step_valid(*step),
        r matches Err(e) ==> e is Config,
{
    match step {
        Step::Allow { patterns, .. } => validate_patterns(patterns),
        Step::Deny { patterns, .. } => validate_patterns(patterns),
        Step::Replace { pattern, .. } => {
            if Pattern::compile(pattern.as_str()).is_err() {
                return Err(Error::Config(invalid_pattern(pattern)));
            }
            Ok(())
        },
        Step::Strip { field } => {
            if !text_eq(field.as_str(), "reminder") {
                return Err(Error::Config(String::from_str("Unsupported strip field '").concat(
                    field.as_str(),
                ).concat("' (only 'reminder' is supported)")));
            }
            Ok(())
        },
        Step::Case { .. } => Ok(()),
    }
}

/// Checks that a list holds at least one pattern and that each compiles.
fn validate_patterns(patterns: &Vec<String>) -> (r: Result<(), Error>)
    ensures
        r is Ok <==> (patterns@.len() > 0 && forall|i: int|
            0 <= i < patterns@.len() ==> regex_valid(#[trigger] patterns@[i]@)),
        r matches Err(e) ==> e is Config,
{
    if patterns.len() == 0 {
        return Err(Error::Config(String::from_str("A step has no patterns")));
    }
    let n = patterns.len();
    let mut i: usize = 0;
    while i < n
        invariant
            n == patterns@.len(),
            i <= n,
            forall|k: int| 0 <= k < i ==> regex_valid(#[trigger] patterns@[k]@),
        decreases n - i,
    {
        if Pattern::compile(patterns[i].as_str()).is_err() {
            assert(!regex_valid(patterns@[i as int]@));
            return Err(Error::Config(invalid_pattern(&patterns[i])));
        }
        i += 1;
    }
    Ok(())
}

fn invalid_pattern(p: &String) -> (r: String) {
    String::from_str("Invalid pattern '").concat(p.as_str()).concat("'")
}

} // verus!
