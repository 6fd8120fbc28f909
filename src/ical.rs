//! Calendar events: the parsed component that the `icalendar` crate writes
//! back out, read through a model of what it holds.
use vstd::prelude::*;

use crate::steps::{reversed, views_of};
use crate::text::text_eq;
use chrono::{Datelike, Timelike};
use icalendar::Event as VEvent;
use icalendar::{CalendarDateTime as IcalDateTime, DatePerhapsTime as IcalDate};

verus! {

#[verifier::external_type_specification]
#[verifier::external_body]
pub struct ExIcalEvent(VEvent);

#[verifier::external_type_specification]
#[verifier::external_body]
pub struct ExIcalProperty(icalendar::Property);

/// A date or date-time of an event as day and second numbers; a day counts
/// from 0001-01-01, which is day 1.
#[derive(Debug, Clone, Copy, PartialEq, Eq, Structural)]
pub enum TimeParts {
    /// A date without a time.
    Date { day: i32 },
    /// A local time with no zone.
    Floating { day: i32, second: u32 },
    /// A UTC time.
    Utc { day: i32, second: u32 },
    /// A local time in a named zone.
    Zoned { day: i32, second: u32 },
}

/// The day number of 1970-01-01.
pub const UNIX_EPOCH_DAY: i64 = 719163;

/// Seconds since the Unix epoch: a date counts as its midnight, and a
/// floating or zoned time is read as if it were UTC.
pub open spec fn epoch_seconds(t: TimeParts) -> int {
    match t {
        TimeParts::Date { day } => (day - UNIX_EPOCH_DAY) * 86400,
        TimeParts::Floating { day, second } => (day - UNIX_EPOCH_DAY) * 86400 + second,
        TimeParts::Utc { day, second } => (day - UNIX_EPOCH_DAY) * 86400 + second,
        TimeParts::Zoned { day, second } => (day - UNIX_EPOCH_DAY) * 86400 + second,
    }
}

pub open spec fn epoch_of(t: Option<TimeParts>) -> Option<i64> {
    match t {
        Some(t) => Some(epoch_seconds(t) as i64),
        None => None,
    }
}

pub fn epoch(t: TimeParts) -> (r: i64)
    ensures
        r == epoch_seconds(t),
{
    match t {
        TimeParts::Date { day } => (day as i64 - UNIX_EPOCH_DAY) * 86400,
        TimeParts::Floating { day, second } => (day as i64 - UNIX_EPOCH_DAY) * 86400 + second as i64,
        TimeParts::Utc { day, second } => (day as i64 - UNIX_EPOCH_DAY) * 86400 + second as i64,
        TimeParts::Zoned { day, second } => (day as i64 - UNIX_EPOCH_DAY) * 86400 + second as i64,
    }
}

/// What an event component holds, as far as this library reads it.
pub struct ComponentModel {
    /// Each single-valued property: name to value.
    pub values: Map<Seq<char>, Seq<char>>,
    /// `DTSTART` as `get_start` reads it.
    pub start: Option<TimeParts>,
    /// `DTEND` as `get_end` reads it.
    pub end: Option<TimeParts>,
    /// The kind (`VALARM`, ...) of each sub-component, in order.
    pub kinds: Seq<Seq<char>>,
}

/// What an `icalendar::Event` holds.
pub uninterp spec fn component_model(e: VEvent) -> ComponentModel;

/// The name and value of an `icalendar::Property`.
pub uninterp spec fn property_entry(p: icalendar::Property) -> (Seq<char>, Seq<char>);

/// The date or date-time `DatePerhapsTime::from_property` reads from the
/// property.
pub uninterp spec fn property_time(p: icalendar::Property) -> Option<TimeParts>;

pub open spec fn no_values() -> Map<Seq<char>, Seq<char>> {
    Map::empty()
}

pub open spec fn lookup(m: Map<Seq<char>, Seq<char>>, k: Seq<char>) -> Option<Seq<char>> {
    if m.dom().contains(k) {
        Some(m[k])
    } else {
        None
    }
}

pub open spec fn opt_str(o: Option<&str>) -> Option<Seq<char>> {
    match o {
        Some(s) => Some(s@),
        None => None,
    }
}

/// Relies on `icalendar::Component::property_value`: the value of the
/// single-valued property of that name, if the component has one.
#[verifier::external_body]
fn ical_property_text<'a>(e: &'a VEvent, key: &str) -> (r: Option<&'a str>)
    ensures
        opt_str(r) == lookup(component_model(*e).values, key@),
{
    icalendar::Component::property_value(e, key)
}

/// Relies on `icalendar::Component::add_property`: sets the property of that
/// name, replacing an earlier value; sub-components stay, and so do the
/// start and end unless the property is `DTSTART` or `DTEND`.
#[verifier::external_body]
fn ical_set_property(e: &mut VEvent, key: &str, value: &str)
    ensures
        component_model(*final(e)).values == component_model(*old(e)).values.insert(key@, value@),
        component_model(*final(e)).kinds == component_model(*old(e)).kinds,
        key@ != "DTSTART"@ ==> component_model(*final(e)).start == component_model(*old(e)).start,
        key@ != "DTEND"@ ==> component_model(*final(e)).end == component_model(*old(e)).end,
{
    icalendar::Component::add_property(e, key, value);
}

/// Relies on `icalendar::Component::properties` and
/// `DatePerhapsTime::from_property`, which is how `get_start` and `get_end`
/// read `DTSTART` and `DTEND`, and on chrono's `num_days_from_ce` and
/// `num_seconds_from_midnight`: the date or date-time of the property, as day
/// and second numbers.
#[verifier::external_body]
fn ical_time(e: &VEvent, key: &str) -> (r: Option<TimeParts>)
    ensures
        key@ == "DTSTART"@ ==> r == component_model(*e).start,
        key@ == "DTEND"@ ==> r == component_model(*e).end,
{
    let d = icalendar::Component::properties(e).get(key).and_then(IcalDate::from_property)?;
    Some(match d {
        IcalDate::Date(d) => TimeParts::Date { day: d.num_days_from_ce() },
        IcalDate::DateTime(IcalDateTime::Floating(t)) => TimeParts::Floating { day: t.num_days_from_ce(), second: t.num_seconds_from_midnight() },
        IcalDate::DateTime(IcalDateTime::Utc(t)) => TimeParts::Utc { day: t.num_days_from_ce(), second: t.num_seconds_from_midnight() },
        IcalDate::DateTime(IcalDateTime::WithTimezone { date_time: t, .. }) => TimeParts::Zoned { day: t.num_days_from_ce(), second: t.num_seconds_from_midnight() },
    })
}

/// Relies on `icalendar::Component::components` and `component_kind`: the
/// kind of each sub-component.
#[verifier::external_body]
fn ical_component_kinds(e: &VEvent) -> (r: Vec<String>)
    ensures
        views_of(r@) == component_model(*e).kinds,
{
    icalendar::Component::components(e).iter().map(|c| icalendar::Component::component_kind(c)).collect()
}

/// Relies on `icalendar::Component::properties`: the single-valued
/// properties, one per name.
#[verifier::external_body]
fn ical_properties(e: &VEvent) -> (r: Vec<icalendar::Property>)
    ensures
        forall|i: int, j: int| 0 <= i < j < r@.len() ==> property_entry(#[trigger] r@[i]).0 != property_entry(#[trigger] r@[j]).0,
        forall|k: Seq<char>| #[trigger] component_model(*e).values.dom().contains(k) <==> exists|i: int|
            0 <= i < r@.len() && property_entry(#[trigger] r@[i]).0 == k,
        forall|i: int| 0 <= i < r@.len() ==> component_model(*e).values[property_entry(#[trigger] r@[i]).0] == property_entry(r@[i]).1,
        forall|i: int| 0 <= i < r@.len() && property_entry(#[trigger] r@[i]).0 == "DTSTART"@ ==> property_time(r@[i]) == component_model(*e).start,
        forall|i: int| 0 <= i < r@.len() && property_entry(#[trigger] r@[i]).0 == "DTEND"@ ==> property_time(r@[i]) == component_model(*e).end,
        (forall|i: int| 0 <= i < r@.len() ==> property_entry(#[trigger] r@[i]).0 != "DTSTART"@) ==> component_model(*e).start is None,
        (forall|i: int| 0 <= i < r@.len() ==> property_entry(#[trigger] r@[i]).0 != "DTEND"@) ==> component_model(*e).end is None,
{
    icalendar::Component::properties(e).values().cloned().collect()
}

/// Relies on `icalendar::Component::multi_properties`: the properties that
/// may occur several times, each occurrence in turn.
#[verifier::external_body]
fn ical_multi_properties(e: &VEvent) -> (r: Vec<icalendar::Property>) {
    icalendar::Component::multi_properties(e).values().flatten().cloned().collect()
}

/// Relies on `icalendar::Event::new`: an event with no property and no
/// sub-component.
#[verifier::external_body]
fn ical_empty_event() -> (r: VEvent)
    ensures
        component_model(r).values == no_values(),
        component_model(r).start is None,
        component_model(r).end is None,
        component_model(r).kinds.len() == 0,
{
    VEvent::new()
}

/// Relies on `icalendar::Component::append_property`: the property replaces
/// any earlier one of its name.
#[verifier::external_body]
fn ical_append_property(e: &mut VEvent, p: icalendar::Property)
    ensures
        component_model(*final(e)).values == component_model(*old(e)).values.insert(
            property_entry(p).0,
            property_entry(p).1,
        ),
        component_model(*final(e)).kinds == component_model(*old(e)).kinds,
        component_model(*final(e)).start == if property_entry(p).0 == "DTSTART"@ {
            property_time(p)
        } else {
            component_model(*old(e)).start
        },
        component_model(*final(e)).end == if property_entry(p).0 == "DTEND"@ {
            property_time(p)
        } else {
            component_model(*old(e)).end
        },
{
    icalendar::Component::append_property(e, p);
}

/// Relies on `icalendar::Component::append_multi_property`: it adds to the
/// multi-valued properties only.
#[verifier::external_body]
fn ical_append_multi_property(e: &mut VEvent, p: icalendar::Property)
    ensures
        component_model(*final(e)) == component_model(*old(e)),
{
    icalendar::Component::append_multi_property(e, p);
}

/// What the pipeline reads and writes of an event.
pub struct EventView {
    pub uid: Option<Seq<char>>,
    pub summary: Option<Seq<char>>,
    pub description: Option<Seq<char>>,
    pub location: Option<Seq<char>>,
    pub start: Option<i64>,
    pub end: Option<i64>,
    pub has_alarms: bool,
}

/// The event a component holds: its text fields, its start and end in
/// seconds since the Unix epoch, and whether it has an alarm.
pub open spec fn view_of(m: ComponentModel) -> EventView {
    EventView {
        uid: lookup(m.values, "UID"@),
        summary: lookup(m.values, "SUMMARY"@),
        description: lookup(m.values, "DESCRIPTION"@),
        location: lookup(m.values, "LOCATION"@),
        start: epoch_of(m.start),
        end: epoch_of(m.end),
        has_alarms: m.kinds.contains("VALARM"@),
    }
}

/// One calendar event, held as the component that is written back out.
#[derive(Debug)]
pub struct Event {
    inner: VEvent,
}

impl View for Event {
    type V = EventView;

    open spec fn view(&self) -> EventView {
        view_of(component_model(self.spec_inner()))
    }
}

proof fn lemma_field_names_differ()
    ensures
        "UID"@ != "SUMMARY"@,
        "UID"@ != "DESCRIPTION"@,
        "UID"@ != "LOCATION"@,
        "SUMMARY"@ != "DESCRIPTION"@,
        "SUMMARY"@ != "LOCATION"@,
        "DESCRIPTION"@ != "LOCATION"@,
        "SUMMARY"@ != "DTSTART"@,
        "SUMMARY"@ != "DTEND"@,
        "DESCRIPTION"@ != "DTSTART"@,
        "DESCRIPTION"@ != "DTEND"@,
        "LOCATION"@ != "DTSTART"@,
        "LOCATION"@ != "DTEND"@,
        "DTSTART"@ != "DTEND"@,
{
    reveal_strlit("UID");
    reveal_strlit("SUMMARY");
    reveal_strlit("DESCRIPTION");
    reveal_strlit("LOCATION");
    reveal_strlit("DTSTART");
    reveal_strlit("DTEND");
    assert("UID"@[0] != "SUMMARY"@[0]);
    assert("UID"@[0] != "DESCRIPTION"@[0]);
    assert("UID"@[0] != "LOCATION"@[0]);
    assert("SUMMARY"@[0] != "DESCRIPTION"@[0]);
    assert("SUMMARY"@[0] != "LOCATION"@[0]);
    assert("DESCRIPTION"@[0] != "LOCATION"@[0]);
    assert("SUMMARY"@[0] != "DTSTART"@[0]);
    assert("SUMMARY"@[0] != "DTEND"@[0]);
    assert("DESCRIPTION"@[1] != "DTSTART"@[1]);
    assert("DESCRIPTION"@[1] != "DTEND"@[1]);
    assert("LOCATION"@[0] != "DTSTART"@[0]);
    assert("LOCATION"@[0] != "DTEND"@[0]);
    assert("DTSTART"@.len() != "DTEND"@.len());
}

impl Event {
    /// The component that is written out.
    pub closed spec fn spec_inner(&self) -> VEvent {
        self.inner
    }

    /// Wraps a parsed event component.
    pub fn new(inner: VEvent) -> (r: Event)
        ensures
            r.spec_inner() == inner,
            r@ == view_of(component_model(inner)),
    {
        Event { inner }
    }

    /// The component as it will be written out.
    pub fn inner(&self) -> (r: &VEvent)
        ensures
            *r == self.spec_inner(),
    {
        &self.inner
    }

    /// The component as it will be written out.
    pub fn into_inner(self) -> (r: VEvent)
        ensures
            r == self.spec_inner(),
    {
        self.inner
    }

    pub fn summary(&self) -> (r: Option<&str>)
        ensures
            opt_str(r) == self@.summary,
    {
        ical_property_text(&self.inner, "SUMMARY")
    }

    pub fn description(&self) -> (r: Option<&str>)
        ensures
            opt_str(r) == self@.description,
    {
        ical_property_text(&self.inner, "DESCRIPTION")
    }

    pub fn location(&self) -> (r: Option<&str>)
        ensures
            opt_str(r) == self@.location,
    {
        ical_property_text(&self.inner, "LOCATION")
    }

    pub fn uid(&self) -> (r: Option<&str>)
        ensures
            opt_str(r) == self@.uid,
    {
        ical_property_text(&self.inner, "UID")
    }

    /// Start time, in seconds since the Unix epoch.
    pub fn start(&self) -> (r: Option<i64>)
        ensures
            r == self@.start,
    {
        match ical_time(&self.inner, "DTSTART") {
            Some(t) => Some(epoch(t)),
            None => None,
        }
    }

    /// End time, in seconds since the Unix epoch.
    pub fn end(&self) -> (r: Option<i64>)
        ensures
            r == self@.end,
    {
        match ical_time(&self.inner, "DTEND") {
            Some(t) => Some(epoch(t)),
            None => None,
        }
    }

    /// Whether the event has an alarm sub-component.
    pub fn has_alarms(&self) -> (r: bool)
        ensures
            r == self@.has_alarms,
    {
        let kinds = ical_component_kinds(&self.inner);
        let ghost ks = views_of(kinds@);
        let mut i: usize = 0;
        while i < kinds.len()
            invariant
                ks == views_of(kinds@),
                ks == component_model(self.inner).kinds,
                i <= kinds@.len(),
                forall|j: int| 0 <= j < i ==> ks[j] != "VALARM"@,
            decreases kinds@.len() - i,
        {
            if text_eq(kinds[i].as_str(), "VALARM") {
                assert(ks[i as int] == "VALARM"@);
                return true;
            }
            i += 1;
        }
        assert(!ks.contains("VALARM"@));
        false
    }

    pub fn set_summary(&mut self, summary: &str)
        ensures
            final(self)@ == (EventView { summary: Some(summary@), ..old(self)@ }),
    {
        proof {
            lemma_field_names_differ();
        }
        ical_set_property(&mut self.inner, "SUMMARY", summary);
    }

    pub fn set_description(&mut self, description: &str)
        ensures
            final(self)@ == (EventView { description: Some(description@), ..old(self)@ }),
    {
        proof {
            lemma_field_names_differ();
        }
        ical_set_property(&mut self.inner, "DESCRIPTION", description);
    }

    pub fn set_location(&mut self, location: &str)
        ensures
            final(self)@ == (EventView { location: Some(location@), ..old(self)@ }),
    {
        proof {
            lemma_field_names_differ();
        }
        ical_set_property(&mut self.inner, "LOCATION", location);
    }

    /// Removes every sub-component (alarms) and keeps every property.
    pub fn strip_alarms(&mut self)
        ensures
            final(self)@ == (EventView { has_alarms: false, ..old(self)@ }),
            component_model(final(self).spec_inner()) == (ComponentModel {
                kinds: Seq::empty(),
                ..component_model(old(self).spec_inner())
            }),
    {
        let ghost m = component_model(self.inner);
        let props = ical_properties(&self.inner);
        let multi = ical_multi_properties(&self.inner);
        let mut stripped = ical_empty_event();
        let n = props.len();
        let ghost ps = props@;
        let mut pending = reversed(props);
        let mut i: usize = 0;
        while i < n
            invariant
                n == ps.len(),
                i <= n,
                pending@.len() == n - i,
                forall|k: int| 0 <= k < pending@.len() ==> pending@[k] == ps[n - 1 - k],
                forall|a: int, b: int| 0 <= a < b < ps.len() ==> property_entry(#[trigger] ps[a]).0 != property_entry(#[trigger] ps[b]).0,
                forall|a: int| 0 <= a < ps.len() ==> m.values[property_entry(#[trigger] ps[a]).0] == property_entry(ps[a]).1,
                forall|a: int| 0 <= a < ps.len() && property_entry(#[trigger] ps[a]).0 == "DTSTART"@ ==> property_time(ps[a]) == m.start,
                forall|a: int| 0 <= a < ps.len() && property_entry(#[trigger] ps[a]).0 == "DTEND"@ ==> property_time(ps[a]) == m.end,
                forall|k: Seq<char>| #[trigger] component_model(stripped).values.dom().contains(k) <==> exists|a: int|
                    0 <= a < i && property_entry(#[trigger] ps[a]).0 == k,
                forall|k: Seq<char>| #[trigger] component_model(stripped).values.dom().contains(k) ==> component_model(stripped).values[k] == m.values[k],
                component_model(stripped).kinds == Seq::<Seq<char>>::empty(),
                component_model(stripped).start == if component_model(stripped).values.dom().contains("DTSTART"@) { m.start } else { None },
                component_model(stripped).end == if component_model(stripped).values.dom().contains("DTEND"@) { m.end } else { None },
            decreases n - i,
        {
            let ghost p = ps[i as int];
            let ghost before = component_model(stripped);
            let q = pending.pop().unwrap();
            ical_append_property(&mut stripped, q);
            proof {
                let after = component_model(stripped);
                assert forall|k: Seq<char>| #[trigger] after.values.dom().contains(k) <==> exists|a: int|
                    0 <= a < i + 1 && property_entry(#[trigger] ps[a]).0 == k by {
                    if after.values.dom().contains(k) && k != property_entry(p).0 {
                        assert(before.values.dom().contains(k));
                    }
                    if k == property_entry(p).0 {
                        assert(property_entry(ps[i as int]).0 == k);
                    }
                }
            }
            i += 1;
        }
        let ghost mid = component_model(stripped);
        let mut pending = reversed(multi);
        while pending.len() > 0
            invariant
                component_model(stripped) == mid,
            decreases pending@.len(),
        {
            let q = pending.pop().unwrap();
            ical_append_multi_property(&mut stripped, q);
        }
        proof {
            assert(mid.values =~= m.values);
        }
        self.inner = stripped;
    }
}

/// The events read from one feed.
#[derive(Debug)]
pub struct Calendar {
    events: Vec<Event>,
}

impl Calendar {
    pub fn new(events: Vec<Event>) -> (r: Calendar)
        ensures
            r.spec_events() == events@,
    {
        Calendar { events }
    }

    pub closed spec fn spec_events(&self) -> Seq<Event> {
        self.events@
    }

    pub fn events(&self) -> (r: &[Event])
        ensures
            r@ == self.spec_events(),
    {
        self.events.as_slice()
    }

    pub fn into_events(self) -> (r: Vec<Event>)
        ensures
            r@ == self.spec_events(),
    {
        self.events
    }
}

} // verus!
