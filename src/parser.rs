//! Feed text in and out, through the `icalendar` crate, after mending a
//! malformed alarm trigger that the crate's parser rejects.
use vstd::prelude::*;

use crate::error::Error;
use crate::ical::{component_model, view_of, Calendar, ComponentModel, Event, EventView};
use crate::steps::{event_views, reversed};
use crate::text::starts_with;
use icalendar::Calendar as VCalendar;
use icalendar::Event as VEvent;

verus! {

#[verifier::external_type_specification]
#[verifier::external_body]
pub struct ExIcalCalendar(VCalendar);

#[verifier::external_type_specification]
#[verifier::external_body]
pub struct ExIcalComponent(icalendar::CalendarComponent);

/// Whether icalendar's parser accepts the text.
pub uninterp spec fn ical_accepts(text: Seq<char>) -> bool;

/// What icalendar's parser reads from the text: each top-level component in
/// document order, as its event's model where it is an event.
pub uninterp spec fn parsed_components(text: Seq<char>) -> Seq<Option<ComponentModel>>;

pub open spec fn component_models(v: Seq<Option<VEvent>>) -> Seq<Option<ComponentModel>> {
    v.map_values(
        |c: Option<VEvent>|
            match c {
                Some(e) => Some(component_model(e)),
                None => None,
            },
    )
}

/// The events of the parsed components, in document order.
pub open spec fn events_of(cs: Seq<Option<ComponentModel>>) -> Seq<EventView>
    decreases cs.len(),
{
    if cs.len() == 0 {
        Seq::empty()
    } else {
        match cs.last() {
            Some(m) => events_of(cs.drop_last()).push(view_of(m)),
            None => events_of(cs.drop_last()),
        }
    }
}

/// The events icalendar's parser reads from the text.
pub open spec fn parsed_events(text: Seq<char>) -> Seq<EventView> {
    events_of(parsed_components(text))
}

/// Relies on icalendar's `FromStr` for `Calendar` and on its `components`:
/// it fails exactly on the texts it rejects, with a message; otherwise each
/// top-level component in document order, as its event where it is one.
#[verifier::external_body]
fn ical_parse(text: &str) -> (r: Result<Vec<Option<VEvent>>, String>)
    ensures
        r is Ok <==> ical_accepts(text@),
        r matches Ok(v) ==> component_models(v@) == parsed_components(text@),
{
    let calendar = text.parse::<VCalendar>()?;
    Ok(calendar.components.into_iter().map(|c| match c {
        icalendar::CalendarComponent::Event(e) => Some(e),
        _ => None,
    }).collect())
}

/// Relies on `icalendar::Calendar::new`.
#[verifier::external_body]
fn ical_new_calendar() -> (r: VCalendar) {
    VCalendar::new()
}

/// Relies on `icalendar::Calendar::push`.
#[verifier::external_body]
fn ical_push_event(cal: &mut VCalendar, e: VEvent) {
    cal.push(e);
}

/// Relies on icalendar's `Display` for `Calendar`: the calendar as text.
#[verifier::external_body]
fn ical_text(cal: &VCalendar) -> (r: String) {
    cal.to_string()
}

/// The pieces of the text between newlines.
pub open spec fn split_nl(s: Seq<char>) -> Seq<Seq<char>>
    decreases s.len(),
{
    if s.len() == 0 {
        seq![Seq::empty()]
    } else {
        let w = split_nl(s.drop_last());
        if s.last() == '\n' {
            w.push(Seq::empty())
        } else {
            w.drop_last().push(w.last().push(s.last()))
        }
    }
}

/// A line without the carriage return that ended it.
pub open spec fn strip_cr(l: Seq<char>) -> Seq<char> {
    if l.len() > 0 && l.last() == '\r' {
        l.drop_last()
    } else {
        l
    }
}

/// The lines of the text as `str::lines` gives them: split at `\n`, a `\r`
/// before the `\n` dropped, and no empty line after a final `\n`.
pub open spec fn lines_of(s: Seq<char>) -> Seq<Seq<char>> {
    let p = split_nl(s);
    let body = p.drop_last().map_values(|l: Seq<char>| strip_cr(l));
    if p.last().len() == 0 {
        body
    } else {
        body.push(p.last())
    }
}

/// The line without its trailing `T`s.
pub open spec fn trim_t(l: Seq<char>) -> Seq<char>
    decreases l.len(),
{
    if l.len() > 0 && l.last() == 'T' {
        trim_t(l.drop_last())
    } else {
        l
    }
}

pub open spec fn trigger_prefix() -> Seq<char> {
    "TRIGGER:"@
}

/// A `TRIGGER:` line that ends in `T` (an empty time part) loses its
/// trailing `T`s; other lines stay.
pub open spec fn mend_line(l: Seq<char>) -> Seq<char> {
    if trigger_prefix().len() <= l.len() && l.subrange(0, trigger_prefix().len() as int)
        == trigger_prefix() && l.len() > 0 && l.last() == 'T' {
        trim_t(l)
    } else {
        l
    }
}

/// The pieces joined by newlines.
pub open spec fn join_lines(ls: Seq<Seq<char>>) -> Seq<char>
    decreases ls.len(),
{
    if ls.len() == 0 {
        Seq::empty()
    } else if ls.len() == 1 {
        ls[0]
    } else {
        join_lines(ls.drop_last()) + seq!['\n'] + ls.last()
    }
}

/// The text with each line mended, joined by `\n`.
pub open spec fn sanitized(s: Seq<char>) -> Seq<char> {
    join_lines(lines_of(s).map_values(|l: Seq<char>| mend_line(l)))
}

fn split_newlines(s: &str) -> (r: Vec<String>)
    ensures
        r@.map_values(|w: String| w@) == split_nl(s@),
{
    let n = s.unicode_len();
    let mut done: Vec<String> = Vec::new();
    let mut start: usize = 0;
    let mut i: usize = 0;
    assert(s@.subrange(0, 0) =~= Seq::<char>::empty());
    assert(split_nl(s@.subrange(0, 0)) =~= seq![s@.subrange(0, 0)]);
    while i < n
        invariant
            n == s@.len(),
            start <= i <= n,
            split_nl(s@.subrange(0, i as int)) == done@.map_values(|w: String| w@).push(
                s@.subrange(start as int, i as int),
            ),
        decreases n - i,
    {
        let c = s.get_char(i);
        let ghost cur = s@.subrange(0, i as int + 1);
        let ghost prev = done@.map_values(|w: String| w@);
        assert(cur.drop_last() =~= s@.subrange(0, i as int));
        assert(cur.last() == c);
        if c == '\n' {
            let w = s.substring_char(start, i).to_string();
            done.push(w);
            start = i + 1;
            assert(done@.map_values(|w: String| w@) =~= prev.push(w@));
            assert(s@.subrange(start as int, i as int + 1) =~= Seq::<char>::empty());
        } else {
            assert(s@.subrange(start as int, i as int).push(c) =~= s@.subrange(
                start as int,
                i as int + 1,
            ));
            assert(prev.push(s@.subrange(start as int, i as int)).drop_last() =~= prev);
        }
        i += 1;
    }
    let w = s.substring_char(start, n).to_string();
    let ghost prev = done@.map_values(|w: String| w@);
    done.push(w);
    assert(done@.map_values(|w: String| w@) =~= prev.push(w@));
    assert(s@.subrange(0, n as int) =~= s@);
    done
}

fn strip_carriage_return(l: &str) -> (r: &str)
    ensures
        r@ == strip_cr(l@),
{
    let n = l.unicode_len();
    if n > 0 && l.get_char(n - 1) == '\r' {
        l.substring_char(0, n - 1)
    } else {
        l
    }
}

fn mend(l: &str) -> (r: String)
    ensures
        r@ == mend_line(l@),
{
    let n = l.unicode_len();
    if starts_with(l, "TRIGGER:") && n > 0 && l.get_char(n - 1) == 'T' {
        let mut m = n;
        assert(l@.subrange(0, n as int) =~= l@);
        while m > 0 && l.get_char(m - 1) == 'T'
            invariant
                m <= n,
                n == l@.len(),
                trim_t(l@) == trim_t(l@.subrange(0, m as int)),
            decreases m,
        {
            assert(l@.subrange(0, m as int).drop_last() =~= l@.subrange(0, m as int - 1));
            m -= 1;
        }
        l.substring_char(0, m).to_string()
    } else {
        l.to_string()
    }
}

/// Mends alarm triggers with an empty time part (`TRIGGER:-P2DT` becomes
/// `TRIGGER:-P2D`); the lines are joined by `\n`.
pub fn sanitize_ical(ical_text: &str) -> (r: String)
    ensures
        r@ == sanitized(ical_text@),
{
    let pieces = split_newlines(ical_text);
    let ghost ps = pieces@.map_values(|w: String| w@);
    let ghost ls = lines_of(ical_text@);
    let ghost ms = ls.map_values(|l: Seq<char>| mend_line(l));
    let last = pieces.len() - 1;
    let count = if pieces[last].unicode_len() == 0 { last } else { pieces.len() };
    assert(ms.len() == count);
    let mut out = String::new();
    let mut k: usize = 0;
    while k < count
        invariant
            ps == pieces@.map_values(|w: String| w@),
            ps == split_nl(ical_text@),
            ls == lines_of(ical_text@),
            ms == ls.map_values(|l: Seq<char>| mend_line(l)),
            last == pieces@.len() - 1,
            count <= pieces@.len(),
            count == ms.len(),
            k <= count,
            out@ == join_lines(ms.subrange(0, k as int)),
        decreases count - k,
    {
        let line = if k < last {
            strip_carriage_return(pieces[k].as_str())
        } else {
            pieces[k].as_str()
        };
        assert(line@ == ls[k as int]);
        let mended = mend(line);
        let ghost before = out@;
        let ghost next = ms.subrange(0, k as int + 1);
        assert(next.drop_last() =~= ms.subrange(0, k as int));
        if k > 0 {
            out.append("\n");
            proof {
                reveal_strlit("\n");
                assert("\n"@ =~= seq!['\n']);
            }
        }
        out.append(mended.as_str());
        proof {
            if k == 0 {
                assert(out@ =~= next[0]);
            } else {
                assert(out@ =~= before + seq!['\n'] + mended@);
            }
        }
        k += 1;
    }
    assert(ms.subrange(0, count as int) =~= ms);
    out
}

/// Parses feed text, after mending it, into its events.
pub fn parse_calendar(ical_text: &str) -> (r: Result<Calendar, Error>)
    ensures
        r is Ok <==> ical_accepts(sanitized(ical_text@)),
        r matches Ok(c) ==> event_views(c.spec_events()) == parsed_events(sanitized(ical_text@)),
        r matches Err(e) ==> e is Parse,
{
    let text = sanitize_ical(ical_text);
    match ical_parse(text.as_str()) {
        Ok(components) => {
            let ghost cs = component_models(components@);
            let n = components.len();
            let mut pending = reversed(components);
            let mut events: Vec<Event> = Vec::new();
            while pending.len() > 0
                invariant
                    cs.len() == n,
                    pending@.len() <= n,
                    forall|k: int| 0 <= k < pending@.len() ==> component_models(pending@)[k] == cs[n - 1 - k],
                    event_views(events@) == events_of(cs.subrange(0, n - pending@.len())),
                decreases pending@.len(),
            {
                let ghost done = n - pending@.len();
                let ghost last = pending@.len() - 1;
                assert(component_models(pending@)[last] == cs[done]);
                let ghost old_p = pending@;
                let c = pending.pop().unwrap();
                let ghost cur = cs.subrange(0, done + 1);
                assert(cur.drop_last() =~= cs.subrange(0, done));
                proof {
                    assert forall|k: int| 0 <= k < pending@.len() implies component_models(pending@)[k] == cs[n - 1 - k] by {
                        assert(pending@[k] == old_p[k]);
                        assert(component_models(old_p)[k] == cs[n - 1 - k]);
                    }
                }
                if let Some(e) = c {
                    let ghost prev = events@;
                    events.push(Event::new(e));
                    assert(event_views(events@) =~= event_views(prev).push(events@.last()@));
                }
            }
            assert(cs.subrange(0, n as int) =~= cs);
            Ok(Calendar::new(events))
        },
        Err(m) => Err(Error::Parse(String::from_str("Failed to parse iCal: ").concat(m.as_str()))),
    }
}

/// Writes the events out as one calendar's text.
pub fn serialize_events(events: Vec<Event>) -> (r: String) {
    let mut calendar = ical_new_calendar();
    for event in events {
        ical_push_event(&mut calendar, event.into_inner());
    }
    ical_text(&calendar)
}

} // verus!
