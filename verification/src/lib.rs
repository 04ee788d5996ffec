//! Turns a decoded MTA service-alert feed into an iCalendar document.
//!
//! The crate maps alert entities to calendar-event records, resolving
//! multi-lingual text and active periods into single values, and encodes
//! those records into the exact textual calendar format, with line folding
//! and character escaping.

use vstd::prelude::*;

pub mod calendar;
pub mod clock;
pub mod fold;
pub mod ics;
pub mod text;

use crate::calendar::{
    default_of, feed_events, filter_by_route, filter_events, proto_feed_to_events, route_matches,
    views_of, CalendarEventView, DecodedFeed,
};
use crate::ics::{generate_ics_with_name, ics_header, ics_spec, vevent_spec, vevents_spec};
use crate::text::upper_of;

verus! {

/// Maps the feed, keeps the events whose routes contain `label` compared
/// case-insensitively, and encodes them with the label's calendar name.
pub fn generate_for_label(feed: &DecodedFeed, label: &str) -> (r: String)
    ensures
        exists|now: int|
            r@ == ics_spec(
                filter_events(feed_events(feed@.entity, default_of(feed@, now)), label@),
                Some(label@),
            ),
{
    let events = proto_feed_to_events(feed);
    let filtered = filter_by_route(&events, label);
    let r = generate_ics_with_name(&filtered, Some(label));
    proof {
        let now = choose|now: int|
            views_of(events@) == feed_events(feed@.entity, default_of(feed@, now));
        assert(r@ == ics_spec(
            filter_events(feed_events(feed@.entity, default_of(feed@, now)), label@),
            Some(label@),
        ));
    }
    r
}

/// For three events informing the routes {first}, {second, third} and {},
/// and a label whose uppercase form equals the first route's and differs
/// from the other two, the filtered document for that label holds exactly
/// the first event's block, under the label's calendar name.
pub proof fn lemma_label_filter_single_event(
    e1: CalendarEventView,
    e2: CalendarEventView,
    e3: CalendarEventView,
    label: Seq<char>,
    first: Seq<char>,
    second: Seq<char>,
    third: Seq<char>,
)
    requires
        e1.routes == seq![first],
        e2.routes == seq![second, third],
        e3.routes.len() == 0,
        upper_of(first) == upper_of(label),
        upper_of(second) != upper_of(label),
        upper_of(third) != upper_of(label),
    ensures
        filter_events(seq![e1, e2, e3], label) == seq![e1],
        ics_spec(seq![e1], Some(label)) == ics_header(Some(label)) + vevent_spec(e1)
            + "END:VCALENDAR\r\n"@,
{
    let evs = seq![e1, e2, e3];
    assert(route_matches(e1.routes, label)) by {
        assert(upper_of(e1.routes[0]) == upper_of(label));
    }
    assert(!route_matches(e2.routes, label)) by {
        assert forall|i: int| 0 <= i < e2.routes.len() implies upper_of(#[trigger] e2.routes[i])
            != upper_of(label) by {
            if i == 0 {
                assert(e2.routes[0] == second);
            } else {
                assert(e2.routes[1] == third);
            }
        }
    }
    assert(!route_matches(e3.routes, label));
    assert(evs[0] == e1);
    assert(evs.skip(1) =~= seq![e2, e3]);
    assert(seq![e2, e3][0] == e2);
    assert(seq![e2, e3].skip(1) =~= seq![e3]);
    assert(seq![e3][0] == e3);
    assert(seq![e3].skip(1) =~= Seq::<CalendarEventView>::empty());
    assert(filter_events(Seq::<CalendarEventView>::empty(), label)
        == Seq::<CalendarEventView>::empty());
    assert(filter_events(seq![e3], label) =~= Seq::<CalendarEventView>::empty());
    assert(filter_events(seq![e2, e3], label) =~= Seq::<CalendarEventView>::empty());
    assert(filter_events(evs, label) =~= seq![e1]);
    assert(seq![e1][0] == e1);
    assert(seq![e1].skip(1) =~= Seq::<CalendarEventView>::empty());
    assert(vevents_spec(Seq::<CalendarEventView>::empty()) == Seq::<char>::empty());
    assert(vevents_spec(seq![e1]) =~= vevent_spec(e1));
    assert(ics_spec(seq![e1], Some(label)) =~= ics_header(Some(label)) + vevent_spec(e1)
        + "END:VCALENDAR\r\n"@);
}

} // verus!
