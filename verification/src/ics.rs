//! Encoding calendar events into the exact textual calendar document, with
//! field escaping and line folding.

use vstd::prelude::*;

use crate::calendar::{views_of, CalendarEvent, CalendarEventView};
use crate::clock::{fmt_ts, format_datetime, timestamp_parses, ts_in_range};
use crate::fold::{fold_line, fold_spec};
use crate::text::{to_upper, upper_of};

verus! {

/// The escape expansion of one character: backslash, line feed, comma and
/// semicolon get a backslash form; a carriage return vanishes.
pub open spec fn escape_char(c: char) -> Seq<char> {
    if c == '\\' {
        seq!['\\', '\\']
    } else if c == '\n' {
        seq!['\\', 'n']
    } else if c == '\r' {
        Seq::empty()
    } else if c == ',' {
        seq!['\\', ',']
    } else if c == ';' {
        seq!['\\', ';']
    } else {
        seq![c]
    }
}

/// The escaped form of a text value.
pub open spec fn escape_seq(s: Seq<char>) -> Seq<char>
    decreases s.len(),
{
    if s.len() == 0 {
        Seq::empty()
    } else {
        escape_char(s[0]) + escape_seq(s.skip(1))
    }
}

/// Escapes a text value for the SUMMARY, DESCRIPTION and CATEGORIES fields.
pub fn escape_text(text: &str) -> (r: String)
    ensures
        r@ == escape_seq(text@),
{
    let n = text.unicode_len();
    let mut out = String::new();
    let mut i: usize = 0;
    proof {
        assert(text@.skip(0) =~= text@);
        assert(out@ + escape_seq(text@) =~= escape_seq(text@));
    }
    while i < n
        invariant
            0 <= i <= n,
            n == text@.len(),
            escape_seq(text@) == out@ + escape_seq(text@.skip(i as int)),
        decreases n - i,
    {
        let ghost tail = text@.skip(i as int);
        let ghost out0 = out@;
        proof {
            assert(tail[0] == text@[i as int]);
            assert(tail.skip(1) =~= text@.skip(i + 1));
        }
        let c = text.get_char(i);
        if c == '\\' {
            out.append("\\\\");
            proof {
                reveal_strlit("\\\\");
                assert("\\\\"@ =~= escape_char('\\'));
            }
        } else if c == '\n' {
            out.append("\\n");
            proof {
                reveal_strlit("\\n");
                assert("\\n"@ =~= escape_char('\n'));
            }
        } else if c == '\r' {
        } else if c == ',' {
            out.append("\\,");
            proof {
                reveal_strlit("\\,");
                assert("\\,"@ =~= escape_char(','));
            }
        } else if c == ';' {
            out.append("\\;");
            proof {
                reveal_strlit("\\;");
                assert("\\;"@ =~= escape_char(';'));
            }
        } else {
            let piece = text.substring_char(i, i + 1);
            out.append(piece);
            proof {
                assert(piece@ =~= escape_char(c));
            }
        }
        proof {
            assert(out@ =~= out0 + escape_char(c));
            assert(out@ + escape_seq(text@.skip(i + 1)) =~= out0 + escape_seq(tail));
        }
        i += 1;
    }
    proof {
        assert(text@.skip(n as int) =~= Seq::<char>::empty());
        assert(out@ =~= out@ + escape_seq(text@.skip(n as int)));
    }
    out
}

/// Escaping changes nothing on text without escapable characters: no
/// backslash, line feed, carriage return, comma or semicolon.
pub proof fn lemma_escape_safe_identity(s: Seq<char>)
    requires
        forall|i: int|
            0 <= i < s.len() ==> !(s[i] == '\\' || s[i] == '\n' || s[i] == '\r' || s[i] == ','
                || s[i] == ';'),
    ensures
        escape_seq(s) == s,
    decreases s.len(),
{
    if s.len() > 0 {
        assert(forall|i: int| 0 <= i < s.skip(1).len() ==> s.skip(1)[i] == s[i + 1]);
        lemma_escape_safe_identity(s.skip(1));
        assert(escape_char(s[0]) =~= seq![s[0]]);
        assert(seq![s[0]] + s.skip(1) =~= s);
    }
}

/// One folded content line followed by CR LF.
pub open spec fn content_line(l: Seq<char>) -> Seq<char> {
    fold_spec(l) + "\r\n"@
}

/// The DTEND timestamp: the declared end, else one hour past the start;
/// when that one-hour point cannot be represented, the start itself stands
/// in, so the synthesized window stays well-formed whenever the start is
/// representable.
pub open spec fn dtend_secs(e: CalendarEventView) -> int {
    match e.end {
        Some(t) => t,
        None => {
            let s = if e.start + 3600 <= i64::MAX as int {
                e.start + 3600
            } else {
                i64::MAX as int
            };
            if ts_in_range(s) {
                s
            } else {
                e.start
            }
        },
    }
}

/// The encoded VEVENT block of one calendar event: the fixed field order,
/// each line folded, text fields escaped, DESCRIPTION omitted when empty.
pub open spec fn vevent_spec(e: CalendarEventView) -> Seq<char> {
    "BEGIN:VEVENT\r\n"@ + content_line("UID:"@ + e.uid + "@nyctraincal"@) + content_line(
        "CREATED:"@ + fmt_ts(e.created_at),
    ) + content_line("LAST-MODIFIED:"@ + fmt_ts(e.updated_at)) + content_line(
        "DTSTAMP:"@ + fmt_ts(e.updated_at),
    ) + content_line("DTSTART:"@ + fmt_ts(e.start)) + content_line(
        "DTEND:"@ + fmt_ts(dtend_secs(e)),
    ) + content_line("SUMMARY:"@ + escape_seq(e.summary)) + (if e.description.len() > 0 {
        content_line("DESCRIPTION:"@ + escape_seq(e.description))
    } else {
        Seq::<char>::empty()
    }) + content_line("CATEGORIES:"@ + escape_seq(e.alert_type)) + content_line(
        "X-MTA-ALERT-ID:"@ + e.mta_alert_id,
    ) + "END:VEVENT\r\n"@
}

/// Folds `line` and appends it to `out`, with the CR LF terminator.
fn push_content_line(out: &mut String, line: &String)
    ensures
        final(out)@ == old(out)@ + content_line(line@),
{
    let folded = fold_line(line.as_str());
    out.append(folded.as_str());
    out.append("\r\n");
    proof {
        assert(out@ =~= old(out)@ + content_line(line@));
    }
}

/// Encodes one event as its VEVENT block.
fn generate_event(event: &CalendarEvent) -> (r: String)
    ensures
        r@ == vevent_spec(event@),
{
    let mut out = "BEGIN:VEVENT\r\n".to_owned();

    let mut l_uid = "UID:".to_owned();
    l_uid.append(event.uid.as_str());
    l_uid.append("@nyctraincal");
    push_content_line(&mut out, &l_uid);

    let created = format_datetime(event.created_at);
    let mut l_created = "CREATED:".to_owned();
    l_created.append(created.as_str());
    push_content_line(&mut out, &l_created);

    let updated = format_datetime(event.updated_at);
    let mut l_mod = "LAST-MODIFIED:".to_owned();
    l_mod.append(updated.as_str());
    push_content_line(&mut out, &l_mod);

    let mut l_stamp = "DTSTAMP:".to_owned();
    l_stamp.append(updated.as_str());
    push_content_line(&mut out, &l_stamp);

    let start = format_datetime(event.start);
    let mut l_start = "DTSTART:".to_owned();
    l_start.append(start.as_str());
    push_content_line(&mut out, &l_start);

    let end_secs = match event.end {
        Some(t) => t,
        None => {
            let s = if event.start <= i64::MAX - 3600 {
                event.start + 3600
            } else {
                i64::MAX
            };
            if timestamp_parses(s) {
                s
            } else {
                event.start
            }
        },
    };
    assert(end_secs as int == dtend_secs(event@));
    let endf = format_datetime(end_secs);
    let mut l_end = "DTEND:".to_owned();
    l_end.append(endf.as_str());
    push_content_line(&mut out, &l_end);

    let esc_summary = escape_text(event.summary.as_str());
    let mut l_summary = "SUMMARY:".to_owned();
    l_summary.append(esc_summary.as_str());
    push_content_line(&mut out, &l_summary);

    if event.description.as_str().unicode_len() > 0 {
        let esc_desc = escape_text(event.description.as_str());
        let mut l_desc = "DESCRIPTION:".to_owned();
        l_desc.append(esc_desc.as_str());
        push_content_line(&mut out, &l_desc);
    }

    let esc_type = escape_text(event.alert_type.as_str());
    let mut l_cat = "CATEGORIES:".to_owned();
    l_cat.append(esc_type.as_str());
    push_content_line(&mut out, &l_cat);

    let mut l_id = "X-MTA-ALERT-ID:".to_owned();
    l_id.append(event.mta_alert_id.as_str());
    push_content_line(&mut out, &l_id);

    out.append("END:VEVENT\r\n");
    proof {
        assert(out@ =~= vevent_spec(event@));
    }
    out
}

/// The calendar name the document announces: fixed, or derived from the
/// filter label.
pub open spec fn cal_name(label: Option<Seq<char>>) -> Seq<char> {
    match label {
        Some(l) => "MTA "@ + upper_of(l) + " Train Alerts"@,
        None => "MTA Subway Alerts"@,
    }
}

/// The calendar description the document announces.
pub open spec fn cal_desc(label: Option<Seq<char>>) -> Seq<char> {
    match label {
        Some(l) => "Real-time alerts and planned service changes for MTA "@ + upper_of(l)
            + " train"@,
        None => "Real-time alerts and planned service changes for MTA Subway"@,
    }
}

/// The fixed document header, through the X-WR-CALDESC line.
pub open spec fn ics_header(label: Option<Seq<char>>) -> Seq<char> {
    "BEGIN:VCALENDAR\r\n"@ + "VERSION:2.0\r\n"@
        + "PRODID:-//NYC TRAIN CAL//MTA Subway Alerts//EN\r\n"@ + "CALSCALE:GREGORIAN\r\n"@
        + "METHOD:PUBLISH\r\n"@ + "X-WR-CALNAME:"@ + cal_name(label) + "\r\n"@
        + "X-WR-TIMEZONE:America/New_York\r\n"@ + "X-WR-CALDESC:"@ + cal_desc(label) + "\r\n"@
}

/// The VEVENT blocks of the events, in order.
pub open spec fn vevents_spec(evs: Seq<CalendarEventView>) -> Seq<char>
    decreases evs.len(),
{
    if evs.len() == 0 {
        Seq::empty()
    } else {
        vevent_spec(evs[0]) + vevents_spec(evs.skip(1))
    }
}

/// The complete calendar document for the events, named after the optional
/// filter label.
pub open spec fn ics_spec(evs: Seq<CalendarEventView>, label: Option<Seq<char>>) -> Seq<char> {
    ics_header(label) + vevents_spec(evs) + "END:VCALENDAR\r\n"@
}

/// Encodes the events as a complete calendar document, named after the
/// given train when one is given.
pub fn generate_ics_with_name(events: &Vec<CalendarEvent>, train_name: Option<&str>) -> (r: String)
    ensures
        r@ == ics_spec(
            views_of(events@),
            match train_name {
                Some(t) => Some(t@),
                None => None,
            },
        ),
{
    let ghost labelv: Option<Seq<char>> = match train_name {
        Some(t) => Some(t@),
        None => None,
    };
    let mut out = "BEGIN:VCALENDAR\r\n".to_owned();
    out.append("VERSION:2.0\r\n");
    out.append("PRODID:-//NYC TRAIN CAL//MTA Subway Alerts//EN\r\n");
    out.append("CALSCALE:GREGORIAN\r\n");
    out.append("METHOD:PUBLISH\r\n");
    out.append("X-WR-CALNAME:");
    match train_name {
        Some(t) => {
            let u = to_upper(t);
            out.append("MTA ");
            out.append(u.as_str());
            out.append(" Train Alerts");
        },
        None => {
            out.append("MTA Subway Alerts");
        },
    }
    out.append("\r\n");
    out.append("X-WR-TIMEZONE:America/New_York\r\n");
    out.append("X-WR-CALDESC:");
    match train_name {
        Some(t) => {
            let u = to_upper(t);
            out.append("Real-time alerts and planned service changes for MTA ");
            out.append(u.as_str());
            out.append(" train");
        },
        None => {
            out.append("Real-time alerts and planned service changes for MTA Subway");
        },
    }
    out.append("\r\n");
    proof {
        assert(out@ =~= ics_header(labelv));
    }

    let ghost evs = views_of(events@);
    let mut i: usize = 0;
    proof {
        assert(evs.skip(0) =~= evs);
        assert(out@ + vevents_spec(evs) =~= ics_header(labelv) + vevents_spec(evs));
    }
    while i < events.len()
        invariant
            0 <= i <= events@.len(),
            evs == views_of(events@),
            evs.len() == events@.len(),
            out@ + vevents_spec(evs.skip(i as int)) == ics_header(labelv) + vevents_spec(evs),
        decreases events@.len() - i,
    {
        let ghost tail = evs.skip(i as int);
        let ghost out0 = out@;
        proof {
            assert(tail[0] == evs[i as int]);
            assert(evs[i as int] == events@[i as int]@);
            assert(tail.skip(1) =~= evs.skip(i + 1));
        }
        let block = generate_event(&events[i]);
        out.append(block.as_str());
        proof {
            assert(out@ + vevents_spec(evs.skip(i + 1)) =~= out0 + vevents_spec(tail));
        }
        i += 1;
    }
    proof {
        assert(evs.skip(evs.len() as int) =~= Seq::<CalendarEventView>::empty());
        assert(out@ =~= out@ + vevents_spec(evs.skip(evs.len() as int)));
    }
    out.append("END:VCALENDAR\r\n");
    proof {
        assert(out@ =~= ics_spec(evs, labelv));
    }
    out
}

/// Encodes the events as the default, unfiltered calendar document.
pub fn generate_ics(events: &Vec<CalendarEvent>) -> (r: String)
    ensures
        r@ == ics_spec(views_of(events@), None),
{
    generate_ics_with_name(events, None)
}

} // verus!
