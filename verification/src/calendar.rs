//! The decoded-feed data model and the mapping of alert entities into
//! calendar-event records: translation selection, text normalization,
//! timestamp derivation, and active-period expansion.

use vstd::prelude::*;

use crate::clock::{now_secs, parse_timestamp, parse_ts};
use crate::text::{
    contains_seq, contains_str, dec_str, join_with, lemma_join_with_snoc, replace_all, replace_str,
    split_char, str_eq, tidy_join, tidy_lines, to_upper, upper_of, usize_to_dec,
};

verus! {

/// One (language-tag, text) pair of a translated message.
pub struct Translation {
    pub language: Option<String>,
    pub text: Option<String>,
}

pub struct TranslationView {
    pub language: Option<Seq<char>>,
    pub text: Option<Seq<char>>,
}

impl View for Translation {
    type V = TranslationView;

    open spec fn view(&self) -> TranslationView {
        TranslationView {
            language: match self.language {
                Some(s) => Some(s@),
                None => None,
            },
            text: match self.text {
                Some(s) => Some(s@),
                None => None,
            },
        }
    }
}

/// One route reference an alert informs, optionally carrying a route id.
pub struct InformedEntity {
    pub route_id: Option<String>,
}

pub struct InformedEntityView {
    pub route_id: Option<Seq<char>>,
}

impl View for InformedEntity {
    type V = InformedEntityView;

    open spec fn view(&self) -> InformedEntityView {
        InformedEntityView {
            route_id: match self.route_id {
                Some(s) => Some(s@),
                None => None,
            },
        }
    }
}

/// One (start, optional end) range during which an alert is in effect, in
/// epoch seconds as the feed carries them (an absent start reads as zero).
pub struct ActivePeriod {
    pub start: u64,
    pub end: Option<u64>,
}

pub struct ActivePeriodView {
    pub start: u64,
    pub end: Option<u64>,
}

impl View for ActivePeriod {
    type V = ActivePeriodView;

    open spec fn view(&self) -> ActivePeriodView {
        ActivePeriodView { start: self.start, end: self.end }
    }
}

/// The agency-specific extension payload of an alert (an absent epoch field
/// reads as zero).
pub struct MercuryAlert {
    pub alert_type: Option<String>,
    pub created_at: u64,
    pub updated_at: u64,
}

pub struct MercuryAlertView {
    pub alert_type: Option<Seq<char>>,
    pub created_at: u64,
    pub updated_at: u64,
}

impl View for MercuryAlert {
    type V = MercuryAlertView;

    open spec fn view(&self) -> MercuryAlertView {
        MercuryAlertView {
            alert_type: match self.alert_type {
                Some(s) => Some(s@),
                None => None,
            },
            created_at: self.created_at,
            updated_at: self.updated_at,
        }
    }
}


/// The views of a sequence of translations.
pub open spec fn translation_views(s: Seq<Translation>) -> Seq<TranslationView> {
    s.map_values(|x: Translation| x@)
}

/// The views of a sequence of informed route references.
pub open spec fn informed_views(s: Seq<InformedEntity>) -> Seq<InformedEntityView> {
    s.map_values(|x: InformedEntity| x@)
}

/// The views of a sequence of active periods.
pub open spec fn period_views(s: Seq<ActivePeriod>) -> Seq<ActivePeriodView> {
    s.map_values(|x: ActivePeriod| x@)
}

/// The views of a sequence of alert entities.
pub open spec fn entity_views(s: Seq<AlertEntity>) -> Seq<AlertEntityView> {
    s.map_values(|x: AlertEntity| x@)
}

/// One alert payload: informed routes, translated texts, active periods,
/// and the optional extension payload. An absent translated message reads
/// as an empty translation set.
pub struct Alert {
    pub informed_entity: Vec<InformedEntity>,
    pub header_text: Vec<Translation>,
    pub description_text: Vec<Translation>,
    pub active_period: Vec<ActivePeriod>,
    pub mercury: Option<MercuryAlert>,
}

pub struct AlertView {
    pub informed_entity: Seq<InformedEntityView>,
    pub header_text: Seq<TranslationView>,
    pub description_text: Seq<TranslationView>,
    pub active_period: Seq<ActivePeriodView>,
    pub mercury: Option<MercuryAlertView>,
}

impl View for Alert {
    type V = AlertView;

    open spec fn view(&self) -> AlertView {
        AlertView {
            informed_entity: informed_views(self.informed_entity@),
            header_text: translation_views(self.header_text@),
            description_text: translation_views(self.description_text@),
            active_period: period_views(self.active_period@),
            mercury: match self.mercury {
                Some(m) => Some(m@),
                None => None,
            },
        }
    }
}

/// One disruption record of a feed: a stable identifier and an optional
/// alert payload.
pub struct AlertEntity {
    pub id: String,
    pub alert: Option<Alert>,
}

pub struct AlertEntityView {
    pub id: Seq<char>,
    pub alert: Option<AlertView>,
}

impl View for AlertEntity {
    type V = AlertEntityView;

    open spec fn view(&self) -> AlertEntityView {
        AlertEntityView {
            id: self.id@,
            alert: match self.alert {
                Some(a) => Some(a@),
                None => None,
            },
        }
    }
}

/// A decoded feed: the header's generation timestamp, when the header is
/// present (an absent timestamp field of a present header reads as zero),
/// and the ordered alert entities.
pub struct DecodedFeed {
    pub header_timestamp: Option<u64>,
    pub entity: Vec<AlertEntity>,
}

pub struct DecodedFeedView {
    pub header_timestamp: Option<u64>,
    pub entity: Seq<AlertEntityView>,
}

impl View for DecodedFeed {
    type V = DecodedFeedView;

    open spec fn view(&self) -> DecodedFeedView {
        DecodedFeedView {
            header_timestamp: self.header_timestamp,
            entity: entity_views(self.entity@),
        }
    }
}

/// The views of a sequence of strings.
pub open spec fn string_views(s: Seq<String>) -> Seq<Seq<char>> {
    s.map_values(|x: String| x@)
}

/// The normalized, encoder-ready representation of one alert occurrence.
/// Timestamps are epoch seconds, UTC.
#[derive(Debug, Clone, PartialEq)]
pub struct CalendarEvent {
    pub uid: String,
    pub summary: String,
    pub description: String,
    pub start: i64,
    pub end: Option<i64>,
    pub created_at: i64,
    pub updated_at: i64,
    pub mta_alert_id: String,
    pub routes: Vec<String>,
    pub alert_type: String,
}

pub struct CalendarEventView {
    pub uid: Seq<char>,
    pub summary: Seq<char>,
    pub description: Seq<char>,
    pub start: int,
    pub end: Option<int>,
    pub created_at: int,
    pub updated_at: int,
    pub mta_alert_id: Seq<char>,
    pub routes: Seq<Seq<char>>,
    pub alert_type: Seq<char>,
}

impl View for CalendarEvent {
    type V = CalendarEventView;

    open spec fn view(&self) -> CalendarEventView {
        CalendarEventView {
            uid: self.uid@,
            summary: self.summary@,
            description: self.description@,
            start: self.start as int,
            end: match self.end {
                Some(e) => Some(e as int),
                None => None,
            },
            created_at: self.created_at as int,
            updated_at: self.updated_at as int,
            mta_alert_id: self.mta_alert_id@,
            routes: string_views(self.routes@),
            alert_type: self.alert_type@,
        }
    }
}

impl CalendarEvent {
    /// A field-for-field copy.
    pub fn duplicate(&self) -> (r: CalendarEvent)
        ensures
            r@ == self@,
    {
        let mut routes: Vec<String> = Vec::new();
        let mut i: usize = 0;
        while i < self.routes.len()
            invariant
                0 <= i <= self.routes@.len(),
                routes@.len() == i,
                forall|j: int| 0 <= j < i ==> routes@[j]@ == self.routes@[j]@,
            decreases self.routes@.len() - i,
        {
            routes.push(self.routes[i].clone());
            i += 1;
        }
        assert forall|j: int| 0 <= j < routes@.len() implies string_views(routes@)[j]
            == string_views(self.routes@)[j] by {
            assert(string_views(routes@)[j] == routes@[j]@);
            assert(string_views(self.routes@)[j] == self.routes@[j]@);
        }
        assert(string_views(routes@) =~= string_views(self.routes@));
        let r = CalendarEvent {
            uid: self.uid.clone(),
            summary: self.summary.clone(),
            description: self.description.clone(),
            start: self.start,
            end: self.end,
            created_at: self.created_at,
            updated_at: self.updated_at,
            mta_alert_id: self.mta_alert_id.clone(),
            routes,
            alert_type: self.alert_type.clone(),
        };
        assert(r@ == self@);
        r
    }
}

/// The views of a sequence of calendar events.
pub open spec fn views_of(s: Seq<CalendarEvent>) -> Seq<CalendarEventView> {
    s.map_values(|e: CalendarEvent| e@)
}

/// The first element satisfying `pred`, scanning left to right.
pub open spec fn first_match(
    ts: Seq<TranslationView>,
    pred: spec_fn(TranslationView) -> bool,
) -> Option<TranslationView>
    decreases ts.len(),
{
    if ts.len() == 0 {
        None
    } else if pred(ts[0]) {
        Some(ts[0])
    } else {
        first_match(ts.skip(1), pred)
    }
}

proof fn lemma_first_match_at(
    ts: Seq<TranslationView>,
    pred: spec_fn(TranslationView) -> bool,
    i: int,
)
    requires
        0 <= i < ts.len(),
        pred(ts[i]),
        forall|j: int| 0 <= j < i ==> !pred(ts[j]),
    ensures
        first_match(ts, pred) == Some(ts[i]),
    decreases i,
{
    if i > 0 {
        lemma_first_match_at(ts.skip(1), pred, i - 1);
    }
}

proof fn lemma_first_match_none(ts: Seq<TranslationView>, pred: spec_fn(TranslationView) -> bool)
    requires
        forall|j: int| 0 <= j < ts.len() ==> !pred(ts[j]),
    ensures
        first_match(ts, pred) == None::<TranslationView>,
    decreases ts.len(),
{
    if ts.len() > 0 {
        lemma_first_match_none(ts.skip(1), pred);
    }
}

/// An exact `"en"` tag.
pub open spec fn is_en(t: TranslationView) -> bool {
    t.language == Some("en"@)
}

/// A tag that does not contain the substring `"html"`.
pub open spec fn is_plain_tagged(t: TranslationView) -> bool {
    match t.language {
        Some(l) => !contains_seq(l, "html"@),
        None => false,
    }
}

/// The text the mapper selects from a translation set: the `"en"` entry if
/// it carries text, else the first entry whose tag does not contain
/// `"html"` if it carries text, else the first entry's text.
pub open spec fn select_text(ts: Seq<TranslationView>) -> Option<Seq<char>> {
    let en = match first_match(ts, |t: TranslationView| is_en(t)) {
        Some(t) => t.text,
        None => None,
    };
    let plain = match first_match(ts, |t: TranslationView| is_plain_tagged(t)) {
        Some(t) => t.text,
        None => None,
    };
    if en is Some {
        en
    } else if plain is Some {
        plain
    } else if ts.len() > 0 {
        ts[0].text
    } else {
        None
    }
}

/// Selects the plain-text translation of a message, preferring the exact
/// `"en"` tag, then the first tag without `"html"`, then the first entry.
pub fn find_proto_plain_text<'a>(translations: &'a Vec<Translation>) -> (r: Option<&'a str>)
    ensures
        match r {
            Some(s) => select_text(translation_views(translations@)) == Some(s@),
            None => select_text(translation_views(translations@)) is None,
        },
{
    let ghost tsv = translation_views(translations@);
    let n = translations.len();
    let mut en_idx: Option<usize> = None;
    let mut i: usize = 0;
    while i < n && en_idx.is_none()
        invariant
            0 <= i <= n,
            n == translations@.len(),
            tsv == translation_views(translations@),
            match en_idx {
                Some(k) => k < i && is_en(tsv[k as int]) && forall|j: int|
                    0 <= j < k ==> !is_en(tsv[j]),
                None => forall|j: int| 0 <= j < i ==> !is_en(tsv[j]),
            },
        decreases n - i,
    {
        proof {
            assert(tsv[i as int] == translations@[i as int]@);
        }
        let t = &translations[i];
        let hit = match &t.language {
            Some(l) => str_eq(l.as_str(), "en"),
            None => false,
        };
        if hit {
            en_idx = Some(i);
        }
        i += 1;
    }
    if let Some(k) = en_idx {
        proof {
            lemma_first_match_at(tsv, |t: TranslationView| is_en(t), k as int);
        }
        if let Some(text) = &translations[k].text {
            return Some(text.as_str());
        }
    } else {
        proof {
            lemma_first_match_none(tsv, |t: TranslationView| is_en(t));
        }
    }
    let mut plain_idx: Option<usize> = None;
    let mut i2: usize = 0;
    while i2 < n && plain_idx.is_none()
        invariant
            0 <= i2 <= n,
            n == translations@.len(),
            tsv == translation_views(translations@),
            match plain_idx {
                Some(k) => k < i2 && is_plain_tagged(tsv[k as int]) && forall|j: int|
                    0 <= j < k ==> !is_plain_tagged(tsv[j]),
                None => forall|j: int| 0 <= j < i2 ==> !is_plain_tagged(tsv[j]),
            },
        decreases n - i2,
    {
        proof {
            assert(tsv[i2 as int] == translations@[i2 as int]@);
        }
        let t = &translations[i2];
        let hit = match &t.language {
            Some(l) => !contains_str(l.as_str(), "html"),
            None => false,
        };
        if hit {
            plain_idx = Some(i2);
        }
        i2 += 1;
    }
    if let Some(k) = plain_idx {
        proof {
            lemma_first_match_at(tsv, |t: TranslationView| is_plain_tagged(t), k as int);
        }
        if let Some(text) = &translations[k].text {
            return Some(text.as_str());
        }
    } else {
        proof {
            lemma_first_match_none(tsv, |t: TranslationView| is_plain_tagged(t));
        }
    }
    if n > 0 {
        if let Some(text) = &translations[0].text {
            return Some(text.as_str());
        }
    }
    None
}

/// The fixed substitution table applied to alert text before line cleanup:
/// icon placeholders become single glyphs, zero-width characters vanish,
/// and the small set of known inline tags is stripped or turned into line
/// breaks or bullets. Unknown tags pass through unchanged.
pub open spec fn substituted(s: Seq<char>) -> Seq<char> {
    let a01 = replace_all(s, "[shuttle bus icon]"@, "🚌"@);
    let a02 = replace_all(a01, "[accessibility icon]"@, "♿"@);
    let a03 = replace_all(a02, "[elevator icon]"@, "🛗"@);
    let a04 = replace_all(a03, "[escalator icon]"@, "🚶"@);
    let a05 = replace_all(a04, "[stairs icon]"@, "🪜"@);
    let a06 = replace_all(a05, "[train icon]"@, "🚇"@);
    let a07 = replace_all(a06, "[bus icon]"@, "🚌"@);
    let a08 = replace_all(a07, "[ferry icon]"@, "⛴️"@);
    let a09 = replace_all(a08, "[bicycle icon]"@, "🚲"@);
    let a10 = replace_all(a09, "[parking icon]"@, "🅿️"@);
    let a11 = replace_all(a10, "[warning icon]"@, "⚠️"@);
    let a12 = replace_all(a11, "[alert icon]"@, "🚨"@);
    let a13 = replace_all(a12, "[construction icon]"@, "🚧"@);
    let a14 = replace_all(a13, "[detour icon]"@, "↪️"@);
    let b01 = replace_all(a14, "\u{200c}"@, ""@);
    let b02 = replace_all(b01, "\u{200b}"@, ""@);
    let b03 = replace_all(b02, "\u{200d}"@, ""@);
    let b04 = replace_all(b03, "\u{feff}"@, ""@);
    let c01 = replace_all(b04, "<b>"@, ""@);
    let c02 = replace_all(c01, "</b>"@, ""@);
    let c03 = replace_all(c02, "<p>"@, ""@);
    let c04 = replace_all(c03, "</p>"@, "\n"@);
    let c05 = replace_all(c04, "<br>"@, "\n"@);
    let c06 = replace_all(c05, "<br/>"@, "\n"@);
    let c07 = replace_all(c06, "<br />"@, "\n"@);
    let c08 = replace_all(c07, "<ul>"@, "\n"@);
    let c09 = replace_all(c08, "</ul>"@, "\n"@);
    let c10 = replace_all(c09, "<li>"@, "• "@);
    let c11 = replace_all(c10, "</li>"@, "\n"@);
    let c12 = replace_all(c11, "<strong>"@, ""@);
    replace_all(c12, "</strong>"@, ""@)
}

/// Normalized alert text: the substitution table applied, then every line
/// trimmed, empty lines dropped, and the rest rejoined with single breaks.
pub open spec fn process_spec(s: Seq<char>) -> Seq<char> {
    tidy_join(split_char(substituted(s), '\n'))
}

/// Cleans alert text into plain, human-readable multi-line text: icon
/// placeholders become glyphs, zero-width characters and known inline tags
/// are removed, and blank lines are collapsed.
pub fn process_text(text: &str) -> (r: String)
    ensures
        r@ == process_spec(text@),
{
    proof {
        reveal_strlit("[shuttle bus icon]");
        reveal_strlit("[accessibility icon]");
        reveal_strlit("[elevator icon]");
        reveal_strlit("[escalator icon]");
        reveal_strlit("[stairs icon]");
        reveal_strlit("[train icon]");
        reveal_strlit("[bus icon]");
        reveal_strlit("[ferry icon]");
        reveal_strlit("[bicycle icon]");
        reveal_strlit("[parking icon]");
        reveal_strlit("[warning icon]");
        reveal_strlit("[alert icon]");
        reveal_strlit("[construction icon]");
        reveal_strlit("[detour icon]");
        reveal_strlit("\u{200c}");
        reveal_strlit("\u{200b}");
        reveal_strlit("\u{200d}");
        reveal_strlit("\u{feff}");
        reveal_strlit("<b>");
        reveal_strlit("</b>");
        reveal_strlit("<p>");
        reveal_strlit("</p>");
        reveal_strlit("<br>");
        reveal_strlit("<br/>");
        reveal_strlit("<br />");
        reveal_strlit("<ul>");
        reveal_strlit("</ul>");
        reveal_strlit("<li>");
        reveal_strlit("</li>");
        reveal_strlit("<strong>");
        reveal_strlit("</strong>");
    }
    let a01 = replace_str(text, "[shuttle bus icon]", "🚌");
    let a02 = replace_str(a01.as_str(), "[accessibility icon]", "♿");
    let a03 = replace_str(a02.as_str(), "[elevator icon]", "🛗");
    let a04 = replace_str(a03.as_str(), "[escalator icon]", "🚶");
    let a05 = replace_str(a04.as_str(), "[stairs icon]", "🪜");
    let a06 = replace_str(a05.as_str(), "[train icon]", "🚇");
    let a07 = replace_str(a06.as_str(), "[bus icon]", "🚌");
    let a08 = replace_str(a07.as_str(), "[ferry icon]", "⛴️");
    let a09 = replace_str(a08.as_str(), "[bicycle icon]", "🚲");
    let a10 = replace_str(a09.as_str(), "[parking icon]", "🅿️");
    let a11 = replace_str(a10.as_str(), "[warning icon]", "⚠️");
    let a12 = replace_str(a11.as_str(), "[alert icon]", "🚨");
    let a13 = replace_str(a12.as_str(), "[construction icon]", "🚧");
    let a14 = replace_str(a13.as_str(), "[detour icon]", "↪️");
    let b01 = replace_str(a14.as_str(), "\u{200c}", "");
    let b02 = replace_str(b01.as_str(), "\u{200b}", "");
    let b03 = replace_str(b02.as_str(), "\u{200d}", "");
    let b04 = replace_str(b03.as_str(), "\u{feff}", "");
    let c01 = replace_str(b04.as_str(), "<b>", "");
    let c02 = replace_str(c01.as_str(), "</b>", "");
    let c03 = replace_str(c02.as_str(), "<p>", "");
    let c04 = replace_str(c03.as_str(), "</p>", "\n");
    let c05 = replace_str(c04.as_str(), "<br>", "\n");
    let c06 = replace_str(c05.as_str(), "<br/>", "\n");
    let c07 = replace_str(c06.as_str(), "<br />", "\n");
    let c08 = replace_str(c07.as_str(), "<ul>", "\n");
    let c09 = replace_str(c08.as_str(), "</ul>", "\n");
    let c10 = replace_str(c09.as_str(), "<li>", "• ");
    let c11 = replace_str(c10.as_str(), "</li>", "\n");
    let c12 = replace_str(c11.as_str(), "<strong>", "");
    let c13 = replace_str(c12.as_str(), "</strong>", "");
    tidy_lines(c13.as_str())
}

/// The route ids the alert informs, in order, duplicates kept.
pub open spec fn routes_of(informed: Seq<InformedEntityView>) -> Seq<Seq<char>>
    decreases informed.len(),
{
    if informed.len() == 0 {
        Seq::empty()
    } else {
        match informed[0].route_id {
            Some(r) => seq![r] + routes_of(informed.skip(1)),
            None => routes_of(informed.skip(1)),
        }
    }
}

/// The route part of a summary: the routes joined by comma and space, or
/// `"MTA"` when no route is informed.
pub open spec fn route_label(routes: Seq<Seq<char>>) -> Seq<char> {
    if routes.len() == 0 {
        "MTA"@
    } else {
        join_with(routes, ", "@)
    }
}

/// The alert-type label: from the extension payload, else `"Alert"`.
pub open spec fn alert_type_of(a: AlertView) -> Seq<char> {
    match a.mercury {
        Some(m) => match m.alert_type {
            Some(t) => t,
            None => "Alert"@,
        },
        None => "Alert"@,
    }
}

/// The one-line summary: routes, colon, space, alert type.
pub open spec fn summary_of(a: AlertView) -> Seq<char> {
    route_label(routes_of(a.informed_entity)) + ": "@ + alert_type_of(a)
}

/// The normalized description: header text, then description text, with a
/// blank line between the two exactly when both are non-empty.
pub open spec fn description_of(a: AlertView) -> Seq<char> {
    let h = match select_text(a.header_text) {
        Some(t) => process_spec(t),
        None => Seq::empty(),
    };
    let d = match select_text(a.description_text) {
        Some(t) => process_spec(t),
        None => Seq::empty(),
    };
    if h.len() > 0 && d.len() > 0 {
        h + "\n\n"@ + d
    } else if d.len() > 0 {
        d
    } else {
        h
    }
}

/// Created-at and updated-at: the extension payload's pair when both parse,
/// else the default time for both.
pub open spec fn created_updated_of(a: AlertView, default_time: int) -> (int, int) {
    match a.mercury {
        Some(m) => match (parse_ts(m.created_at), parse_ts(m.updated_at)) {
            (Some(c), Some(u)) => (c, u),
            _ => (default_time, default_time),
        },
        None => (default_time, default_time),
    }
}

/// The event identifier: `"mta-alert-"` and the entity id, with the period
/// index appended when the alert has more than one period.
pub open spec fn uid_for(id: Seq<char>, multi: bool, idx: int) -> Seq<char> {
    if multi {
        "mta-alert-"@ + id + "-"@ + dec_str(idx)
    } else {
        "mta-alert-"@ + id
    }
}

/// The end timestamp of a period: present only when the period declares one
/// and it parses.
pub open spec fn period_end(p: ActivePeriodView) -> Option<int> {
    match p.end {
        Some(e) => parse_ts(e),
        None => None,
    }
}

/// The events of the periods `ps`, numbered from `idx`: one per period whose
/// start parses, each a copy of `base` with its own uid, start and end.
pub open spec fn period_events(
    ps: Seq<ActivePeriodView>,
    idx: int,
    multi: bool,
    base: CalendarEventView,
) -> Seq<CalendarEventView>
    decreases ps.len(),
{
    if ps.len() == 0 {
        Seq::empty()
    } else {
        let rest = period_events(ps.skip(1), idx + 1, multi, base);
        match parse_ts(ps[0].start) {
            Some(st) => seq![
                CalendarEventView {
                    uid: uid_for(base.mta_alert_id, multi, idx),
                    start: st,
                    end: period_end(ps[0]),
                    ..base
                },
            ] + rest,
            None => rest,
        }
    }
}

/// The events one alert entity contributes: none without an alert payload;
/// one at the default time without active periods; else one per period
/// whose start parses.
pub open spec fn entity_events(e: AlertEntityView, default_time: int) -> Seq<CalendarEventView> {
    match e.alert {
        None => Seq::empty(),
        Some(a) => {
            let cu = created_updated_of(a, default_time);
            let base = CalendarEventView {
                uid: uid_for(e.id, false, 0),
                summary: summary_of(a),
                description: description_of(a),
                start: default_time,
                end: None,
                created_at: cu.0,
                updated_at: cu.1,
                mta_alert_id: e.id,
                routes: routes_of(a.informed_entity),
                alert_type: alert_type_of(a),
            };
            if a.active_period.len() == 0 {
                seq![base]
            } else {
                period_events(a.active_period, 0, a.active_period.len() > 1, base)
            }
        },
    }
}

/// The events of a whole feed, in entity order.
pub open spec fn feed_events(
    entities: Seq<AlertEntityView>,
    default_time: int,
) -> Seq<CalendarEventView>
    decreases entities.len(),
{
    if entities.len() == 0 {
        Seq::empty()
    } else {
        entity_events(entities[0], default_time) + feed_events(entities.skip(1), default_time)
    }
}

/// The default time of a feed: the header timestamp when present and
/// parseable, else the current time `now`.
pub open spec fn default_of(feed: DecodedFeedView, now: int) -> int {
    match feed.header_timestamp {
        Some(t) => match parse_ts(t) {
            Some(v) => v,
            None => now,
        },
        None => now,
    }
}

/// Joins route labels with comma and space; `"MTA"` when there is none.
fn join_routes(routes: &Vec<String>) -> (r: String)
    ensures
        r@ == route_label(string_views(routes@)),
{
    let ghost sv = string_views(routes@);
    proof {
        assert(sv.len() == routes@.len());
    }
    if routes.len() == 0 {
        return "MTA".to_owned();
    }
    let mut out = routes[0].clone();
    proof {
        assert(sv[0] == routes@[0]@);
        lemma_join_with_snoc(sv, ", "@, 0);
        assert(sv.take(1)[0] == sv[0]);
        assert(out@ == join_with(sv.take(1), ", "@));
    }
    let mut i: usize = 1;
    while i < routes.len()
        invariant
            1 <= i <= routes@.len(),
            sv == string_views(routes@),
            sv.len() == routes@.len(),
            out@ == join_with(sv.take(i as int), ", "@),
        decreases routes@.len() - i,
    {
        out.append(", ");
        out.append(routes[i].as_str());
        proof {
            assert(sv[i as int] == routes@[i as int]@);
            lemma_join_with_snoc(sv, ", "@, i as int);
        }
        i += 1;
    }
    proof {
        assert(sv.take(routes@.len() as int) =~= sv);
    }
    out
}

/// Maps one alert entity to its calendar events.
pub fn proto_entity_to_events(entity: &AlertEntity, default_time: i64) -> (r: Vec<CalendarEvent>)
    ensures
        views_of(r@) == entity_events(entity@, default_time as int),
{
    let ghost dt = default_time as int;
    let alert = match &entity.alert {
        Some(a) => a,
        None => {
            let r: Vec<CalendarEvent> = Vec::new();
            assert(views_of(r@) =~= entity_events(entity@, dt));
            return r;
        },
    };
    let ghost av = alert@;

    let mut routes: Vec<String> = Vec::new();
    let mut i: usize = 0;
    proof {
        assert(av.informed_entity.skip(0) =~= av.informed_entity);
        assert(string_views(routes@) + routes_of(av.informed_entity) =~= routes_of(
            av.informed_entity,
        ));
    }
    while i < alert.informed_entity.len()
        invariant
            0 <= i <= alert.informed_entity@.len(),
            av == alert@,
            av.informed_entity.len() == alert.informed_entity@.len(),
            routes_of(av.informed_entity) == string_views(routes@) + routes_of(
                av.informed_entity.skip(i as int),
            ),
        decreases alert.informed_entity@.len() - i,
    {
        let ghost tail = av.informed_entity.skip(i as int);
        proof {
            assert(tail[0] == av.informed_entity[i as int]);
            assert(av.informed_entity[i as int] == alert.informed_entity@[i as int]@);
            assert(tail.skip(1) =~= av.informed_entity.skip(i + 1));
        }
        let ghost routes0 = routes@;
        match &alert.informed_entity[i].route_id {
            Some(rid) => {
                routes.push(rid.clone());
                proof {
                    assert(string_views(routes@) =~= string_views(routes0) + seq![rid@]) by {
                        assert(forall|j: int|
                            0 <= j < routes@.len() ==> string_views(routes@)[j] == routes@[j]@);
                        assert(forall|j: int|
                            0 <= j < routes0.len() ==> string_views(routes0)[j] == routes0[j]@);
                    }
                    assert(string_views(routes@) + routes_of(tail.skip(1)) =~= string_views(routes0)
                        + routes_of(tail));
                }
            },
            None => {},
        }
        i += 1;
    }
    proof {
        assert(av.informed_entity.skip(av.informed_entity.len() as int)
            =~= Seq::<InformedEntityView>::empty());
        assert(string_views(routes@) + routes_of(av.informed_entity.skip(
            av.informed_entity.len() as int,
        )) =~= string_views(routes@));
        assert(string_views(routes@) == routes_of(av.informed_entity));
    }

    let route_str = join_routes(&routes);

    let alert_type = match &alert.mercury {
        Some(m) => match &m.alert_type {
            Some(t) => t.clone(),
            None => "Alert".to_owned(),
        },
        None => "Alert".to_owned(),
    };
    assert(alert_type@ == alert_type_of(av));

    let mut summary = route_str;
    summary.append(": ");
    summary.append(alert_type.as_str());
    assert(summary@ == summary_of(av));

    let mut description = String::new();
    match find_proto_plain_text(&alert.header_text) {
        Some(h) => {
            let p = process_text(h);
            description.append(p.as_str());
            proof {
                assert(select_text(av.header_text) == Some(h@));
                assert(description@ =~= process_spec(h@));
            }
        },
        None => {},
    }
    let ghost h_part = description@;
    match find_proto_plain_text(&alert.description_text) {
        Some(d) => {
            let p = process_text(d);
            if p.as_str().unicode_len() > 0 {
                if description.as_str().unicode_len() > 0 {
                    description.append("\n\n");
                }
                description.append(p.as_str());
            }
            proof {
                assert(select_text(av.description_text) == Some(d@));
                if process_spec(d@).len() == 0 {
                    assert(description@ == h_part);
                } else if h_part.len() > 0 {
                    assert(description@ =~= h_part + "\n\n"@ + process_spec(d@));
                } else {
                    assert(h_part =~= Seq::<char>::empty());
                    assert(description@ =~= process_spec(d@));
                }
            }
        },
        None => {},
    }
    assert(description@ == description_of(av));

    let (created_at, updated_at) = match &alert.mercury {
        Some(m) => match (parse_timestamp(m.created_at), parse_timestamp(m.updated_at)) {
            (Some(c), Some(u)) => (c, u),
            _ => (default_time, default_time),
        },
        None => (default_time, default_time),
    };
    assert((created_at as int, updated_at as int) == created_updated_of(av, dt));

    let mut uid0 = "mta-alert-".to_owned();
    uid0.append(entity.id.as_str());

    let base = CalendarEvent {
        uid: uid0,
        summary,
        description,
        start: default_time,
        end: None,
        created_at,
        updated_at,
        mta_alert_id: entity.id.clone(),
        routes,
        alert_type,
    };
    let ghost basev = entity_events_base(entity@, dt);
    assert(base@ == basev);

    if alert.active_period.len() == 0 {
        let mut r: Vec<CalendarEvent> = Vec::new();
        r.push(base);
        assert(views_of(r@) =~= seq![basev]);
        return r;
    }

    let multi = alert.active_period.len() > 1;
    let mut out: Vec<CalendarEvent> = Vec::new();
    let mut idx: usize = 0;
    proof {
        assert(av.active_period.skip(0) =~= av.active_period);
        assert(views_of(out@) + period_events(av.active_period, 0, multi, basev) =~= period_events(
            av.active_period,
            0,
            multi,
            basev,
        ));
    }
    while idx < alert.active_period.len()
        invariant
            0 <= idx <= alert.active_period@.len(),
            av == alert@,
            av.active_period.len() == alert.active_period@.len(),
            multi == (av.active_period.len() > 1),
            base@ == basev,
            basev == entity_events_base(entity@, default_time as int),
            basev.mta_alert_id == entity@.id,
            period_events(av.active_period, 0, multi, basev) == views_of(out@) + period_events(
                av.active_period.skip(idx as int),
                idx as int,
                multi,
                basev,
            ),
        decreases alert.active_period@.len() - idx,
    {
        let ghost tail = av.active_period.skip(idx as int);
        proof {
            assert(tail[0] == av.active_period[idx as int]);
            assert(av.active_period[idx as int] == alert.active_period@[idx as int]@);
            assert(tail.skip(1) =~= av.active_period.skip(idx + 1));
        }
        let ghost out0 = out@;
        let p = &alert.active_period[idx];
        match parse_timestamp(p.start) {
            Some(st) => {
                let end = match p.end {
                    Some(e) => parse_timestamp(e),
                    None => None,
                };
                let mut ev = base.duplicate();
                if multi {
                    let mut u = "mta-alert-".to_owned();
                    u.append(entity.id.as_str());
                    let d = usize_to_dec(idx);
                    u.append("-");
                    u.append(d.as_str());
                    proof {
                        assert(u@ == "mta-alert-"@ + entity@.id + "-"@ + dec_str(idx as int));
                    }
                    ev.uid = u;
                } else {
                    proof {
                        assert(ev@.uid == "mta-alert-"@ + entity@.id);
                    }
                }
                ev.start = st;
                ev.end = end;
                proof {
                    assert(ev@.uid == uid_for(basev.mta_alert_id, multi, idx as int));
                    assert(ev@.end == period_end(tail[0])) by {
                        match tail[0].end {
                            Some(e) => {
                                assert(ev@.end == parse_ts(e));
                            },
                            None => {
                                assert(ev@.end is None);
                            },
                        }
                    }
                    assert(ev@ == CalendarEventView {
                        uid: uid_for(basev.mta_alert_id, multi, idx as int),
                        start: st as int,
                        end: period_end(tail[0]),
                        ..basev
                    });
                }
                out.push(ev);
                proof {
                    assert(views_of(out@) =~= views_of(out0) + seq![ev@]) by {
                        assert(forall|j: int|
                            0 <= j < out@.len() ==> views_of(out@)[j] == out@[j]@);
                        assert(forall|j: int|
                            0 <= j < out0.len() ==> views_of(out0)[j] == out0[j]@);
                    }
                    assert(views_of(out@) + period_events(tail.skip(1), idx + 1, multi, basev)
                        =~= views_of(out0) + period_events(tail, idx as int, multi, basev));
                }
            },
            None => {},
        }
        idx += 1;
    }
    proof {
        assert(av.active_period.skip(av.active_period.len() as int)
            =~= Seq::<ActivePeriodView>::empty());
        assert(views_of(out@) + period_events(
            av.active_period.skip(av.active_period.len() as int),
            av.active_period.len() as int,
            multi,
            basev,
        ) =~= views_of(out@));
    }
    out
}

/// The common fields of the events one entity contributes.
pub open spec fn entity_events_base(e: AlertEntityView, default_time: int) -> CalendarEventView {
    let a = e.alert->Some_0;
    let cu = created_updated_of(a, default_time);
    CalendarEventView {
        uid: uid_for(e.id, false, 0),
        summary: summary_of(a),
        description: description_of(a),
        start: default_time,
        end: None,
        created_at: cu.0,
        updated_at: cu.1,
        mta_alert_id: e.id,
        routes: routes_of(a.informed_entity),
        alert_type: alert_type_of(a),
    }
}

/// Maps a decoded feed to calendar events against a given default time:
/// events come in feed entity order, within an entity in period order.
pub fn map_feed_events(feed: &DecodedFeed, default_time: i64) -> (r: Vec<CalendarEvent>)
    ensures
        views_of(r@) == feed_events(feed@.entity, default_time as int),
{
    let ghost dt = default_time as int;
    let ghost ents = feed@.entity;
    let mut out: Vec<CalendarEvent> = Vec::new();
    let mut i: usize = 0;
    proof {
        assert(ents.skip(0) =~= ents);
        assert(views_of(out@) + feed_events(ents, dt) =~= feed_events(ents, dt));
    }
    while i < feed.entity.len()
        invariant
            0 <= i <= feed.entity@.len(),
            ents == feed@.entity,
            ents.len() == feed.entity@.len(),
            feed_events(ents, dt) == views_of(out@) + feed_events(ents.skip(i as int), dt),
            dt == default_time as int,
        decreases feed.entity@.len() - i,
    {
        let ghost tail = ents.skip(i as int);
        proof {
            assert(tail[0] == ents[i as int]);
            assert(ents[i as int] == feed.entity@[i as int]@);
            assert(tail.skip(1) =~= ents.skip(i + 1));
        }
        let ghost out0 = out@;
        let mut evs = proto_entity_to_events(&feed.entity[i], default_time);
        let ghost evs0 = evs@;
        out.append(&mut evs);
        proof {
            assert(views_of(out@) =~= views_of(out0) + views_of(evs0)) by {
                assert(forall|j: int| 0 <= j < out@.len() ==> views_of(out@)[j] == out@[j]@);
                assert(forall|j: int| 0 <= j < out0.len() ==> views_of(out0)[j] == out0[j]@);
                assert(forall|j: int| 0 <= j < evs0.len() ==> views_of(evs0)[j] == evs0[j]@);
            }
            assert(views_of(out@) + feed_events(tail.skip(1), dt) =~= views_of(out0) + feed_events(
                tail,
                dt,
            ));
        }
        i += 1;
    }
    proof {
        assert(ents.skip(ents.len() as int) =~= Seq::<AlertEntityView>::empty());
        assert(views_of(out@) + feed_events(ents.skip(ents.len() as int), dt) =~= views_of(out@));
    }
    out
}

/// Maps a decoded feed to calendar events. The default time is the feed
/// header's timestamp when it is present and parseable, else the current
/// wall-clock time.
pub fn proto_feed_to_events(feed: &DecodedFeed) -> (r: Vec<CalendarEvent>)
    ensures
        exists|now: int| views_of(r@) == feed_events(feed@.entity, default_of(feed@, now)),
        (feed@.header_timestamp is Some && parse_ts(feed@.header_timestamp->Some_0) is Some)
            ==> views_of(r@) == feed_events(
            feed@.entity,
            parse_ts(feed@.header_timestamp->Some_0)->Some_0,
        ),
{
    let default_time = match feed.header_timestamp {
        Some(t) => match parse_timestamp(t) {
            Some(v) => v,
            None => now_secs(),
        },
        None => now_secs(),
    };
    let r = map_feed_events(feed, default_time);
    proof {
        assert(views_of(r@) == feed_events(feed@.entity, default_of(feed@, default_time as int)));
    }
    r
}

/// Whether one of the routes matches the label, comparing both in upper
/// case.
pub open spec fn route_matches(routes: Seq<Seq<char>>, label: Seq<char>) -> bool {
    exists|i: int| 0 <= i < routes.len() && upper_of(#[trigger] routes[i]) == upper_of(label)
}

/// The events whose routes contain the label, case-insensitively.
pub open spec fn filter_events(evs: Seq<CalendarEventView>, label: Seq<char>) -> Seq<
    CalendarEventView,
>
    decreases evs.len(),
{
    if evs.len() == 0 {
        Seq::empty()
    } else {
        (if route_matches(evs[0].routes, label) {
            seq![evs[0]]
        } else {
            Seq::empty()
        }) + filter_events(evs.skip(1), label)
    }
}

/// Whether the event's routes contain the label, case-insensitively; the
/// caller hands the label already uppercased.
fn event_matches_label(ev: &CalendarEvent, upper_label: &String, Ghost(label): Ghost<Seq<char>>) -> (r:
    bool)
    requires
        upper_label@ == upper_of(label),
    ensures
        r == route_matches(ev@.routes, label),
{
    let ghost rv = ev@.routes;
    let mut j: usize = 0;
    while j < ev.routes.len()
        invariant
            0 <= j <= ev.routes@.len(),
            rv == ev@.routes,
            rv.len() == ev.routes@.len(),
            upper_label@ == upper_of(label),
            forall|k: int| 0 <= k < j ==> upper_of(#[trigger] rv[k]) != upper_of(label),
        decreases ev.routes@.len() - j,
    {
        proof {
            assert(rv[j as int] == ev.routes@[j as int]@);
        }
        let ur = to_upper(ev.routes[j].as_str());
        if str_eq(ur.as_str(), upper_label.as_str()) {
            assert(upper_of(rv[j as int]) == upper_of(label));
            return true;
        }
        j += 1;
    }
    false
}

/// Keeps the events whose routes contain `label`, compared case-insensitively.
pub fn filter_by_route(events: &Vec<CalendarEvent>, label: &str) -> (r: Vec<CalendarEvent>)
    ensures
        views_of(r@) == filter_events(views_of(events@), label@),
{
    let ghost evs = views_of(events@);
    let upper_label = to_upper(label);
    let mut out: Vec<CalendarEvent> = Vec::new();
    let mut i: usize = 0;
    proof {
        assert(evs.skip(0) =~= evs);
        assert(views_of(out@) + filter_events(evs, label@) =~= filter_events(evs, label@));
    }
    while i < events.len()
        invariant
            0 <= i <= events@.len(),
            evs == views_of(events@),
            evs.len() == events@.len(),
            upper_label@ == upper_of(label@),
            filter_events(evs, label@) == views_of(out@) + filter_events(
                evs.skip(i as int),
                label@,
            ),
        decreases events@.len() - i,
    {
        let ghost tail = evs.skip(i as int);
        proof {
            assert(tail[0] == evs[i as int]);
            assert(evs[i as int] == events@[i as int]@);
            assert(tail.skip(1) =~= evs.skip(i + 1));
        }
        let ghost out0 = out@;
        if event_matches_label(&events[i], &upper_label, Ghost(label@)) {
            out.push(events[i].duplicate());
            proof {
                assert(views_of(out@) =~= views_of(out0) + seq![evs[i as int]]) by {
                    assert(forall|j: int| 0 <= j < out@.len() ==> views_of(out@)[j] == out@[j]@);
                    assert(forall|j: int| 0 <= j < out0.len() ==> views_of(out0)[j] == out0[j]@);
                }
            }
        }
        proof {
            assert(views_of(out@) + filter_events(tail.skip(1), label@) =~= views_of(out0)
                + filter_events(tail, label@));
        }
        i += 1;
    }
    proof {
        assert(evs.skip(evs.len() as int) =~= Seq::<CalendarEventView>::empty());
        assert(views_of(out@) + filter_events(evs.skip(evs.len() as int), label@) =~= views_of(
            out@,
        ));
    }
    out
}

/// An entity with an absent alert payload contributes zero events.
pub proof fn lemma_entity_without_alert(e: AlertEntityView, default_time: int)
    requires
        e.alert is None,
    ensures
        entity_events(e, default_time) == Seq::<CalendarEventView>::empty(),
{
}

/// An alert with no active periods contributes exactly one event: it starts
/// at the default time, has no end, and carries the unsuffixed identifier.
pub proof fn lemma_zero_period_alert(e: AlertEntityView, default_time: int)
    requires
        e.alert is Some,
        e.alert->Some_0.active_period.len() == 0,
    ensures
        entity_events(e, default_time).len() == 1,
        entity_events(e, default_time)[0].end is None,
        entity_events(e, default_time)[0].start == default_time,
        entity_events(e, default_time)[0].uid == "mta-alert-"@ + e.id,
{
}

/// How many periods have a parseable start.
pub open spec fn parseable_count(ps: Seq<ActivePeriodView>) -> int
    decreases ps.len(),
{
    if ps.len() == 0 {
        0
    } else {
        (if parse_ts(ps[0].start) is Some {
            1int
        } else {
            0int
        }) + parseable_count(ps.skip(1))
    }
}

proof fn lemma_period_events_count(
    ps: Seq<ActivePeriodView>,
    idx: int,
    multi: bool,
    base: CalendarEventView,
)
    ensures
        period_events(ps, idx, multi, base).len() == parseable_count(ps),
    decreases ps.len(),
{
    if ps.len() > 0 {
        lemma_period_events_count(ps.skip(1), idx + 1, multi, base);
    }
}

proof fn lemma_period_events_items(
    ps: Seq<ActivePeriodView>,
    idx: int,
    multi: bool,
    base: CalendarEventView,
)
    ensures
        forall|j: int|
            0 <= j < ps.len() && parse_ts(#[trigger] ps[j].start) is Some
                ==> period_events(ps, idx, multi, base).contains(
                CalendarEventView {
                    uid: uid_for(base.mta_alert_id, multi, idx + j),
                    start: parse_ts(ps[j].start)->Some_0,
                    end: period_end(ps[j]),
                    ..base
                },
            ),
    decreases ps.len(),
{
    if ps.len() > 0 {
        lemma_period_events_items(ps.skip(1), idx + 1, multi, base);
        let whole = period_events(ps, idx, multi, base);
        let rest = period_events(ps.skip(1), idx + 1, multi, base);
        assert forall|j: int|
            0 <= j < ps.len() && parse_ts(#[trigger] ps[j].start) is Some implies whole.contains(
            CalendarEventView {
                uid: uid_for(base.mta_alert_id, multi, idx + j),
                start: parse_ts(ps[j].start)->Some_0,
                end: period_end(ps[j]),
                ..base
            },
        ) by {
            let ev = CalendarEventView {
                uid: uid_for(base.mta_alert_id, multi, idx + j),
                start: parse_ts(ps[j].start)->Some_0,
                end: period_end(ps[j]),
                ..base
            };
            if j == 0 {
                assert(whole[0] == ev);
                assert(whole.contains(ev));
            } else {
                assert(ps.skip(1)[j - 1] == ps[j]);
                let evr = CalendarEventView {
                    uid: uid_for(base.mta_alert_id, multi, (idx + 1) + (j - 1)),
                    start: parse_ts(ps.skip(1)[j - 1].start)->Some_0,
                    end: period_end(ps.skip(1)[j - 1]),
                    ..base
                };
                assert(rest.contains(evr));
                let i = choose|i: int| 0 <= i < rest.len() && rest[i] == evr;
                if parse_ts(ps[0].start) is Some {
                    assert(whole[i + 1] == rest[i]);
                } else {
                    assert(whole[i] == rest[i]);
                }
                assert(evr == ev);
                assert(whole.contains(ev));
            }
        }
    }
}

/// An alert with several active periods contributes one event per period
/// whose start parses; each event carries the identifier suffixed with its
/// period index, and an end exactly when its period declares one that
/// parses.
pub proof fn lemma_multi_period_alert(e: AlertEntityView, default_time: int)
    requires
        e.alert is Some,
        e.alert->Some_0.active_period.len() > 1,
    ensures
        entity_events(e, default_time).len() == parseable_count(e.alert->Some_0.active_period),
        forall|j: int|
            0 <= j < e.alert->Some_0.active_period.len() && parse_ts(
                #[trigger] e.alert->Some_0.active_period[j].start,
            ) is Some ==> entity_events(e, default_time).contains(
                CalendarEventView {
                    uid: uid_for(e.id, true, j),
                    start: parse_ts(e.alert->Some_0.active_period[j].start)->Some_0,
                    end: period_end(e.alert->Some_0.active_period[j]),
                    ..entity_events_base(e, default_time)
                },
            ),
{
    let a = e.alert->Some_0;
    let base = entity_events_base(e, default_time);
    lemma_period_events_count(a.active_period, 0, true, base);
    lemma_period_events_items(a.active_period, 0, true, base);
    assert(base.mta_alert_id == e.id);
}

} // verus!
