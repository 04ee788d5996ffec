use chrono::TimeZone;
use nyc_train_cal::calendar::{
    filter_by_route, find_proto_plain_text, proto_feed_to_events, ActivePeriod, Alert, AlertEntity,
    CalendarEvent, DecodedFeed, InformedEntity, MercuryAlert, Translation,
};
use nyc_train_cal::generate_for_label;
use nyc_train_cal::ics::generate_ics_with_name;

fn tr(lang: &str, text: &str) -> Translation {
    Translation { language: Some(lang.to_string()), text: Some(text.to_string()) }
}

fn bare_alert() -> Alert {
    Alert {
        informed_entity: vec![],
        header_text: vec![],
        description_text: vec![],
        active_period: vec![],
        mercury: None,
    }
}

fn plain_event(uid: &str, routes: Vec<&str>) -> CalendarEvent {
    let start = chrono::Utc.with_ymd_and_hms(2025, 6, 1, 0, 0, 0).unwrap().timestamp();
    CalendarEvent {
        uid: uid.to_string(),
        summary: "s".to_string(),
        description: String::new(),
        start,
        end: None,
        created_at: start,
        updated_at: start,
        mta_alert_id: uid.to_string(),
        routes: routes.into_iter().map(|r| r.to_string()).collect(),
        alert_type: "Alert".to_string(),
    }
}

#[test]
fn test_translation_fallback_chain() {
    let translations = vec![tr("fr", "F"), tr("en-html", "H")];
    assert_eq!(find_proto_plain_text(&translations), Some("F"));
}

#[test]
fn test_translation_prefers_en() {
    let translations = vec![tr("fr", "F"), tr("en", "E")];
    assert_eq!(find_proto_plain_text(&translations), Some("E"));
}

#[test]
fn test_translation_falls_back_to_first() {
    let translations = vec![tr("fr-html", "FH"), tr("es-html", "EH")];
    assert_eq!(find_proto_plain_text(&translations), Some("FH"));
    let empty: Vec<Translation> = vec![];
    assert_eq!(find_proto_plain_text(&empty), None);
}

#[test]
fn test_entity_without_alert_yields_nothing() {
    let feed = DecodedFeed {
        header_timestamp: Some(1735689600),
        entity: vec![AlertEntity { id: "e1".to_string(), alert: None }],
    };
    let events = proto_feed_to_events(&feed);
    assert!(events.is_empty());
}

#[test]
fn test_zero_period_alert_single_event() {
    let header_ts: u64 = 1735689600;
    let mut alert = bare_alert();
    alert.header_text = vec![tr("en", "Water main break")];
    let feed = DecodedFeed {
        header_timestamp: Some(header_ts),
        entity: vec![AlertEntity { id: "lmm:alert:1".to_string(), alert: Some(alert) }],
    };
    let events = proto_feed_to_events(&feed);
    assert_eq!(events.len(), 1);
    assert_eq!(events[0].uid, "mta-alert-lmm:alert:1");
    assert_eq!(events[0].end, None);
    assert_eq!(events[0].start, header_ts as i64);
    assert_eq!(events[0].summary, "MTA: Alert");
    assert_eq!(events[0].description, "Water main break");
}

#[test]
fn test_multi_period_alert_events() {
    let mut alert = bare_alert();
    alert.active_period = vec![
        ActivePeriod { start: 1000, end: Some(2000) },
        ActivePeriod { start: 3000, end: None },
        // far outside chrono's representable range: this period is dropped
        ActivePeriod { start: 9_000_000_000_000_000, end: Some(4000) },
    ];
    let feed = DecodedFeed {
        header_timestamp: Some(500),
        entity: vec![AlertEntity { id: "x".to_string(), alert: Some(alert) }],
    };
    let events = proto_feed_to_events(&feed);
    assert_eq!(events.len(), 2);
    assert_eq!(events[0].uid, "mta-alert-x-0");
    assert_eq!(events[0].start, 1000);
    assert_eq!(events[0].end, Some(2000));
    assert_eq!(events[1].uid, "mta-alert-x-1");
    assert_eq!(events[1].start, 3000);
    assert_eq!(events[1].end, None);
}

#[test]
fn test_single_period_uid_not_suffixed() {
    let mut alert = bare_alert();
    alert.active_period = vec![ActivePeriod { start: 1000, end: None }];
    let feed = DecodedFeed {
        header_timestamp: Some(500),
        entity: vec![AlertEntity { id: "solo".to_string(), alert: Some(alert) }],
    };
    let events = proto_feed_to_events(&feed);
    assert_eq!(events.len(), 1);
    assert_eq!(events[0].uid, "mta-alert-solo");
}

#[test]
fn test_routes_and_mercury_fields() {
    let mut alert = bare_alert();
    alert.informed_entity = vec![
        InformedEntity { route_id: Some("N".to_string()) },
        InformedEntity { route_id: None },
        InformedEntity { route_id: Some("Q".to_string()) },
    ];
    alert.mercury = Some(MercuryAlert {
        alert_type: Some("Delays".to_string()),
        created_at: 1111,
        updated_at: 2222,
    });
    alert.header_text = vec![tr("en", "Header")];
    alert.description_text = vec![tr("en", "Details")];
    let feed = DecodedFeed {
        header_timestamp: Some(500),
        entity: vec![AlertEntity { id: "r".to_string(), alert: Some(alert) }],
    };
    let events = proto_feed_to_events(&feed);
    assert_eq!(events.len(), 1);
    assert_eq!(events[0].summary, "N, Q: Delays");
    assert_eq!(events[0].routes, vec!["N".to_string(), "Q".to_string()]);
    assert_eq!(events[0].created_at, 1111);
    assert_eq!(events[0].updated_at, 2222);
    assert_eq!(events[0].description, "Header\n\nDetails");
    assert_eq!(events[0].alert_type, "Delays");
}

#[test]
fn test_description_separator_only_when_both_nonempty() {
    // the description translation normalizes to empty text: no blank line
    let mut alert = bare_alert();
    alert.header_text = vec![tr("en", "Header")];
    alert.description_text = vec![tr("en", "<b></b>")];
    let feed = DecodedFeed {
        header_timestamp: Some(500),
        entity: vec![AlertEntity { id: "d1".to_string(), alert: Some(alert) }],
    };
    let events = proto_feed_to_events(&feed);
    assert_eq!(events[0].description, "Header");

    // no header text: the description stands alone, no leading blank line
    let mut alert2 = bare_alert();
    alert2.description_text = vec![tr("en", "Details")];
    let feed2 = DecodedFeed {
        header_timestamp: Some(500),
        entity: vec![AlertEntity { id: "d2".to_string(), alert: Some(alert2) }],
    };
    let events2 = proto_feed_to_events(&feed2);
    assert_eq!(events2[0].description, "Details");
}

#[test]
fn test_mercury_partial_timestamps_fall_back() {
    let mut alert = bare_alert();
    alert.mercury = Some(MercuryAlert {
        alert_type: None,
        created_at: 1111,
        // far outside chrono's representable range
        updated_at: 9_000_000_000_000_000,
    });
    let feed = DecodedFeed {
        header_timestamp: Some(500),
        entity: vec![AlertEntity { id: "m".to_string(), alert: Some(alert) }],
    };
    let events = proto_feed_to_events(&feed);
    assert_eq!(events.len(), 1);
    assert_eq!(events[0].created_at, 500);
    assert_eq!(events[0].updated_at, 500);
    assert_eq!(events[0].alert_type, "Alert");
}

#[test]
fn test_label_filter_one_vevent() {
    let events = vec![
        plain_event("a", vec!["L"]),
        plain_event("b", vec!["N", "Q"]),
        plain_event("c", vec![]),
    ];
    let filtered = filter_by_route(&events, "l");
    assert_eq!(filtered.len(), 1);
    assert_eq!(filtered[0].uid, "a");
    let ics = generate_ics_with_name(&filtered, Some("l"));
    assert_eq!(ics.matches("BEGIN:VEVENT").count(), 1);
    assert!(ics.contains("X-WR-CALNAME:MTA L Train Alerts\r\n"));
    assert!(ics.contains(
        "X-WR-CALDESC:Real-time alerts and planned service changes for MTA L train\r\n"
    ));
}

#[test]
fn test_generate_for_label_end_to_end() {
    let mut alert_l = bare_alert();
    alert_l.informed_entity = vec![InformedEntity { route_id: Some("L".to_string()) }];
    let mut alert_n = bare_alert();
    alert_n.informed_entity = vec![InformedEntity { route_id: Some("N".to_string()) }];
    let feed = DecodedFeed {
        header_timestamp: Some(1735689600),
        entity: vec![
            AlertEntity { id: "one".to_string(), alert: Some(alert_l) },
            AlertEntity { id: "two".to_string(), alert: Some(alert_n) },
        ],
    };
    let ics = generate_for_label(&feed, "l");
    assert_eq!(ics.matches("BEGIN:VEVENT").count(), 1);
    assert!(ics.contains("X-MTA-ALERT-ID:one\r\n"));
    assert!(!ics.contains("X-MTA-ALERT-ID:two"));
    assert!(ics.contains("X-WR-CALNAME:MTA L Train Alerts\r\n"));
}
