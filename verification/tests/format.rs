use chrono::TimeZone;
use nyc_train_cal::calendar::{process_text, CalendarEvent};
use nyc_train_cal::clock::format_datetime;
use nyc_train_cal::fold::fold_line;
use nyc_train_cal::ics::{escape_text, generate_ics};

#[test]
fn test_process_text_icons() {
    assert_eq!(process_text("[shuttle bus icon]"), "🚌");
    assert_eq!(process_text("[accessibility icon]"), "♿");
    assert_eq!(
        process_text("Take [shuttle bus icon] to station [accessibility icon]"),
        "Take 🚌 to station ♿"
    );
}

#[test]
fn test_process_text_tags_and_lines() {
    assert_eq!(process_text("<p>Hello</p><p>World</p>"), "Hello\nWorld");
    assert_eq!(process_text("a<br>b<br/>c<br />d"), "a\nb\nc\nd");
    assert_eq!(process_text("<b>bold</b> and <strong>strong</strong>"), "bold and strong");
    assert_eq!(process_text("<ul><li>one</li><li>two</li></ul>"), "• one\n• two");
    assert_eq!(process_text("  padded \n\n\n  lines  "), "padded\nlines");
    assert_eq!(process_text("zero\u{200B}width\u{200C}gone\u{200D}now\u{FEFF}"), "zerowidthgonenow");
    assert_eq!(process_text("<em>unknown tags stay</em>"), "<em>unknown tags stay</em>");
}

#[test]
fn test_format_datetime() {
    let dt = chrono::Utc.with_ymd_and_hms(2025, 12, 15, 10, 30, 0).unwrap();
    assert_eq!(format_datetime(dt.timestamp()), "20251215T103000Z");
}

#[test]
fn test_format_datetime_out_of_range_is_empty() {
    assert_eq!(format_datetime(i64::MAX), "");
}

#[test]
fn test_escape_text() {
    assert_eq!(escape_text("Hello, World!"), "Hello\\, World!");
    assert_eq!(escape_text("Line 1\nLine 2"), "Line 1\\nLine 2");
    assert_eq!(escape_text("Semi;colon"), "Semi\\;colon");
}

#[test]
fn test_escape_text_backslash_first() {
    assert_eq!(escape_text("\\"), "\\\\");
    assert_eq!(escape_text("a\\nb"), "a\\\\nb");
    assert_eq!(escape_text("cr\rgone"), "crgone");
}

#[test]
fn test_escape_text_safe_input_unchanged() {
    let safe = "No special characters here: just text 123 🚌";
    assert_eq!(escape_text(safe), safe);
}

#[test]
fn test_fold_line() {
    let short = "SUMMARY:Short";
    assert_eq!(fold_line(short), short);

    let long = "DESCRIPTION:This is a very long description that exceeds seventy-five characters and should be folded";
    let folded = fold_line(long);

    for line in folded.split("\r\n") {
        assert!(line.len() <= 75, "Line too long: {} chars", line.len());
    }

    let unfolded = folded.replace("\r\n ", "");
    assert_eq!(unfolded, long);
}

#[test]
fn test_fold_line_multibyte_boundaries() {
    let mut long = String::from("DESCRIPTION:");
    for _ in 0..60 {
        long.push_str("🚌x");
    }
    let folded = fold_line(&long);
    for line in folded.split("\r\n") {
        assert!(line.len() <= 75, "Line too long: {} bytes", line.len());
        assert!(!line.is_empty());
    }
    assert_eq!(folded.replace("\r\n ", ""), long);
}

#[test]
fn test_fold_line_exact_boundary() {
    let at_limit: String = "X".repeat(75);
    assert_eq!(fold_line(&at_limit), at_limit);
    let over_limit: String = "X".repeat(76);
    let folded = fold_line(&over_limit);
    assert_eq!(folded, format!("{}\r\n X", "X".repeat(75)));
}

#[test]
fn test_generate_ics_basic() {
    let events = vec![CalendarEvent {
        uid: "test-event-1".to_string(),
        summary: "Test Event".to_string(),
        description: "Test Description".to_string(),
        start: chrono::Utc.with_ymd_and_hms(2025, 12, 15, 10, 0, 0).unwrap().timestamp(),
        end: Some(chrono::Utc.with_ymd_and_hms(2025, 12, 15, 11, 0, 0).unwrap().timestamp()),
        created_at: chrono::Utc.with_ymd_and_hms(2025, 12, 14, 9, 0, 0).unwrap().timestamp(),
        updated_at: chrono::Utc.with_ymd_and_hms(2025, 12, 15, 8, 0, 0).unwrap().timestamp(),
        mta_alert_id: "123".to_string(),
        routes: vec!["L".to_string()],
        alert_type: "Delays".to_string(),
    }];

    let ics = generate_ics(&events);

    assert!(ics.contains("BEGIN:VCALENDAR"));
    assert!(ics.contains("END:VCALENDAR"));
    assert!(ics.contains("VERSION:2.0"));
    assert!(ics.contains("PRODID:-//NYC TRAIN CAL//MTA Subway Alerts//EN"));
    assert!(ics.contains("SUMMARY:Test Event"));
}

#[test]
fn test_generate_ics_event_fields() {
    let start = chrono::Utc.with_ymd_and_hms(2025, 12, 15, 10, 0, 0).unwrap().timestamp();
    let events = vec![CalendarEvent {
        uid: "uid-7".to_string(),
        summary: "Delays, N/Q".to_string(),
        description: "line one\nline two".to_string(),
        start,
        end: None,
        created_at: start,
        updated_at: start,
        mta_alert_id: "alert-7".to_string(),
        routes: vec!["N".to_string(), "Q".to_string()],
        alert_type: "Delays".to_string(),
    }];
    let ics = generate_ics(&events);
    assert!(ics.contains("UID:uid-7@nyctraincal\r\n"));
    assert!(ics.contains("DTSTART:20251215T100000Z\r\n"));
    // one hour is synthesized when no end is declared
    assert!(ics.contains("DTEND:20251215T110000Z\r\n"));
    assert!(ics.contains("SUMMARY:Delays\\, N/Q\r\n"));
    assert!(ics.contains("DESCRIPTION:line one\\nline two\r\n"));
    assert!(ics.contains("CATEGORIES:Delays\r\n"));
    assert!(ics.contains("X-MTA-ALERT-ID:alert-7\r\n"));
}

#[test]
fn test_dtend_stays_representable_at_range_cap() {
    // one hour past this start leaves chrono's range; the start stands in
    let start = chrono::DateTime::<chrono::Utc>::MAX_UTC.timestamp();
    let events = vec![CalendarEvent {
        uid: "cap".to_string(),
        summary: "s".to_string(),
        description: String::new(),
        start,
        end: None,
        created_at: start,
        updated_at: start,
        mta_alert_id: "cap".to_string(),
        routes: vec![],
        alert_type: "Alert".to_string(),
    }];
    let ics = generate_ics(&events);
    let stamp = format_datetime(start);
    assert!(!stamp.is_empty());
    assert!(ics.contains(&format!("DTSTART:{}\r\n", stamp)));
    assert!(ics.contains(&format!("DTEND:{}\r\n", stamp)));
}

#[test]
fn test_generate_ics_empty_description_omitted() {
    let start = chrono::Utc.with_ymd_and_hms(2025, 1, 2, 3, 4, 5).unwrap().timestamp();
    let events = vec![CalendarEvent {
        uid: "u".to_string(),
        summary: "s".to_string(),
        description: String::new(),
        start,
        end: None,
        created_at: start,
        updated_at: start,
        mta_alert_id: "a".to_string(),
        routes: vec![],
        alert_type: "Alert".to_string(),
    }];
    let ics = generate_ics(&events);
    assert!(!ics.contains("DESCRIPTION"));
}

#[test]
fn test_document_shape_empty() {
    let ics = generate_ics(&vec![]);
    assert_eq!(
        ics,
        "BEGIN:VCALENDAR\r\n\
         VERSION:2.0\r\n\
         PRODID:-//NYC TRAIN CAL//MTA Subway Alerts//EN\r\n\
         CALSCALE:GREGORIAN\r\n\
         METHOD:PUBLISH\r\n\
         X-WR-CALNAME:MTA Subway Alerts\r\n\
         X-WR-TIMEZONE:America/New_York\r\n\
         X-WR-CALDESC:Real-time alerts and planned service changes for MTA Subway\r\n\
         END:VCALENDAR\r\n"
    );
    assert!(!ics.contains("VEVENT"));
}
