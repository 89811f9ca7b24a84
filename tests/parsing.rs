use sc::model::{Calendar, Color, Style};
use sc::parse::{parse_date_key, parse_events, EventParser, ParseError, Property};

fn prop(name: &str, value: &str) -> Property {
    Property { name: name.to_string(), value: Some(value.to_string()) }
}

fn bare(name: &str) -> Property {
    Property { name: name.to_string(), value: None }
}

fn standup() -> Vec<Property> {
    vec![
        prop("BEGIN", "VEVENT"),
        prop("SUMMARY", "Standup"),
        prop("DTSTART", "20240115T090000"),
        prop("END", "VEVENT"),
    ]
}

#[test]
fn standup_scenario_parses_and_buckets() {
    let events = parse_events(&standup()).unwrap();
    assert_eq!(events.len(), 1);
    assert_eq!(events[0].date, 15 + 1 * 100 + 2024 * 10000);
    assert_eq!(events[0].date, 20240115);
    assert_eq!(events[0].name, "Standup");
    assert_eq!(events[0].description, "");
    let cal = Calendar::from_properties(&standup()).unwrap();
    assert_eq!(cal.days.len(), 1);
    let day = &cal.days[&20240115];
    assert_eq!(day.date, 20240115);
    assert_eq!(day.events.len(), 1);
    assert_eq!(day.events[0].name, "Standup");
}

#[test]
fn standup_scenario_from_text() {
    let text = "BEGIN:VCALENDAR\nVERSION:2.0\nBEGIN:VEVENT\nSUMMARY:Standup\nDTSTART:20240115T090000\nEND:VEVENT\nEND:VCALENDAR\n";
    let cal = Calendar::from_text(text).unwrap();
    assert_eq!(cal.days.len(), 1);
    let day = &cal.days[&20240115];
    assert_eq!(day.events.len(), 1);
    assert_eq!(day.events[0].name, "Standup");
}

#[test]
fn one_event_per_marker_pair() {
    let mut props = vec![bare("PREAMBLE"), prop("BEGIN", "VCALENDAR")];
    for (i, date) in ["20240101", "20240102", "20240101"].iter().enumerate() {
        props.push(prop("BEGIN", "VEVENT"));
        props.push(prop("SUMMARY", &format!("e{}", i)));
        props.push(prop("X-UNKNOWN", "ignored"));
        props.push(prop("DTSTART", date));
        props.push(prop("END", "VEVENT"));
    }
    props.push(prop("END", "VCALENDAR"));
    let events = parse_events(&props).unwrap();
    assert_eq!(events.len(), 3);
    assert_eq!(events[0].name, "e0");
    assert_eq!(events[1].date, 20240102);
    assert_eq!(events[2].date, 20240101);
}

#[test]
fn no_events_gives_empty_calendar() {
    let props = vec![bare("A"), bare("B")];
    assert_eq!(parse_events(&props).unwrap().len(), 0);
    let cal = Calendar::from_properties(&vec![prop("BEGIN", "VCALENDAR"), prop("END", "VCALENDAR")]).unwrap();
    assert!(cal.days.is_empty());
    assert!(Calendar::from_properties(&Vec::new()).unwrap().days.is_empty());
}

#[test]
fn first_start_timestamp_sets_the_date() {
    let props = vec![
        prop("BEGIN", "VEVENT"),
        prop("DTSTART", "20240301T1000"),
        prop("DTSTART", "20240302T1000"),
        prop("DESCRIPTION", "Planning"),
        prop("END", "VEVENT"),
    ];
    let events = parse_events(&props).unwrap();
    assert_eq!(events[0].date, 20240301);
    assert_eq!(events[0].description, "Planning");
    assert_eq!(events[0].style, Style { fg: Color::Rgb(0, 0, 0), bg: Color::Rgb(255, 255, 255) });
}

#[test]
fn event_without_start_has_date_zero() {
    let props = vec![prop("BEGIN", "VEVENT"), prop("SUMMARY", "x"), prop("END", "VEVENT")];
    assert_eq!(parse_events(&props).unwrap()[0].date, 0);
}

#[test]
fn properties_outside_events_are_ignored() {
    let props = vec![
        prop("SUMMARY", "stray"),
        prop("BEGIN", "VEVENT"),
        prop("END", "VEVENT"),
        prop("END", "VEVENT"),
        prop("DTSTART", "not a date"),
    ];
    let events = parse_events(&props).unwrap();
    assert_eq!(events.len(), 1);
    assert_eq!(events[0].name, "");
}

#[test]
fn malformed_date_is_an_error() {
    let props = vec![prop("BEGIN", "VEVENT"), prop("DTSTART", "2024-01-15T09"), prop("END", "VEVENT")];
    assert_eq!(parse_events(&props).unwrap_err(), ParseError::BadDate);
    let text = "BEGIN:VEVENT\nDTSTART:abcT1\nEND:VEVENT\n";
    assert_eq!(Calendar::from_text(text).unwrap_err(), ParseError::BadDate);
}

#[test]
fn unreadable_text_is_a_syntax_error() {
    let text = "BEGIN:VEVENT\nthis line has no delimiter\nEND:VEVENT\n";
    assert_eq!(Calendar::from_text(text).unwrap_err(), ParseError::Syntax);
}

#[test]
fn date_keys() {
    assert_eq!(parse_date_key("20240115T090000"), Some(20240115));
    assert_eq!(parse_date_key("20240115"), Some(20240115));
    assert_eq!(parse_date_key("T0900"), None);
    assert_eq!(parse_date_key(""), None);
    assert_eq!(parse_date_key("2024a115"), None);
    assert_eq!(parse_date_key("18446744073709551615"), Some(u64::MAX));
    assert_eq!(parse_date_key("18446744073709551616"), None);
}

#[test]
fn parser_steps() {
    let mut p = EventParser::new();
    assert!(p.step(&bare("X")).unwrap().is_none());
    assert!(!p.started);
    assert!(p.step(&prop("BEGIN", "VEVENT")).unwrap().is_none());
    assert!(p.started);
    assert!(p.current.is_some());
    assert!(p.step(&bare("DESCRIPTION")).unwrap().is_none());
    let e = p.step(&prop("END", "VEVENT")).unwrap().unwrap();
    assert_eq!(e.description, "");
    assert!(p.current.is_none());
}

#[test]
fn every_malformed_start_date_is_an_error() {
    let props = vec![
        prop("BEGIN", "VEVENT"),
        prop("DTSTART", "1T0"),
        prop("DTSTART", "x"),
        prop("END", "VEVENT"),
    ];
    assert_eq!(parse_events(&props).unwrap_err(), ParseError::BadDate);
    assert_eq!(Calendar::from_properties(&props).unwrap_err(), ParseError::BadDate);
}
