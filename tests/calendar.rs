use sc::model::{date_key, get_style_from_idx, Calendar, Color, Event, MaxHeight, Style};

fn ev(name: &str, date: u64) -> Event {
    Event {
        name: name.to_string(),
        description: String::new(),
        date,
        style: Style { fg: Color::Black, bg: Color::White },
    }
}

#[test]
fn bucketing_keeps_every_event_once() {
    let events = vec![ev("a", 20240101), ev("b", 20240102), ev("c", 20240101), ev("d", 20240103)];
    let cal = Calendar::from_events(&events);
    assert_eq!(cal.days.len(), 3);
    let total: usize = cal.days.values().map(|d| d.events.len()).sum();
    assert_eq!(total, events.len());
    for (k, d) in cal.days.iter() {
        assert_eq!(d.date, *k);
        assert!(d.events.iter().all(|e| e.date == *k));
    }
    let names: Vec<&str> = cal.days[&20240101].events.iter().map(|e| e.name.as_str()).collect();
    assert_eq!(names, vec!["a", "c"]);
}

#[test]
fn max_height_single_calendar() {
    let events = vec![ev("a", 20240101), ev("b", 20240102), ev("c", 20240102), ev("d", 20240110)];
    let cal = Calendar::from_events(&events);
    assert_eq!(cal.max_height(20240101, 1), 1);
    assert_eq!(cal.max_height(20240101, 2), 2);
    assert_eq!(cal.max_height(20240103, 5), 0);
    assert_eq!(cal.max_height(20240103, 8), 1);
}

#[test]
fn max_height_sums_across_calendars() {
    let a = Calendar::from_events(&vec![ev("a", 20240101), ev("b", 20240102), ev("c", 20240102)]);
    let b = Calendar::from_events(&vec![ev("x", 20240101), ev("y", 20240101)]);
    let cals = vec![a, b];
    assert_eq!(cals.max_height(20240101, 1), 3);
    assert_eq!(cals.max_height(20240102, 1), 2);
    assert_eq!(cals.max_height(20240101, 2), 3);
    assert_eq!(cals.max_height(20240105, 3), 0);
    let none: Vec<Calendar> = Vec::new();
    assert_eq!(none.max_height(20240101, 3), 0);
}

#[test]
fn palette_styles() {
    assert_eq!(get_style_from_idx(0), Style { fg: Color::White, bg: Color::Rgb(50, 50, 215) });
    assert_eq!(get_style_from_idx(1), Style { fg: Color::White, bg: Color::Rgb(190, 50, 50) });
    assert_eq!(get_style_from_idx(2), Style { fg: Color::White, bg: Color::Rgb(200, 110, 20) });
    assert_eq!(get_style_from_idx(3), Style { fg: Color::White, bg: Color::Rgb(150, 10, 200) });
    assert_eq!(get_style_from_idx(4), Style { fg: Color::White, bg: Color::Rgb(30, 175, 50) });
    assert_eq!(get_style_from_idx(5), Style { fg: Color::Black, bg: Color::White });
    assert_eq!(get_style_from_idx(usize::MAX), Style { fg: Color::Black, bg: Color::White });
}

#[test]
fn set_event_style_restyles_every_event() {
    let mut cal = Calendar::from_events(&vec![ev("a", 1), ev("b", 2), ev("c", 2)]);
    cal.set_event_style(3);
    for d in cal.days.values() {
        for e in d.events.iter() {
            assert_eq!(e.style, get_style_from_idx(3));
        }
    }
    assert_eq!(cal.days[&2].events[1].name, "c");
    assert_eq!(cal.days.len(), 2);
}

#[test]
fn date_key_encoding() {
    assert_eq!(date_key(2024, 1, 15), Some(20240115));
    assert_eq!(date_key(0, 12, 31), Some(1231));
    assert_eq!(date_key(-1, 1, 1), None);
}

#[test]
fn today_is_a_date_key() {
    let t = sc::model::today().unwrap();
    let day = t % 100;
    let month = (t / 100) % 100;
    assert!((1..=31).contains(&day));
    assert!((1..=12).contains(&month));
    assert!(t / 10000 >= 2020);
}
