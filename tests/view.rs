use sc::compose::{conv_color, mapped_color, style_cells, Cell, TermColor};
use sc::layout::{
    block_inner, day_count, max_default_blocks, render_default_block, render_view_default,
    viewport_height, Area,
};
use sc::model::{Calendar, Color, Day, Event, Style};

fn ev(name: &str, date: u64) -> Event {
    Event {
        name: name.to_string(),
        description: String::new(),
        date,
        style: Style { fg: Color::White, bg: Color::Rgb(1, 2, 3) },
    }
}

#[test]
fn empty_calendar_gives_empty_titled_blocks() {
    let cals = vec![Calendar::from_events(&Vec::new())];
    let plan = render_view_default(&cals, 3, 80, 24, 20240115);
    assert_eq!(plan.blocks.len(), 3);
    for (i, b) in plan.blocks.iter().enumerate() {
        assert_eq!(b.date, 20240115 + i as u64);
        assert!(b.rows.is_empty());
    }
    assert_eq!(plan.viewport, Area { x: 0, y: 0, width: 80, height: 4 });
}

#[test]
fn columns_split_evenly_inside_the_margin() {
    let cals = vec![Calendar::from_events(&vec![ev("a", 20240115), ev("b", 20240115), ev("c", 20240116)])];
    let plan = render_view_default(&cals, 0, 80, 24, 20240115);
    assert_eq!(plan.viewport, Area { x: 0, y: 0, width: 80, height: 6 });
    assert_eq!(plan.blocks.len(), 3);
    assert_eq!(plan.blocks[0].area, Area { x: 1, y: 1, width: 26, height: 4 });
    assert_eq!(plan.blocks[1].area, Area { x: 27, y: 1, width: 26, height: 4 });
    assert_eq!(plan.blocks[2].area, Area { x: 53, y: 1, width: 26, height: 4 });
    assert_eq!(plan.blocks[0].rows.len(), 2);
    assert_eq!(plan.blocks[0].rows[0].text, "a");
    assert_eq!(plan.blocks[0].rows[0].area, Area { x: 2, y: 2, width: 24, height: 1 });
    assert_eq!(plan.blocks[0].rows[1].area, Area { x: 2, y: 3, width: 24, height: 1 });
    assert_eq!(plan.blocks[1].rows.len(), 1);
    assert_eq!(plan.blocks[2].rows.len(), 0);
}

#[test]
fn only_the_first_calendar_fills_the_blocks() {
    let first = Calendar::from_events(&vec![ev("a", 10)]);
    let second = Calendar::from_events(&vec![ev("x", 10), ev("y", 10), ev("z", 11)]);
    let cals = vec![first, second];
    let plan = render_view_default(&cals, 2, 60, 40, 10);
    assert_eq!(plan.viewport.height, 4 + 3);
    assert_eq!(plan.blocks[0].rows.len(), 1);
    assert_eq!(plan.blocks[1].rows.len(), 0);
}

#[test]
fn viewport_height_is_clamped_to_terminal() {
    let many: Vec<Event> = (0..30).map(|i| ev(&format!("e{}", i), 5)).collect();
    let cals = vec![Calendar::from_events(&many)];
    assert_eq!(viewport_height(&cals, 5, 1, 24), 23);
    assert_eq!(viewport_height(&cals, 5, 1, 100), 34);
    assert_eq!(viewport_height(&cals, 6, 1, 100), 4);
    let plan = render_view_default(&cals, 1, 40, 12, 5);
    assert_eq!(plan.viewport.height, 11);
    assert_eq!(plan.blocks[0].rows.len(), 7);
}

#[test]
fn truncation_keeps_the_first_rows_in_order() {
    let day = Day { date: 7, events: vec![ev("a", 7), ev("b", 7), ev("c", 7), ev("d", 7), ev("e", 7)] };
    let area = Area { x: 0, y: 0, width: 10, height: 5 };
    let block = render_default_block(&day, area);
    assert_eq!(block.date, 7);
    assert_eq!(block.area, area);
    assert_eq!(block.rows.len(), 3);
    let names: Vec<&str> = block.rows.iter().map(|r| r.text.as_str()).collect();
    assert_eq!(names, vec!["a", "b", "c"]);
    for r in block.rows.iter() {
        assert!(r.area.y + r.area.height <= 4);
        assert_eq!(r.style, Style { fg: Color::White, bg: Color::Rgb(1, 2, 3) });
    }
}

#[test]
fn block_interior() {
    assert_eq!(block_inner(Area { x: 3, y: 4, width: 10, height: 6 }), Area { x: 4, y: 5, width: 8, height: 4 });
    assert_eq!(block_inner(Area { x: 3, y: 4, width: 1, height: 0 }), Area { x: 4, y: 4, width: 0, height: 0 });
    assert_eq!(block_inner(Area { x: 0, y: 0, width: 0, height: 0 }), Area { x: 0, y: 0, width: 0, height: 0 });
}

#[test]
fn day_counts() {
    assert_eq!(max_default_blocks(80), 3);
    assert_eq!(max_default_blocks(25), 0);
    assert_eq!(day_count(0, 130), 5);
    assert_eq!(day_count(7, 130), 7);
}

fn all_colors() -> Vec<Color> {
    vec![
        Color::Reset,
        Color::Black,
        Color::Red,
        Color::Green,
        Color::Yellow,
        Color::Blue,
        Color::Magenta,
        Color::Cyan,
        Color::Gray,
        Color::DarkGray,
        Color::LightRed,
        Color::LightGreen,
        Color::LightYellow,
        Color::LightBlue,
        Color::LightMagenta,
        Color::LightCyan,
        Color::White,
        Color::Rgb(10, 20, 30),
        Color::Indexed(42),
    ]
}

#[test]
fn enumerated_colors_never_fall_back() {
    assert_eq!(mapped_color(Color::Rgb(10, 20, 30)), Some(TermColor::Rgb { r: 10, g: 20, b: 30 }));
    assert_eq!(mapped_color(Color::White), Some(TermColor::White));
    assert_eq!(mapped_color(Color::Black), Some(TermColor::Black));
    assert_eq!(mapped_color(Color::Reset), Some(TermColor::Reset));
    assert_eq!(mapped_color(Color::Indexed(42)), Some(TermColor::AnsiValue(42)));
    let mut fallbacks = 0;
    for c in all_colors() {
        match mapped_color(c) {
            Some(t) => assert_eq!(conv_color(c), t),
            None => {
                fallbacks += 1;
                assert_eq!(conv_color(c), TermColor::Black);
            }
        }
    }
    assert_eq!(fallbacks, 14);
}

#[test]
fn cells_keep_order_and_symbols() {
    let cells = vec![
        Cell { symbol: "a".to_string(), fg: Color::White, bg: Color::Rgb(1, 2, 3) },
        Cell { symbol: "│".to_string(), fg: Color::Red, bg: Color::Indexed(7) },
    ];
    let out = style_cells(&cells);
    assert_eq!(out.len(), 2);
    assert_eq!(out[0].symbol, "a");
    assert_eq!(out[0].fg, TermColor::White);
    assert_eq!(out[0].bg, TermColor::Rgb { r: 1, g: 2, b: 3 });
    assert_eq!(out[1].symbol, "│");
    assert_eq!(out[1].fg, TermColor::Black);
    assert_eq!(out[1].bg, TermColor::AnsiValue(7));
}

#[test]
fn oversized_viewport_is_shrunk_by_the_terminal_layer() {
    let many: Vec<Event> = (0..300).map(|i| ev(&format!("e{}", i), 9)).collect();
    let cals = vec![Calendar::from_events(&many)];
    assert_eq!(viewport_height(&cals, 9, 1, 400), 304);
    let plan = render_view_default(&cals, 1, 300, 400, 9);
    assert_eq!(plan.viewport.x, 0);
    assert_eq!(plan.viewport.y, 0);
    assert!(plan.viewport.width < 300);
    assert!(plan.viewport.height < 304);
    assert!((plan.viewport.width as u32) * (plan.viewport.height as u32) <= 65535);
    assert_eq!(plan.blocks.len(), 1);
}

#[test]
fn blocks_stand_in_their_columns() {
    let cal = Calendar::from_events(&vec![ev("a", 31), ev("b", 32)]);
    let columns = vec![
        Area { x: 1, y: 1, width: 10, height: 5 },
        Area { x: 11, y: 1, width: 10, height: 5 },
        Area { x: 21, y: 1, width: 10, height: 5 },
    ];
    let blocks = sc::layout::layout_blocks(&cal, &columns, 31);
    assert_eq!(blocks.len(), 3);
    for (i, b) in blocks.iter().enumerate() {
        assert_eq!(b.area, columns[i]);
        assert_eq!(b.date, 31 + i as u64);
    }
    assert_eq!(blocks[0].rows[0].text, "a");
    assert_eq!(blocks[1].rows[0].text, "b");
    assert!(blocks[2].rows.is_empty());
    let plan = render_view_default(&vec![cal], 3, 80, 24, 31);
    assert_eq!(plan.columns.len(), 3);
    for (i, b) in plan.blocks.iter().enumerate() {
        assert_eq!(b.area, plan.columns[i]);
    }
}
