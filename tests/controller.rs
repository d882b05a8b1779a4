use conways_life::cell::Cell;
use conways_life::controller::{init, parse_cell_dim, update, Action, Model, Msg};
use conways_life::grid::{Grid, LifeError};

fn live_indices(m: &Model) -> Vec<usize> {
    let mut out = Vec::new();
    for (i, c) in m.universe.cells.iter().enumerate() {
        if *c == Cell::Live {
            out.push(i);
        }
    }
    out
}

#[test]
fn starts_paused_with_the_seed_pattern() {
    let m = init();
    assert!(m.paused);
    assert_eq!((m.universe.cols, m.universe.rows), (19, 10));
    assert_eq!(m.universe_dim, (950, 500));
    assert_eq!(m.cell_dim, 50);
    assert_eq!(m.interval_ms, 200);
    assert_eq!(m.influence_radius, 25);
    assert!(m.show_grid);
    assert!(!m.show_influence);
    assert!(!m.mouse_down);
    assert_eq!(m.cursor, (0, 0));
    assert_eq!(
        live_indices(&m),
        vec![46, 65, 84, 99, 100, 101, 105, 106, 107, 122, 141, 160]
    );
}

#[test]
fn play_then_tick_steps_the_seed_pattern() {
    let mut m = init();
    assert_eq!(update(Msg::TogglePause, &mut m), Ok(Action::StartTicks(200)));
    assert!(!m.paused);
    assert_eq!(update(Msg::Tick, &mut m), Ok(Action::Nothing));
    assert_eq!(
        live_indices(&m),
        vec![64, 65, 66, 81, 83, 85, 87, 100, 102, 104, 106, 119, 121, 123, 125, 140, 141, 142]
    );
    assert!(!m.paused);
}

#[test]
fn tick_while_paused_changes_nothing() {
    let mut m = init();
    let before = m.universe.cells.clone();
    assert_eq!(update(Msg::Tick, &mut m), Ok(Action::Nothing));
    assert!(m.paused);
    assert_eq!(m.universe.cells, before);
}

#[test]
fn empty_step_without_influence_pauses_and_stops_ticks() {
    let mut m = init();
    m.universe = Grid::create_with_seed(19, 10, &vec![0]).unwrap();
    assert_eq!(update(Msg::TogglePause, &mut m), Ok(Action::StartTicks(200)));
    assert_eq!(update(Msg::Tick, &mut m), Ok(Action::StopTicks));
    assert!(m.paused);
    assert_eq!(m.universe.count_alive(), 0);
    assert_eq!(update(Msg::Tick, &mut m), Ok(Action::Nothing));
    assert!(m.paused);
}

#[test]
fn empty_step_with_influence_keeps_running() {
    let mut m = init();
    m.universe = Grid::new(19, 10).unwrap();
    assert_eq!(update(Msg::ToggleInfl, &mut m), Ok(Action::Nothing));
    assert_eq!(update(Msg::MouseMove((40, 25)), &mut m), Ok(Action::Nothing));
    assert_eq!(update(Msg::TogglePause, &mut m), Ok(Action::StartTicks(200)));
    assert_eq!(update(Msg::Tick, &mut m), Ok(Action::Nothing));
    assert!(!m.paused);
    // With radius 25 and 50 pixel cells, a cell is reached when its centre
    // lies less than 50 pixels from the pointer: the centres of cells 0 and 1
    // are 15 and 35 pixels away, that of cell 19 about 52.
    assert_eq!(live_indices(&m), vec![0, 1]);
}

#[test]
fn pause_stops_ticks() {
    let mut m = init();
    update(Msg::TogglePause, &mut m).unwrap();
    assert_eq!(update(Msg::TogglePause, &mut m), Ok(Action::StopTicks));
    assert!(m.paused);
}

#[test]
fn click_and_paint_cells() {
    let mut m = init();
    assert_eq!(update(Msg::ClickCell(46), &mut m), Ok(Action::Nothing));
    assert_eq!(m.universe.cells[46], Cell::Dead);
    assert_eq!(update(Msg::ClickCell(0), &mut m), Ok(Action::Nothing));
    assert_eq!(m.universe.cells[0], Cell::Live);
    assert_eq!(update(Msg::InfluenceCell(0), &mut m), Ok(Action::Nothing));
    assert_eq!(m.universe.cells[0], Cell::Live);
    assert_eq!(update(Msg::InfluenceCell(1), &mut m), Ok(Action::Nothing));
    assert_eq!(m.universe.cells[1], Cell::Live);
}

#[test]
fn click_outside_the_field_is_rejected() {
    let mut m = init();
    let before = m.universe.cells.clone();
    assert_eq!(update(Msg::ClickCell(190), &mut m), Err(LifeError::OutOfBounds));
    assert_eq!(update(Msg::InfluenceCell(500), &mut m), Err(LifeError::OutOfBounds));
    assert_eq!(m.universe.cells, before);
}

#[test]
fn clear_kills_every_cell() {
    let mut m = init();
    assert_eq!(update(Msg::ClearUniverse, &mut m), Ok(Action::Nothing));
    assert_eq!(m.universe.count_alive(), 0);
    assert_eq!(m.universe.cells.len(), 190);
}

#[test]
fn change_ratio_rebuilds_an_empty_paused_field() {
    let mut m = init();
    update(Msg::TogglePause, &mut m).unwrap();
    assert_eq!(update(Msg::ChangeRatio("25".to_string()), &mut m), Ok(Action::StopTicks));
    assert!(m.paused);
    assert_eq!(m.cell_dim, 25);
    assert_eq!((m.universe.cols, m.universe.rows), (38, 20));
    assert_eq!(m.universe.cells.len(), 760);
    assert_eq!(m.universe.count_alive(), 0);
    assert_eq!(update(Msg::ChangeRatio("5".to_string()), &mut m), Ok(Action::StopTicks));
    assert_eq!((m.universe.cols, m.universe.rows), (190, 100));
    assert_eq!(update(Msg::ChangeRatio("+10".to_string()), &mut m), Ok(Action::StopTicks));
    assert_eq!(m.cell_dim, 10);
    assert_eq!((m.universe.cols, m.universe.rows), (95, 50));
    assert_eq!(update(Msg::ChangeRatio("7".to_string()), &mut m), Ok(Action::StopTicks));
    assert_eq!((m.universe.cols, m.universe.rows), (135, 71));
    assert_eq!(m.universe.cells.len(), 135 * 71);
}

#[test]
fn change_ratio_rejects_bad_sizes() {
    let mut m = init();
    for (text, err) in [
        ("", LifeError::InvalidConfiguration),
        ("abc", LifeError::InvalidConfiguration),
        ("2 5", LifeError::InvalidConfiguration),
        ("+", LifeError::InvalidConfiguration),
        ("-", LifeError::InvalidConfiguration),
        ("+-5", LifeError::InvalidConfiguration),
        ("2147483648", LifeError::InvalidConfiguration),
        ("-2147483649", LifeError::InvalidConfiguration),
        ("99999999999999999999", LifeError::InvalidConfiguration),
        ("-5", LifeError::InvalidDimensions),
        ("-0", LifeError::InvalidDimensions),
        ("0", LifeError::InvalidDimensions),
        ("501", LifeError::InvalidDimensions),
        ("2147483647", LifeError::InvalidDimensions),
        ("-2147483648", LifeError::InvalidDimensions),
    ] {
        assert_eq!(update(Msg::ChangeRatio(text.to_string()), &mut m), Err(err));
    }
    assert_eq!(m.cell_dim, 50);
    assert_eq!(m.universe.cells.len(), 190);
    assert_eq!(m.universe.count_alive(), 12);
    assert_eq!(update(Msg::ChangeRatio("500".to_string()), &mut m), Ok(Action::StopTicks));
    assert_eq!((m.universe.cols, m.universe.rows), (1, 1));
}

#[test]
fn parse_cell_dim_reads_integers() {
    assert_eq!(parse_cell_dim("50"), Some(50));
    assert_eq!(parse_cell_dim("007"), Some(7));
    assert_eq!(parse_cell_dim("+5"), Some(5));
    assert_eq!(parse_cell_dim("-5"), Some(-5));
    assert_eq!(parse_cell_dim("-0"), Some(0));
    assert_eq!(parse_cell_dim("2147483647"), Some(i32::MAX));
    assert_eq!(parse_cell_dim("-2147483648"), Some(i32::MIN));
    assert_eq!(parse_cell_dim("2147483648"), None);
    assert_eq!(parse_cell_dim("-2147483649"), None);
    assert_eq!(parse_cell_dim("123456789012345678901234"), None);
    assert_eq!(parse_cell_dim(""), None);
    assert_eq!(parse_cell_dim("+"), None);
    assert_eq!(parse_cell_dim("-"), None);
    assert_eq!(parse_cell_dim("5x"), None);
    assert_eq!(parse_cell_dim("++5"), None);
    assert_eq!(parse_cell_dim(" 5"), None);
}

#[test]
fn set_interval_restarts_ticks_only_when_running() {
    let mut m = init();
    assert_eq!(update(Msg::SetInterval(500), &mut m), Ok(Action::Nothing));
    assert_eq!(m.interval_ms, 500);
    assert_eq!(update(Msg::TogglePause, &mut m), Ok(Action::StartTicks(500)));
    assert_eq!(update(Msg::SetInterval(10), &mut m), Ok(Action::StartTicks(10)));
    assert_eq!(update(Msg::SetInterval(1000), &mut m), Ok(Action::StartTicks(1000)));
    assert_eq!(m.interval_ms, 1000);
}

#[test]
fn set_interval_rejects_out_of_range() {
    let mut m = init();
    assert_eq!(update(Msg::SetInterval(9), &mut m), Err(LifeError::InvalidConfiguration));
    assert_eq!(update(Msg::SetInterval(1001), &mut m), Err(LifeError::InvalidConfiguration));
    assert_eq!(m.interval_ms, 200);
}

#[test]
fn influence_radius_is_clamped() {
    let mut m = init();
    assert_eq!(update(Msg::SetInflRadius(60), &mut m), Ok(Action::Nothing));
    assert_eq!(m.influence_radius, 60);
    update(Msg::SetInflRadius(5), &mut m).unwrap();
    assert_eq!(m.influence_radius, 25);
    update(Msg::SetInflRadius(5000), &mut m).unwrap();
    assert_eq!(m.influence_radius, 100);
}

#[test]
fn flags_and_pointer_are_stored() {
    let mut m = init();
    update(Msg::ToggleGrid, &mut m).unwrap();
    assert!(!m.show_grid);
    update(Msg::ToggleGrid, &mut m).unwrap();
    assert!(m.show_grid);
    update(Msg::ToggleInfl, &mut m).unwrap();
    assert!(m.show_influence);
    update(Msg::MouseDown(true), &mut m).unwrap();
    assert!(m.mouse_down);
    update(Msg::MouseDown(false), &mut m).unwrap();
    assert!(!m.mouse_down);
    update(Msg::MouseMove((-3, 700)), &mut m).unwrap();
    assert_eq!(m.cursor, (-3, 700));
    assert_eq!(m.universe.count_alive(), 12);
}
