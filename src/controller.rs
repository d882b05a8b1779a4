use vstd::prelude::*;
use vstd::string::StrSliceExecFns;
use vstd::arithmetic::div_mod::{lemma_fundamental_div_mod, lemma_mod_bound};
use crate::cell::{Cell, flipped};
use crate::grid::{Grid, LifeError, count_live, dead_cells, lemma_count_zero, seeded_cells};
use crate::influence::{apply_influence, influenced};
use crate::rules::{next_generation, step};

verus! {

/// Width of the field in pixels.
pub const UNIVERSE_WIDTH: i32 = 950;

/// Height of the field in pixels.
pub const UNIVERSE_HEIGHT: i32 = 500;

/// Side of a cell in pixels at start-up.
pub const DEFAULT_CELL_DIM: i32 = 50;

/// Time between two ticks at start-up, in milliseconds.
pub const DEFAULT_INTERVAL_MS: u32 = 200;

/// Shortest accepted time between two ticks, in milliseconds.
pub const MIN_INTERVAL_MS: u32 = 10;

/// Longest accepted time between two ticks, in milliseconds.
pub const MAX_INTERVAL_MS: u32 = 1000;

/// Smallest influence radius, in pixels; also the radius at start-up.
pub const MIN_INFLUENCE_RADIUS: usize = 25;

/// Largest influence radius, in pixels.
pub const MAX_INFLUENCE_RADIUS: usize = 100;

/// A pixel position or size: `(x, y)` or `(width, height)`.
pub type Vec2 = (i32, i32);

/// A command to the controller, from the user or from the tick source.
pub enum Msg {
    /// Flip the cell with this row-major index.
    ClickCell(usize),
    /// The pointer moved to this position, in the field's own pixel coordinates.
    MouseMove(Vec2),
    /// The tick source fired.
    Tick,
    /// Show or hide the grid lines.
    ToggleGrid,
    /// Switch influence mode on or off.
    ToggleInfl,
    /// Take a new cell size in pixels, given as decimal text.
    ChangeRatio(String),
    /// Play when paused, pause when running.
    TogglePause,
    /// The pointer was pressed (`true`) or released (`false`).
    MouseDown(bool),
    /// Make the cell with this row-major index alive (painting).
    InfluenceCell(usize),
    /// Make every cell dead.
    ClearUniverse,
    /// Take a new time between ticks, in milliseconds.
    SetInterval(u32),
    /// Take a new influence radius in pixels.
    SetInflRadius(usize),
}

/// What the controller asks of the tick source after a command.
#[derive(Copy, Clone, PartialEq, Eq, Debug, Structural)]
pub enum Action {
    /// Leave the tick source as it is.
    Nothing,
    /// Start ticking at this interval in milliseconds, replacing any running source.
    StartTicks(u32),
    /// Stop ticking.
    StopTicks,
}

/// The simulation: the field, its settings and the play/pause state.
pub struct Model {
    pub universe: Grid,
    /// Width and height of the field in pixels.
    pub universe_dim: Vec2,
    /// Side of a cell in pixels.
    pub cell_dim: i32,
    pub show_grid: bool,
    pub influence_radius: usize,
    pub show_influence: bool,
    /// Last known pointer position, in the field's own pixel coordinates.
    pub cursor: Vec2,
    pub paused: bool,
    pub mouse_down: bool,
    pub interval_ms: u32,
}

/// The mathematical state of a [`Model`].
pub struct ModelView {
    pub cells: Seq<Cell>,
    pub cols: int,
    pub rows: int,
    pub universe_dim: Vec2,
    pub cell_dim: int,
    pub show_grid: bool,
    pub influence_radius: int,
    pub show_influence: bool,
    pub cursor: Vec2,
    pub paused: bool,
    pub mouse_down: bool,
    pub interval_ms: int,
}

impl View for Model {
    type V = ModelView;

    open spec fn view(&self) -> ModelView {
        ModelView {
            cells: self.universe.cells@,
            cols: self.universe.cols as int,
            rows: self.universe.rows as int,
            universe_dim: self.universe_dim,
            cell_dim: self.cell_dim as int,
            show_grid: self.show_grid,
            influence_radius: self.influence_radius as int,
            show_influence: self.show_influence,
            cursor: self.cursor,
            paused: self.paused,
            mouse_down: self.mouse_down,
            interval_ms: self.interval_ms as int,
        }
    }
}

impl ModelView {
    /// The field fills the pixel bounds with whole cells, one cell per
    /// position, and the settings lie in their accepted ranges.
    pub open spec fn wf(self) -> bool {
        &&& self.universe_dim.0 > 0
        &&& self.universe_dim.1 > 0
        &&& self.universe_dim.0 * self.universe_dim.1 <= usize::MAX
        &&& self.cell_dim > 0
        &&& self.cols == self.universe_dim.0 as int / self.cell_dim
        &&& self.rows == self.universe_dim.1 as int / self.cell_dim
        &&& self.cols >= 1
        &&& self.rows >= 1
        &&& self.cells.len() == self.cols * self.rows
        &&& MIN_INTERVAL_MS <= self.interval_ms <= MAX_INTERVAL_MS
        &&& MIN_INFLUENCE_RADIUS <= self.influence_radius <= MAX_INFLUENCE_RADIUS
    }
}

impl Model {
    pub open spec fn wf(&self) -> bool {
        self@.wf()
    }
}

/// Whether `c` is an ASCII decimal digit.
pub open spec fn is_digit(c: char) -> bool {
    '0' as u32 <= c as u32 <= '9' as u32
}

/// A non-empty run of decimal digits.
pub open spec fn is_decimal(s: Seq<char>) -> bool {
    s.len() > 0 && forall|i: int| 0 <= i < s.len() ==> is_digit(#[trigger] s[i])
}

/// The number that a run of decimal digits denotes.
pub open spec fn decimal_value(s: Seq<char>) -> nat
    decreases s.len(),
{
    if s.len() == 0 {
        0
    } else {
        (decimal_value(s.drop_last()) * 10 + (s.last() as u32 - '0' as u32)) as nat
    }
}

/// Whether `c` is a sign that may lead an integer.
pub open spec fn is_sign(c: char) -> bool {
    c == '+' || c == '-'
}

/// The text of an integer without its leading sign, if it has one.
pub open spec fn unsigned_part(s: Seq<char>) -> Seq<char> {
    if s.len() > 0 && is_sign(s[0]) {
        s.drop_first()
    } else {
        s
    }
}

/// An optional `+` or `-` followed by a non-empty run of decimal digits.
pub open spec fn is_integer_text(s: Seq<char>) -> bool {
    is_decimal(unsigned_part(s))
}

/// The number that integer text denotes.
pub open spec fn integer_value(s: Seq<char>) -> int {
    if s.len() > 0 && s[0] == '-' {
        -decimal_value(unsigned_part(s))
    } else {
        decimal_value(unsigned_part(s)) as int
    }
}

/// Integer text whose value fits in an `i32`: what `str::parse::<i32>` accepts.
pub open spec fn parses_as_i32(s: Seq<char>) -> bool {
    is_integer_text(s) && i32::MIN <= integer_value(s) <= i32::MAX
}

/// A magnitude at or above this fits no `i32`, whatever the sign.
const MAGNITUDE_CAP: u64 = 0x8000_0001;

/// `v`, or the cap if `v` is larger.
spec fn capped(v: int) -> int {
    if v < MAGNITUDE_CAP { v } else { MAGNITUDE_CAP as int }
}

/// An influence radius brought into its accepted range.
pub open spec fn clamp_radius(r: int) -> int {
    if r < MIN_INFLUENCE_RADIUS {
        MIN_INFLUENCE_RADIUS as int
    } else if r > MAX_INFLUENCE_RADIUS {
        MAX_INFLUENCE_RADIUS as int
    } else {
        r
    }
}

/// The state and request after a tick of a running simulation: one step of
/// the rules, then the influence if it is on; with influence off, a field left
/// empty pauses the simulation and stops the ticks.
pub open spec fn tick(m: ModelView) -> (ModelView, Action) {
    let stepped = next_generation(m.cells, m.cols, m.rows);
    if m.show_influence {
        (
            ModelView {
                cells: influenced(stepped, m.cols, m.cursor, m.influence_radius, m.cell_dim),
                ..m
            },
            Action::Nothing,
        )
    } else if count_live(stepped) == 0 {
        (ModelView { cells: stepped, paused: true, ..m }, Action::StopTicks)
    } else {
        (ModelView { cells: stepped, ..m }, Action::Nothing)
    }
}

/// The state after a command and what is asked of the tick source, or the
/// reason the command is rejected (the state then stays as it was).
pub open spec fn transition(m: ModelView, msg: Msg) -> Result<(ModelView, Action), LifeError> {
    match msg {
        Msg::ClickCell(i) => if i < m.cells.len() {
            Ok((ModelView { cells: m.cells.update(i as int, flipped(m.cells[i as int])), ..m }, Action::Nothing))
        } else {
            Err(LifeError::OutOfBounds)
        },
        Msg::InfluenceCell(i) => if i < m.cells.len() {
            Ok((ModelView { cells: m.cells.update(i as int, Cell::Live), ..m }, Action::Nothing))
        } else {
            Err(LifeError::OutOfBounds)
        },
        Msg::Tick => if m.paused {
            Ok((m, Action::Nothing))
        } else {
            Ok(tick(m))
        },
        Msg::MouseMove(pos) => Ok((ModelView { cursor: pos, ..m }, Action::Nothing)),
        Msg::ToggleGrid => Ok((ModelView { show_grid: !m.show_grid, ..m }, Action::Nothing)),
        Msg::ToggleInfl => Ok((ModelView { show_influence: !m.show_influence, ..m }, Action::Nothing)),
        Msg::ChangeRatio(s) => if !parses_as_i32(s@) {
            Err(LifeError::InvalidConfiguration)
        } else {
            let d = integer_value(s@);
            if d < 1 || d > m.universe_dim.0 || d > m.universe_dim.1 {
                Err(LifeError::InvalidDimensions)
            } else {
                let cols = m.universe_dim.0 as int / d;
                let rows = m.universe_dim.1 as int / d;
                Ok(
                    (
                        ModelView {
                            cells: dead_cells((cols * rows) as nat),
                            cols,
                            rows,
                            cell_dim: d,
                            paused: true,
                            ..m
                        },
                        Action::StopTicks,
                    ),
                )
            }
        },
        Msg::TogglePause => if m.paused {
            Ok((ModelView { paused: false, ..m }, Action::StartTicks(m.interval_ms as u32)))
        } else {
            Ok((ModelView { paused: true, ..m }, Action::StopTicks))
        },
        Msg::MouseDown(down) => Ok((ModelView { mouse_down: down, ..m }, Action::Nothing)),
        Msg::ClearUniverse => Ok((ModelView { cells: dead_cells(m.cells.len()), ..m }, Action::Nothing)),
        Msg::SetInterval(ms) => if MIN_INTERVAL_MS <= ms <= MAX_INTERVAL_MS {
            Ok(
                (
                    ModelView { interval_ms: ms as int, ..m },
                    if m.paused { Action::Nothing } else { Action::StartTicks(ms) },
                ),
            )
        } else {
            Err(LifeError::InvalidConfiguration)
        },
        Msg::SetInflRadius(r) => Ok(
            (ModelView { influence_radius: clamp_radius(r as int), ..m }, Action::Nothing),
        ),
    }
}

/// Reads a cell size written as an integer: an optional `+` or `-`, then
/// decimal digits. `None` when the text is not of that form or its value does
/// not fit in an `i32`.
pub fn parse_cell_dim(s: &str) -> (r: Option<i32>)
    ensures
        r is Some <==> parses_as_i32(s@),
        r matches Some(v) ==> v == integer_value(s@),
{
    let len = s.unicode_len();
    if len == 0 {
        return None;
    }
    let first = s.get_char(0);
    let negative = first == '-';
    let start: usize = if first == '+' || first == '-' { 1 } else { 0 };
    if start >= len {
        return None;
    }
    assert(unsigned_part(s@) =~= s@.subrange(start as int, len as int));
    let mut value: u64 = 0;
    let mut i: usize = start;
    while i < len
        invariant
            len == s@.len(),
            start <= i <= len,
            unsigned_part(s@) == s@.subrange(start as int, len as int),
            forall|j: int| start <= j < i ==> is_digit(#[trigger] s@[j]),
            value == capped(decimal_value(s@.subrange(start as int, i as int)) as int),
        decreases len - i,
    {
        let c = s.get_char(i);
        if !('0' <= c && c <= '9') {
            assert(s@.subrange(start as int, len as int)[i - start] == c);
            assert(!is_digit(unsigned_part(s@)[i - start]));
            return None;
        }
        let digit = (c as u32 - '0' as u32) as u64;
        let ghost prefix = s@.subrange(start as int, i as int);
        assert(s@.subrange(start as int, i + 1).drop_last() == prefix);
        assert(decimal_value(s@.subrange(start as int, i + 1)) == decimal_value(prefix) * 10 + digit);
        if value < MAGNITUDE_CAP {
            value = value * 10 + digit;
            if value > MAGNITUDE_CAP {
                value = MAGNITUDE_CAP;
            }
        }
        i += 1;
    }
    assert(s@.subrange(start as int, len as int) == unsigned_part(s@));
    assert(is_decimal(unsigned_part(s@))) by {
        assert forall|k: int| 0 <= k < unsigned_part(s@).len() implies is_digit(
            #[trigger] unsigned_part(s@)[k],
        ) by {
            assert(unsigned_part(s@)[k] == s@[k + start]);
        }
    }
    if negative {
        if value > i32::MAX as u64 + 1 {
            return None;
        }
        Some((0 - value as i64) as i32)
    } else {
        if value > i32::MAX as u64 {
            return None;
        }
        Some(value as i32)
    }
}

/// Whole cells of side `d` laid over a `w` by `h` field stay within it, and
/// their number fits in memory whenever the field's pixel count does.
proof fn lemma_cells_fit(w: int, h: int, d: int)
    requires
        w > 0,
        h > 0,
        d > 0,
        w * h <= usize::MAX,
    ensures
        (w / d) * d <= w,
        (h / d) * d <= h,
        (w / d) * (h / d) <= usize::MAX,
        w / d >= 0,
        h / d >= 0,
        d <= w ==> w / d >= 1,
        d <= h ==> h / d >= 1,
{
    lemma_fundamental_div_mod(w, d);
    lemma_fundamental_div_mod(h, d);
    lemma_mod_bound(w, d);
    lemma_mod_bound(h, d);
    if d <= w && w / d < 1 {
        assert(d * (w / d) <= 0) by (nonlinear_arith)
            requires d > 0, w / d < 1, w / d >= 0;
    }
    if d <= h && h / d < 1 {
        assert(d * (h / d) <= 0) by (nonlinear_arith)
            requires d > 0, h / d < 1, h / d >= 0;
    }
    assert(0 <= w / d <= w && 0 <= h / d <= h && (w / d) * d <= w && (h / d) * d <= h) by (nonlinear_arith)
        requires w > 0, h > 0, d > 0, w == d * (w / d) + w % d, h == d * (h / d) + h % d,
            0 <= w % d, 0 <= h % d;
    assert((w / d) * (h / d) <= w * h) by (nonlinear_arith)
        requires 0 <= w / d <= w, 0 <= h / d <= h;
}

/// Applies `msg` to `model` and says what the tick source must do next. A
/// rejected command leaves the model as it was.
pub fn update(msg: Msg, model: &mut Model) -> (r: Result<Action, LifeError>)
    requires
        old(model).wf(),
    ensures
        final(model).wf(),
        match transition(old(model)@, msg) {
            Ok((v, a)) => r == Ok::<Action, LifeError>(a) && final(model)@ == v,
            Err(e) => r == Err::<Action, LifeError>(e) && final(model)@ == old(model)@,
        },
{
    match msg {
        Msg::ClickCell(i) => {
            if i >= model.universe.cells.len() {
                return Err(LifeError::OutOfBounds);
            }
            let (x, y) = model.universe.to_xy(i);
            let _ = model.universe.toggle(x, y);
            Ok(Action::Nothing)
        },
        Msg::InfluenceCell(i) => {
            if i >= model.universe.cells.len() {
                return Err(LifeError::OutOfBounds);
            }
            let (x, y) = model.universe.to_xy(i);
            let _ = model.universe.set(x, y, Cell::Live);
            Ok(Action::Nothing)
        },
        Msg::Tick => {
            if model.paused {
                return Ok(Action::Nothing);
            }
            let stepped = step(&model.universe);
            if model.show_influence {
                proof {
                    lemma_cells_fit(
                        model.universe_dim.0 as int,
                        model.universe_dim.1 as int,
                        model.cell_dim as int,
                    );
                }
                model.universe = apply_influence(
                    &stepped,
                    model.cursor,
                    model.influence_radius as u32,
                    model.cell_dim,
                );
                Ok(Action::Nothing)
            } else if stepped.count_alive() == 0 {
                model.universe = stepped;
                model.paused = true;
                Ok(Action::StopTicks)
            } else {
                model.universe = stepped;
                Ok(Action::Nothing)
            }
        },
        Msg::MouseMove(pos) => {
            model.cursor = pos;
            Ok(Action::Nothing)
        },
        Msg::ToggleGrid => {
            model.show_grid = !model.show_grid;
            Ok(Action::Nothing)
        },
        Msg::ToggleInfl => {
            model.show_influence = !model.show_influence;
            Ok(Action::Nothing)
        },
        Msg::ChangeRatio(dim) => {
            let cell_dim = match parse_cell_dim(dim.as_str()) {
                Some(d) => d,
                None => return Err(LifeError::InvalidConfiguration),
            };
            let (w, h) = model.universe_dim;
            if cell_dim < 1 || cell_dim > w || cell_dim > h {
                return Err(LifeError::InvalidDimensions);
            }
            proof {
                lemma_cells_fit(w as int, h as int, cell_dim as int);
            }
            let cols = (w / cell_dim) as usize;
            let rows = (h / cell_dim) as usize;
            let universe = match Grid::new(cols, rows) {
                Ok(g) => g,
                Err(e) => return Err(e),
            };
            model.universe = universe;
            model.cell_dim = cell_dim;
            model.paused = true;
            Ok(Action::StopTicks)
        },
        Msg::TogglePause => {
            if model.paused {
                model.paused = false;
                Ok(Action::StartTicks(model.interval_ms))
            } else {
                model.paused = true;
                Ok(Action::StopTicks)
            }
        },
        Msg::MouseDown(down) => {
            model.mouse_down = down;
            Ok(Action::Nothing)
        },
        Msg::ClearUniverse => {
            model.universe = model.universe.clear();
            Ok(Action::Nothing)
        },
        Msg::SetInterval(ms) => {
            if ms < MIN_INTERVAL_MS || ms > MAX_INTERVAL_MS {
                return Err(LifeError::InvalidConfiguration);
            }
            model.interval_ms = ms;
            if model.paused {
                Ok(Action::Nothing)
            } else {
                Ok(Action::StartTicks(ms))
            }
        },
        Msg::SetInflRadius(r) => {
            model.influence_radius = if r < MIN_INFLUENCE_RADIUS {
                MIN_INFLUENCE_RADIUS
            } else if r > MAX_INFLUENCE_RADIUS {
                MAX_INFLUENCE_RADIUS
            } else {
                r
            };
            Ok(Action::Nothing)
        },
    }
}

/// The live cells of the starting pattern, by row-major index.
pub open spec fn seed_pattern() -> Seq<usize> {
    seq![46, 65, 84, 99, 100, 101, 105, 106, 107, 122, 141, 160]
}

/// The state at start-up: a paused simulation over the starting pattern.
pub open spec fn initial_view() -> ModelView {
    ModelView {
        cells: seeded_cells(190, seed_pattern()),
        cols: 19,
        rows: 10,
        universe_dim: (UNIVERSE_WIDTH, UNIVERSE_HEIGHT),
        cell_dim: DEFAULT_CELL_DIM as int,
        show_grid: true,
        influence_radius: MIN_INFLUENCE_RADIUS as int,
        show_influence: false,
        cursor: (0, 0),
        paused: true,
        mouse_down: false,
        interval_ms: DEFAULT_INTERVAL_MS as int,
    }
}

/// The model at start-up: the starting pattern on a 950 by 500 pixel field of
/// 50 pixel cells, paused.
pub fn init() -> (r: Model)
    ensures
        r.wf(),
        r@ == initial_view(),
{
    let universe_width = UNIVERSE_WIDTH;
    let universe_height = UNIVERSE_HEIGHT;
    let default_cell_dim = DEFAULT_CELL_DIM;
    let cols = (universe_width / default_cell_dim) as usize;
    let rows = (universe_height / default_cell_dim) as usize;
    let pattern: Vec<usize> = vec![46, 65, 84, 99, 100, 101, 105, 106, 107, 122, 141, 160];
    assert(pattern@ == seed_pattern());
    assert(cols == 19 && rows == 10);
    assert(forall|k: int| 0 <= k < pattern@.len() ==> #[trigger] pattern@[k] < 190);
    let universe = match Grid::create_with_seed(cols, rows, &pattern) {
        Ok(g) => g,
        // Every index of the pattern lies inside the field, so this arm is never taken.
        Err(_) => Grid { cols, rows, cells: Vec::new() },
    };
    Model {
        universe,
        universe_dim: (universe_width, universe_height),
        cell_dim: default_cell_dim,
        show_grid: true,
        influence_radius: MIN_INFLUENCE_RADIUS,
        show_influence: false,
        cursor: (0, 0),
        paused: true,
        mouse_down: false,
        interval_ms: DEFAULT_INTERVAL_MS,
    }
}

/// A tick that reaches a paused simulation changes nothing and asks nothing
/// of the tick source.
pub proof fn lemma_tick_while_paused_is_noop(m: ModelView)
    requires
        m.paused,
    ensures
        transition(m, Msg::Tick) == Ok::<(ModelView, Action), LifeError>((m, Action::Nothing)),
{
}

/// A running simulation without influence whose step leaves no live cell
/// pauses on that same tick and stops the tick source; a tick that still
/// arrives afterwards changes nothing.
pub proof fn lemma_auto_pause(m: ModelView)
    requires
        !m.paused,
        !m.show_influence,
        count_live(next_generation(m.cells, m.cols, m.rows)) == 0,
    ensures
        transition(m, Msg::Tick) matches Ok((v, a)) && v.paused && a == Action::StopTicks
            && count_live(v.cells) == 0 && transition(v, Msg::Tick) == Ok::<
            (ModelView, Action),
            LifeError,
        >((v, Action::Nothing)),
{
}

/// Clearing leaves no live cell, whatever the field held before.
pub proof fn lemma_clear_leaves_nothing_alive(m: ModelView)
    ensures
        transition(m, Msg::ClearUniverse) matches Ok((v, a)) && count_live(v.cells) == 0
            && v.cells.len() == m.cells.len(),
{
    lemma_count_zero(dead_cells(m.cells.len()));
}

/// An accepted change of cell size gives a well-formed, entirely dead field
/// with one cell per position, pauses the simulation and stops the ticks.
pub proof fn lemma_resize_gives_dead_field(m: ModelView, dim: String)
    requires
        m.wf(),
    ensures
        transition(m, Msg::ChangeRatio(dim)) matches Ok((v, a)) ==> {
            &&& v.wf()
            &&& v.cells.len() == v.cols * v.rows
            &&& forall|i: int| 0 <= i < v.cells.len() ==> v.cells[i] == Cell::Dead
            &&& count_live(v.cells) == 0
            &&& v.paused
            &&& a == Action::StopTicks
        },
{
    if parses_as_i32(dim@) {
        let d = integer_value(dim@);
        if 1 <= d && d <= m.universe_dim.0 && d <= m.universe_dim.1 {
            lemma_cells_fit(m.universe_dim.0 as int, m.universe_dim.1 as int, d);
            let cols = m.universe_dim.0 as int / d;
            let rows = m.universe_dim.1 as int / d;
            lemma_count_zero(dead_cells((cols * rows) as nat));
        }
    }
}

} // verus!
