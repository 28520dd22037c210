//! Dashboard state and per-frame pane composition: key dispatch over the
//! maximize/selection flags, grid selection movement, and the wrap →
//! highlight → scroll-reconcile → slice pipeline that turns one source's
//! state into the styled lines its pane shows.

use crate::highlight::{format_spec, segs_view, LogFormatter, Segment, StyleKind};
use crate::history::HistoryBuffer;
use crate::layout::{spec_ceil_div, spec_ceil_sqrt, grid_dims};
use crate::session::ConnectionStatus;
use crate::viewport::{scroll_limit, ScrollDirection, ViewportState};
use crate::wrap::{flatten_each, grapheme_split, views_of, wrap_line, wrap_spec};
use vstd::arithmetic::div_mod::{lemma_fundamental_div_mod, lemma_div_pos_is_pos};
use vstd::arithmetic::mul::lemma_mul_inequality;
use vstd::prelude::*;
use vstd::string::StringExecFns;

verus! {

/// The per-source bundle a pane shows: raw history, scroll state and
/// connection status, under the source's display name.
pub struct LogWindow {
    pub name: String,
    pub content: HistoryBuffer,
    pub viewport: ViewportState,
    pub connection_status: ConnectionStatus,
}

impl LogWindow {
    pub fn new(name: String, max_history: usize) -> (r: LogWindow)
        ensures
            r.name@ == name@,
            r.content@ == Seq::<Seq<char>>::empty(),
            r.content.max_hist() == max_history,
            r.content.wf(),
            r.viewport.scroll_position == 0,
            !r.viewport.has_user_scrolled,
            r.connection_status == ConnectionStatus::Connecting,
    {
        LogWindow {
            name,
            content: HistoryBuffer::new(max_history),
            viewport: ViewportState::new(),
            connection_status: ConnectionStatus::Connecting,
        }
    }
}

/// Process-wide dashboard flags: which pane is focused and whether it fills
/// the whole terminal.
#[derive(Clone, Copy, PartialEq, Eq, Structural, Debug)]
pub struct AppState {
    pub window_count: usize,
    pub selected_window: usize,
    pub is_maximized: bool,
}

impl AppState {
    /// The focus stays on an existing pane, and the pane count stays small
    /// enough for grid arithmetic.
    pub open spec fn wf(&self) -> bool {
        &&& 1 <= self.window_count <= 0xFFFF_FFFFusize
        &&& self.selected_window < self.window_count
    }

    pub fn new(window_count: usize) -> (r: AppState)
        requires
            1 <= window_count <= 0xFFFF_FFFFusize,
        ensures
            r.wf(),
            r.window_count == window_count,
            r.selected_window == 0,
            !r.is_maximized,
    {
        AppState { window_count, selected_window: 0, is_maximized: false }
    }
}

/// A pane-selection move in the grid.
#[derive(Clone, Copy, PartialEq, Eq, Structural, Debug)]
pub enum MoveDirection {
    Left,
    Right,
    Up,
    Down,
}

/// A key the dashboard reacts to.
#[derive(Clone, Copy, PartialEq, Eq, Structural, Debug)]
pub enum KeyEvent {
    Quit,
    ToggleMaximize,
    Up,
    Down,
    Left,
    Right,
    PageUp,
    PageDown,
    Home,
    End,
    ClearHistory,
    Other,
}

/// What the caller must do to the focused pane after a key was dispatched.
#[derive(Clone, Copy, PartialEq, Eq, Structural, Debug)]
pub enum UiAction {
    DoNothing,
    Exit,
    SnapToTail,
    Scroll(ScrollDirection),
    Clear,
}

/// Where a selection move lands: movement within the `rows` x `cols` grid of
/// `count` panes, clamped at the grid edges and at the pane count.
pub open spec fn spec_move_selection(selected: int, count: int, dir: MoveDirection) -> int {
    let rows = spec_ceil_sqrt(count as nat) as int;
    let cols = spec_ceil_div(count as nat, spec_ceil_sqrt(count as nat)) as int;
    let row = selected / cols;
    let col = selected % cols;
    match dir {
        MoveDirection::Up => if row > 0 {
            selected - cols
        } else {
            selected
        },
        MoveDirection::Down => if selected + cols < count {
            selected + cols
        } else {
            selected
        },
        MoveDirection::Left => if col > 0 {
            selected - 1
        } else {
            selected
        },
        MoveDirection::Right => if col < cols - 1 && selected + 1 < count {
            selected + 1
        } else {
            selected
        },
    }
}

/// Move the focus one pane in the given direction, clamped at the grid
/// edges: a move that would leave the grid, or land past the last pane,
/// leaves the focus where it is.
pub fn move_selection(app: &mut AppState, direction: MoveDirection)
    requires
        old(app).wf(),
    ensures
        final(app).wf(),
        final(app).window_count == old(app).window_count,
        final(app).is_maximized == old(app).is_maximized,
        final(app).selected_window == spec_move_selection(
            old(app).selected_window as int,
            old(app).window_count as int,
            direction,
        ),
{
    let count = app.window_count;
    let (rows, cols) = grid_dims(count);
    let row = app.selected_window / cols;
    let col = app.selected_window % cols;
    proof {
        lemma_fundamental_div_mod(app.selected_window as int, cols as int);
        lemma_div_pos_is_pos(app.selected_window as int, cols as int);
        if row >= 1 {
            lemma_mul_inequality(1, row as int, cols as int);
            assert(cols as int * row as int == row as int * cols as int) by (nonlinear_arith);
        }
    }
    match direction {
        MoveDirection::Up => {
            if row > 0 {
                app.selected_window = app.selected_window - cols;
            }
        },
        MoveDirection::Down => {
            if cols <= count - 1 && app.selected_window < count - cols {
                app.selected_window = app.selected_window + cols;
            } else {
                proof {
                    assert(app.selected_window as int + cols as int >= count as int);
                }
            }
        },
        MoveDirection::Left => {
            if col > 0 {
                app.selected_window = app.selected_window - 1;
            }
        },
        MoveDirection::Right => {
            if col < cols - 1 && app.selected_window < count - 1 {
                app.selected_window = app.selected_window + 1;
            }
        },
    }
}

/// Dispatch one key. Directional keys scroll the maximized pane or move the
/// grid selection; toggling maximize flips the flag and asks the caller to
/// snap the focused pane to its tail; no key touches any source's ingestion.
pub fn on_key(app: &mut AppState, key: KeyEvent) -> (action: UiAction)
    requires
        old(app).wf(),
    ensures
        final(app).wf(),
        final(app).window_count == old(app).window_count,
        match key {
            KeyEvent::Quit => *final(app) == *old(app) && action == UiAction::Exit,
            KeyEvent::ToggleMaximize => final(app).is_maximized == !old(app).is_maximized
                && final(app).selected_window == old(app).selected_window && action
                == UiAction::SnapToTail,
            KeyEvent::Up => dispatched_direction(
                *old(app),
                *final(app),
                action,
                ScrollDirection::Up,
                Some(MoveDirection::Up),
            ),
            KeyEvent::Down => dispatched_direction(
                *old(app),
                *final(app),
                action,
                ScrollDirection::Down,
                Some(MoveDirection::Down),
            ),
            KeyEvent::Left => dispatched_left_right(
                *old(app),
                *final(app),
                action,
                MoveDirection::Left,
            ),
            KeyEvent::Right => dispatched_left_right(
                *old(app),
                *final(app),
                action,
                MoveDirection::Right,
            ),
            KeyEvent::PageUp => dispatched_direction(
                *old(app),
                *final(app),
                action,
                ScrollDirection::PageUp,
                None,
            ),
            KeyEvent::PageDown => dispatched_direction(
                *old(app),
                *final(app),
                action,
                ScrollDirection::PageDown,
                None,
            ),
            KeyEvent::Home => dispatched_direction(
                *old(app),
                *final(app),
                action,
                ScrollDirection::Top,
                None,
            ),
            KeyEvent::End => dispatched_direction(
                *old(app),
                *final(app),
                action,
                ScrollDirection::Bottom,
                None,
            ),
            KeyEvent::ClearHistory => *final(app) == *old(app) && action == UiAction::Clear,
            KeyEvent::Other => *final(app) == *old(app) && action == UiAction::DoNothing,
        },
{
    match key {
        KeyEvent::Quit => UiAction::Exit,
        KeyEvent::ToggleMaximize => {
            app.is_maximized = !app.is_maximized;
            UiAction::SnapToTail
        },
        KeyEvent::Up => {
            if app.is_maximized {
                UiAction::Scroll(ScrollDirection::Up)
            } else {
                move_selection(app, MoveDirection::Up);
                UiAction::DoNothing
            }
        },
        KeyEvent::Down => {
            if app.is_maximized {
                UiAction::Scroll(ScrollDirection::Down)
            } else {
                move_selection(app, MoveDirection::Down);
                UiAction::DoNothing
            }
        },
        KeyEvent::Left => {
            if app.is_maximized {
                UiAction::DoNothing
            } else {
                move_selection(app, MoveDirection::Left);
                UiAction::DoNothing
            }
        },
        KeyEvent::Right => {
            if app.is_maximized {
                UiAction::DoNothing
            } else {
                move_selection(app, MoveDirection::Right);
                UiAction::DoNothing
            }
        },
        KeyEvent::PageUp => {
            if app.is_maximized {
                UiAction::Scroll(ScrollDirection::PageUp)
            } else {
                UiAction::DoNothing
            }
        },
        KeyEvent::PageDown => {
            if app.is_maximized {
                UiAction::Scroll(ScrollDirection::PageDown)
            } else {
                UiAction::DoNothing
            }
        },
        KeyEvent::Home => {
            if app.is_maximized {
                UiAction::Scroll(ScrollDirection::Top)
            } else {
                UiAction::DoNothing
            }
        },
        KeyEvent::End => {
            if app.is_maximized {
                UiAction::Scroll(ScrollDirection::Bottom)
            } else {
                UiAction::DoNothing
            }
        },
        KeyEvent::ClearHistory => UiAction::Clear,
        KeyEvent::Other => UiAction::DoNothing,
    }
}

/// How a directional key lands: a scroll command on the maximized pane, or a
/// selection move in the grid (`None` for keys that move no selection).
pub open spec fn dispatched_direction(
    pre: AppState,
    post: AppState,
    action: UiAction,
    scroll: ScrollDirection,
    mv: Option<MoveDirection>,
) -> bool {
    if pre.is_maximized {
        post == pre && action == UiAction::Scroll(scroll)
    } else {
        action == UiAction::DoNothing && post.is_maximized == pre.is_maximized && match mv {
            Some(d) => post.selected_window == spec_move_selection(
                pre.selected_window as int,
                pre.window_count as int,
                d,
            ),
            None => post == pre,
        }
    }
}

/// Left and right keys scroll nothing: maximized they do nothing at all,
/// otherwise they move the selection.
pub open spec fn dispatched_left_right(
    pre: AppState,
    post: AppState,
    action: UiAction,
    mv: MoveDirection,
) -> bool {
    action == UiAction::DoNothing && if pre.is_maximized {
        post == pre
    } else {
        post.is_maximized == pre.is_maximized && post.selected_window == spec_move_selection(
            pre.selected_window as int,
            pre.window_count as int,
            mv,
        )
    }
}

/// Empty the focused pane's history and scroll back to the top; the pane
/// leaves manual-scroll mode.
pub fn clear_history(content: &mut HistoryBuffer, viewport: &mut ViewportState)
    ensures
        final(content)@ == Seq::<Seq<char>>::empty(),
        final(content).max_hist() == old(content).max_hist(),
        final(content).wf(),
        final(viewport).scroll_position == 0,
        !final(viewport).has_user_scrolled,
{
    content.clear();
    viewport.scroll_position = 0;
    viewport.has_user_scrolled = false;
}

/// Leave manual-scroll mode and point the viewport at the last line.
pub fn snap_to_tail(viewport: &mut ViewportState, content_len: usize)
    ensures
        !final(viewport).has_user_scrolled,
        final(viewport).scroll_position == crate::session::tail_position(content_len as nat),
{
    viewport.has_user_scrolled = false;
    viewport.scroll_position = content_len.saturating_sub(1);
}

/// The border style of a pane: the focused pane is set apart.
pub fn border_style(is_selected: bool) -> (r: StyleKind)
    ensures
        r == if is_selected {
            StyleKind::Yellow
        } else {
            StyleKind::White
        },
{
    if is_selected {
        StyleKind::Yellow
    } else {
        StyleKind::White
    }
}

/// The digit character of one decimal place.
pub open spec fn digit_char(d: nat) -> char {
    if d == 0 {
        '0'
    } else if d == 1 {
        '1'
    } else if d == 2 {
        '2'
    } else if d == 3 {
        '3'
    } else if d == 4 {
        '4'
    } else if d == 5 {
        '5'
    } else if d == 6 {
        '6'
    } else if d == 7 {
        '7'
    } else if d == 8 {
        '8'
    } else {
        '9'
    }
}

/// The decimal digits of `n`, most significant first.
pub open spec fn spec_decimal(n: nat) -> Seq<char>
    decreases n,
{
    if n < 10 {
        seq![digit_char(n)]
    } else {
        spec_decimal(n / 10).push(digit_char(n % 10))
    }
}

fn digit_str(d: usize) -> (r: &'static str)
    requires
        d < 10,
    ensures
        r@ == seq![digit_char(d as nat)],
{
    let r: &'static str = match d {
        0 => "0",
        1 => "1",
        2 => "2",
        3 => "3",
        4 => "4",
        5 => "5",
        6 => "6",
        7 => "7",
        8 => "8",
        _ => "9",
    };
    proof {
        reveal_strlit("0");
        reveal_strlit("1");
        reveal_strlit("2");
        reveal_strlit("3");
        reveal_strlit("4");
        reveal_strlit("5");
        reveal_strlit("6");
        reveal_strlit("7");
        reveal_strlit("8");
        reveal_strlit("9");
        assert(r@ =~= seq![digit_char(d as nat)]);
    }
    r
}

/// `n` written in decimal.
pub fn decimal_string(n: usize) -> (r: String)
    ensures
        r@ == spec_decimal(n as nat),
    decreases n,
{
    if n < 10 {
        let mut s = String::new();
        s.append(digit_str(n));
        s
    } else {
        let mut s = decimal_string(n / 10);
        s.append(digit_str(n % 10));
        proof {
            assert(s@ =~= spec_decimal((n / 10) as nat).push(digit_char((n % 10) as nat)));
        }
        s
    }
}

/// The title a pane shows: its source's name with the scroll indicator.
pub fn pane_title(name: &str, scroll_position: usize) -> (r: String)
    ensures
        r@ == name@ + " (Scroll: "@ + spec_decimal(scroll_position as nat) + ")"@,
{
    let mut s = String::from_str(name);
    s.append(" (Scroll: ");
    let digits = decimal_string(scroll_position);
    s.append(digits.as_str());
    s.append(")");
    s
}

/// Rows or columns left inside a pane border.
pub open spec fn inner_dim(n: nat) -> nat {
    if n >= 2 {
        (n - 2) as nat
    } else {
        0
    }
}

/// Every raw line wrapped at `width`, in order, flattened into one sequence
/// of displayed lines.
pub open spec fn wrapped_all(content: Seq<Seq<char>>, width: nat) -> Seq<Seq<char>>
    decreases content.len(),
{
    if content.len() == 0 {
        Seq::<Seq<char>>::empty()
    } else {
        flatten_each(wrap_spec(grapheme_split(content[0]), width)) + wrapped_all(
            content.skip(1),
            width,
        )
    }
}

/// The window of wrapped lines a pane shows: `height` lines from `scroll`.
pub open spec fn visible_slice(wrapped: Seq<Seq<char>>, scroll: int, height: int) -> Seq<Seq<char>> {
    let end = if scroll + height < wrapped.len() {
        scroll + height
    } else {
        wrapped.len() as int
    };
    wrapped.subrange(scroll, end)
}

/// Each visible line highlighted with the rule set.
pub open spec fn styled_lines(
    rules: Seq<(Seq<char>, StyleKind)>,
    lines: Seq<Seq<char>>,
) -> Seq<Seq<(Seq<char>, StyleKind)>> {
    lines.map_values(|l: Seq<char>| format_spec(rules, l))
}

pub broadcast proof fn lemma_styled_lines_index(
    rules: Seq<(Seq<char>, StyleKind)>,
    lines: Seq<Seq<char>>,
    i: int,
)
    requires
        0 <= i < lines.len(),
    ensures
        #[trigger] styled_lines(rules, lines)[i] == format_spec(rules, lines[i]),
{
}

/// The single red line an errored source shows.
pub open spec fn error_line(m: Seq<char>) -> Seq<(Seq<char>, StyleKind)> {
    seq![(m, StyleKind::Red)]
}

/// An error status is always visible: appended when there is room, else in
/// place of the last visible line.
pub open spec fn inject_status(
    lines: Seq<Seq<(Seq<char>, StyleKind)>>,
    status: ConnectionStatus,
    height: int,
) -> Seq<Seq<(Seq<char>, StyleKind)>> {
    match status {
        ConnectionStatus::Error(m) => if lines.len() < height {
            lines.push(error_line(m@))
        } else if height > 0 {
            lines.update(height - 1, error_line(m@))
        } else {
            lines
        },
        _ => lines,
    }
}

/// What a pane shows: its history wrapped at the inner width, the visible
/// window at the reconciled scroll position, each line highlighted, and an
/// error status forced into view.
pub open spec fn compose_spec(
    content: Seq<Seq<char>>,
    rules: Seq<(Seq<char>, StyleKind)>,
    status: ConnectionStatus,
    width: nat,
    height: nat,
    scroll: int,
) -> Seq<Seq<(Seq<char>, StyleKind)>> {
    inject_status(
        styled_lines(rules, visible_slice(wrapped_all(content, width), scroll, height as int)),
        status,
        height as int,
    )
}

/// The views of composed pane lines.
pub open spec fn pane_view(v: Seq<Vec<Segment>>) -> Seq<Seq<(Seq<char>, StyleKind)>> {
    v.map_values(|l: Vec<Segment>| segs_view(l@))
}

pub broadcast proof fn lemma_pane_view_index(v: Seq<Vec<Segment>>, i: int)
    requires
        0 <= i < v.len(),
    ensures
        #[trigger] pane_view(v)[i] == segs_view(v[i]@),
{
}

proof fn lemma_pane_view_push(v: Seq<Vec<Segment>>, l: Vec<Segment>)
    ensures
        pane_view(v.push(l)) == pane_view(v).push(segs_view(l@)),
{
    assert forall|i: int|
        0 <= i < v.push(l).len() implies pane_view(v.push(l))[i] == pane_view(v).push(
        segs_view(l@),
    )[i] by {
        lemma_pane_view_index(v.push(l), i);
        if i < v.len() {
            lemma_pane_view_index(v, i);
        }
    };
    assert(pane_view(v.push(l)) =~= pane_view(v).push(segs_view(l@)));
}

/// Appending one raw line to the history appends its wrapping.
proof fn lemma_wrapped_all_snoc(a: Seq<Seq<char>>, ab: Seq<Seq<char>>, width: nat)
    requires
        a.len() + 1 == ab.len(),
        a == ab.drop_last(),
    ensures
        wrapped_all(ab, width) == wrapped_all(a, width) + flatten_each(
            wrap_spec(grapheme_split(ab.last()), width),
        ),
    decreases a.len(),
{
    let last = ab.last();
    if a.len() == 0 {
        let e = Seq::<Seq<char>>::empty();
        assert(ab.skip(1) =~= e);
        assert(wrapped_all(e, width) == Seq::<Seq<char>>::empty());
        assert(ab[0] == last);
        assert(wrapped_all(ab, width) =~= wrapped_all(a, width) + flatten_each(
            wrap_spec(grapheme_split(last), width),
        ));
    } else {
        assert(a.skip(1) =~= ab.skip(1).drop_last());
        lemma_wrapped_all_snoc(a.skip(1), ab.skip(1), width);
        assert(ab.skip(1).last() == last);
        assert(a[0] == ab[0]);
        assert(wrapped_all(ab, width) =~= wrapped_all(a, width) + flatten_each(
            wrap_spec(grapheme_split(last), width),
        ));
    }
}

/// Wrap every history line at `width`, in order, into one flat list of
/// displayed lines.
fn wrap_all_lines(content: &HistoryBuffer, width: usize) -> (r: Vec<String>)
    ensures
        views_of(r@) == wrapped_all(content@, width as nat),
{
    let mut wrapped: Vec<String> = Vec::new();
    let mut i: usize = 0;
    proof {
        assert(content@.take(0) =~= Seq::<Seq<char>>::empty());
        assert(views_of(wrapped@) =~= wrapped_all(content@.take(0), width as nat));
    }
    while i < content.len()
        invariant
            i <= content@.len(),
            views_of(wrapped@) == wrapped_all(content@.take(i as int), width as nat),
        decreases content@.len() - i,
    {
        let mut sub = wrap_line(content.line_at(i).as_str(), width);
        let ghost prev = wrapped@;
        let ghost sub_snap = sub@;
        wrapped.append(&mut sub);
        proof {
            assert(content@.take(i as int) =~= content@.take(i + 1).drop_last());
            lemma_wrapped_all_snoc(content@.take(i as int), content@.take(i + 1), width as nat);
            assert(content@.take(i + 1).last() == content@[i as int]);
            assert forall|j: int|
                0 <= j < wrapped@.len() implies views_of(wrapped@)[j] == (views_of(prev)
                + views_of(sub_snap))[j] by {
                crate::wrap::lemma_views_of_index(wrapped@, j);
                if j < prev.len() {
                    crate::wrap::lemma_views_of_index(prev, j);
                } else {
                    crate::wrap::lemma_views_of_index(sub_snap, j - prev.len());
                }
            };
            assert(views_of(wrapped@) =~= views_of(prev) + views_of(sub_snap));
        }
        i = i + 1;
    }
    proof {
        assert(content@.take(content@.len() as int) =~= content@);
    }
    wrapped
}

/// How many wrapped lines the history yields at the pane's inner width: the
/// total that navigation commands must be clamped against.
pub fn wrapped_total(content: &HistoryBuffer, width: usize) -> (total: usize)
    ensures
        total == wrapped_all(content@, width as nat).len(),
{
    let wrapped = wrap_all_lines(content, width);
    proof {
        assert(views_of(wrapped@).len() == wrapped@.len());
    }
    wrapped.len()
}

/// Compose what one pane shows this frame, reconciling its scroll position
/// with the current content on the way (auto-follow, or clamping a manual
/// position).
pub fn compose_pane(
    content: &HistoryBuffer,
    viewport: &mut ViewportState,
    formatter: &LogFormatter,
    status: &ConnectionStatus,
    area_width: usize,
    area_height: usize,
) -> (lines: Vec<Vec<Segment>>)
    ensures
        ({
            let width = inner_dim(area_width as nat);
            let height = inner_dim(area_height as nat);
            let total = wrapped_all(content@, width).len();
            &&& final(viewport).has_user_scrolled == old(viewport).has_user_scrolled
            &&& (!old(viewport).has_user_scrolled ==> final(viewport).scroll_position
                == scroll_limit(total, height))
            &&& (old(viewport).has_user_scrolled ==> final(viewport).scroll_position == if old(
                viewport,
            ).scroll_position > scroll_limit(total, height) {
                scroll_limit(total, height)
            } else {
                old(viewport).scroll_position as nat
            })
            &&& pane_view(lines@) == compose_spec(
                content@,
                formatter@,
                *status,
                width,
                height,
                final(viewport).scroll_position as int,
            )
        }),
{
    let inner_width = area_width.saturating_sub(2);
    let inner_height = area_height.saturating_sub(2);
    let ghost width = inner_width as nat;

    // Wrap the whole history at the pane's inner width.
    let wrapped = wrap_all_lines(content, inner_width);
    let ghost all_wrapped = wrapped_all(content@, width);

    // Reconcile the scroll position with the current wrapped total.
    let total = wrapped.len();
    proof {
        assert(views_of(wrapped@).len() == wrapped@.len());
    }
    viewport.recompute(total, inner_height);
    let start = viewport.scroll_position;
    let end = if total < start.saturating_add(inner_height) {
        total
    } else {
        start.saturating_add(inner_height)
    };
    let ghost vis = visible_slice(all_wrapped, start as int, inner_height as int);

    // Highlight the visible window.
    let mut styled: Vec<Vec<Segment>> = Vec::new();
    let mut k: usize = start;
    proof {
        assert(end as int == if start + inner_height < all_wrapped.len() {
            start + inner_height
        } else {
            all_wrapped.len() as int
        });
        assert(vis.take(0) =~= Seq::<Seq<char>>::empty());
        assert(pane_view(styled@) =~= styled_lines(formatter@, vis.take(0)));
    }
    while k < end
        invariant
            start <= k <= end <= wrapped@.len(),
            views_of(wrapped@) == all_wrapped,
            vis == visible_slice(all_wrapped, start as int, inner_height as int),
            end as int == start + vis.len(),
            pane_view(styled@) == styled_lines(formatter@, vis.take(k - start)),
        decreases end - k,
    {
        let line = formatter.format_line(wrapped[k].as_str());
        let ghost prev = styled@;
        styled.push(line);
        proof {
            crate::wrap::lemma_views_of_index(wrapped@, k as int);
            assert(vis[k - start] == all_wrapped[k as int]);
            lemma_pane_view_push(prev, styled@.last());
            assert forall|j: int|
                0 <= j < styled@.len() implies pane_view(styled@)[j] == styled_lines(
                formatter@,
                vis.take(k - start + 1),
            )[j] by {
                lemma_pane_view_index(styled@, j);
                lemma_styled_lines_index(formatter@, vis.take(k - start + 1), j);
                if j < prev.len() {
                    lemma_pane_view_index(prev, j);
                    lemma_styled_lines_index(formatter@, vis.take(k - start), j);
                }
            };
            assert(pane_view(styled@) =~= styled_lines(formatter@, vis.take(k - start + 1)));
        }
        k = k + 1;
    }
    proof {
        assert(vis.take(end - start) =~= vis);
    }

    // An error status must stay visible wherever the pane is scrolled.
    match status {
        ConnectionStatus::Error(m) => {
            let mut ev: Vec<Segment> = Vec::new();
            ev.push(Segment { text: m.clone(), style: StyleKind::Red });
            proof {
                assert(segs_view(ev@) =~= error_line(m@)) by {
                    crate::highlight::lemma_segs_view_index(ev@, 0);
                };
            }
            if styled.len() < inner_height {
                let ghost prev = styled@;
                styled.push(ev);
                proof {
                    lemma_pane_view_push(prev, styled@.last());
                }
            } else if inner_height > 0 {
                let ghost prev = styled@;
                styled.pop();
                styled.push(ev);
                proof {
                    lemma_pane_view_push(prev.drop_last(), styled@.last());
                    assert forall|j: int|
                        0 <= j < prev.drop_last().len() implies pane_view(prev.drop_last())[j]
                        == pane_view(prev)[j] by {
                        lemma_pane_view_index(prev.drop_last(), j);
                        lemma_pane_view_index(prev, j);
                    };
                    assert(pane_view(prev.drop_last()) =~= pane_view(prev).drop_last());
                    assert(pane_view(styled@) =~= pane_view(prev).update(
                        inner_height - 1,
                        error_line(m@),
                    ));
                }
            }
        },
        _ => {},
    }
    styled
}

} // verus!
