//! Per-source scroll state: auto-follow of the tail reconciled with
//! user-initiated manual scrolling, always clamped to the content.

use vstd::prelude::*;

verus! {

/// Scroll state of one pane. `scroll_position` is the index of the topmost
/// visible wrapped line; while `has_user_scrolled` is false the pane follows
/// the tail of its content.
#[derive(Clone, Copy, PartialEq, Eq, Structural, Debug)]
pub struct ViewportState {
    pub scroll_position: usize,
    pub has_user_scrolled: bool,
}

/// A navigation command on a maximized pane.
#[derive(Clone, Copy, PartialEq, Eq, Structural, Debug)]
pub enum ScrollDirection {
    Up,
    Down,
    PageUp,
    PageDown,
    Top,
    Bottom,
}

/// The highest admissible scroll position: `max(0, total - height)`.
pub open spec fn scroll_limit(total: nat, height: nat) -> nat {
    if total > height {
        (total - height) as nat
    } else {
        0
    }
}

/// The position a navigation command asks for, clamped to the limit.
pub open spec fn scroll_target(
    pos: nat,
    dir: ScrollDirection,
    total: nat,
    page_size: nat,
) -> nat {
    let limit = scroll_limit(total, page_size);
    let tentative = match dir {
        ScrollDirection::Up => if pos > 0 { (pos - 1) as nat } else { 0 },
        ScrollDirection::Down => pos + 1,
        ScrollDirection::PageUp => if pos > page_size { (pos - page_size) as nat } else { 0 },
        ScrollDirection::PageDown => pos + page_size,
        ScrollDirection::Top => 0,
        ScrollDirection::Bottom => limit,
    };
    if tentative > limit {
        limit
    } else {
        tentative
    }
}

impl ViewportState {
    pub fn new() -> (r: ViewportState)
        ensures
            r.scroll_position == 0,
            !r.has_user_scrolled,
    {
        ViewportState { scroll_position: 0, has_user_scrolled: false }
    }

    /// Frame-time reconciliation: in auto-follow mode the position snaps to
    /// the tail; in manual mode it is clamped to the admissible range.
    pub fn recompute(&mut self, total_wrapped_lines: usize, pane_height: usize)
        ensures
            final(self).has_user_scrolled == old(self).has_user_scrolled,
            !old(self).has_user_scrolled ==> final(self).scroll_position
                == scroll_limit(total_wrapped_lines as nat, pane_height as nat),
            old(self).has_user_scrolled ==> final(self).scroll_position == if old(self).scroll_position
                > scroll_limit(total_wrapped_lines as nat, pane_height as nat) {
                scroll_limit(total_wrapped_lines as nat, pane_height as nat)
            } else {
                old(self).scroll_position as nat
            },
            final(self).scroll_position <= scroll_limit(
                total_wrapped_lines as nat,
                pane_height as nat,
            ),
    {
        let limit = total_wrapped_lines.saturating_sub(pane_height);
        if !self.has_user_scrolled {
            self.scroll_position = limit;
        } else if self.scroll_position > limit {
            self.scroll_position = limit;
        }
    }

    /// Apply one navigation command. The resulting position is always clamped
    /// to `[0, max(0, total - page_size)]`; `has_user_scrolled` becomes true
    /// exactly when the position moved.
    pub fn scroll(&mut self, dir: ScrollDirection, total_lines: usize, page_size: usize)
        ensures
            final(self).scroll_position == scroll_target(
                old(self).scroll_position as nat,
                dir,
                total_lines as nat,
                page_size as nat,
            ),
            final(self).scroll_position <= scroll_limit(total_lines as nat, page_size as nat),
            final(self).has_user_scrolled == (old(self).has_user_scrolled
                || final(self).scroll_position != old(self).scroll_position),
    {
        let limit = total_lines.saturating_sub(page_size);
        let old_pos = self.scroll_position;
        let tentative = match dir {
            ScrollDirection::Up => old_pos.saturating_sub(1),
            ScrollDirection::Down => old_pos.saturating_add(1),
            ScrollDirection::PageUp => old_pos.saturating_sub(page_size),
            ScrollDirection::PageDown => old_pos.saturating_add(page_size),
            ScrollDirection::Top => 0,
            ScrollDirection::Bottom => limit,
        };
        self.scroll_position = if tentative > limit {
            limit
        } else {
            tentative
        };
        if self.scroll_position != old_pos {
            self.has_user_scrolled = true;
        }
    }
}

/// One step of `apply_scrolls`: the viewport after one command, with the
/// content size and page size that were current when the command arrived.
pub open spec fn scroll_step(v: ViewportState, cmd: (ScrollDirection, nat, nat)) -> ViewportState {
    let pos = scroll_target(v.scroll_position as nat, cmd.0, cmd.1, cmd.2);
    ViewportState {
        scroll_position: pos as usize,
        has_user_scrolled: v.has_user_scrolled || pos != v.scroll_position as nat,
    }
}

/// The viewport after a whole sequence of navigation commands.
pub open spec fn apply_scrolls(v: ViewportState, cmds: Seq<(ScrollDirection, nat, nat)>) -> ViewportState
    decreases cmds.len(),
{
    if cmds.len() == 0 {
        v
    } else {
        apply_scrolls(scroll_step(v, cmds[0]), cmds.skip(1))
    }
}

/// Clamping law: after any non-empty sequence of navigation commands the
/// scroll position lies in `[0, max(0, total - page_size)]` for the content
/// and page size of the last command.
pub proof fn lemma_scroll_clamped(v: ViewportState, cmds: Seq<(ScrollDirection, nat, nat)>)
    requires
        cmds.len() > 0,
    ensures
        apply_scrolls(v, cmds).scroll_position <= scroll_limit(
            cmds.last().1,
            cmds.last().2,
        ),
    decreases cmds.len(),
{
    if cmds.len() == 1 {
        let v1 = scroll_step(v, cmds[0]);
        assert(cmds.skip(1).len() == 0);
        assert(apply_scrolls(v1, cmds.skip(1)) == v1);
    } else {
        lemma_scroll_clamped(scroll_step(v, cmds[0]), cmds.skip(1));
        assert(cmds.skip(1).last() == cmds.last());
    }
}

} // verus!
