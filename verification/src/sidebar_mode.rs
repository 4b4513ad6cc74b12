//! Sidebar mode: the main area's layout beside the sidebar, the transcript drawn there,
//! and entering or leaving the mode as the terminal changes.

use vstd::prelude::*;

use crate::layout::{clamped_rect, rect_new, sat_add, sat_sub, Rect};
use crate::sidebar::{sidebar_active, ChatWidget, ChatWidgetView, SIDEBAR_MAIN_GAP};

verus! {

/// The transcript area and the bottom pane's area within the main area: the bottom pane
/// gets the height it asks for (at most the whole area), the transcript what is left
/// less one row of gap when the bottom pane leaves room for it.
pub open spec fn main_layout(area: Rect, bottom_desired_height: u16) -> (Rect, Rect) {
    if area.width == 0 || area.height == 0 {
        (Rect { x: 0, y: 0, width: 0, height: 0 }, Rect { x: 0, y: 0, width: 0, height: 0 })
    } else {
        let bottom_height = if bottom_desired_height < area.height {
            bottom_desired_height
        } else {
            area.height
        };
        let gap: u16 = if bottom_height < area.height {
            SIDEBAR_MAIN_GAP
        } else {
            0
        };
        let transcript_height = sat_sub(sat_sub(area.height, bottom_height), gap);
        let bottom_y = sat_add(sat_add(area.y, transcript_height), gap);
        (
            clamped_rect(area.x, area.y, area.width, transcript_height),
            clamped_rect(
                area.x,
                bottom_y,
                area.width,
                sat_sub(sat_sub(area.height, transcript_height), gap),
            ),
        )
    }
}

/// An area, unless it is empty.
pub open spec fn non_empty(r: Rect) -> Option<Rect> {
    if r.width == 0 || r.height == 0 {
        None
    } else {
        Some(r)
    }
}

/// Rows to scroll a transcript of `line_count` wrapped lines so that its end shows in
/// `height` rows.
pub open spec fn transcript_scroll_rows(line_count: usize, height: u16) -> u16 {
    if height == 0 || line_count <= height {
        0
    } else if line_count - height > u16::MAX {
        u16::MAX
    } else {
        (line_count - height) as u16
    }
}

/// Rows to scroll the transcript so that its end shows.
pub fn sidebar_transcript_scroll(line_count: usize, height: u16) -> (r: u16)
    ensures
        r == transcript_scroll_rows(line_count, height),
{
    if height == 0 {
        return 0;
    }
    let scroll = line_count.saturating_sub(height as usize);
    if scroll > 65535 {
        65535
    } else {
        scroll as u16
    }
}

/// What the transcript shows of a history cell.
pub struct TranscriptCellInfo {
    /// The cell continues the stream of the cell before it.
    pub is_stream_continuation: bool,
    /// Lines the cell has in the transcript.
    pub line_count: usize,
}

/// A piece of the sidebar transcript.
#[derive(Clone, Copy, Debug, PartialEq, Eq, Structural)]
pub enum TranscriptPiece {
    /// An empty line between cells.
    Blank,
    /// The lines of the history cell at this index.
    Cell(usize),
    /// The lines of the active cell.
    Active,
}

/// The pieces for the history cells: each cell's lines, with an empty line before each
/// cell but the first that does not continue a stream.
pub open spec fn cell_pieces(cells: Seq<TranscriptCellInfo>) -> Seq<TranscriptPiece>
    decreases cells.len(),
{
    if cells.len() == 0 {
        Seq::empty()
    } else {
        let i = cells.len() - 1;
        let before = cell_pieces(cells.drop_last());
        let with_gap = if i > 0 && !cells.last().is_stream_continuation {
            before.push(TranscriptPiece::Blank)
        } else {
            before
        };
        with_gap.push(TranscriptPiece::Cell(i as usize))
    }
}

/// The history cells give the transcript at least one line.
pub open spec fn cells_have_lines(cells: Seq<TranscriptCellInfo>) -> bool {
    exists|i: int|
        0 <= i < cells.len() && ((i > 0 && !(#[trigger] cells[i]).is_stream_continuation)
            || cells[i].line_count > 0)
}

/// The transcript's pieces: the history cells, then the active cell's lines when it has
/// some, after an empty line when the active cell does not continue a stream and
/// something came before.
pub open spec fn transcript_pieces(
    cells: Seq<TranscriptCellInfo>,
    active_line_count: Option<usize>,
    active_is_stream_continuation: Option<bool>,
) -> Seq<TranscriptPiece> {
    let base = cell_pieces(cells);
    if active_line_count matches Some(n) && n > 0 {
        if active_is_stream_continuation == Some(false) && cells_have_lines(cells) {
            base.push(TranscriptPiece::Blank).push(TranscriptPiece::Active)
        } else {
            base.push(TranscriptPiece::Active)
        }
    } else {
        base
    }
}

/// Whether the app draws the full-screen sidebar mode, and what changed.
#[derive(Clone, Copy, Debug, PartialEq, Eq, Structural)]
pub enum SidebarModeTransition {
    /// Nothing to do.
    Unchanged,
    /// Enter the alternate screen, then schedule a frame.
    EnterAltScreen,
    /// Leave the alternate screen, clear the terminal UI, render the transcript once,
    /// then schedule a frame.
    LeaveAltScreen,
}

/// The application state that sidebar mode depends on.
pub struct App {
    pub chat_widget: ChatWidget,
    /// An overlay (such as the transcript pager) is open.
    pub overlay_active: bool,
    /// Sidebar mode is on.
    pub sidebar_mode_active: bool,
}

/// Sidebar mode after the terminal is `terminal_width` columns wide, and what to do:
/// under an overlay the mode can only turn on, silently; else it follows whether the
/// sidebar shows.
pub open spec fn sidebar_mode_sync(
    chat: ChatWidgetView,
    overlay_active: bool,
    mode_active: bool,
    terminal_width: u16,
) -> (bool, SidebarModeTransition) {
    let should = sidebar_active(chat, terminal_width as int);
    if overlay_active {
        (mode_active || should, SidebarModeTransition::Unchanged)
    } else if should == mode_active {
        (mode_active, SidebarModeTransition::Unchanged)
    } else if should {
        (true, SidebarModeTransition::EnterAltScreen)
    } else {
        (false, SidebarModeTransition::LeaveAltScreen)
    }
}

impl App {
    /// Brings sidebar mode in line with a terminal `terminal_width` columns wide.
    pub fn sync_sidebar_mode(&mut self, terminal_width: u16) -> (t: SidebarModeTransition)
        ensures
            final(self).chat_widget@ == old(self).chat_widget@,
            final(self).overlay_active == old(self).overlay_active,
            (final(self).sidebar_mode_active, t) == sidebar_mode_sync(
                old(self).chat_widget@,
                old(self).overlay_active,
                old(self).sidebar_mode_active,
                terminal_width,
            ),
    {
        let should_activate = self.chat_widget.sidebar_mode_active_for_terminal(terminal_width);
        if self.overlay_active {
            if should_activate {
                self.sidebar_mode_active = true;
            }
            return SidebarModeTransition::Unchanged;
        }
        if should_activate == self.sidebar_mode_active {
            return SidebarModeTransition::Unchanged;
        }
        self.sidebar_mode_active = should_activate;
        if should_activate {
            SidebarModeTransition::EnterAltScreen
        } else {
            SidebarModeTransition::LeaveAltScreen
        }
    }
}

impl ChatWidget {
    /// The transcript area and the bottom pane's area within the main `area`, for a
    /// bottom pane that asks for `bottom_desired_height` rows.
    pub fn sidebar_main_layout(&self, area: Rect, bottom_desired_height: u16) -> (r: (Rect, Rect))
        ensures
            r == main_layout(area, bottom_desired_height),
    {
        if area.is_empty() {
            return (Rect::zero(), Rect::zero());
        }
        let bottom_height = if bottom_desired_height < area.height {
            bottom_desired_height
        } else {
            area.height
        };
        let gap = if bottom_height < area.height {
            SIDEBAR_MAIN_GAP
        } else {
            0
        };
        let transcript_height = area.height.saturating_sub(bottom_height).saturating_sub(gap);
        let transcript_area = rect_new(area.x, area.y, area.width, transcript_height);
        let bottom_y = area.y.saturating_add(transcript_height).saturating_add(gap);
        let bottom_area = rect_new(
            area.x,
            bottom_y,
            area.width,
            area.height.saturating_sub(transcript_height).saturating_sub(gap),
        );
        (transcript_area, bottom_area)
    }

    /// The areas to draw the transcript and the bottom pane in, each absent when empty.
    pub fn sidebar_main_areas(&self, area: Rect, bottom_desired_height: u16) -> (r: (
        Option<Rect>,
        Option<Rect>,
    ))
        ensures
            area.width == 0 || area.height == 0 ==> r == (None::<Rect>, None::<Rect>),
            !(area.width == 0 || area.height == 0) ==> r == (
                non_empty(main_layout(area, bottom_desired_height).0),
                non_empty(main_layout(area, bottom_desired_height).1),
            ),
    {
        if area.is_empty() {
            return (None, None);
        }
        let (transcript_area, bottom_area) = self.sidebar_main_layout(area, bottom_desired_height);
        let transcript = if transcript_area.is_empty() {
            None
        } else {
            Some(transcript_area)
        };
        let bottom = if bottom_area.is_empty() {
            None
        } else {
            Some(bottom_area)
        };
        (transcript, bottom)
    }

    /// The pieces of the sidebar transcript, for history cells `cells` and an active
    /// cell with `active_line_count` lines (absent when it shows none) that continues a
    /// stream or not (absent when there is no active cell).
    pub fn sidebar_transcript_lines(
        &self,
        cells: &[TranscriptCellInfo],
        active_line_count: Option<usize>,
        active_is_stream_continuation: Option<bool>,
    ) -> (r: Vec<TranscriptPiece>)
        ensures
            r@ == transcript_pieces(cells@, active_line_count, active_is_stream_continuation),
    {
        let mut pieces: Vec<TranscriptPiece> = Vec::new();
        let mut any_lines = false;
        let mut index: usize = 0;
        while index < cells.len()
            invariant
                index <= cells@.len(),
                pieces@ == cell_pieces(cells@.take(index as int)),
                any_lines == cells_have_lines(cells@.take(index as int)),
            decreases cells.len() - index,
        {
            let cell = &cells[index];
            let ghost t = cells@.take(index + 1);
            proof {
                assert(t.drop_last() =~= cells@.take(index as int));
                assert(t.last() == cells@[index as int]);
            }
            if index > 0 && !cell.is_stream_continuation {
                pieces.push(TranscriptPiece::Blank);
            }
            pieces.push(TranscriptPiece::Cell(index));
            let adds = (index > 0 && !cell.is_stream_continuation) || cell.line_count > 0;
            proof {
                if adds {
                    assert(t[index as int] == cells@[index as int]);
                } else if cells_have_lines(t) {
                    let i = choose|i: int|
                        0 <= i < t.len() && ((i > 0 && !(#[trigger] t[i]).is_stream_continuation)
                            || t[i].line_count > 0);
                    assert(t[i] == cells@.take(index as int)[i]);
                }
                if any_lines {
                    let i = choose|i: int|
                        0 <= i < index && ((i > 0 && !(
                        #[trigger] cells@.take(index as int)[i]).is_stream_continuation)
                            || cells@.take(index as int)[i].line_count > 0);
                    assert(t[i] == cells@.take(index as int)[i]);
                }
            }
            any_lines = any_lines || adds;
            index = index + 1;
        }
        proof {
            assert(cells@.take(index as int) =~= cells@);
        }
        if let Some(n) = active_line_count {
            if n > 0 {
                if active_is_stream_continuation == Some(false) && any_lines {
                    pieces.push(TranscriptPiece::Blank);
                }
                pieces.push(TranscriptPiece::Active);
            }
        }
        pieces
    }
}


/// In a non-empty main area the transcript sits on top and the bottom pane below it,
/// both full width: the bottom pane gets the rows it asks for (at most all), one row of
/// gap separates them when there is room, and together they fill the area's height.
pub proof fn law_main_layout_stacks(area: Rect, bottom_desired_height: u16)
    requires
        area.width > 0,
        area.height > 0,
        area.x + area.width <= u16::MAX,
        area.y + area.height <= u16::MAX,
    ensures
        ({
            let (t, b) = main_layout(area, bottom_desired_height);
            let gap = if b.height < area.height {
                SIDEBAR_MAIN_GAP
            } else {
                0
            };
            &&& t.x == area.x && b.x == area.x
            &&& t.width == area.width && b.width == area.width
            &&& t.y == area.y
            &&& b.y == t.y + t.height + gap
            &&& t.height + gap + b.height == area.height
            &&& b.height == (if bottom_desired_height < area.height {
                bottom_desired_height
            } else {
                area.height
            })
        }),
{
}

/// Bringing sidebar mode in line twice with the same terminal does nothing the second
/// time.
pub proof fn law_sidebar_mode_sync_settles(
    chat: ChatWidgetView,
    overlay_active: bool,
    mode_active: bool,
    terminal_width: u16,
)
    ensures
        ({
            let (after, _) = sidebar_mode_sync(chat, overlay_active, mode_active, terminal_width);
            &&& sidebar_mode_sync(chat, overlay_active, after, terminal_width) == (
                after,
                SidebarModeTransition::Unchanged,
            )
        }),
{
}

/// Without an overlay, sidebar mode is on exactly when the sidebar shows.
pub proof fn law_sidebar_mode_follows_sidebar(
    chat: ChatWidgetView,
    mode_active: bool,
    terminal_width: u16,
)
    ensures
        sidebar_mode_sync(chat, false, mode_active, terminal_width).0 == sidebar_active(
            chat,
            terminal_width as int,
        ),
{
}

} // verus!
