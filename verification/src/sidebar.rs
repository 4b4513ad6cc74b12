//! The chat widget's sidebar: when it shows, where it goes, what it lists, and when the
//! list of modified files is refreshed.

use vstd::prelude::*;

use crate::layout::{clamped_rect, left_bordered_block_inner, rect_new, sat_add, sat_sub, Rect};
use crate::modified_files::SidebarModifiedFile;
use crate::text::{
    decimal, decimal_chars, string_from_chars, truncate_text, truncated_text,
};

verus! {

/// Columns taken by the sidebar.
pub const SIDEBAR_WIDTH: u16 = 38;

/// Columns between the main area and the sidebar.
pub const SIDEBAR_GAP: u16 = 1;

/// Columns the main area keeps at least while the sidebar shows.
pub const SIDEBAR_MIN_MAIN_WIDTH: u16 = 90;

/// Milliseconds between two refreshes of the modified files.
pub const SIDEBAR_REFRESH_INTERVAL_MS: u64 = 5000;

/// Rows of modified files the sidebar lists at most.
pub const SIDEBAR_MAX_FILE_ROWS: usize = 8;

/// Rows between the transcript and the bottom pane in sidebar mode.
pub const SIDEBAR_MAIN_GAP: u16 = 1;

/// `Path == Path`: whether two paths have the same components.
pub uninterp spec fn same_path(a: Seq<char>, b: Seq<char>) -> bool;

/// `std::path::Path`'s `==`, which compares paths component by component; two equal
/// strings are the same path. Which other strings name the same path is left unsaid.
#[verifier::external_body]
fn paths_equal(a: &str, b: &str) -> (r: bool)
    ensures
        r == same_path(a@, b@),
        a@ == b@ ==> r,
{
    std::path::Path::new(a) == std::path::Path::new(b)
}

/// The sidebar's state in the chat widget.
pub struct ChatWidget {
    /// The user asked for the sidebar.
    pub sidebar_enabled: bool,
    /// The thread of the session, once there is one.
    pub thread_id: Option<String>,
    /// Width of the terminal at the last render.
    pub last_rendered_width: Option<usize>,
    /// Working directory of the session, when it moved away from the configured one.
    pub current_cwd: Option<String>,
    /// Working directory the session was configured with.
    pub config_cwd: String,
    /// The modified files last collected.
    pub sidebar_modified_files: Vec<SidebarModifiedFile>,
    /// The directory the modified files belong to.
    pub sidebar_modified_files_cwd: Option<String>,
    /// A collection of modified files is under way.
    pub sidebar_modified_files_pending: bool,
    /// When (in milliseconds of the caller's monotonic clock) the files were last
    /// collected.
    pub sidebar_modified_files_last_refresh: Option<u64>,
}

/// The characters of an optional `String`.
pub open spec fn string_option_view(o: Option<String>) -> Option<Seq<char>> {
    match o {
        Some(s) => Some(s@),
        None => None,
    }
}

/// The chat widget's sidebar state, with strings and vectors by value.
pub struct ChatWidgetView {
    pub sidebar_enabled: bool,
    pub thread_id: Option<Seq<char>>,
    pub last_rendered_width: Option<usize>,
    pub current_cwd: Option<Seq<char>>,
    pub config_cwd: Seq<char>,
    pub files: Seq<SidebarModifiedFile>,
    pub files_cwd: Option<Seq<char>>,
    pub pending: bool,
    pub last_refresh: Option<u64>,
}

impl View for ChatWidget {
    type V = ChatWidgetView;

    open spec fn view(&self) -> ChatWidgetView {
        ChatWidgetView {
            sidebar_enabled: self.sidebar_enabled,
            thread_id: string_option_view(self.thread_id),
            last_rendered_width: self.last_rendered_width,
            current_cwd: string_option_view(self.current_cwd),
            config_cwd: self.config_cwd@,
            files: self.sidebar_modified_files@,
            files_cwd: string_option_view(self.sidebar_modified_files_cwd),
            pending: self.sidebar_modified_files_pending,
            last_refresh: self.sidebar_modified_files_last_refresh,
        }
    }
}

/// Narrowest terminal in which the sidebar shows.
pub open spec fn min_terminal_width() -> int {
    SIDEBAR_MIN_MAIN_WIDTH + SIDEBAR_GAP + SIDEBAR_WIDTH
}

/// Columns left to the main content where the sidebar and its gap would fit.
pub open spec fn main_content_width(terminal_width: u16) -> int {
    if terminal_width >= min_terminal_width() {
        terminal_width - SIDEBAR_GAP - SIDEBAR_WIDTH
    } else {
        terminal_width as int
    }
}

/// The sidebar shows in a terminal `terminal_width` columns wide.
pub open spec fn sidebar_active(v: ChatWidgetView, terminal_width: int) -> bool {
    v.sidebar_enabled && v.thread_id is Some && terminal_width >= min_terminal_width()
}

/// The last rendered width, when it fits in `u16`.
pub open spec fn last_width_u16(v: ChatWidgetView) -> Option<u16> {
    match v.last_rendered_width {
        Some(w) => if w <= u16::MAX {
            Some(w as u16)
        } else {
            None
        },
        None => None,
    }
}

/// The directory whose modified files the sidebar lists.
pub open spec fn effective_cwd(v: ChatWidgetView) -> Seq<char> {
    match v.current_cwd {
        Some(c) => c,
        None => v.config_cwd,
    }
}

/// The listed files belong to `cwd`: their directory is `cwd`, or the same path.
pub open spec fn files_cwd_is(v: ChatWidgetView, cwd: Seq<char>) -> bool {
    v.files_cwd matches Some(p) && (p == cwd || same_path(p, cwd))
}

/// The state once the listed files are made to belong to `cwd`: unchanged when they
/// already do, else emptied, with nothing pending and no refresh time.
pub open spec fn synced_to_cwd(v: ChatWidgetView, cwd: Seq<char>) -> ChatWidgetView {
    if files_cwd_is(v, cwd) {
        v
    } else {
        ChatWidgetView {
            files: Seq::empty(),
            files_cwd: Some(cwd),
            pending: false,
            last_refresh: None,
            ..v
        }
    }
}

/// `Instant::elapsed` in milliseconds: zero when `now` is not after `earlier`.
pub open spec fn elapsed_ms(now: u64, earlier: u64) -> int {
    if now >= earlier {
        now - earlier
    } else {
        0
    }
}

/// What a request to refresh the modified files does at time `now`: the new state, and
/// the directory to collect the files of when a collection starts.
pub open spec fn refresh_request(v: ChatWidgetView, now: u64) -> (ChatWidgetView, Option<
    Seq<char>,
>) {
    match last_width_u16(v) {
        None => (v, None),
        Some(w) => if !sidebar_active(v, w as int) {
            (v, None)
        } else {
            let cwd = effective_cwd(v);
            let s = synced_to_cwd(v, cwd);
            if s.pending {
                (s, None)
            } else if s.last_refresh matches Some(l) && elapsed_ms(now, l)
                < SIDEBAR_REFRESH_INTERVAL_MS {
                (s, None)
            } else {
                (ChatWidgetView { pending: true, ..s }, Some(cwd))
            }
        },
    }
}

pub const SIDEBAR_START_SESSION_HINT: &'static str = "Start a session to populate the sidebar.";

pub const SIDEBAR_EXPAND_HINT_PREFIX: &'static str = "Expand the terminal to at least ";

pub const SIDEBAR_EXPAND_HINT_SUFFIX: &'static str = " columns to pin the sidebar.";

pub const SIDEBAR_ON_MESSAGE: &'static str = "Sidebar is on.";

pub const SIDEBAR_OFF_MESSAGE: &'static str = "Sidebar is off.";

pub const SIDEBAR_SHOWN_MESSAGE: &'static str = "Sidebar shown.";

pub const SIDEBAR_HIDDEN_MESSAGE: &'static str = "Sidebar hidden.";

/// Why the sidebar does not show though enabled: no session yet, or a terminal narrower
/// than the sidebar needs at the last render. Nothing is said before the first render.
pub open spec fn unavailable_hint(v: ChatWidgetView) -> Option<Seq<char>> {
    if v.thread_id is None {
        Some(SIDEBAR_START_SESSION_HINT@)
    } else {
        match last_width_u16(v) {
            None => None,
            Some(w) => if sidebar_active(v, w as int) {
                None
            } else {
                Some(
                    SIDEBAR_EXPAND_HINT_PREFIX@ + decimal(min_terminal_width() as nat)
                        + SIDEBAR_EXPAND_HINT_SUFFIX@,
                )
            },
        }
    }
}

/// The main area and, when the sidebar shows, the sidebar's area: the sidebar takes the
/// right-hand columns, one column of gap apart from the main area.
pub open spec fn split_areas(v: ChatWidgetView, area: Rect) -> (Rect, Option<Rect>) {
    if !sidebar_active(v, area.width as int) {
        (area, None)
    } else {
        let main_width = sat_sub(area.width, sat_add(SIDEBAR_WIDTH, SIDEBAR_GAP));
        let sidebar_x = sat_add(sat_add(area.x, main_width), SIDEBAR_GAP);
        (
            clamped_rect(area.x, area.y, main_width, area.height),
            Some(clamped_rect(sidebar_x, area.y, SIDEBAR_WIDTH, area.height)),
        )
    }
}

/// What the caller of a sidebar operation is to do next.
#[derive(Clone, Debug, PartialEq, Eq)]
pub struct SidebarEffects {
    /// Collect the modified files of this directory, then hand them to
    /// [`ChatWidget::set_sidebar_modified_files`].
    pub refresh_cwd: Option<String>,
    /// Draw the screen again.
    pub redraw: bool,
}

impl ChatWidget {
    /// Whether the user asked for the sidebar.
    pub fn sidebar_enabled(&self) -> (b: bool)
        ensures
            b == self.sidebar_enabled,
    {
        self.sidebar_enabled
    }

    /// Why the enabled sidebar does not show, if it does not.
    pub fn sidebar_unavailable_hint(&self) -> (r: Option<String>)
        ensures
            string_option_view(r) == unavailable_hint(self@),
    {
        if self.thread_id.is_none() {
            return Some(String::from_str(SIDEBAR_START_SESSION_HINT));
        }
        let terminal_width = match self.last_rendered_width {
            Some(width) => if width <= 65535 {
                width as u16
            } else {
                return None;
            },
            None => return None,
        };
        if self.sidebar_mode_active_for_terminal(terminal_width) {
            return None;
        }
        let digits = decimal_chars(Self::sidebar_min_terminal_width() as u64);
        let digits = string_from_chars(digits.as_slice());
        let mut hint = String::from_str(SIDEBAR_EXPAND_HINT_PREFIX);
        hint.append(digits.as_str());
        hint.append(SIDEBAR_EXPAND_HINT_SUFFIX);
        Some(hint)
    }

    /// The message about the sidebar's state, with a hint when it is on but not shown.
    pub fn sidebar_status_message(&self) -> (r: (String, Option<String>))
        ensures
            !self.sidebar_enabled ==> r.0@ == SIDEBAR_OFF_MESSAGE@ && r.1 is None,
            self.sidebar_enabled ==> r.0@ == SIDEBAR_ON_MESSAGE@ && string_option_view(r.1)
                == unavailable_hint(self@),
    {
        if !self.sidebar_enabled {
            return (String::from_str(SIDEBAR_OFF_MESSAGE), None);
        }
        let hint = self.sidebar_unavailable_hint();
        (String::from_str(SIDEBAR_ON_MESSAGE), hint)
    }

    /// The message after the sidebar was turned on or off, with a hint when turned on but
    /// not shown.
    pub fn sidebar_toggle_message(&self, enabled: bool) -> (r: (String, Option<String>))
        ensures
            !enabled ==> r.0@ == SIDEBAR_HIDDEN_MESSAGE@ && r.1 is None,
            enabled ==> r.0@ == SIDEBAR_SHOWN_MESSAGE@ && string_option_view(r.1)
                == unavailable_hint(self@),
    {
        if !enabled {
            return (String::from_str(SIDEBAR_HIDDEN_MESSAGE), None);
        }
        (String::from_str(SIDEBAR_SHOWN_MESSAGE), self.sidebar_unavailable_hint())
    }

    /// Splits `area` into the main area and, when the sidebar shows, the sidebar's area.
    pub fn split_main_and_sidebar(&self, area: Rect) -> (r: (Rect, Option<Rect>))
        ensures
            r == split_areas(self@, area),
    {
        if !self.sidebar_mode_active_for_terminal(area.width) {
            return (area, None);
        }
        let sidebar_width = SIDEBAR_WIDTH;
        let reserved = sidebar_width.saturating_add(SIDEBAR_GAP);
        let main_width = area.width.saturating_sub(reserved);
        let main_area = rect_new(area.x, area.y, main_width, area.height);
        let sidebar_x = area.x.saturating_add(main_width).saturating_add(SIDEBAR_GAP);
        let sidebar_area = rect_new(sidebar_x, area.y, sidebar_width, area.height);
        (main_area, Some(sidebar_area))
    }

    /// Records the terminal width of a render.
    pub fn note_rendered_width(&mut self, width: u16)
        ensures
            final(self)@ == (ChatWidgetView {
                last_rendered_width: Some(width as usize),
                ..old(self)@
            }),
    {
        self.last_rendered_width = Some(width as usize);
    }

    /// Narrowest terminal in which the sidebar shows.
    pub fn sidebar_min_terminal_width() -> (w: u16)
        ensures
            w == min_terminal_width(),
    {
        SIDEBAR_MIN_MAIN_WIDTH.saturating_add(SIDEBAR_GAP).saturating_add(SIDEBAR_WIDTH)
    }

    /// The sidebar's width in a terminal `terminal_width` columns wide, if it fits.
    pub fn sidebar_width_for_terminal(terminal_width: u16) -> (r: Option<u16>)
        ensures
            r == (if terminal_width >= min_terminal_width() {
                Some(SIDEBAR_WIDTH)
            } else {
                None::<u16>
            }),
    {
        if terminal_width >= Self::sidebar_min_terminal_width() {
            Some(SIDEBAR_WIDTH)
        } else {
            None
        }
    }

    /// Whether the sidebar shows in a terminal `terminal_width` columns wide: it is
    /// enabled, a session has started and the terminal is wide enough.
    pub fn sidebar_mode_active_for_terminal(&self, terminal_width: u16) -> (b: bool)
        ensures
            b == sidebar_active(self@, terminal_width as int),
    {
        self.sidebar_enabled && self.thread_id.is_some() && Self::sidebar_width_for_terminal(
            terminal_width,
        ).is_some()
    }

    /// Columns left to the main content in a terminal `terminal_width` columns wide,
    /// where the sidebar and its gap would fit.
    pub fn main_content_width_for_terminal(&self, terminal_width: u16) -> (w: u16)
        ensures
            w == main_content_width(terminal_width),
    {
        let reserved = match Self::sidebar_width_for_terminal(terminal_width) {
            Some(sidebar_width) => SIDEBAR_GAP.saturating_add(sidebar_width),
            None => 0,
        };
        terminal_width.saturating_sub(reserved)
    }

    /// Columns of main content at the last render.
    pub fn last_rendered_content_width(&self) -> (r: Option<usize>)
        ensures
            r == (match last_width_u16(self@) {
                Some(w) => Some(main_content_width(w) as usize),
                None => None::<usize>,
            }),
    {
        match self.last_rendered_width {
            Some(width) => if width <= 65535 {
                Some(self.main_content_width_for_terminal(width as u16) as usize)
            } else {
                None
            },
            None => None,
        }
    }

    /// The directory whose modified files the sidebar lists.
    pub fn sidebar_cwd(&self) -> (r: &str)
        ensures
            r@ == effective_cwd(self@),
    {
        match &self.current_cwd {
            Some(cwd) => cwd.as_str(),
            None => self.config_cwd.as_str(),
        }
    }

    /// Makes the listed files belong to `cwd`, dropping them when they belonged to
    /// another directory.
    pub fn sync_sidebar_modified_files_state(&mut self, cwd: &str)
        ensures
            final(self)@ == synced_to_cwd(old(self)@, cwd@),
    {
        let matches = match &self.sidebar_modified_files_cwd {
            Some(path) => paths_equal(path.as_str(), cwd),
            None => false,
        };
        if matches {
            return;
        }
        self.sidebar_modified_files_cwd = Some(cwd.to_owned());
        self.sidebar_modified_files.clear();
        self.sidebar_modified_files_pending = false;
        self.sidebar_modified_files_last_refresh = None;
    }

    /// Asks for the modified files to be collected again, at time `now_ms`: nothing is
    /// asked unless the sidebar shows at the last rendered width, no collection is under
    /// way and the last one is at least the refresh interval old. Returns the directory
    /// to collect the files of.
    pub fn request_sidebar_modified_files_refresh(&mut self, now_ms: u64) -> (r: Option<String>)
        ensures
            final(self)@ == refresh_request(old(self)@, now_ms).0,
            string_option_view(r) == refresh_request(old(self)@, now_ms).1,
    {
        let terminal_width = match self.last_rendered_width {
            Some(width) => if width <= 65535 {
                width as u16
            } else {
                return None;
            },
            None => return None,
        };
        if !self.sidebar_mode_active_for_terminal(terminal_width) {
            return None;
        }
        let cwd = self.sidebar_cwd().to_owned();
        self.sync_sidebar_modified_files_state(cwd.as_str());
        if self.sidebar_modified_files_pending {
            return None;
        }
        if let Some(last) = self.sidebar_modified_files_last_refresh {
            let elapsed = now_ms.saturating_sub(last);
            if elapsed < SIDEBAR_REFRESH_INTERVAL_MS {
                return None;
            }
        }
        self.sidebar_modified_files_pending = true;
        Some(cwd)
    }

    /// Turns the sidebar on or off at time `now_ms`. Turning it on asks for the modified
    /// files; any change asks for a redraw.
    pub fn set_sidebar_enabled(&mut self, enabled: bool, now_ms: u64) -> (e: SidebarEffects)
        ensures
            old(self).sidebar_enabled == enabled ==> final(self)@ == old(self)@
                && e.refresh_cwd is None && !e.redraw,
            old(self).sidebar_enabled != enabled && enabled ==> final(self)@ == refresh_request(
                ChatWidgetView { sidebar_enabled: true, ..old(self)@ },
                now_ms,
            ).0 && string_option_view(e.refresh_cwd) == refresh_request(
                ChatWidgetView { sidebar_enabled: true, ..old(self)@ },
                now_ms,
            ).1 && e.redraw,
            old(self).sidebar_enabled != enabled && !enabled ==> final(self)@
                == (ChatWidgetView { sidebar_enabled: false, ..old(self)@ })
                && e.refresh_cwd is None && e.redraw,
    {
        if self.sidebar_enabled == enabled {
            return SidebarEffects { refresh_cwd: None, redraw: false };
        }
        self.sidebar_enabled = enabled;
        let refresh_cwd = if enabled {
            self.request_sidebar_modified_files_refresh(now_ms)
        } else {
            None
        };
        SidebarEffects { refresh_cwd, redraw: true }
    }

    /// Takes the files collected for `cwd` at time `now_ms`; files of another directory
    /// than the listed one are dropped. Either way no collection is pending any more.
    /// Returns whether to redraw.
    pub fn set_sidebar_modified_files(
        &mut self,
        cwd: &str,
        files: Vec<SidebarModifiedFile>,
        now_ms: u64,
    ) -> (redraw: bool)
        ensures
            files_cwd_is(old(self)@, cwd@) ==> final(self)@ == (ChatWidgetView {
                files: files@,
                pending: false,
                last_refresh: Some(now_ms),
                ..old(self)@
            }) && redraw,
            !files_cwd_is(old(self)@, cwd@) ==> final(self)@ == (ChatWidgetView {
                pending: false,
                ..old(self)@
            }) && !redraw,
    {
        let matches = match &self.sidebar_modified_files_cwd {
            Some(path) => paths_equal(path.as_str(), cwd),
            None => false,
        };
        if !matches {
            self.sidebar_modified_files_pending = false;
            return false;
        }
        self.sidebar_modified_files = files;
        self.sidebar_modified_files_pending = false;
        self.sidebar_modified_files_last_refresh = Some(now_ms);
        true
    }
}


/// The area inside the sidebar's left border, less a margin of one cell on each side;
/// none when nothing is left to draw in.
pub open spec fn sidebar_content(area: Rect) -> Option<Rect> {
    if area.width == 0 || area.height == 0 {
        None
    } else {
        let inner_x = if sat_add(area.x, 1) < sat_add(area.x, area.width) {
            sat_add(area.x, 1)
        } else {
            sat_add(area.x, area.width)
        };
        let inner_width = sat_sub(area.width, 1);
        let c = clamped_rect(
            sat_add(inner_x, 1),
            sat_add(area.y, 1),
            sat_sub(inner_width, 2),
            sat_sub(area.height, 2),
        );
        if c.width == 0 || c.height == 0 {
            None
        } else {
            Some(c)
        }
    }
}

/// Where the sidebar's lines go within its area, if anywhere.
pub fn sidebar_content_area(area: Rect) -> (r: Option<Rect>)
    ensures
        r == sidebar_content(area),
{
    if area.is_empty() {
        return None;
    }
    let inner = left_bordered_block_inner(area);
    let content_area = rect_new(
        inner.x.saturating_add(1),
        inner.y.saturating_add(1),
        inner.width.saturating_sub(2),
        inner.height.saturating_sub(2),
    );
    if content_area.is_empty() {
        return None;
    }
    Some(content_area)
}

/// One line of the sidebar.
#[derive(Clone, Copy, Debug, PartialEq, Eq, Structural)]
pub enum SidebarRow {
    SessionTitle,
    Blank,
    ContextHeading,
    ContextTokens,
    ContextUsedPercent,
    Spent,
    LspHeading,
    LspNote,
    ModifiedFilesHeading,
    NoModifiedFiles,
    /// The modified file at this index.
    File(usize),
    /// This many more files are not listed.
    MoreFiles(usize),
}

/// The lines the sidebar always starts with.
pub open spec fn sidebar_header_rows() -> Seq<SidebarRow> {
    seq![
        SidebarRow::SessionTitle,
        SidebarRow::Blank,
        SidebarRow::ContextHeading,
        SidebarRow::ContextTokens,
        SidebarRow::ContextUsedPercent,
        SidebarRow::Spent,
        SidebarRow::Blank,
        SidebarRow::LspHeading,
        SidebarRow::LspNote,
        SidebarRow::Blank,
        SidebarRow::ModifiedFilesHeading,
    ]
}

/// How many files the sidebar lists when `max_height` rows are available after a header
/// of `header` rows: at most the room left and at most the row limit, one row fewer
/// when some files do not fit, so that a "more files" row fits.
pub open spec fn visible_file_rows(max_height: nat, header: nat, file_count: nat) -> nat {
    let remaining = (max_height - header) as nat;
    let max_file_rows = if remaining < SIDEBAR_MAX_FILE_ROWS {
        remaining
    } else {
        SIDEBAR_MAX_FILE_ROWS as nat
    };
    let visible = if max_file_rows < file_count {
        max_file_rows
    } else {
        file_count
    };
    if file_count > visible && visible > 0 {
        (visible - 1) as nat
    } else {
        visible
    }
}

/// The sidebar's lines for `max_height` rows and `file_count` modified files.
pub open spec fn sidebar_rows(max_height: nat, file_count: nat) -> Seq<SidebarRow> {
    let header = sidebar_header_rows();
    if max_height <= header.len() {
        header
    } else if file_count == 0 {
        header.push(SidebarRow::NoModifiedFiles)
    } else {
        let visible = visible_file_rows(max_height, header.len(), file_count);
        let hidden = (file_count - visible) as nat;
        let files = Seq::new(visible, |i: int| SidebarRow::File(i as usize));
        if hidden > 0 {
            header + files.push(SidebarRow::MoreFiles(hidden as usize))
        } else {
            header + files
        }
    }
}

impl ChatWidget {
    /// The lines of the sidebar when `max_height` rows are available.
    pub fn sidebar_lines(&self, max_height: usize) -> (r: Vec<SidebarRow>)
        ensures
            r@ == sidebar_rows(max_height as nat, self.sidebar_modified_files@.len()),
    {
        let mut lines: Vec<SidebarRow> = vec![
            SidebarRow::SessionTitle,
            SidebarRow::Blank,
            SidebarRow::ContextHeading,
            SidebarRow::ContextTokens,
            SidebarRow::ContextUsedPercent,
            SidebarRow::Spent,
            SidebarRow::Blank,
            SidebarRow::LspHeading,
            SidebarRow::LspNote,
            SidebarRow::Blank,
            SidebarRow::ModifiedFilesHeading,
        ];
        assert(lines@ =~= sidebar_header_rows());
        let header_len = lines.len();
        if max_height <= header_len {
            return lines;
        }
        let file_count = self.sidebar_modified_files.len();
        if file_count == 0 {
            lines.push(SidebarRow::NoModifiedFiles);
            return lines;
        }
        let remaining_rows = max_height.saturating_sub(header_len);
        let max_file_rows = if remaining_rows < SIDEBAR_MAX_FILE_ROWS {
            remaining_rows
        } else {
            SIDEBAR_MAX_FILE_ROWS
        };
        let mut visible_rows = if max_file_rows < file_count {
            max_file_rows
        } else {
            file_count
        };
        if file_count > visible_rows && visible_rows > 0 {
            visible_rows = visible_rows - 1;
        }
        assert(visible_rows == visible_file_rows(max_height as nat, 11, file_count as nat));
        let mut i: usize = 0;
        while i < visible_rows
            invariant
                i <= visible_rows,
                lines@ == sidebar_header_rows() + Seq::new(
                    i as nat,
                    |k: int| SidebarRow::File(k as usize),
                ),
            decreases visible_rows - i,
        {
            lines.push(SidebarRow::File(i));
            i = i + 1;
            assert(lines@ =~= sidebar_header_rows() + Seq::new(
                i as nat,
                |k: int| SidebarRow::File(k as usize),
            ));
        }
        let hidden_count = file_count - visible_rows;
        if hidden_count > 0 {
            lines.push(SidebarRow::MoreFiles(hidden_count));
            assert(lines@ =~= sidebar_header_rows() + Seq::new(
                visible_rows as nat,
                |k: int| SidebarRow::File(k as usize),
            ).push(SidebarRow::MoreFiles(hidden_count)));
        }
        lines
    }
}

/// A modified file's line: its path, cut to the room the counts leave, then the added
/// and deleted line counts when not zero.
#[derive(Clone, Debug, PartialEq, Eq)]
pub struct ModifiedFileLine {
    pub path: String,
    pub additions: Option<String>,
    pub deletions: Option<String>,
}

/// A count with its sign in front, when the count is not zero.
pub open spec fn signed_count(sign: char, n: usize) -> Option<Seq<char>> {
    if n > 0 {
        Some(seq![sign] + decimal(n as nat))
    } else {
        None
    }
}

/// Columns a count takes with the space before it.
pub open spec fn count_columns(c: Option<Seq<char>>) -> int {
    match c {
        Some(s) => s.len() + 1int,
        None => 0int,
    }
}

/// Columns left to the path: what the counts leave, but at least one.
pub open spec fn path_columns(width: usize, file: SidebarModifiedFile) -> nat {
    let suffix = count_columns(signed_count('+', file.additions)) + count_columns(
        signed_count('-', file.deletions),
    );
    if width - suffix >= 1 {
        (width - suffix) as nat
    } else {
        1
    }
}

pub open spec fn pow10(k: nat) -> nat
    decreases k,
{
    if k == 0 {
        1
    } else {
        10 * pow10((k - 1) as nat)
    }
}

proof fn lemma_decimal_len(n: nat, k: nat)
    requires
        n < pow10(k),
    ensures
        1 <= decimal(n).len() <= if k == 0 {
            1
        } else {
            k
        },
    decreases n,
{
    if n >= 10 {
        assert(k >= 2) by {
            if k == 0 {
            } else if k == 1 {
                assert(pow10(0) == 1);
                assert(pow10(1) == 10);
            }
        }
        let p = pow10((k - 1) as nat);
        assert(n / 10 < p) by (nonlinear_arith)
            requires
                n < 10 * p,
        ;
        lemma_decimal_len(n / 10, (k - 1) as nat);
    }
}

fn signed_count_string(sign: char, n: usize) -> (r: Option<String>)
    ensures
        string_option_view(r) == signed_count(sign, n),
        r matches Some(s) ==> s@.len() <= 21,
{
    if n == 0 {
        return None;
    }
    let digits = decimal_chars(n as u64);
    let mut v: Vec<char> = Vec::new();
    v.push(sign);
    let mut i: usize = 0;
    proof {
        reveal_with_fuel(pow10, 21);
        assert(pow10(20) == 100000000000000000000nat);
        lemma_decimal_len(n as nat, 20);
    }
    while i < digits.len()
        invariant
            i <= digits@.len(),
            v@ == seq![sign] + digits@.take(i as int),
        decreases digits.len() - i,
    {
        v.push(digits[i]);
        i = i + 1;
        assert(v@ =~= seq![sign] + digits@.take(i as int));
    }
    assert(digits@.take(i as int) =~= digits@);
    Some(string_from_chars(v.as_slice()))
}

/// The line for `file` in a sidebar `width` columns wide.
pub fn sidebar_modified_file_line(file: &SidebarModifiedFile, width: usize) -> (r: ModifiedFileLine)
    ensures
        r.path@ == truncated_text(file.path@, path_columns(width, *file)),
        string_option_view(r.additions) == signed_count('+', file.additions),
        string_option_view(r.deletions) == signed_count('-', file.deletions),
{
    let additions = signed_count_string('+', file.additions);
    let deletions = signed_count_string('-', file.deletions);
    let mut suffix_width: usize = 0;
    if let Some(a) = &additions {
        suffix_width = a.as_str().unicode_len() + 1;
    }
    if let Some(d) = &deletions {
        suffix_width = suffix_width + d.as_str().unicode_len() + 1;
    }
    let path_width = if width.saturating_sub(suffix_width) >= 1 {
        width.saturating_sub(suffix_width)
    } else {
        1
    };
    let path = truncate_text(file.path.as_str(), path_width);
    ModifiedFileLine { path, additions, deletions }
}


/// Where the sidebar shows, the main area and the sidebar tile the area: the main area
/// keeps at least its minimum width on the left, the sidebar ends at the right edge,
/// and one column of gap lies between them; the main area is as wide as
/// `main_content_width` says.
pub proof fn law_split_tiles_area(v: ChatWidgetView, area: Rect)
    requires
        sidebar_active(v, area.width as int),
        area.x + area.width <= u16::MAX,
        area.y + area.height <= u16::MAX,
    ensures
        ({
            let (m, s) = split_areas(v, area);
            &&& s matches Some(s) && {
                &&& m.x == area.x && m.y == area.y && m.height == area.height
                &&& m.width == main_content_width(area.width)
                &&& m.width >= SIDEBAR_MIN_MAIN_WIDTH
                &&& s.x == m.x + m.width + SIDEBAR_GAP
                &&& s.width == SIDEBAR_WIDTH
                &&& s.x + s.width == area.x + area.width
                &&& s.y == area.y && s.height == area.height
            }
        }),
{
}

/// Once a collection of modified files has started, asking again starts no other one.
pub proof fn law_refresh_not_repeated(v: ChatWidgetView, first: u64, second: u64)
    requires
        refresh_request(v, first).1 is Some,
    ensures
        refresh_request(refresh_request(v, first).0, second).1 is None,
{
}

/// Right after files are taken for the listed directory, a request within the refresh
/// interval starts no collection.
pub proof fn law_refresh_throttled(
    v: ChatWidgetView,
    files: Seq<SidebarModifiedFile>,
    taken_at: u64,
    now: u64,
)
    requires
        files_cwd_is(v, effective_cwd(v)),
        taken_at <= now,
        now - taken_at < SIDEBAR_REFRESH_INTERVAL_MS,
    ensures
        refresh_request(
            ChatWidgetView { files, pending: false, last_refresh: Some(taken_at), ..v },
            now,
        ).1 is None,
{
}

/// Where the sidebar shows at the last rendered width, it gives no hint.
pub proof fn law_no_hint_when_shown(v: ChatWidgetView)
    requires
        last_width_u16(v) matches Some(w) && sidebar_active(v, w as int),
    ensures
        unavailable_hint(v) is None,
{
}

/// With more rows than the header, the sidebar's lines fit in the rows available; the
/// files listed are the first ones, at most the row limit including a "more files" line,
/// which counts every file not listed.
pub proof fn law_sidebar_rows(max_height: nat, file_count: nat)
    requires
        max_height > sidebar_header_rows().len(),
        file_count > 0,
    ensures
        sidebar_rows(max_height, file_count).len() <= max_height,
        ({
            let visible = visible_file_rows(max_height, sidebar_header_rows().len(), file_count);
            let files = Seq::new(visible, |i: int| SidebarRow::File(i as usize));
            &&& visible <= file_count
            &&& visible < file_count ==> visible + 1 <= SIDEBAR_MAX_FILE_ROWS
                && sidebar_rows(max_height, file_count) == sidebar_header_rows() + files.push(
                SidebarRow::MoreFiles((file_count - visible) as usize),
            )
            &&& visible == file_count ==> visible <= SIDEBAR_MAX_FILE_ROWS && sidebar_rows(
                max_height,
                file_count,
            ) == sidebar_header_rows() + files
        }),
{
}


/// Title shown at the top of the sidebar.
pub const SIDEBAR_SESSION_TITLE: &'static str = "Session Title (mock)";

/// Note shown under the LSP heading.
pub const SIDEBAR_LSP_NOTE: &'static str = "LSPs will activate as files are read";

pub const SIDEBAR_MORE_FILES_SUFFIX: &'static str = " more files";

pub const SIDEBAR_USED_SUFFIX: &'static str = "% used";

/// The decimal digits of an integer, with `-` before a negative one.
pub open spec fn int_decimal(n: int) -> Seq<char> {
    if n < 0 {
        seq!['-'] + decimal((-n) as nat)
    } else {
        decimal(n as nat)
    }
}

/// The text of the "more files" line: `+` and how many files are not listed.
pub fn sidebar_more_files_text(hidden_count: usize) -> (r: String)
    ensures
        r@ == seq!['+'] + decimal(hidden_count as nat) + SIDEBAR_MORE_FILES_SUFFIX@,
{
    let digits = decimal_chars(hidden_count as u64);
    let mut v: Vec<char> = Vec::new();
    v.push('+');
    let mut i: usize = 0;
    while i < digits.len()
        invariant
            i <= digits@.len(),
            v@ == seq!['+'] + digits@.take(i as int),
        decreases digits.len() - i,
    {
        v.push(digits[i]);
        i = i + 1;
        assert(v@ =~= seq!['+'] + digits@.take(i as int));
    }
    assert(digits@.take(i as int) =~= digits@);
    let mut r = string_from_chars(v.as_slice());
    r.append(SIDEBAR_MORE_FILES_SUFFIX);
    r
}

/// The text of the context line: the percentage of the context window used.
pub fn sidebar_used_percent_text(used_percent: i64) -> (r: String)
    ensures
        r@ == int_decimal(used_percent as int) + SIDEBAR_USED_SUFFIX@,
{
    let mut r = if used_percent < 0 {
        let magnitude: u64 = if used_percent == i64::MIN {
            9223372036854775808u64
        } else {
            (-used_percent) as u64
        };
        let digits = decimal_chars(magnitude);
        let mut v: Vec<char> = Vec::new();
        v.push('-');
        let mut i: usize = 0;
        while i < digits.len()
            invariant
                i <= digits@.len(),
                v@ == seq!['-'] + digits@.take(i as int),
            decreases digits.len() - i,
        {
            v.push(digits[i]);
            i = i + 1;
            assert(v@ =~= seq!['-'] + digits@.take(i as int));
        }
        assert(digits@.take(i as int) =~= digits@);
        string_from_chars(v.as_slice())
    } else {
        let digits = decimal_chars(used_percent as u64);
        string_from_chars(digits.as_slice())
    };
    r.append(SIDEBAR_USED_SUFFIX);
    r
}

/// The session title, cut to the sidebar's width.
pub fn sidebar_session_title(width: usize) -> (r: String)
    ensures
        r@ == truncated_text(SIDEBAR_SESSION_TITLE@, width as nat),
{
    truncate_text(SIDEBAR_SESSION_TITLE, width)
}

/// The LSP note, cut to the sidebar's width.
pub fn sidebar_lsp_note(width: usize) -> (r: String)
    ensures
        r@ == truncated_text(SIDEBAR_LSP_NOTE@, width as nat),
{
    truncate_text(SIDEBAR_LSP_NOTE, width)
}


/// Without the sidebar shown there is no split: when it is off, before a session has
/// started, or in a terminal narrower than the sidebar needs, the main area is the whole
/// area.
pub proof fn law_no_split_without_sidebar(v: ChatWidgetView, area: Rect)
    requires
        !v.sidebar_enabled || v.thread_id is None || area.width < SIDEBAR_MIN_MAIN_WIDTH
            + SIDEBAR_GAP + SIDEBAR_WIDTH,
    ensures
        split_areas(v, area) == (area, None::<Rect>),
{
}

/// When all files fit (no more than the rows left after the header and no more than
/// the row limit), every file is listed, in order, and no "more files" line appears.
pub proof fn law_sidebar_lists_all_files_that_fit(max_height: nat, file_count: nat)
    requires
        max_height > sidebar_header_rows().len(),
        0 < file_count,
        file_count <= max_height - sidebar_header_rows().len(),
        file_count <= SIDEBAR_MAX_FILE_ROWS,
    ensures
        sidebar_rows(max_height, file_count) == sidebar_header_rows() + Seq::new(
            file_count,
            |i: int| SidebarRow::File(i as usize),
        ),
{
}

/// A "more files" line appears only when some file does not fit; it then closes the
/// sidebar and counts exactly the files not listed, which are the last ones.
pub proof fn law_more_files_only_when_needed(max_height: nat, file_count: nat)
    requires
        max_height > sidebar_header_rows().len(),
        file_count > 0,
        file_count <= usize::MAX,
    ensures
        ({
            let rows = sidebar_rows(max_height, file_count);
            let h = sidebar_header_rows().len();
            &&& rows.len() <= max_height
            &&& rows.len() - h <= SIDEBAR_MAX_FILE_ROWS
            &&& forall|i: int| h <= i < rows.len() - 1 ==> rows[i] == SidebarRow::File((i - h) as usize)
            &&& (rows.last() matches SidebarRow::MoreFiles(n) ==> {
                &&& file_count > max_height - h || file_count > SIDEBAR_MAX_FILE_ROWS
                &&& n > 0 && (rows.len() - h - 1) + n == file_count
            })
            &&& (rows.last() matches SidebarRow::File(k) ==> k + 1 == file_count && rows.len() - h
                == file_count)
        }),
{
    let rows = sidebar_rows(max_height, file_count);
    let header = sidebar_header_rows();
    let h = header.len();
    let v = visible_file_rows(max_height, h, file_count);
    let files = Seq::new(v, |i: int| SidebarRow::File(i as usize));
    if v < file_count {
        assert(rows == header + files.push(SidebarRow::MoreFiles((file_count - v) as usize)));
        assert(rows.len() == h + v + 1);
        assert forall|i: int| h <= i < rows.len() - 1 implies rows[i] == SidebarRow::File(
            (i - h) as usize,
        ) by {
            assert(rows[i] == files[i - h]);
        }
        assert(rows.last() == SidebarRow::MoreFiles((file_count - v) as usize));
    } else {
        assert(rows == header + files);
        assert(rows.len() == h + v);
        assert forall|i: int| h <= i < rows.len() - 1 implies rows[i] == SidebarRow::File(
            (i - h) as usize,
        ) by {
            assert(rows[i] == files[i - h]);
        }
        assert(rows.last() == files[v - 1]);
    }
}

} // verus!
