use codex_sidebar::layout::Rect;
use codex_sidebar::modified_files::SidebarModifiedFile;
use codex_sidebar::sidebar::{
    sidebar_content_area, sidebar_lsp_note, sidebar_modified_file_line, sidebar_more_files_text,
    sidebar_session_title, sidebar_used_percent_text, ChatWidget, SidebarRow,
};
use codex_sidebar::sidebar_mode::{
    sidebar_transcript_scroll, App, SidebarModeTransition, TranscriptCellInfo, TranscriptPiece,
};

fn widget(enabled: bool, thread: bool, width: Option<usize>) -> ChatWidget {
    ChatWidget {
        sidebar_enabled: enabled,
        thread_id: if thread { Some("thread-1".to_string()) } else { None },
        last_rendered_width: width,
        current_cwd: None,
        config_cwd: "/repo".to_string(),
        sidebar_modified_files: Vec::new(),
        sidebar_modified_files_cwd: None,
        sidebar_modified_files_pending: false,
        sidebar_modified_files_last_refresh: None,
    }
}

fn file(path: &str, additions: usize, deletions: usize) -> SidebarModifiedFile {
    SidebarModifiedFile { path: path.to_string(), additions, deletions }
}

fn rect(x: u16, y: u16, width: u16, height: u16) -> Rect {
    Rect { x, y, width, height }
}

#[test]
fn sidebar_needs_enabled_thread_and_width() {
    assert_eq!(ChatWidget::sidebar_min_terminal_width(), 129);
    assert_eq!(ChatWidget::sidebar_width_for_terminal(128), None);
    assert_eq!(ChatWidget::sidebar_width_for_terminal(129), Some(38));
    assert!(widget(true, true, None).sidebar_mode_active_for_terminal(129));
    assert!(!widget(true, true, None).sidebar_mode_active_for_terminal(128));
    assert!(!widget(false, true, None).sidebar_mode_active_for_terminal(200));
    assert!(!widget(true, false, None).sidebar_mode_active_for_terminal(200));
    assert!(widget(true, true, None).sidebar_enabled());
}

#[test]
fn main_content_width_reserves_sidebar_and_gap() {
    let w = widget(false, false, Some(140));
    assert_eq!(w.main_content_width_for_terminal(140), 101);
    assert_eq!(w.main_content_width_for_terminal(128), 128);
    assert_eq!(w.last_rendered_content_width(), Some(101));
    assert_eq!(widget(true, true, None).last_rendered_content_width(), None);
    assert_eq!(widget(true, true, Some(70_000)).last_rendered_content_width(), None);
}

#[test]
fn split_tiles_the_area() {
    let w = widget(true, true, None);
    let area = rect(2, 3, 140, 20);
    let (main, sidebar) = w.split_main_and_sidebar(area);
    assert_eq!(main, rect(2, 3, 101, 20));
    assert_eq!(sidebar, Some(rect(104, 3, 38, 20)));
    let narrow = rect(0, 0, 100, 10);
    assert_eq!(w.split_main_and_sidebar(narrow), (narrow, None));
}

#[test]
fn split_clamps_to_terminal_coordinates() {
    let w = widget(true, true, None);
    let area = rect(65_500, 65_530, 140, 20);
    let (main, sidebar) = w.split_main_and_sidebar(area);
    assert_eq!(main, rect(65_500, 65_530, 35, 5));
    assert_eq!(sidebar, Some(rect(65_535, 65_530, 0, 5)));
}

#[test]
fn status_and_toggle_messages() {
    let off = widget(false, true, Some(200));
    assert_eq!(off.sidebar_status_message(), ("Sidebar is off.".to_string(), None));
    let on_no_thread = widget(true, false, Some(200));
    assert_eq!(
        on_no_thread.sidebar_status_message(),
        (
            "Sidebar is on.".to_string(),
            Some("Start a session to populate the sidebar.".to_string())
        )
    );
    let on_narrow = widget(true, true, Some(100));
    assert_eq!(
        on_narrow.sidebar_toggle_message(true),
        (
            "Sidebar shown.".to_string(),
            Some("Expand the terminal to at least 129 columns to pin the sidebar.".to_string())
        )
    );
    assert_eq!(on_narrow.sidebar_toggle_message(false), ("Sidebar hidden.".to_string(), None));
    let on_wide = widget(true, true, Some(200));
    assert_eq!(on_wide.sidebar_status_message(), ("Sidebar is on.".to_string(), None));
    assert_eq!(widget(true, true, None).sidebar_unavailable_hint(), None);
}

#[test]
fn refresh_starts_once_and_is_throttled() {
    let mut w = widget(true, true, Some(200));
    assert_eq!(w.request_sidebar_modified_files_refresh(1_000), Some("/repo".to_string()));
    assert!(w.sidebar_modified_files_pending);
    assert_eq!(w.sidebar_modified_files_cwd, Some("/repo".to_string()));
    assert_eq!(w.request_sidebar_modified_files_refresh(9_000), None);

    assert!(w.set_sidebar_modified_files("/repo", vec![file("a.rs", 1, 2)], 2_000));
    assert!(!w.sidebar_modified_files_pending);
    assert_eq!(w.sidebar_modified_files, vec![file("a.rs", 1, 2)]);
    assert_eq!(w.sidebar_modified_files_last_refresh, Some(2_000));
    assert_eq!(w.request_sidebar_modified_files_refresh(6_999), None);
    assert_eq!(w.request_sidebar_modified_files_refresh(7_000), Some("/repo".to_string()));
}

#[test]
fn refresh_needs_a_shown_sidebar() {
    let mut narrow = widget(true, true, Some(100));
    assert_eq!(narrow.request_sidebar_modified_files_refresh(0), None);
    assert!(!narrow.sidebar_modified_files_pending);
    let mut unrendered = widget(true, true, None);
    assert_eq!(unrendered.request_sidebar_modified_files_refresh(0), None);
}

#[test]
fn files_for_another_directory_are_dropped() {
    let mut w = widget(true, true, Some(200));
    w.request_sidebar_modified_files_refresh(0);
    assert!(!w.set_sidebar_modified_files("/other", vec![file("b.rs", 0, 0)], 10));
    assert!(w.sidebar_modified_files.is_empty());
    assert!(!w.sidebar_modified_files_pending);
    assert_eq!(w.sidebar_modified_files_last_refresh, None);
}

#[test]
fn same_path_spelled_differently_is_accepted() {
    let mut w = widget(true, true, Some(200));
    w.request_sidebar_modified_files_refresh(0);
    assert!(w.set_sidebar_modified_files("/repo/", vec![file("b.rs", 3, 0)], 10));
    assert_eq!(w.sidebar_modified_files, vec![file("b.rs", 3, 0)]);
}

#[test]
fn moving_to_another_directory_clears_the_list() {
    let mut w = widget(true, true, Some(200));
    w.request_sidebar_modified_files_refresh(0);
    w.set_sidebar_modified_files("/repo", vec![file("a.rs", 1, 1)], 10);
    w.current_cwd = Some("/elsewhere".to_string());
    assert_eq!(w.sidebar_cwd(), "/elsewhere");
    assert_eq!(w.request_sidebar_modified_files_refresh(20), Some("/elsewhere".to_string()));
    assert!(w.sidebar_modified_files.is_empty());
    assert_eq!(w.sidebar_modified_files_cwd, Some("/elsewhere".to_string()));
}

#[test]
fn enabling_the_sidebar_requests_files_and_redraw() {
    let mut w = widget(false, true, Some(200));
    let effects = w.set_sidebar_enabled(true, 0);
    assert_eq!(effects.refresh_cwd, Some("/repo".to_string()));
    assert!(effects.redraw);
    let again = w.set_sidebar_enabled(true, 0);
    assert_eq!(again.refresh_cwd, None);
    assert!(!again.redraw);
    let off = w.set_sidebar_enabled(false, 0);
    assert_eq!(off.refresh_cwd, None);
    assert!(off.redraw);
    assert!(!w.sidebar_enabled);
}

#[test]
fn noting_a_render_records_its_width() {
    let mut w = widget(true, true, None);
    w.note_rendered_width(150);
    assert_eq!(w.last_rendered_width, Some(150));
}

#[test]
fn sidebar_rows_budget_file_lines() {
    let mut w = widget(true, true, Some(200));
    assert_eq!(w.sidebar_lines(5).len(), 11);
    let with_empty = w.sidebar_lines(20);
    assert_eq!(with_empty.len(), 12);
    assert_eq!(with_empty[11], SidebarRow::NoModifiedFiles);

    w.sidebar_modified_files = (0..10).map(|i| file(&format!("f{i}"), i, 0)).collect();
    let rows = w.sidebar_lines(30);
    assert_eq!(rows.len(), 19);
    assert_eq!(rows[11], SidebarRow::File(0));
    assert_eq!(rows[17], SidebarRow::File(6));
    assert_eq!(rows[18], SidebarRow::MoreFiles(3));

    let tight = w.sidebar_lines(14);
    assert_eq!(tight.len(), 14);
    assert_eq!(tight[13], SidebarRow::MoreFiles(8));

    w.sidebar_modified_files.truncate(3);
    let fits = w.sidebar_lines(30);
    assert_eq!(fits.len(), 14);
    assert_eq!(fits[13], SidebarRow::File(2));

    let one_row = w.sidebar_lines(12);
    assert_eq!(one_row.len(), 12);
    assert_eq!(one_row[11], SidebarRow::MoreFiles(3));
}

#[test]
fn modified_file_line_fits_counts() {
    let line = sidebar_modified_file_line(&file("src/a/very/long/path/name.rs", 12, 3), 20);
    assert_eq!(line.additions, Some("+12".to_string()));
    assert_eq!(line.deletions, Some("-3".to_string()));
    assert_eq!(line.path, "src/a/very...");
    let plain = sidebar_modified_file_line(&file("new.rs", 0, 0), 20);
    assert_eq!(plain.additions, None);
    assert_eq!(plain.deletions, None);
    assert_eq!(plain.path, "new.rs");
    let cramped = sidebar_modified_file_line(&file("abc.rs", 100, 100), 5);
    assert_eq!(cramped.path, "a");
}

#[test]
fn content_area_is_inside_border_and_margin() {
    assert_eq!(sidebar_content_area(rect(10, 0, 38, 20)), Some(rect(12, 1, 35, 18)));
    assert_eq!(sidebar_content_area(rect(10, 0, 0, 20)), None);
    assert_eq!(sidebar_content_area(rect(10, 0, 3, 20)), None);
    assert_eq!(sidebar_content_area(rect(10, 0, 38, 2)), None);
}

#[test]
fn main_layout_stacks_transcript_gap_and_bottom() {
    let w = widget(true, true, None);
    let area = rect(0, 5, 100, 30);
    assert_eq!(w.sidebar_main_layout(area, 6), (rect(0, 5, 100, 23), rect(0, 29, 100, 6)));
    assert_eq!(w.sidebar_main_layout(area, 40), (rect(0, 5, 100, 0), rect(0, 5, 100, 30)));
    assert_eq!(w.sidebar_main_layout(rect(0, 0, 0, 5), 3), (rect(0, 0, 0, 0), rect(0, 0, 0, 0)));
    assert_eq!(w.sidebar_main_areas(area, 40), (None, Some(rect(0, 5, 100, 30))));
    assert_eq!(
        w.sidebar_main_areas(area, 0),
        (Some(rect(0, 5, 100, 29)), None)
    );
    assert_eq!(w.sidebar_main_areas(rect(0, 0, 5, 0), 0), (None, None));
}

#[test]
fn transcript_scroll_shows_the_end() {
    assert_eq!(sidebar_transcript_scroll(100, 0), 0);
    assert_eq!(sidebar_transcript_scroll(100, 30), 70);
    assert_eq!(sidebar_transcript_scroll(10, 30), 0);
    assert_eq!(sidebar_transcript_scroll(100_000, 1), 65_535);
}

#[test]
fn transcript_pieces_separate_cells() {
    let w = widget(true, true, None);
    let cells = vec![
        TranscriptCellInfo { is_stream_continuation: false, line_count: 2 },
        TranscriptCellInfo { is_stream_continuation: true, line_count: 1 },
        TranscriptCellInfo { is_stream_continuation: false, line_count: 3 },
    ];
    assert_eq!(
        w.sidebar_transcript_lines(&cells, Some(2), Some(false)),
        vec![
            TranscriptPiece::Cell(0),
            TranscriptPiece::Cell(1),
            TranscriptPiece::Blank,
            TranscriptPiece::Cell(2),
            TranscriptPiece::Blank,
            TranscriptPiece::Active,
        ]
    );
    assert_eq!(
        w.sidebar_transcript_lines(&cells, Some(2), Some(true)),
        vec![
            TranscriptPiece::Cell(0),
            TranscriptPiece::Cell(1),
            TranscriptPiece::Blank,
            TranscriptPiece::Cell(2),
            TranscriptPiece::Active,
        ]
    );
    assert_eq!(w.sidebar_transcript_lines(&cells, Some(0), Some(false)).len(), 4);
    assert_eq!(
        w.sidebar_transcript_lines(&[], Some(1), Some(false)),
        vec![TranscriptPiece::Active]
    );
    let silent = vec![TranscriptCellInfo { is_stream_continuation: false, line_count: 0 }];
    assert_eq!(
        w.sidebar_transcript_lines(&silent, Some(1), Some(false)),
        vec![TranscriptPiece::Cell(0), TranscriptPiece::Active]
    );
}

#[test]
fn sidebar_mode_follows_terminal_width() {
    let mut app = App {
        chat_widget: widget(true, true, None),
        overlay_active: false,
        sidebar_mode_active: false,
    };
    assert_eq!(app.sync_sidebar_mode(200), SidebarModeTransition::EnterAltScreen);
    assert!(app.sidebar_mode_active);
    assert_eq!(app.sync_sidebar_mode(200), SidebarModeTransition::Unchanged);
    assert_eq!(app.sync_sidebar_mode(100), SidebarModeTransition::LeaveAltScreen);
    assert!(!app.sidebar_mode_active);

    app.overlay_active = true;
    assert_eq!(app.sync_sidebar_mode(200), SidebarModeTransition::Unchanged);
    assert!(app.sidebar_mode_active);
    assert_eq!(app.sync_sidebar_mode(100), SidebarModeTransition::Unchanged);
    assert!(app.sidebar_mode_active);
}

#[test]
fn sidebar_row_texts() {
    assert_eq!(sidebar_more_files_text(3), "+3 more files");
    assert_eq!(sidebar_used_percent_text(42), "42% used");
    assert_eq!(sidebar_used_percent_text(0), "0% used");
    assert_eq!(sidebar_used_percent_text(-5), "-5% used");
    assert_eq!(sidebar_used_percent_text(i64::MIN), format!("{}% used", i64::MIN));
    assert_eq!(sidebar_session_title(35), "Session Title (mock)");
    assert_eq!(sidebar_session_title(10), "Session...");
    assert_eq!(sidebar_lsp_note(20), "LSPs will activat...");
}
