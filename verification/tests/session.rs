use disk_cleanup_tool::cli::CliArgs;
use disk_cleanup_tool::interactive::{InteractiveSession, SessionKey, SessionStep};
use disk_cleanup_tool::scan_ui::{next_frame, ScanProgress};
use disk_cleanup_tool::scanner::{DirectoryEntry, EntryType};
use disk_cleanup_tool::summary_ui::{
    display_count, scroll_down, scroll_up, summary_step, SummaryAction, SummaryKey, SummaryStep,
};

const MIB: u64 = 1024 * 1024;

fn entry(path: &str, size: u64) -> DirectoryEntry {
    DirectoryEntry {
        path: path.to_string(),
        file_count: 1,
        size_bytes: size,
        cumulative_file_count: 1,
        cumulative_size_bytes: size,
        entry_type: EntryType::Normal,
    }
}

fn session(n: usize) -> InteractiveSession {
    InteractiveSession::new((0..n).map(|i| entry(&format!("/dir{}", i), MIB)).collect())
}

#[test]
fn session_keeps_large_entries_largest_first() {
    let s = InteractiveSession::new(vec![
        entry("/small", MIB - 1),
        entry("/b", 2 * MIB),
        entry("/edge", MIB),
        entry("/a", 5 * MIB),
        entry("/b2", 2 * MIB),
    ]);
    let order: Vec<&str> = s.entries().iter().map(|e| e.path.as_str()).collect();
    assert_eq!(order, vec!["/a", "/b", "/b2", "/edge"]);
    assert_eq!(s.current_index(), 0);
    assert_eq!(s.scroll_offset(), 0);
    assert_eq!(s.selected_count(), 0);
    for i in 0..s.entries().len() - 1 {
        assert!(s.entries()[i].cumulative_size_bytes >= s.entries()[i + 1].cumulative_size_bytes);
    }
}

#[test]
fn selection_toggles() {
    let mut s = session(5);
    assert_eq!(s.entries().len(), 5);
    s.move_down();
    s.move_down();
    assert!(!s.is_selected(2));
    s.toggle_selection();
    assert!(s.is_selected(2));
    assert_eq!(s.get_selected_paths(), vec!["/dir2".to_string()]);
    s.toggle_selection();
    assert!(!s.is_selected(2));
    assert!(s.get_selected_paths().is_empty());
}

#[test]
fn toggle_on_an_empty_session_does_nothing() {
    let mut s = InteractiveSession::new(vec![entry("/small", 10)]);
    assert_eq!(s.entries().len(), 0);
    s.toggle_selection();
    s.move_down();
    s.page_down();
    s.go_to_bottom();
    assert_eq!(s.current_index(), 0);
    assert_eq!(s.selected_count(), 0);
    assert!(!s.is_selected(0));
}

#[test]
fn select_all_and_clear() {
    let mut s = session(4);
    s.select_all_visible();
    assert_eq!(s.selected_count(), 4);
    assert_eq!(
        s.get_selected_paths(),
        vec!["/dir0".to_string(), "/dir1".to_string(), "/dir2".to_string(), "/dir3".to_string()]
    );
    s.clear_all_selections();
    assert_eq!(s.selected_count(), 0);
}

#[test]
fn cursor_moves_within_the_list() {
    let mut s = session(25);
    s.move_up();
    assert_eq!(s.current_index(), 0);
    s.move_down();
    assert_eq!(s.current_index(), 1);
    s.page_down();
    assert_eq!(s.current_index(), 11);
    s.page_down();
    assert_eq!(s.current_index(), 21);
    s.page_down();
    assert_eq!(s.current_index(), 24);
    s.move_down();
    assert_eq!(s.current_index(), 24);
    s.page_up();
    assert_eq!(s.current_index(), 14);
    s.page_up();
    s.page_up();
    assert_eq!(s.current_index(), 0);
    s.go_to_bottom();
    assert_eq!(s.current_index(), 24);
    s.go_to_top();
    assert_eq!(s.current_index(), 0);
    assert_eq!(s.scroll_offset(), 0);
}

#[test]
fn scroll_follows_the_cursor() {
    let mut s = session(30);
    s.adjust_scroll(5);
    assert_eq!(s.scroll_offset(), 0);
    s.page_down();
    s.adjust_scroll(5);
    assert_eq!(s.scroll_offset(), 6);
    s.move_up();
    s.adjust_scroll(5);
    assert_eq!(s.scroll_offset(), 6);
    s.page_up();
    s.adjust_scroll(5);
    assert_eq!(s.scroll_offset(), 0);
    s.go_to_bottom();
    s.adjust_scroll(1);
    assert_eq!(s.scroll_offset(), 29);
}

#[test]
fn keys_drive_the_session() {
    let mut s = session(3);
    assert!(matches!(s.handle_key(SessionKey::Delete), SessionStep::Continue));
    assert!(matches!(s.handle_key(SessionKey::Down), SessionStep::Continue));
    assert!(matches!(s.handle_key(SessionKey::Toggle), SessionStep::Continue));
    assert!(matches!(s.handle_key(SessionKey::End), SessionStep::Continue));
    assert!(matches!(s.handle_key(SessionKey::Toggle), SessionStep::Continue));
    assert!(matches!(s.handle_key(SessionKey::Other), SessionStep::Continue));
    match s.handle_key(SessionKey::Delete) {
        SessionStep::Finished(paths) => {
            assert_eq!(paths, vec!["/dir1".to_string(), "/dir2".to_string()])
        }
        SessionStep::Continue => panic!("expected the session to end"),
    }
    match s.handle_key(SessionKey::Quit) {
        SessionStep::Finished(paths) => assert!(paths.is_empty()),
        SessionStep::Continue => panic!("expected the session to end"),
    }
    assert!(matches!(s.handle_key(SessionKey::ClearAll), SessionStep::Continue));
    assert!(matches!(s.handle_key(SessionKey::Delete), SessionStep::Continue));
    assert!(matches!(s.handle_key(SessionKey::SelectAll), SessionStep::Continue));
    assert_eq!(s.selected_count(), 3);
    assert!(matches!(s.handle_key(SessionKey::Home), SessionStep::Continue));
    assert_eq!(s.current_index(), 0);
    assert!(matches!(s.handle_key(SessionKey::PageDown), SessionStep::Continue));
    assert_eq!(s.current_index(), 2);
    assert!(matches!(s.handle_key(SessionKey::PageUp), SessionStep::Continue));
    assert!(matches!(s.handle_key(SessionKey::Up), SessionStep::Continue));
    assert_eq!(s.current_index(), 0);
}

#[test]
fn summary_scrolls_and_closes() {
    assert_eq!(scroll_up(5, 1), 4);
    assert_eq!(scroll_up(5, 10), 0);
    assert_eq!(scroll_down(5, 1, 10), 6);
    assert_eq!(scroll_down(5, 10, 10), 9);
    assert_eq!(scroll_down(0, 1, 0), 0);
    assert_eq!(scroll_down(usize::MAX, 10, 3), 2);
    assert_eq!(display_count(7), 7);
    assert_eq!(display_count(20), 20);
    assert_eq!(display_count(300), 20);
    assert_eq!(summary_step(SummaryKey::Close, 3, 9), SummaryStep::Leave(SummaryAction::Continue));
    assert_eq!(
        summary_step(SummaryKey::Interactive, 3, 9),
        SummaryStep::Leave(SummaryAction::LaunchInteractive)
    );
    assert_eq!(summary_step(SummaryKey::Up, 3, 9), SummaryStep::Stay(2));
    assert_eq!(summary_step(SummaryKey::Down, 8, 9), SummaryStep::Stay(8));
    assert_eq!(summary_step(SummaryKey::PageUp, 3, 9), SummaryStep::Stay(0));
    assert_eq!(summary_step(SummaryKey::PageDown, 3, 30), SummaryStep::Stay(13));
    assert_eq!(summary_step(SummaryKey::Home, 3, 9), SummaryStep::Stay(0));
    assert_eq!(summary_step(SummaryKey::End, 3, 9), SummaryStep::Stay(8));
    assert_eq!(summary_step(SummaryKey::End, 3, 0), SummaryStep::Stay(0));
    assert_eq!(summary_step(SummaryKey::Other, 3, 9), SummaryStep::Stay(3));
}

#[test]
fn progress_starts_at_nothing() {
    let p = ScanProgress::new();
    assert_eq!(p.files_scanned, 0);
    assert_eq!(p.dirs_scanned, 0);
    assert_eq!(p.current_path, "");
    assert_eq!(next_frame(0, 10), 1);
    assert_eq!(next_frame(9, 10), 0);
    assert_eq!(next_frame(0, 1), 0);
}

#[test]
fn arguments_choose_the_scan() {
    let args = CliArgs {
        path: Some("/data".to_string()),
        output_csv: None,
        input_csv: None,
        temp_only: true,
        interactive: false,
    };
    let config = args.scan_config(&"/home/me".to_string());
    assert_eq!(config.root_path, "/data");
    assert!(config.temp_only);
    let args = CliArgs { path: None, output_csv: None, input_csv: None, temp_only: false, interactive: true };
    let config = args.scan_config(&"/home/me".to_string());
    assert_eq!(config.root_path, "/home/me");
    assert!(!config.temp_only);
}
