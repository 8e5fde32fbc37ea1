use rd::app::{App, KeyCode, KeyEventKind};
use rd::components::{make_file, sort_files, File, FileType};

fn entry(name: &str, is_dir: bool) -> File {
    make_file(String::from(name), is_dir)
}

fn names(files: &Vec<File>) -> Vec<String> {
    let mut out = Vec::new();
    for f in files {
        out.push(f.name.clone());
    }
    out
}

/// A sorted listing with two directories and one file, as the sample
/// base directory holds.
fn base_listing() -> Vec<File> {
    let mut files = vec![entry(".git", true), entry("src", true), entry("README", false)];
    sort_files(&mut files);
    files
}

/// Applies one press the way the event loop does: the key step with
/// the listing it requested, then the preview refresh.  The two
/// directory reads are played by the listings passed in.
fn press(app: &mut App, code: KeyCode, key_listing: Vec<File>, preview_listing: Vec<File>) {
    app.handle_key_evnet(code, KeyEventKind::Press, key_listing);
    app.update_sub_files(preview_listing);
}

#[test]
fn initial_state_of_the_sample_directory() {
    let files = base_listing();
    assert_eq!(names(&files), vec![".git", "src", "README"]);
    let app = App::new(String::from("/a"), files);
    assert_eq!(app.current_dir, "/a");
    assert_eq!(app.index, 0);
    assert!(!app.filter_hidden_file);
    assert!(!app.exit);
    assert!(app.output);
    assert!(app.sub_files.is_empty());
}

#[test]
fn toggle_hides_dot_entries_of_the_sample_directory() {
    let mut app = App::new(String::from("/a"), base_listing());
    press(&mut app, KeyCode::Char('H'), Vec::new(), Vec::new());
    assert_eq!(names(&app.files), vec!["src", "README"]);
    assert_eq!(app.index, 0);
    assert!(app.filter_hidden_file);
}

#[test]
fn toggle_twice_restores_the_untoggled_listing() {
    let mut app = App::new(String::from("/a"), base_listing());
    press(&mut app, KeyCode::Char('H'), Vec::new(), Vec::new());
    // Turning the filter back off re-reads the base directory, which
    // is unchanged.
    press(&mut app, KeyCode::Char('H'), base_listing(), Vec::new());
    assert_eq!(names(&app.files), vec![".git", "src", "README"]);
    assert_eq!(app.index, 0);
    assert!(!app.filter_hidden_file);
}

#[test]
fn moving_down_wraps_after_a_full_cycle() {
    let mut app = App::new(String::from("/a"), base_listing());
    assert_eq!(app.index, 0);
    press(&mut app, KeyCode::Down, Vec::new(), Vec::new());
    assert_eq!(app.index, 1);
    press(&mut app, KeyCode::Down, Vec::new(), Vec::new());
    assert_eq!(app.index, 2);
    press(&mut app, KeyCode::Down, Vec::new(), Vec::new());
    assert_eq!(app.index, 0);
}

#[test]
fn moving_up_wraps_after_a_full_cycle() {
    let mut app = App::new(String::from("/a"), base_listing());
    press(&mut app, KeyCode::Up, Vec::new(), Vec::new());
    assert_eq!(app.index, 2);
    press(&mut app, KeyCode::Char('k'), Vec::new(), Vec::new());
    assert_eq!(app.index, 1);
    press(&mut app, KeyCode::Up, Vec::new(), Vec::new());
    assert_eq!(app.index, 0);
}

#[test]
fn release_events_are_ignored() {
    let mut app = App::new(String::from("/a"), base_listing());
    app.handle_key_evnet(KeyCode::Down, KeyEventKind::Release, Vec::new());
    assert_eq!(app.index, 0);
    app.handle_key_evnet(KeyCode::Char('q'), KeyEventKind::Release, Vec::new());
    assert!(!app.exit);
}

#[test]
fn unmapped_keys_are_ignored() {
    let mut app = App::new(String::from("/a"), base_listing());
    app.handle_key_evnet(KeyCode::Char('x'), KeyEventKind::Press, Vec::new());
    app.handle_key_evnet(KeyCode::Other, KeyEventKind::Press, Vec::new());
    assert_eq!(app.current_dir, "/a");
    assert_eq!(app.index, 0);
    assert!(!app.exit);
}

#[test]
fn preview_request_names_the_selected_directory() {
    let mut app = App::new(String::from("/a"), base_listing());
    assert_eq!(app.preview_request(), Some(String::from("/a/.git")));
    press(&mut app, KeyCode::Down, Vec::new(), Vec::new());
    assert_eq!(app.preview_request(), Some(String::from("/a/src")));
    press(&mut app, KeyCode::Down, Vec::new(), Vec::new());
    // The selection now rests on a file: no preview read is needed.
    assert_eq!(app.preview_request(), None);
}

#[test]
fn preview_follows_the_selection() {
    let mut app = App::new(String::from("/a"), base_listing());
    let inside_src = vec![entry("main.rs", false)];
    press(&mut app, KeyCode::Down, Vec::new(), inside_src);
    assert_eq!(names(&app.sub_files), vec!["main.rs"]);
    // Moving onto the file clears the preview even though a listing is
    // handed in; a file has no children.
    press(&mut app, KeyCode::Down, Vec::new(), vec![entry("stale", false)]);
    assert!(app.sub_files.is_empty());
}

#[test]
fn enter_adopts_the_preview_as_the_listing() {
    let mut app = App::new(String::from("/a"), base_listing());
    let mut inside_src = vec![entry("lib.rs", false), entry("bin", true)];
    sort_files(&mut inside_src);
    press(&mut app, KeyCode::Down, Vec::new(), inside_src);
    let inside_bin = vec![entry("tool", false)];
    press(&mut app, KeyCode::Enter, Vec::new(), inside_bin);
    assert_eq!(app.current_dir, "/a/src");
    assert_eq!(names(&app.files), vec!["bin", "lib.rs"]);
    assert_eq!(app.index, 0);
    assert_eq!(names(&app.sub_files), vec!["tool"]);
}

#[test]
fn enter_on_a_file_is_a_no_op() {
    let mut app = App::new(String::from("/a"), base_listing());
    press(&mut app, KeyCode::Down, Vec::new(), Vec::new());
    press(&mut app, KeyCode::Down, Vec::new(), Vec::new());
    press(&mut app, KeyCode::Enter, Vec::new(), Vec::new());
    assert_eq!(app.current_dir, "/a");
    assert_eq!(names(&app.files), vec![".git", "src", "README"]);
    assert_eq!(app.index, 2);
}

#[test]
fn back_moves_to_the_parent() {
    let mut app = App::new(String::from("/a/b"), vec![entry("c", true)]);
    let request = app.key_list_request(KeyCode::Esc, KeyEventKind::Press);
    assert_eq!(request, Some(String::from("/a")));
    let parent_listing = base_listing();
    press(&mut app, KeyCode::Esc, parent_listing, Vec::new());
    assert_eq!(app.current_dir, "/a");
    assert_eq!(names(&app.files), vec![".git", "src", "README"]);
    assert_eq!(app.index, 0);
}

#[test]
fn back_at_the_root_changes_nothing() {
    let mut app = App::new(String::from("/"), base_listing());
    press(&mut app, KeyCode::Down, Vec::new(), Vec::new());
    assert_eq!(app.key_list_request(KeyCode::Esc, KeyEventKind::Press), None);
    for code in [KeyCode::Esc, KeyCode::Char('h'), KeyCode::Left] {
        press(&mut app, code, Vec::new(), Vec::new());
        assert_eq!(app.current_dir, "/");
        assert_eq!(names(&app.files), vec![".git", "src", "README"]);
        assert_eq!(app.index, 1);
    }
}

#[test]
fn empty_directory_tolerates_every_key() {
    let mut app = App::new(String::from("/empty"), Vec::new());
    for code in [KeyCode::Up, KeyCode::Down, KeyCode::Enter, KeyCode::Char(' ')] {
        press(&mut app, code, Vec::new(), Vec::new());
        assert_eq!(app.index, 0);
        assert!(app.sub_files.is_empty());
        assert!(!app.exit);
        assert_eq!(app.current_dir, "/empty");
    }
}

#[test]
fn confirm_on_a_directory_finishes_with_its_path() {
    let mut app = App::new(String::from("/a"), base_listing());
    press(&mut app, KeyCode::Down, Vec::new(), Vec::new());
    app.handle_key_evnet(KeyCode::Char(' '), KeyEventKind::Press, Vec::new());
    assert!(app.exit);
    assert!(app.output);
    assert_eq!(app.finnal_dir(), "/a/src");
}

#[test]
fn confirm_on_a_file_does_nothing() {
    let mut app = App::new(String::from("/a"), base_listing());
    press(&mut app, KeyCode::Up, Vec::new(), Vec::new());
    app.handle_key_evnet(KeyCode::Char(' '), KeyEventKind::Press, Vec::new());
    assert!(!app.exit);
}

#[test]
fn quit_finishes_without_a_selection() {
    let mut app = App::new(String::from("/a"), base_listing());
    app.handle_key_evnet(KeyCode::Char('q'), KeyEventKind::Press, Vec::new());
    assert!(app.exit);
    assert!(!app.output);
    let mut other = App::new(String::from("/a"), base_listing());
    other.handle_key_evnet(KeyCode::Char('Q'), KeyEventKind::Press, Vec::new());
    assert!(other.exit && !other.output);
}

#[test]
fn toggle_request_reads_only_when_turning_the_filter_off() {
    let mut app = App::new(String::from("/a"), base_listing());
    assert_eq!(app.key_list_request(KeyCode::Char('H'), KeyEventKind::Press), None);
    press(&mut app, KeyCode::Char('H'), Vec::new(), Vec::new());
    assert_eq!(
        app.key_list_request(KeyCode::Char('H'), KeyEventKind::Press),
        Some(String::from("/a"))
    );
}

#[test]
fn vim_keys_mirror_the_arrows() {
    let mut app = App::new(String::from("/a/b"), base_listing());
    press(&mut app, KeyCode::Char('j'), Vec::new(), Vec::new());
    assert_eq!(app.index, 1);
    press(&mut app, KeyCode::Char('k'), Vec::new(), Vec::new());
    assert_eq!(app.index, 0);
    // 'l' enters the selected directory.
    press(&mut app, KeyCode::Char('l'), Vec::new(), Vec::new());
    assert_eq!(app.current_dir, "/a/b/.git");
    // 'h' goes back up.
    let request = app.key_list_request(KeyCode::Char('h'), KeyEventKind::Press);
    assert_eq!(request, Some(String::from("/a/b")));
    press(&mut app, KeyCode::Char('h'), base_listing(), Vec::new());
    assert_eq!(app.current_dir, "/a/b");
}
