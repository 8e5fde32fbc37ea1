use rd::paths::{get_parent_dir, join_path};
use rd::ui::{scroll, visible_rows};

#[test]
fn parent_strips_the_last_component() {
    assert_eq!(get_parent_dir("/a/b"), "/a");
    assert_eq!(get_parent_dir("/home/user/project"), "/home/user");
}

#[test]
fn parent_of_a_top_level_directory_is_the_root() {
    assert_eq!(get_parent_dir("/a"), "/");
}

#[test]
fn parent_of_the_root_is_the_root() {
    assert_eq!(get_parent_dir("/"), "/");
}

#[test]
fn a_path_without_a_separator_is_its_own_parent() {
    assert_eq!(get_parent_dir("."), ".");
}

#[test]
fn join_below_the_root() {
    assert_eq!(join_path("/", "a"), "/a");
}

#[test]
fn join_below_an_ordinary_directory() {
    assert_eq!(join_path("/a", "b"), "/a/b");
    assert_eq!(join_path("/home/user", "src"), "/home/user/src");
}

#[test]
fn parent_undoes_join() {
    let joined = join_path("/home/user", "src");
    assert_eq!(get_parent_dir(&joined), "/home/user");
}

#[test]
fn visible_rows_loses_the_border_and_never_vanishes() {
    assert_eq!(visible_rows(0), 1);
    assert_eq!(visible_rows(2), 1);
    assert_eq!(visible_rows(3), 1);
    assert_eq!(visible_rows(10), 8);
}

#[test]
fn scroll_keeps_a_short_listing_at_the_top() {
    assert_eq!(scroll(3, 0, 5), (0, 0));
    assert_eq!(scroll(3, 2, 5), (0, 2));
    assert_eq!(scroll(5, 4, 5), (0, 4));
}

#[test]
fn scroll_trails_the_selection_once_the_listing_overflows() {
    assert_eq!(scroll(10, 0, 5), (0, 0));
    assert_eq!(scroll(10, 3, 5), (0, 3));
    assert_eq!(scroll(10, 4, 5), (0, 4));
    assert_eq!(scroll(10, 5, 5), (1, 4));
    assert_eq!(scroll(10, 9, 5), (5, 4));
}

#[test]
fn scroll_treats_a_zero_height_window_as_one_row() {
    assert_eq!(scroll(10, 7, 0), (7, 0));
    assert_eq!(scroll(1, 0, 0), (0, 0));
}

#[test]
fn scroll_recovers_the_selection_everywhere() {
    for total in 0..12usize {
        for selected in 0..total {
            for height in 1..8usize {
                let (offset, relative) = scroll(total, selected, height);
                assert_eq!(offset + relative, selected);
                assert!(relative < height);
                assert!(relative < total);
            }
        }
    }
}
