use notestore::cursor::{on_move_down, on_pressed_enter};
use notestore::search::SearchResult;

fn results(selected: &[bool]) -> Vec<SearchResult> {
    selected
        .iter()
        .enumerate()
        .map(|(i, s)| SearchResult {
            file_path: format!("file {}", i),
            line_matched: format!("line {}", i),
            match_name: i % 2 == 0,
            match_contents: i % 2 == 1,
            selected: *s,
            start: i,
            end: i + 3,
        })
        .collect()
}

fn flags(list: &[SearchResult]) -> Vec<bool> {
    list.iter().map(|r| r.selected).collect()
}

#[test]
fn move_down_selects_the_next_result() {
    let mut list = results(&[false, true, false]);
    assert_eq!(on_move_down(&mut list), 2);
    assert_eq!(flags(&list), vec![false, false, true]);
}

#[test]
fn move_down_wraps_from_the_last_to_the_first() {
    let mut list = results(&[false, false, true]);
    assert_eq!(on_move_down(&mut list), 0);
    assert_eq!(flags(&list), vec![true, false, false]);
}

#[test]
fn move_down_goes_round_the_whole_list() {
    let mut list = results(&[true, false, false, false]);
    for expected in [1, 2, 3, 0, 1] {
        assert_eq!(on_move_down(&mut list), expected);
        let mut want = vec![false; 4];
        want[expected] = true;
        assert_eq!(flags(&list), want);
    }
}

#[test]
fn move_down_without_a_selection_changes_nothing() {
    let mut list = results(&[false, false, false]);
    assert_eq!(on_move_down(&mut list), 0);
    assert_eq!(flags(&list), vec![false, false, false]);
    let mut none: Vec<SearchResult> = Vec::new();
    assert_eq!(on_move_down(&mut none), 0);
    assert!(none.is_empty());
}

#[test]
fn move_down_on_a_single_result_keeps_it_selected() {
    let mut list = results(&[true]);
    assert_eq!(on_move_down(&mut list), 0);
    assert_eq!(flags(&list), vec![true]);
}

#[test]
fn move_down_clears_a_run_of_selected_results() {
    let mut list = results(&[false, true, true, false, true]);
    assert_eq!(on_move_down(&mut list), 3);
    assert_eq!(flags(&list), vec![false, false, false, true, true]);
    let mut list = results(&[false, true, true]);
    assert_eq!(on_move_down(&mut list), 0);
    assert_eq!(flags(&list), vec![true, false, false]);
    let mut list = results(&[true, false, true]);
    assert_eq!(on_move_down(&mut list), 1);
    assert_eq!(flags(&list), vec![false, true, true]);
}

#[test]
fn move_down_changes_only_the_selection() {
    let mut list = results(&[false, true, false]);
    on_move_down(&mut list);
    for (i, r) in list.iter().enumerate() {
        assert_eq!(r.file_path, format!("file {}", i));
        assert_eq!(r.line_matched, format!("line {}", i));
        assert_eq!(r.match_name, i % 2 == 0);
        assert_eq!(r.match_contents, i % 2 == 1);
        assert_eq!((r.start, r.end), (i, i + 3));
    }
}

#[test]
fn pressed_enter_finds_the_first_selected_result() {
    assert_eq!(on_pressed_enter(&results(&[false, true, false])), Some(1));
    assert_eq!(on_pressed_enter(&results(&[false, true, true])), Some(1));
    assert_eq!(on_pressed_enter(&results(&[true])), Some(0));
    assert_eq!(on_pressed_enter(&results(&[false, false])), None);
    assert_eq!(on_pressed_enter(&results(&[])), None);
}
