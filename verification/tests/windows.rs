use vanilla_text::win::{OpenDecision, SaveAsDecision, Window, Windows};

#[test]
fn new_window_has_one_blank_page() {
    let mut reg = Windows::new();
    let w = reg.new_window();
    assert_eq!(w, 0);
    assert_eq!(reg.windows.len(), 1);
    assert_eq!(reg.windows[0].pages.len(), 1);
    assert!(reg.windows[0].pages[0].is_empty());
    assert_eq!(reg.windows[0].active, 0);
    assert_eq!(reg.windows[0].title, b"untitled".to_vec());
}

#[test]
fn identities_are_unique_across_windows() {
    let mut reg = Windows::new();
    reg.new_window();
    reg.new_window();
    reg.new_tab(0);
    let mut ids = vec![reg.windows[0].id, reg.windows[1].id];
    for w in &reg.windows {
        for p in &w.pages {
            ids.push(p.id);
        }
    }
    let n = ids.len();
    ids.sort();
    ids.dedup();
    assert_eq!(ids.len(), n);
}

#[test]
fn new_tab_appends_blank_page_without_switching() {
    let mut reg = Windows::new();
    reg.new_window();
    reg.open_in(0, b"/d/a.txt".to_vec(), b"A".to_vec(), false).unwrap();
    let idx = reg.new_tab(0);
    assert_eq!(idx, 1);
    assert_eq!(reg.windows[0].pages.len(), 2);
    assert!(reg.windows[0].pages[1].is_empty());
    // still showing the first tab
    assert_eq!(reg.windows[0].active, 0);
}

#[test]
fn registry_get_page_finds_open_file_and_not_after_detach() {
    let mut reg = Windows::new();
    reg.new_window();
    reg.new_window();
    reg.open_in(1, b"/d/f.txt".to_vec(), b"T".to_vec(), false).unwrap();
    // found exactly where it is open
    assert_eq!(reg.get_page(&b"/d/f.txt".to_vec()), Some((1, 0)));
    // not found for other paths
    assert_eq!(reg.get_page(&b"/d/other.txt".to_vec()), None);
    // right after that page's tab is detached, it is gone
    let closed = reg.remove_page(1, 0);
    assert!(closed); // it was the window's last page
    assert_eq!(reg.get_page(&b"/d/f.txt".to_vec()), None);
}

#[test]
fn open_reuses_empty_page() {
    let mut reg = Windows::new();
    reg.new_window();
    let idx = reg.open_in(0, b"/d/a.txt".to_vec(), b"A".to_vec(), false).unwrap();
    assert_eq!(idx, 0); // the blank page was reused, no second tab
    assert_eq!(reg.windows[0].pages.len(), 1);
    assert_eq!(reg.windows[0].pages[0].file, Some(b"/d/a.txt".to_vec()));
    assert_eq!(reg.windows[0].pages[0].buffer, b"A".to_vec());
    assert!(!reg.windows[0].pages[0].changed);
    assert_eq!(reg.windows[0].title, b"a.txt".to_vec());
}

#[test]
fn open_appends_tab_when_no_empty_page() {
    let mut reg = Windows::new();
    reg.new_window();
    reg.open_in(0, b"/d/a.txt".to_vec(), b"A".to_vec(), false).unwrap();
    let idx = reg.open_in(0, b"/d/b.txt".to_vec(), b"B".to_vec(), false).unwrap();
    assert_eq!(idx, 1);
    assert_eq!(reg.windows[0].pages.len(), 2);
    assert_eq!(reg.windows[0].active, 1);
    assert_eq!(reg.windows[0].title, b"b.txt".to_vec());
}

#[test]
fn open_rejects_bytes_that_are_not_utf8() {
    let mut reg = Windows::new();
    reg.new_window();
    let r = reg.open_in(0, b"/d/bin".to_vec(), vec![0xC3, 0x28], false);
    assert!(r.is_err());
    assert!(reg.windows[0].pages[0].is_empty());
}

#[test]
fn open_decision_prefers_tab_in_same_window() {
    let mut reg = Windows::new();
    reg.new_window();
    reg.open_in(0, b"/d/a.txt".to_vec(), b"A".to_vec(), false).unwrap();
    assert!(matches!(
        reg.open_decision(0, &b"/d/a.txt".to_vec()),
        OpenDecision::PresentExisting(0)
    ));
    assert!(matches!(reg.open_decision(0, &b"/d/new.txt".to_vec()), OpenDecision::OpenHere(false)));
}

#[test]
fn open_already_open_elsewhere_warns_and_does_not_duplicate() {
    let mut reg = Windows::new();
    reg.new_window(); // window A
    reg.open_in(0, b"/d/f.txt".to_vec(), b"T".to_vec(), false).unwrap();
    reg.new_window(); // window B
    // from B, the decision is: open here, with the open-elsewhere warning
    let warn = match reg.open_decision(1, &b"/d/f.txt".to_vec()) {
        OpenDecision::OpenHere(warn) => warn,
        OpenDecision::PresentExisting(_) => panic!("file is not open in window B"),
    };
    assert!(warn);
    let idx = reg.open_in(1, b"/d/f.txt".to_vec(), b"T".to_vec(), warn).unwrap();
    // B displays one page for the file, flagged with the banner
    assert_eq!(idx, 0);
    assert_eq!(reg.windows[1].pages.len(), 1);
    assert!(reg.windows[1].pages[0].warning);
    assert_eq!(reg.windows[1].pages[0].file, Some(b"/d/f.txt".to_vec()));
    // window A still shows its single page for the file
    assert_eq!(reg.windows[0].pages.len(), 1);
    assert_eq!(reg.windows[0].pages[0].file, Some(b"/d/f.txt".to_vec()));
    assert!(!reg.windows[0].pages[0].warning);
    // and within A, get_page still reports exactly that page first
    assert_eq!(reg.get_page(&b"/d/f.txt".to_vec()), Some((0, 0)));
}

#[test]
fn save_as_onto_file_open_in_another_window_is_blocked() {
    let mut reg = Windows::new();
    reg.new_window(); // window A holds /d/f.txt
    reg.open_in(0, b"/d/f.txt".to_vec(), b"T".to_vec(), false).unwrap();
    reg.new_window(); // window B: user edits the untitled page
    reg.on_buffer_changed(1, 0, b"edited".to_vec());
    // user triggers save-as and picks the path bound in window A
    let d = reg.save_as_decide(1, 0, &Some(b"/d/f.txt".to_vec()));
    assert!(matches!(d, SaveAsDecision::Conflict));
    // nothing was written or bound: the page keeps its state
    assert!(reg.windows[1].pages[0].file.is_none());
    assert!(reg.windows[1].pages[0].changed);
}

#[test]
fn save_as_cancelled_aborts() {
    let mut reg = Windows::new();
    reg.new_window();
    assert!(matches!(reg.save_as_decide(0, 0, &None), SaveAsDecision::Aborted));
}

#[test]
fn save_as_over_own_binding_proceeds() {
    let mut reg = Windows::new();
    reg.new_window();
    reg.open_in(0, b"/d/f.txt".to_vec(), b"T".to_vec(), false).unwrap();
    let d = reg.save_as_decide(0, 0, &Some(b"/d/f.txt".to_vec()));
    assert!(matches!(d, SaveAsDecision::Proceed));
}

#[test]
fn save_as_commit_binds_then_save_clears_changed() {
    let mut reg = Windows::new();
    reg.new_window();
    reg.on_buffer_changed(0, 0, b"body".to_vec());
    let d = reg.save_as_decide(0, 0, &Some(b"/d/new.txt".to_vec()));
    assert!(matches!(d, SaveAsDecision::Proceed));
    reg.set_page_file(0, 0, b"/d/new.txt".to_vec());
    let (path, bytes) = reg.save_payload(0, 0).unwrap();
    assert_eq!(path, b"/d/new.txt".to_vec());
    assert_eq!(bytes, b"body".to_vec());
    reg.apply_save_result(0, 0, true);
    assert!(!reg.windows[0].pages[0].changed);
}

#[test]
fn failed_write_keeps_page_dirty() {
    let mut reg = Windows::new();
    reg.new_window();
    reg.open_in(0, b"/d/f.txt".to_vec(), b"T".to_vec(), false).unwrap();
    reg.on_buffer_changed(0, 0, b"T2".to_vec());
    reg.apply_save_result(0, 0, false);
    assert!(reg.windows[0].pages[0].changed);
    assert_eq!(reg.windows[0].pages[0].buffer, b"T2".to_vec());
}

#[test]
fn removing_middle_tab_selects_same_index() {
    let mut reg = Windows::new();
    reg.new_window();
    reg.open_in(0, b"/d/a".to_vec(), b"A".to_vec(), false).unwrap();
    reg.open_in(0, b"/d/b".to_vec(), b"B".to_vec(), false).unwrap();
    reg.open_in(0, b"/d/c".to_vec(), b"C".to_vec(), false).unwrap();
    let closed = reg.remove_page(0, 1);
    assert!(!closed);
    assert_eq!(reg.windows[0].pages.len(), 2);
    assert_eq!(reg.windows[0].active, 1); // the tab after the removed one
    assert_eq!(reg.windows[0].title, b"c".to_vec());
}

#[test]
fn removing_last_tab_selects_previous_index() {
    let mut reg = Windows::new();
    reg.new_window();
    reg.open_in(0, b"/d/a".to_vec(), b"A".to_vec(), false).unwrap();
    reg.open_in(0, b"/d/b".to_vec(), b"B".to_vec(), false).unwrap();
    let closed = reg.remove_page(0, 1);
    assert!(!closed);
    assert_eq!(reg.windows[0].active, 0);
    assert_eq!(reg.windows[0].title, b"a".to_vec());
}

#[test]
fn removing_only_tab_closes_window() {
    let mut reg = Windows::new();
    reg.new_window();
    reg.new_window();
    let closed = reg.remove_page(0, 0);
    assert!(closed);
    assert_eq!(reg.windows.len(), 1);
}

#[test]
fn present_switches_tab_and_title() {
    let mut reg = Windows::new();
    reg.new_window();
    reg.open_in(0, b"/d/a".to_vec(), b"A".to_vec(), false).unwrap();
    reg.open_in(0, b"/d/b".to_vec(), b"B".to_vec(), false).unwrap();
    reg.present(0, 0);
    assert_eq!(reg.windows[0].active, 0);
    assert_eq!(reg.windows[0].title, b"a".to_vec());
}

#[test]
fn close_untitled_empty_window_needs_no_confirmation() {
    let mut reg = Windows::new();
    reg.new_window();
    // one untitled, unchanged page: no dialog would be shown, so no
    // decisions are consumed, and the window goes away at once
    let inhibited = reg.close_window(0, &Vec::new());
    assert!(!inhibited);
    assert_eq!(reg.windows.len(), 0);
}

#[test]
fn close_with_saved_pages_needs_no_confirmation() {
    let mut reg = Windows::new();
    reg.new_window();
    reg.open_in(0, b"/d/a".to_vec(), b"A".to_vec(), false).unwrap();
    reg.open_in(0, b"/d/b".to_vec(), b"B".to_vec(), false).unwrap();
    let inhibited = reg.close_window(0, &Vec::new());
    assert!(!inhibited);
    assert_eq!(reg.windows.len(), 0);
}

#[test]
fn cancel_on_second_confirmation_keeps_first_two_of_three_pages() {
    let mut reg = Windows::new();
    reg.new_window();
    reg.open_in(0, b"/d/a".to_vec(), b"A".to_vec(), false).unwrap();
    reg.new_tab(0);
    reg.new_tab(0);
    // all three pages changed
    reg.on_buffer_changed(0, 0, b"a2".to_vec());
    reg.on_buffer_changed(0, 1, b"b2".to_vec());
    reg.on_buffer_changed(0, 2, b"c2".to_vec());
    // first confirmation (last tab): close without saving; second: cancel
    let inhibited = reg.close_window(0, &vec![false, true]);
    assert!(inhibited);
    assert_eq!(reg.windows.len(), 1);
    // N = 3, cancel on the k = 2nd confirmation from the end:
    // exactly the first N - k + 1 = 2 pages remain, in order
    assert_eq!(reg.windows[0].pages.len(), 2);
    assert_eq!(reg.windows[0].pages[0].buffer, b"a2".to_vec());
    assert_eq!(reg.windows[0].pages[1].buffer, b"b2".to_vec());
}

#[test]
fn unchanged_tail_pages_close_without_consuming_decisions() {
    let mut reg = Windows::new();
    reg.new_window();
    reg.open_in(0, b"/d/a".to_vec(), b"A".to_vec(), false).unwrap();
    reg.open_in(0, b"/d/b".to_vec(), b"B".to_vec(), false).unwrap();
    reg.on_buffer_changed(0, 0, b"a2".to_vec());
    // page 1 is unchanged and is detached outright; page 0 asks and blocks
    let inhibited = reg.close_window(0, &vec![true]);
    assert!(inhibited);
    assert_eq!(reg.windows[0].pages.len(), 1);
    assert_eq!(reg.windows[0].pages[0].buffer, b"a2".to_vec());
}

#[test]
fn changed_page_with_no_decision_blocks_close() {
    let mut reg = Windows::new();
    reg.new_window();
    reg.on_buffer_changed(0, 0, b"x".to_vec());
    let inhibited = reg.close_window(0, &Vec::new());
    assert!(inhibited);
    assert_eq!(reg.windows.len(), 1);
}

#[test]
fn find_window_by_identity() {
    let mut reg = Windows::new();
    reg.new_window();
    reg.new_window();
    let id1 = reg.windows[1].id;
    assert_eq!(reg.find_window(id1), Some(1));
    assert_eq!(reg.find_window(id1 + 1000), None);
}

#[test]
fn destroy_unregisters_window() {
    let mut reg = Windows::new();
    reg.new_window();
    reg.new_window();
    let id1 = reg.windows[1].id;
    reg.destroy(0);
    assert_eq!(reg.windows.len(), 1);
    assert_eq!(reg.windows[0].id, id1);
}

#[test]
fn dismiss_warning_hides_banner() {
    let mut reg = Windows::new();
    reg.new_window();
    reg.open_in(0, b"/d/f".to_vec(), b"T".to_vec(), true).unwrap();
    assert!(reg.windows[0].pages[0].warning);
    reg.dismiss_warning(0, 0);
    assert!(!reg.windows[0].pages[0].warning);
}

#[test]
fn page_num_finds_tab_by_identity() {
    let mut reg = Windows::new();
    reg.new_window();
    reg.new_tab(0);
    let id0 = reg.windows[0].pages[0].id;
    let id1 = reg.windows[0].pages[1].id;
    assert_eq!(reg.windows[0].page_num(id0), Some(0));
    assert_eq!(reg.windows[0].page_num(id1), Some(1));
    assert_eq!(reg.windows[0].page_num(id0 + id1 + 99), None);
}

#[test]
fn get_active_page_follows_the_shown_tab() {
    let mut reg = Windows::new();
    reg.new_window();
    assert_eq!(reg.windows[0].get_active_page(), Some(0));
    reg.open_in(0, b"/d/a".to_vec(), b"A".to_vec(), false).unwrap();
    reg.open_in(0, b"/d/b".to_vec(), b"B".to_vec(), false).unwrap();
    assert_eq!(reg.windows[0].get_active_page(), Some(1));
}

#[test]
fn window_close_loop_blocks_on_missing_decision_midway() {
    let mut win = Window::new(0, 1);
    win.create_new_page(2);
    win.create_new_page(3);
    // only the first page is changed; the two unchanged tail pages are
    // detached without a question, then the changed one blocks for want
    // of a decision
    let mut pg = std::mem::replace(&mut win.pages, Vec::new());
    pg[0].on_buffer_changed(b"x".to_vec());
    win.pages = pg;
    let inhibited = win.request_close(&Vec::new());
    assert!(inhibited);
    assert_eq!(win.pages.len(), 1);
    assert!(win.pages[0].changed);
}

#[test]
fn window_close_loop_empties_window_when_all_proceed() {
    let mut win = Window::new(0, 1);
    win.create_new_page(2);
    let inhibited = win.request_close(&Vec::new());
    assert!(!inhibited);
    assert_eq!(win.pages.len(), 0);
}
