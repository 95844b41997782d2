use vanilla_text::page::{ConfirmAction, ConfirmChoice, LoadError, Page};

#[test]
fn new_page_is_empty_untitled_unchanged() {
    let p = Page::new(7);
    assert!(p.is_empty());
    assert!(p.file().is_none());
    assert!(!p.changed());
    assert_eq!(p.label(), b"untitled".to_vec());
}

#[test]
fn page_with_file_is_not_empty() {
    let mut p = Page::new(0);
    p.load_file(b"/tmp/a.txt".to_vec(), Vec::new()).unwrap();
    assert!(!p.is_empty());
}

#[test]
fn page_with_text_is_not_empty() {
    let mut p = Page::new(0);
    p.on_buffer_changed(b"x".to_vec());
    assert!(!p.is_empty());
}

#[test]
fn load_clears_changed_and_sets_label() {
    let mut p = Page::new(0);
    p.on_buffer_changed(b"scratch".to_vec());
    assert!(p.changed());
    p.load_file(b"/home/user/notes.txt".to_vec(), b"contents".to_vec()).unwrap();
    assert!(!p.changed());
    assert_eq!(p.label(), b"notes.txt".to_vec());
    assert_eq!(p.buffer, b"contents".to_vec());
    assert_eq!(p.file, Some(b"/home/user/notes.txt".to_vec()));
}

#[test]
fn load_rejects_bytes_that_are_not_utf8() {
    let mut p = Page::new(0);
    p.on_buffer_changed(b"kept".to_vec());
    let r = p.load_file(b"/tmp/bin".to_vec(), vec![0xFF, 0xFE]);
    assert!(matches!(r, Err(LoadError::NotUtf8)));
    // the page is exactly as it was
    assert!(p.file.is_none());
    assert_eq!(p.buffer, b"kept".to_vec());
    assert!(p.changed());
}

#[test]
fn edit_sets_changed_until_save() {
    let mut p = Page::new(0);
    p.load_file(b"/tmp/f".to_vec(), b"one".to_vec()).unwrap();
    assert!(!p.changed());
    p.on_buffer_changed(b"two".to_vec());
    assert!(p.changed());
    p.apply_save_result(true);
    assert!(!p.changed());
}

#[test]
fn failed_save_keeps_changed() {
    let mut p = Page::new(0);
    p.load_file(b"/tmp/f".to_vec(), b"one".to_vec()).unwrap();
    p.on_buffer_changed(b"two".to_vec());
    p.apply_save_result(false);
    assert!(p.changed());
    assert_eq!(p.buffer, b"two".to_vec());
}

#[test]
fn save_payload_is_path_and_buffer() {
    let mut p = Page::new(0);
    p.load_file(b"/tmp/f".to_vec(), b"text T".to_vec()).unwrap();
    p.on_buffer_changed(b"text T2".to_vec());
    let (path, bytes) = p.save_payload().unwrap();
    assert_eq!(path, b"/tmp/f".to_vec());
    assert_eq!(bytes, b"text T2".to_vec());
}

#[test]
fn untitled_page_has_no_save_payload() {
    let mut p = Page::new(0);
    p.on_buffer_changed(b"text".to_vec());
    assert!(p.save_payload().is_none());
}

#[test]
fn save_then_load_round_trips_exactly() {
    let mut p = Page::new(0);
    p.load_file(b"/tmp/f".to_vec(), b"".to_vec()).unwrap();
    p.on_buffer_changed("caf\u{e9} \u{20ac}\n".as_bytes().to_vec());
    // what save writes to disk:
    let (path, bytes) = p.save_payload().unwrap();
    p.apply_save_result(true);
    // a fresh load of that file:
    let mut q = Page::new(1);
    q.load_file(path, bytes).unwrap();
    assert_eq!(q.buffer, p.buffer);
    assert!(!q.changed());
    assert_eq!(q.file, p.file);
}

#[test]
fn confirm_unchanged_page_proceeds_without_dialog() {
    let p = Page::new(0);
    // whatever the dialog would have said, it is never shown
    assert!(matches!(p.save_confirm(ConfirmChoice::Cancel), ConfirmAction::Proceed));
    assert!(matches!(p.save_confirm(ConfirmChoice::Dismissed), ConfirmAction::Proceed));
}

#[test]
fn confirm_changed_page_decision_table() {
    let mut p = Page::new(0);
    p.on_buffer_changed(b"x".to_vec());
    assert!(matches!(p.save_confirm(ConfirmChoice::Save), ConfirmAction::RunSave));
    assert!(matches!(p.save_confirm(ConfirmChoice::Cancel), ConfirmAction::Block));
    assert!(matches!(
        p.save_confirm(ConfirmChoice::CloseWithoutSaving),
        ConfirmAction::Proceed
    ));
    assert!(matches!(p.save_confirm(ConfirmChoice::Dismissed), ConfirmAction::Block));
}

#[test]
fn warning_banner_shows_and_dismisses() {
    let mut p = Page::new(0);
    p.show_warning();
    assert!(p.warning);
    p.dismiss_warning();
    assert!(!p.warning);
}

#[test]
fn set_file_and_set_changed_accessors() {
    let mut p = Page::new(0);
    p.set_file(Some(b"/tmp/z".to_vec()));
    assert_eq!(p.file().unwrap(), b"/tmp/z".to_vec());
    assert_eq!(p.label(), b"z".to_vec());
    p.set_changed(true);
    assert!(p.changed());
    p.set_file(None);
    assert!(p.file().is_none());
    assert_eq!(p.label(), b"untitled".to_vec());
}
