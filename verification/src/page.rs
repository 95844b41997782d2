//! One open document: a text buffer, an optional backing file, and the
//! "changed" flag that drives unsaved-change confirmation.
//!
//! File reads and writes and the modal dialogs are performed outside; their
//! outcomes come in as arguments (the bytes a read produced, whether a write
//! succeeded, which button a dialog returned), and every decision about them
//! is made and verified here.

use vstd::prelude::*;

use crate::label::{basename, basename_of, copy_bytes, untitled_label, untitled_label_bytes};
use crate::utf8::{is_utf8, is_valid_utf8};

verus! {

/// Why loading a file's bytes into a page was refused.
#[derive(Debug)]
pub enum LoadError {
    /// The bytes are not well-formed UTF-8.
    NotUtf8,
}

/// What the unsaved-change confirmation dialog returned.
pub enum ConfirmChoice {
    /// The "Save" button.
    Save,
    /// The "Cancel" button.
    Cancel,
    /// The "Close without saving" button.
    CloseWithoutSaving,
    /// The dialog was dismissed some other way (window-manager close).
    Dismissed,
}

/// What the caller of the confirmation flow must do next.
pub enum ConfirmAction {
    /// Run the save flow; its outcome decides whether to block.
    RunSave,
    /// Block the destructive action that asked for confirmation.
    Block,
    /// Proceed, discarding any unsaved changes.
    Proceed,
}

/// One open document.
pub struct Page {
    /// Identity of the page, unique across all windows; it stands for the
    /// one-to-one widgets a page owns, which the toolkit compares by pointer.
    pub id: u64,
    /// The backing file's path, or `None` for an untitled page.
    pub file: Option<Vec<u8>>,
    /// The text buffer's contents, always well-formed UTF-8.
    pub buffer: Vec<u8>,
    /// True once the buffer has been edited since the last load or save.
    pub changed: bool,
    /// True while the "this file is open in another window" banner shows.
    pub warning: bool,
}

impl Page {
    /// The page's internal invariant: its buffer holds well-formed UTF-8.
    pub open spec fn wf(self) -> bool {
        is_utf8(self.buffer@)
    }

    /// An empty page: untitled, with an empty buffer. Such a page is reused
    /// by an open request instead of adding a tab.
    pub open spec fn spec_is_empty(self) -> bool {
        self.file is None && self.buffer@.len() == 0
    }

    /// The page's backing file is `path`.
    pub open spec fn has_file(self, path: Seq<u8>) -> bool {
        match self.file {
            Some(f) => f@ == path,
            None => false,
        }
    }

    /// The tab label: the backing file's base name, or `untitled`.
    pub open spec fn spec_label(self) -> Seq<u8> {
        match self.file {
            Some(f) => basename_of(f@),
            None => untitled_label(),
        }
    }

    /// A fresh untitled page with an empty buffer.
    pub fn new(id: u64) -> (p: Page)
        ensures
            p.id == id,
            p.file is None,
            p.buffer@.len() == 0,
            !p.changed,
            !p.warning,
            p.wf(),
    {
        let p = Page { id, file: None, buffer: Vec::new(), changed: false, warning: false };
        assert(is_utf8(p.buffer@));
        p
    }

    /// The backing file's path, if any.
    pub fn file(&self) -> (r: Option<Vec<u8>>)
        ensures
            match self.file {
                Some(f) => r matches Some(g) && g@ == f@,
                None => r is None,
            },
    {
        match &self.file {
            Some(f) => Some(copy_bytes(f)),
            None => None,
        }
    }

    /// Binds (or unbinds) the backing file.
    pub fn set_file(&mut self, file: Option<Vec<u8>>)
        ensures
            *final(self) == (Page { file, ..*old(self) }),
    {
        self.file = file;
    }

    /// Whether the buffer has unsaved edits.
    pub fn changed(&self) -> (r: bool)
        ensures
            r == self.changed,
    {
        self.changed
    }

    /// Sets the changed flag directly.
    pub fn set_changed(&mut self, changed: bool)
        ensures
            *final(self) == (Page { changed, ..*old(self) }),
    {
        self.changed = changed;
    }

    /// Whether the page is empty (untitled and blank).
    pub fn is_empty(&self) -> (r: bool)
        ensures
            r == self.spec_is_empty(),
    {
        self.file.is_none() && self.buffer.len() == 0
    }

    /// The tab label, as bytes.
    pub fn label(&self) -> (r: Vec<u8>)
        ensures
            r@ == self.spec_label(),
    {
        match &self.file {
            Some(f) => basename(f),
            None => untitled_label_bytes(),
        }
    }

    /// The buffer-change signal: the buffer now holds `contents`, and the
    /// page is marked changed.
    pub fn on_buffer_changed(&mut self, contents: Vec<u8>)
        requires
            is_utf8(contents@),
        ensures
            *final(self) == (Page { buffer: contents, changed: true, ..*old(self) }),
            final(self).wf(),
    {
        self.buffer = contents;
        self.changed = true;
    }

    /// Loads a file that was read as `data`: replaces the buffer, binds the
    /// file, and clears the changed flag — or refuses the bytes unchanged
    /// when they are not UTF-8.
    pub fn load_file(&mut self, path: Vec<u8>, data: Vec<u8>) -> (r: Result<(), LoadError>)
        ensures
            r is Ok <==> is_utf8(data@),
            r is Ok ==> loaded_from(*old(self), *final(self), path@, data@),
            r is Ok ==> final(self).wf(),
            r is Err ==> *final(self) == *old(self),
    {
        if is_valid_utf8(&data) {
            self.file = Some(path);
            self.buffer = data;
            self.changed = false;
            Ok(())
        } else {
            Err(LoadError::NotUtf8)
        }
    }

    /// What a save must write: the backing file's path and the buffer's
    /// bytes — or nothing, when the page is untitled and the save-as flow
    /// must choose a path first.
    pub fn save_payload(&self) -> (r: Option<(Vec<u8>, Vec<u8>)>)
        ensures
            match self.file {
                Some(f) => r matches Some(pair) && pair.0@ == f@ && pair.1@ == self.buffer@,
                None => r is None,
            },
    {
        match &self.file {
            Some(f) => Some((copy_bytes(f), copy_bytes(&self.buffer))),
            None => None,
        }
    }

    /// Records the outcome of writing the buffer to the backing file: a
    /// successful write clears the changed flag; a failed one leaves the
    /// page as it was (the user may retry).
    pub fn apply_save_result(&mut self, ok: bool)
        requires
            old(self).file is Some,
        ensures
            ok ==> *final(self) == (Page { changed: false, ..*old(self) }),
            !ok ==> *final(self) == *old(self),
    {
        if ok {
            self.changed = false;
        }
    }

    /// The unsaved-change confirmation flow: with nothing to lose it
    /// proceeds without a dialog; otherwise `choice` is what the dialog
    /// returned.
    pub fn save_confirm(&self, choice: ConfirmChoice) -> (r: ConfirmAction)
        ensures
            r == spec_confirm_action(self.changed, choice),
    {
        if !self.changed {
            ConfirmAction::Proceed
        } else {
            match choice {
                ConfirmChoice::Save => ConfirmAction::RunSave,
                ConfirmChoice::Cancel => ConfirmAction::Block,
                ConfirmChoice::CloseWithoutSaving => ConfirmAction::Proceed,
                ConfirmChoice::Dismissed => ConfirmAction::Block,
            }
        }
    }

    /// Shows the "open in another window" banner.
    pub fn show_warning(&mut self)
        ensures
            *final(self) == (Page { warning: true, ..*old(self) }),
    {
        self.warning = true;
    }

    /// Hides the banner (its close response).
    pub fn dismiss_warning(&mut self)
        ensures
            *final(self) == (Page { warning: false, ..*old(self) }),
    {
        self.warning = false;
    }
}

/// `post` is `pre` after a successful load of `data` from the file at
/// `path`: the buffer holds exactly the bytes read, the file is bound, and
/// the changed flag is clear.
pub open spec fn loaded_from(pre: Page, post: Page, path: Seq<u8>, data: Seq<u8>) -> bool {
    &&& post.id == pre.id
    &&& post.file matches Some(f) && f@ == path
    &&& post.buffer@ == data
    &&& post.changed == false
    &&& post.warning == pre.warning
}

/// The decision table of the confirmation dialog: an unchanged page never
/// blocks and never asks; "Cancel" blocks, "Close without saving" proceeds,
/// any other dismissal blocks (the conservative outcome), and "Save" defers
/// to the save flow.
pub open spec fn spec_confirm_action(changed: bool, choice: ConfirmChoice) -> ConfirmAction {
    if !changed {
        ConfirmAction::Proceed
    } else {
        match choice {
            ConfirmChoice::Save => ConfirmAction::RunSave,
            ConfirmChoice::Cancel => ConfirmAction::Block,
            ConfirmChoice::CloseWithoutSaving => ConfirmAction::Proceed,
            ConfirmChoice::Dismissed => ConfirmAction::Block,
        }
    }
}

/// Save round trip: a successful save writes exactly the buffer's bytes
/// ([`Page::save_payload`]), those bytes are well-formed UTF-8, so a fresh
/// load of them succeeds and reproduces the saved text byte for byte, with
/// the changed flag clear.
pub proof fn lemma_save_round_trip(p: Page, fresh: Page, after: Page, path: Seq<u8>)
    requires
        p.wf(),
        p.has_file(path),
        loaded_from(fresh, after, path, p.buffer@),
    ensures
        is_utf8(p.buffer@),
        after.buffer@ == p.buffer@,
        !after.changed,
        after.has_file(path),
{
}

} // verus!
