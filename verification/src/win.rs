//! Windows and the registry of live windows.
//!
//! A [`Window`] owns an ordered collection of [`Page`]s, shown as tabs, plus
//! the active-tab index and the window title. [`Windows`] is the registry of
//! live windows; it answers "is this file already open somewhere", routes
//! open requests to an existing page instead of duplicating it, and owns the
//! identifiers that stand for widget identity.

use vstd::prelude::*;

use crate::label::{basename_of, bytes_eq, untitled_label, untitled_label_bytes};
use crate::page::{ConfirmAction, ConfirmChoice, LoadError, Page};
use crate::utf8::{is_utf8, is_valid_utf8};

verus! {

/// One top-level window: a tab container of pages.
pub struct Window {
    /// Identity of the window, unique across the registry.
    pub id: u64,
    /// The open pages, in tab display order.
    pub pages: Vec<Page>,
    /// Index of the active (displayed) tab.
    pub active: usize,
    /// The window title, refreshed from the active page's label.
    pub title: Vec<u8>,
}

impl Window {
    /// The window's invariant: every page is well formed, and while any
    /// pages remain the active index points at one of them.
    pub open spec fn wf(self) -> bool {
        &&& forall|i: int|
            0 <= i < self.pages@.len() ==> (#[trigger] self.pages@[i]).wf()
        &&& self.pages@.len() > 0 ==> (self.active as int) < self.pages@.len()
    }

    /// A fresh window with one blank page.
    pub fn new(win_id: u64, page_id: u64) -> (w: Window)
        ensures
            w.id == win_id,
            w.pages@.len() == 1,
            w.pages@[0].id == page_id,
            w.pages@[0].spec_is_empty(),
            !w.pages@[0].changed,
            !w.pages@[0].warning,
            w.active == 0,
            w.title@ == untitled_label(),
            w.wf(),
    {
        let p = Page::new(page_id);
        let mut pages: Vec<Page> = Vec::new();
        pages.push(p);
        Window { id: win_id, pages, active: 0, title: untitled_label_bytes() }
    }

    /// Appends a blank page as a new tab; returns its index. The new tab is
    /// not switched to.
    pub fn create_new_page(&mut self, page_id: u64) -> (idx: usize)
        requires
            old(self).wf(),
            old(self).pages@.len() > 0,
        ensures
            idx == old(self).pages@.len(),
            final(self).pages@.len() == old(self).pages@.len() + 1,
            forall|j: int|
                0 <= j < old(self).pages@.len() ==> final(self).pages@[j] == old(self).pages@[j],
            final(self).pages@[idx as int].id == page_id,
            final(self).pages@[idx as int].spec_is_empty(),
            !final(self).pages@[idx as int].changed,
            !final(self).pages@[idx as int].warning,
            final(self).id == old(self).id,
            final(self).active == old(self).active,
            final(self).title == old(self).title,
            final(self).wf(),
    {
        let idx = self.pages.len();
        let p = Page::new(page_id);
        self.pages.push(p);
        idx
    }

    /// The first page bound to `file`, if any: tab scan order, path
    /// equality.
    pub fn get_page(&self, file: &Vec<u8>) -> (r: Option<usize>)
        ensures
            r matches Some(i) ==> i < self.pages@.len() && self.pages@[i as int].has_file(file@),
            r matches Some(i) ==> forall|j: int|
                0 <= j < i ==> !(#[trigger] self.pages@[j]).has_file(file@),
            r is None ==> forall|j: int|
                0 <= j < self.pages@.len() ==> !(#[trigger] self.pages@[j]).has_file(file@),
    {
        let n = self.pages.len();
        let mut k: usize = 0;
        while k < n
            invariant
                k <= n,
                n == self.pages@.len(),
                forall|j: int| 0 <= j < k ==> !(#[trigger] self.pages@[j]).has_file(file@),
            decreases n - k,
        {
            let pg = &self.pages[k];
            match &pg.file {
                Some(f) => {
                    if bytes_eq(f, file) {
                        return Some(k);
                    }
                },
                None => {},
            }
            assert(!self.pages@[k as int].has_file(file@));
            k = k + 1;
        }
        None
    }

    /// The first empty (untitled, blank) page, if any: such a page is
    /// reused by an open request instead of adding a tab.
    pub fn get_empty_page(&self) -> (r: Option<usize>)
        ensures
            r matches Some(i) ==> i < self.pages@.len() && self.pages@[i as int].spec_is_empty(),
            r matches Some(i) ==> forall|j: int|
                0 <= j < i ==> !(#[trigger] self.pages@[j]).spec_is_empty(),
            r is None ==> forall|j: int|
                0 <= j < self.pages@.len() ==> !(#[trigger] self.pages@[j]).spec_is_empty(),
    {
        let n = self.pages.len();
        let mut k: usize = 0;
        while k < n
            invariant
                k <= n,
                n == self.pages@.len(),
                forall|j: int| 0 <= j < k ==> !(#[trigger] self.pages@[j]).spec_is_empty(),
            decreases n - k,
        {
            let pg = &self.pages[k];
            if pg.is_empty() {
                return Some(k);
            }
            k = k + 1;
        }
        None
    }

    /// The tab index of the page with identity `page_id`, if it is here.
    pub fn page_num(&self, page_id: u64) -> (r: Option<usize>)
        ensures
            r matches Some(i) ==> i < self.pages@.len() && self.pages@[i as int].id == page_id,
            r is None ==> forall|j: int|
                0 <= j < self.pages@.len() ==> (#[trigger] self.pages@[j]).id != page_id,
    {
        let n = self.pages.len();
        let mut k: usize = 0;
        while k < n
            invariant
                k <= n,
                n == self.pages@.len(),
                forall|j: int| 0 <= j < k ==> (#[trigger] self.pages@[j]).id != page_id,
            decreases n - k,
        {
            let pg = &self.pages[k];
            if pg.id == page_id {
                return Some(k);
            }
            k = k + 1;
        }
        None
    }

    /// The active page's index, while any pages remain.
    pub fn get_active_page(&self) -> (r: Option<usize>)
        ensures
            self.pages@.len() > 0 ==> (r matches Some(i) && i == self.active),
            self.pages@.len() == 0 ==> r is None,
    {
        if self.pages.len() > 0 {
            Some(self.active)
        } else {
            None
        }
    }

    /// Switches the displayed tab to `n` and refreshes the window title
    /// from that page's label (the tab-switched signal).
    pub fn set_active_page(&mut self, n: usize)
        requires
            n < old(self).pages@.len(),
        ensures
            final(self).active == n,
            final(self).title@ == old(self).pages@[n as int].spec_label(),
            final(self).pages == old(self).pages,
            final(self).id == old(self).id,
            old(self).wf() ==> final(self).wf(),
    {
        let t = self.pages[n].label();
        self.title = t;
        self.active = n;
    }

    /// The tab-removed signal: drops page `n` from the collection. If pages
    /// remain, a neighboring tab (the same index, or the one before it when
    /// the last tab was removed) becomes active and gives the window title;
    /// if none remain, the window must close, and the result says so.
    pub fn on_page_removed(&mut self, n: usize) -> (close_win: bool)
        requires
            n < old(self).pages@.len(),
        ensures
            final(self).pages@ == old(self).pages@.remove(n as int),
            final(self).id == old(self).id,
            close_win == (old(self).pages@.len() == 1),
            old(self).pages@.len() > 1 ==> final(self).active as int == (if n as int
                == old(self).pages@.len() - 1 {
                n as int - 1
            } else {
                n as int
            }),
            old(self).pages@.len() > 1 ==> final(self).title@ == final(self).pages@[final(self).active as int].spec_label(),
            old(self).pages@.len() == 1 ==> final(self).active == old(self).active && final(self).title == old(self).title,
            old(self).wf() ==> final(self).wf(),
    {
        self.pages.remove(n);
        let len = self.pages.len();
        if len > 0 {
            let i = if n == len {
                n - 1
            } else {
                n
            };
            self.active = i;
            let t = self.pages[i].label();
            self.title = t;
            false
        } else {
            true
        }
    }

    /// Loads a file's bytes into the page at `i`: the page's buffer,
    /// binding, label, and changed flag are those of a fresh load; with
    /// `warning` set the "open in another window" banner is shown on it.
    /// The tab is switched to the page and the title refreshed.
    pub fn load_into(&mut self, i: usize, path: Vec<u8>, data: Vec<u8>, warning: bool)
        requires
            i < old(self).pages@.len(),
            is_utf8(data@),
        ensures
            final(self).pages@.len() == old(self).pages@.len(),
            forall|j: int|
                0 <= j < old(self).pages@.len() && j != i ==> final(self).pages@[j] == old(self).pages@[j],
            final(self).pages@[i as int].id == old(self).pages@[i as int].id,
            final(self).pages@[i as int].has_file(path@),
            final(self).pages@[i as int].buffer@ == data@,
            !final(self).pages@[i as int].changed,
            final(self).pages@[i as int].warning == (old(self).pages@[i as int].warning
                || warning),
            final(self).active == i,
            final(self).title@ == basename_of(path@),
            final(self).id == old(self).id,
            old(self).wf() ==> final(self).wf(),
    {
        let ghost pre = self.pages@;
        let mut pg = self.pages.remove(i);
        let r = pg.load_file(path, data);
        proof {
            assert(r is Ok);
        }
        if warning {
            pg.show_warning();
        }
        self.pages.insert(i, pg);
        proof {
            assert(self.pages@ =~= pre.update(i as int, self.pages@[i as int]));
        }
        self.active = i;
        let t = self.pages[i].label();
        self.title = t;
    }

    /// Opens a file in this window: the first empty page is reused, else a
    /// new tab is appended (with identity `new_page_id`); the file's bytes
    /// are loaded into it and it becomes the active tab. Returns the
    /// page's index and whether a new tab was created.
    pub fn open(&mut self, path: Vec<u8>, data: Vec<u8>, warning: bool, new_page_id: u64) -> (r: (
        usize,
        bool,
    ))
        requires
            is_utf8(data@),
            old(self).wf(),
            old(self).pages@.len() > 0,
        ensures
            r.1 == (forall|j: int|
                0 <= j < old(self).pages@.len() ==> !(#[trigger] old(self).pages@[j]).spec_is_empty()),
            !r.1 ==> r.0 < old(self).pages@.len() && old(self).pages@[r.0 as int].spec_is_empty()
                && final(self).pages@.len() == old(self).pages@.len() && final(self).pages@[r.0
                as int].id == old(self).pages@[r.0 as int].id && final(self).pages@[r.0
                as int].warning == (old(self).pages@[r.0 as int].warning || warning),
            r.1 ==> r.0 == old(self).pages@.len() && final(self).pages@.len() == old(self).pages@.len() + 1 && final(self).pages@[r.0 as int].id == new_page_id && final(self).pages@[r.0 as int].warning == warning,
            forall|j: int|
                0 <= j < old(self).pages@.len() && j != r.0 ==> final(self).pages@[j] == old(self).pages@[j],
            final(self).pages@[r.0 as int].has_file(path@),
            final(self).pages@[r.0 as int].buffer@ == data@,
            !final(self).pages@[r.0 as int].changed,
            final(self).active == r.0,
            final(self).title@ == basename_of(path@),
            final(self).id == old(self).id,
            final(self).wf(),
    {
        match self.get_empty_page() {
            Some(e) => {
                self.load_into(e, path, data, warning);
                (e, false)
            },
            None => {
                let idx = self.create_new_page(new_page_id);
                self.load_into(idx, path, data, warning);
                (idx, true)
            },
        }
    }

    /// The window-close confirmation loop: pages are taken from the tail;
    /// an unchanged page is detached outright, and each changed page
    /// consumes the next block decision in `blocks` (the resolved outcome
    /// of its confirmation dialog). A blocking decision — or a changed page
    /// with no decision left, the conservative default — stops the loop
    /// with that page and everything before it still present, and the
    /// close inhibited. Detaching runs the tab-removed bookkeeping, so
    /// while pages remain the last one is active and titles the window.
    pub fn request_close(&mut self, blocks: &Vec<bool>) -> (inhibited: bool)
        ensures
            final(self).pages@ == close_result(old(self).pages@, blocks@).0,
            inhibited == close_result(old(self).pages@, blocks@).1,
            final(self).id == old(self).id,
            final(self).pages@.len() == old(self).pages@.len() ==> final(self).active == old(self).active && final(self).title == old(self).title,
            final(self).pages@.len() < old(self).pages@.len() && final(self).pages@.len() > 0
                ==> final(self).active as int == final(self).pages@.len() - 1 && final(self).title@ == final(self).pages@.last().spec_label(),
            old(self).wf() ==> final(self).wf(),
    {
        let ghost pages0 = self.pages@;
        let ghost blocks0 = blocks@;
        let ghost active0 = self.active;
        let ghost title0 = self.title;
        let ghost wf0 = old(self).wf();
        let mut bi: usize = 0;
        proof {
            assert(blocks0.skip(0) =~= blocks0);
        }
        loop
            invariant
                bi <= blocks0.len(),
                blocks0 == blocks@,
                pages0 == old(self).pages@,
                active0 == old(self).active,
                title0 == old(self).title,
                wf0 == old(self).wf(),
                close_result(pages0, blocks0) == close_result(self.pages@, blocks0.skip(bi as int)),
                self.pages@ == pages0.take(self.pages@.len() as int),
                self.pages@.len() <= pages0.len(),
                self.pages@.len() == pages0.len() ==> bi == 0 && self.active == active0
                    && self.title == title0,
                self.pages@.len() < pages0.len() && self.pages@.len() > 0 ==> self.active as int
                    == self.pages@.len() - 1 && self.title@ == self.pages@.last().spec_label(),
                self.id == old(self).id,
                wf0 ==> self.wf(),
            decreases self.pages@.len(),
        {
            let len = self.pages.len();
            if len == 0 {
                proof {
                    assert(close_result(self.pages@, blocks0.skip(bi as int)) == (
                        self.pages@,
                        false,
                    ));
                    assert(close_result(pages0, blocks0).0 == self.pages@);
                    assert(close_result(pages0, blocks0).1 == false);
                }
                return false;
            }
            let last = len - 1;
            let ghost cur = self.pages@;
            let ghost rest = blocks0.skip(bi as int);
            let changed = self.pages[last].changed;
            if !changed {
                proof {
                    assert(close_result(cur, rest) == close_result(cur.drop_last(), rest));
                    assert(cur.remove(last as int) =~= cur.drop_last());
                    assert(cur.drop_last() =~= pages0.take(len - 1));
                }
                let _ = self.on_page_removed(last);
            } else {
                if bi < blocks.len() {
                    let b = blocks[bi];
                    if b {
                        proof {
                            assert(rest[0] == blocks0[bi as int]);
                            assert(close_result(cur, rest) == (cur, true));
                        }
                        return true;
                    } else {
                        proof {
                            assert(rest[0] == blocks0[bi as int]);
                            assert(close_result(cur, rest) == close_result(
                                cur.drop_last(),
                                rest.skip(1),
                            ));
                            assert(rest.skip(1) =~= blocks0.skip(bi as int + 1));
                            assert(cur.remove(last as int) =~= cur.drop_last());
                            assert(cur.drop_last() =~= pages0.take(len - 1));
                        }
                        bi = bi + 1;
                        let _ = self.on_page_removed(last);
                    }
                } else {
                    proof {
                        assert(rest.len() == 0);
                        assert(close_result(cur, rest) == (cur, true));
                    }
                    return true;
                }
            }
        }
    }
}

/// The mathematical result of the window-close confirmation loop: the pages
/// still present afterwards, and whether the close was inhibited. Pages are
/// considered from the tail; an unchanged page is detached without a
/// question, and each changed page consumes the next decision in `blocks`
/// (`true` = its confirmation blocked). A missing decision blocks, the
/// conservative default.
pub open spec fn close_result(pages: Seq<Page>, blocks: Seq<bool>) -> (Seq<Page>, bool)
    decreases pages.len(),
{
    if pages.len() == 0 {
        (pages, false)
    } else if !pages.last().changed {
        close_result(pages.drop_last(), blocks)
    } else if blocks.len() == 0 || blocks[0] {
        (pages, true)
    } else {
        close_result(pages.drop_last(), blocks.skip(1))
    }
}

/// Counts the changed pages in `pages`: each one asks for a confirmation
/// when the window closes.
pub open spec fn count_changed(pages: Seq<Page>) -> int
    decreases pages.len(),
{
    if pages.len() == 0 {
        0
    } else {
        count_changed(pages.drop_last()) + (if pages.last().changed {
            1int
        } else {
            0int
        })
    }
}

/// Closing a window whose confirmations are answered "proceed" until the
/// k-th (1-indexed, counted from the end of the tab row) blocks: the close
/// is inhibited, the page that blocked — the k-th changed page from the
/// end, at index `i` — and every page before it are still present, in
/// order, and everything after it is detached.
pub proof fn lemma_close_blocked_at(pages: Seq<Page>, blocks: Seq<bool>, i: int, k: int)
    requires
        0 <= i < pages.len(),
        pages[i].changed,
        count_changed(pages.skip(i + 1)) == k - 1,
        blocks.len() >= k,
        k >= 1,
        forall|j: int| 0 <= j < k - 1 ==> !blocks[j],
        blocks[k - 1],
    ensures
        close_result(pages, blocks).0 == pages.take(i + 1),
        close_result(pages, blocks).1 == true,
    decreases pages.len(),
{
    let last = pages.len() - 1;
    if i == last {
        assert(pages.skip(i + 1) =~= Seq::<Page>::empty());
        assert(k == 1);
        assert(blocks[0]);
        assert(pages.take(i + 1) =~= pages);
    } else {
        let tail = pages.skip(i + 1);
        assert(tail.len() > 0);
        assert(tail.last() == pages.last());
        assert(tail.drop_last() =~= pages.drop_last().skip(i + 1));
        if !pages.last().changed {
            assert(count_changed(tail) == count_changed(tail.drop_last()));
            lemma_close_blocked_at(pages.drop_last(), blocks, i, k);
            assert(pages.drop_last().take(i + 1) =~= pages.take(i + 1));
        } else {
            assert(count_changed(tail) == count_changed(tail.drop_last()) + 1);
            lemma_count_changed_nonneg(tail.drop_last());
            assert(k >= 2);
            assert(!blocks[0]);
            assert forall|j: int| 0 <= j < k - 2 implies !blocks.skip(1)[j] by {
                assert(blocks.skip(1)[j] == blocks[j + 1]);
            }
            assert(blocks.skip(1)[k - 2] == blocks[k - 1]);
            lemma_close_blocked_at(pages.drop_last(), blocks.skip(1), i, k - 1);
            assert(pages.drop_last().take(i + 1) =~= pages.take(i + 1));
        }
    }
}

/// The count of changed pages is never negative.
pub proof fn lemma_count_changed_nonneg(pages: Seq<Page>)
    ensures
        count_changed(pages) >= 0,
    decreases pages.len(),
{
    if pages.len() > 0 {
        lemma_count_changed_nonneg(pages.drop_last());
    }
}

/// What the confirmation loop leaves is a prefix of the pages it started
/// from.
pub proof fn lemma_close_result_prefix(pages: Seq<Page>, blocks: Seq<bool>)
    ensures
        close_result(pages, blocks).0.len() <= pages.len(),
        close_result(pages, blocks).0 == pages.take(close_result(pages, blocks).0.len() as int),
    decreases pages.len(),
{
    if pages.len() == 0 {
        assert(pages.take(0) =~= pages);
    } else if !pages.last().changed {
        lemma_close_result_prefix(pages.drop_last(), blocks);
        let k = close_result(pages.drop_last(), blocks).0.len() as int;
        assert(pages.drop_last().take(k) =~= pages.take(k));
    } else if blocks.len() == 0 || blocks[0] {
        assert(pages.take(pages.len() as int) =~= pages);
    } else {
        lemma_close_result_prefix(pages.drop_last(), blocks.skip(1));
        let k = close_result(pages.drop_last(), blocks.skip(1)).0.len() as int;
        assert(pages.drop_last().take(k) =~= pages.take(k));
    }
}

/// Every window in `ws` is well formed.
pub open spec fn wins_wf(ws: Seq<Window>) -> bool {
    forall|a: int| 0 <= a < ws.len() ==> (#[trigger] ws[a]).wf()
}

/// Every identity in `ws` — of a window or of a page — is below `bound`.
pub open spec fn ids_below(ws: Seq<Window>, bound: u64) -> bool {
    &&& forall|a: int| 0 <= a < ws.len() ==> (#[trigger] ws[a].id) < bound
    &&& forall|a: int, i: int|
        0 <= a < ws.len() && 0 <= i < ws[a].pages@.len() ==> (#[trigger] ws[a].pages@[i].id)
            < bound
}

/// No two windows in `ws` share an identity: each live window appears in
/// the registry exactly once.
pub open spec fn window_ids_unique(ws: Seq<Window>) -> bool {
    forall|a: int, b: int|
        #![trigger ws[a].id, ws[b].id]
        0 <= a < b < ws.len() ==> ws[a].id != ws[b].id
}

/// No two pages anywhere in `ws` share an identity: page identity stands
/// for the widgets a page owns, which exist once each.
pub open spec fn page_ids_unique(ws: Seq<Window>) -> bool {
    forall|a: int, i: int, b: int, j: int|
        #![trigger ws[a].pages@[i].id, ws[b].pages@[j].id]
        0 <= a < ws.len() && 0 <= i < ws[a].pages@.len() && 0 <= b < ws.len() && 0 <= j
            < ws[b].pages@.len() && (a != b || i != j) ==> ws[a].pages@[i].id
            != ws[b].pages@[j].id
}

/// The registry of live windows. It also owns the identity counter from
/// which window and page identities are drawn.
pub struct Windows {
    /// The live windows, in creation order.
    pub windows: Vec<Window>,
    /// The next unused identity; every identity in the registry is below
    /// it.
    pub next_id: u64,
}

impl Windows {
    /// The registry's invariant: every window is well formed, every
    /// identity is below the counter, and identities are unique.
    pub open spec fn wf(self) -> bool {
        &&& wins_wf(self.windows@)
        &&& ids_below(self.windows@, self.next_id)
        &&& window_ids_unique(self.windows@)
        &&& page_ids_unique(self.windows@)
    }

    /// Some live window has a page bound to `path`.
    pub open spec fn has_open_file(self, path: Seq<u8>) -> bool {
        exists|a: int, i: int|
            0 <= a < self.windows@.len() && 0 <= i < self.windows@[a].pages@.len() && (
            #[trigger] self.windows@[a].pages@[i]).has_file(path)
    }

    /// An empty registry.
    pub fn new() -> (r: Windows)
        ensures
            r.windows@.len() == 0,
            r.next_id == 0,
            r.wf(),
    {
        Windows { windows: Vec::new(), next_id: 0 }
    }

    /// Creates and registers a fresh window with one blank page; returns
    /// its index.
    pub fn new_window(&mut self) -> (w: usize)
        requires
            old(self).wf(),
            old(self).next_id + 2 <= u64::MAX,
        ensures
            w == old(self).windows@.len(),
            final(self).windows@.len() == old(self).windows@.len() + 1,
            forall|a: int|
                0 <= a < old(self).windows@.len() ==> final(self).windows@[a] == old(self).windows@[a],
            final(self).windows@[w as int].id == old(self).next_id,
            final(self).windows@[w as int].pages@.len() == 1,
            final(self).windows@[w as int].pages@[0].id == old(self).next_id + 1,
            final(self).windows@[w as int].pages@[0].spec_is_empty(),
            !final(self).windows@[w as int].pages@[0].changed,
            !final(self).windows@[w as int].pages@[0].warning,
            final(self).windows@[w as int].active == 0,
            final(self).windows@[w as int].title@ == untitled_label(),
            final(self).next_id == old(self).next_id + 2,
            final(self).wf(),
    {
        let ghost pre = *self;
        let w = self.windows.len();
        let win = Window::new(self.next_id, self.next_id + 1);
        self.windows.push(win);
        self.next_id = self.next_id + 2;
        proof {
            lemma_wf_push_window(pre, *self);
        }
        w
    }

    /// The first page bound to `file`, across all windows in registration
    /// order, then tab order — or nothing, exactly when no live window has
    /// the file open.
    pub fn get_page(&self, file: &Vec<u8>) -> (r: Option<(usize, usize)>)
        ensures
            r matches Some((w, p)) ==> w < self.windows@.len() && p < self.windows@[w
                as int].pages@.len() && self.windows@[w as int].pages@[p as int].has_file(file@),
            r matches Some((w, p)) ==> forall|a: int, i: int|
                0 <= a < w && 0 <= i < self.windows@[a].pages@.len() ==> !(#[trigger] self.windows@[a].pages@[i]).has_file(file@),
            r matches Some((w, p)) ==> forall|i: int|
                0 <= i < p ==> !(#[trigger] self.windows@[w as int].pages@[i]).has_file(file@),
            r is None ==> forall|a: int, i: int|
                0 <= a < self.windows@.len() && 0 <= i < self.windows@[a].pages@.len() ==> !(
                #[trigger] self.windows@[a].pages@[i]).has_file(file@),
            (r is Some) <==> self.has_open_file(file@),
    {
        let n = self.windows.len();
        let mut k: usize = 0;
        while k < n
            invariant
                k <= n,
                n == self.windows@.len(),
                forall|a: int, i: int|
                    0 <= a < k && 0 <= i < self.windows@[a].pages@.len() ==> !(
                    #[trigger] self.windows@[a].pages@[i]).has_file(file@),
            decreases n - k,
        {
            match self.windows[k].get_page(file) {
                Some(p) => {
                    return Some((k, p));
                },
                None => {},
            }
            k = k + 1;
        }
        assert(!self.has_open_file(file@));
        None
    }

    /// The registry index of the window with identity `win_id`, if it is
    /// live.
    pub fn find_window(&self, win_id: u64) -> (r: Option<usize>)
        ensures
            r matches Some(i) ==> i < self.windows@.len() && self.windows@[i as int].id == win_id,
            r is None ==> forall|a: int|
                0 <= a < self.windows@.len() ==> (#[trigger] self.windows@[a]).id != win_id,
    {
        let n = self.windows.len();
        let mut k: usize = 0;
        while k < n
            invariant
                k <= n,
                n == self.windows@.len(),
                forall|a: int| 0 <= a < k ==> (#[trigger] self.windows@[a]).id != win_id,
            decreases n - k,
        {
            if self.windows[k].id == win_id {
                return Some(k);
            }
            k = k + 1;
        }
        None
    }

    /// Brings the page at `(w, p)` to the front: its tab becomes active
    /// and titles its window.
    pub fn present(&mut self, w: usize, p: usize)
        requires
            old(self).wf(),
            w < old(self).windows@.len(),
            p < old(self).windows@[w as int].pages@.len(),
        ensures
            final(self).next_id == old(self).next_id,
            final(self).windows@.len() == old(self).windows@.len(),
            forall|a: int|
                0 <= a < old(self).windows@.len() && a != w ==> final(self).windows@[a] == old(self).windows@[a],
            final(self).windows@[w as int].pages == old(self).windows@[w as int].pages,
            final(self).windows@[w as int].id == old(self).windows@[w as int].id,
            final(self).windows@[w as int].active == p,
            final(self).windows@[w as int].title@ == old(self).windows@[w as int].pages@[p
                as int].spec_label(),
            final(self).wf(),
    {
        let ghost pre = *self;
        let mut win = self.windows.remove(w);
        win.set_active_page(p);
        self.windows.insert(w, win);
        proof {
            assert(self.windows@ =~= pre.windows@.update(w as int, self.windows@[w as int]));
            let pm = |i: int| i;
            lemma_wf_reshape_window(pre, *self, w as int, pm);
        }
    }

    /// Appends a blank tab to the window at `w` (the new-tab action);
    /// returns the new page's index.
    pub fn new_tab(&mut self, w: usize) -> (idx: usize)
        requires
            old(self).wf(),
            w < old(self).windows@.len(),
            old(self).windows@[w as int].pages@.len() > 0,
            old(self).next_id < u64::MAX,
        ensures
            idx == old(self).windows@[w as int].pages@.len(),
            final(self).windows@.len() == old(self).windows@.len(),
            forall|a: int|
                0 <= a < old(self).windows@.len() && a != w ==> final(self).windows@[a] == old(self).windows@[a],
            final(self).windows@[w as int].id == old(self).windows@[w as int].id,
            final(self).windows@[w as int].active == old(self).windows@[w as int].active,
            final(self).windows@[w as int].title == old(self).windows@[w as int].title,
            final(self).windows@[w as int].pages@.len() == old(self).windows@[w
                as int].pages@.len() + 1,
            forall|j: int|
                0 <= j < old(self).windows@[w as int].pages@.len() ==> final(self).windows@[w
                    as int].pages@[j] == old(self).windows@[w as int].pages@[j],
            final(self).windows@[w as int].pages@[idx as int].id == old(self).next_id,
            final(self).windows@[w as int].pages@[idx as int].spec_is_empty(),
            !final(self).windows@[w as int].pages@[idx as int].changed,
            !final(self).windows@[w as int].pages@[idx as int].warning,
            final(self).next_id == old(self).next_id + 1,
            final(self).wf(),
    {
        let ghost pre = *self;
        let id = self.next_id;
        let mut win = self.windows.remove(w);
        let idx = win.create_new_page(id);
        self.windows.insert(w, win);
        self.next_id = id + 1;
        proof {
            assert(self.windows@ =~= pre.windows@.update(w as int, self.windows@[w as int]));
            lemma_wf_push_page(pre, *self, w as int);
        }
        idx
    }

    /// Decides how to honour an open request for `path` made in window
    /// `w`: switch to a tab of `w` already showing the file, or open it
    /// here — with the open-elsewhere banner exactly when some other
    /// window has the file open.
    pub fn open_decision(&self, w: usize, path: &Vec<u8>) -> (d: OpenDecision)
        requires
            w < self.windows@.len(),
        ensures
            d matches OpenDecision::PresentExisting(p) ==> p < self.windows@[w
                as int].pages@.len() && self.windows@[w as int].pages@[p as int].has_file(path@),
            d matches OpenDecision::PresentExisting(p) ==> forall|i: int|
                0 <= i < p ==> !(#[trigger] self.windows@[w as int].pages@[i]).has_file(path@),
            d matches OpenDecision::OpenHere(warn) ==> (forall|i: int|
                0 <= i < self.windows@[w as int].pages@.len() ==> !(#[trigger] self.windows@[w
                    as int].pages@[i]).has_file(path@)),
            d matches OpenDecision::OpenHere(warn) ==> (warn <==> self.has_open_file(path@)),
    {
        match self.windows[w].get_page(path) {
            Some(p) => OpenDecision::PresentExisting(p),
            None => {
                match self.get_page(path) {
                    Some(_) => OpenDecision::OpenHere(true),
                    None => OpenDecision::OpenHere(false),
                }
            },
        }
    }

    /// Opens a file in window `w`, its contents read as `data`: an empty
    /// page is reused or a tab appended, the bytes are loaded, and with
    /// `warning` the open-elsewhere banner is shown. Bytes that are not
    /// UTF-8 are refused, the registry unchanged.
    pub fn open_in(&mut self, w: usize, path: Vec<u8>, data: Vec<u8>, warning: bool) -> (r: Result<
        usize,
        LoadError,
    >)
        requires
            old(self).wf(),
            w < old(self).windows@.len(),
            old(self).windows@[w as int].pages@.len() > 0,
            old(self).next_id < u64::MAX,
        ensures
            r is Ok <==> is_utf8(data@),
            r is Err ==> *final(self) == *old(self),
            r matches Ok(idx) ==> opened_in(
                *old(self),
                *final(self),
                w as int,
                idx as int,
                path@,
                data@,
                warning,
            ),
            final(self).wf(),
    {
        if !is_valid_utf8(&data) {
            return Err(LoadError::NotUtf8);
        }
        let ghost pre = *self;
        let id = self.next_id;
        let mut win = self.windows.remove(w);
        let (idx, created) = win.open(path, data, warning, id);
        self.windows.insert(w, win);
        proof {
            assert(self.windows@ =~= pre.windows@.update(w as int, self.windows@[w as int]));
        }
        if created {
            self.next_id = id + 1;
            proof {
                lemma_wf_push_page(pre, *self, w as int);
            }
        } else {
            proof {
                let pm = |i: int| i;
                lemma_wf_reshape_window(pre, *self, w as int, pm);
            }
        }
        Ok(idx)
    }

    /// The buffer-change signal for the page at `(w, p)`.
    pub fn on_buffer_changed(&mut self, w: usize, p: usize, contents: Vec<u8>)
        requires
            old(self).wf(),
            w < old(self).windows@.len(),
            p < old(self).windows@[w as int].pages@.len(),
            is_utf8(contents@),
        ensures
            same_but_page(*old(self), *final(self), w as int, p as int),
            final(self).windows@[w as int].pages@[p as int] == (Page {
                buffer: contents,
                changed: true,
                ..old(self).windows@[w as int].pages@[p as int]
            }),
            final(self).wf(),
    {
        let ghost pre = *self;
        let mut win = self.windows.remove(w);
        let mut pg = win.pages.remove(p);
        pg.on_buffer_changed(contents);
        win.pages.insert(p, pg);
        self.windows.insert(w, win);
        proof {
            self.lemma_page_update(pre, w as int, p as int);
        }
    }

    /// What saving the page at `(w, p)` must write, if it has a backing
    /// file.
    pub fn save_payload(&self, w: usize, p: usize) -> (r: Option<(Vec<u8>, Vec<u8>)>)
        requires
            w < self.windows@.len(),
            p < self.windows@[w as int].pages@.len(),
        ensures
            match self.windows@[w as int].pages@[p as int].file {
                Some(f) => r matches Some(pair) && pair.0@ == f@ && pair.1@ == self.windows@[w
                    as int].pages@[p as int].buffer@,
                None => r is None,
            },
    {
        self.windows[w].pages[p].save_payload()
    }

    /// Records the outcome of writing the page at `(w, p)` back to its
    /// file: success clears its changed flag, failure leaves everything as
    /// it was.
    pub fn apply_save_result(&mut self, w: usize, p: usize, ok: bool)
        requires
            old(self).wf(),
            w < old(self).windows@.len(),
            p < old(self).windows@[w as int].pages@.len(),
            old(self).windows@[w as int].pages@[p as int].file is Some,
        ensures
            same_but_page(*old(self), *final(self), w as int, p as int),
            ok ==> final(self).windows@[w as int].pages@[p as int] == (Page {
                changed: false,
                ..old(self).windows@[w as int].pages@[p as int]
            }),
            !ok ==> final(self).windows@[w as int].pages@[p as int] == old(self).windows@[w
                as int].pages@[p as int],
            final(self).wf(),
    {
        let ghost pre = *self;
        let mut win = self.windows.remove(w);
        let mut pg = win.pages.remove(p);
        pg.apply_save_result(ok);
        win.pages.insert(p, pg);
        self.windows.insert(w, win);
        proof {
            self.lemma_page_update(pre, w as int, p as int);
        }
    }

    /// Binds the page at `(w, p)` to `path` (the save-as commit, once the
    /// chosen path raised no conflict).
    pub fn set_page_file(&mut self, w: usize, p: usize, path: Vec<u8>)
        requires
            old(self).wf(),
            w < old(self).windows@.len(),
            p < old(self).windows@[w as int].pages@.len(),
        ensures
            same_but_page(*old(self), *final(self), w as int, p as int),
            final(self).windows@[w as int].pages@[p as int] == (Page {
                file: Some(path),
                ..old(self).windows@[w as int].pages@[p as int]
            }),
            final(self).wf(),
    {
        let ghost pre = *self;
        let mut win = self.windows.remove(w);
        let mut pg = win.pages.remove(p);
        pg.set_file(Some(path));
        win.pages.insert(p, pg);
        self.windows.insert(w, win);
        proof {
            self.lemma_page_update(pre, w as int, p as int);
        }
    }

    /// Hides the open-elsewhere banner of the page at `(w, p)`.
    pub fn dismiss_warning(&mut self, w: usize, p: usize)
        requires
            old(self).wf(),
            w < old(self).windows@.len(),
            p < old(self).windows@[w as int].pages@.len(),
        ensures
            same_but_page(*old(self), *final(self), w as int, p as int),
            final(self).windows@[w as int].pages@[p as int] == (Page {
                warning: false,
                ..old(self).windows@[w as int].pages@[p as int]
            }),
            final(self).wf(),
    {
        let ghost pre = *self;
        let mut win = self.windows.remove(w);
        let mut pg = win.pages.remove(p);
        pg.dismiss_warning();
        win.pages.insert(p, pg);
        self.windows.insert(w, win);
        proof {
            self.lemma_page_update(pre, w as int, p as int);
        }
    }

    /// The confirmation flow of the page at `(w, p)`.
    pub fn save_confirm(&self, w: usize, p: usize, choice: ConfirmChoice) -> (r: ConfirmAction)
        requires
            w < self.windows@.len(),
            p < self.windows@[w as int].pages@.len(),
        ensures
            r == crate::page::spec_confirm_action(
                self.windows@[w as int].pages@[p as int].changed,
                choice,
            ),
    {
        self.windows[w].pages[p].save_confirm(choice)
    }

    /// Decides a save-as request for the page at `(w, p)`: `chosen` is
    /// what the file chooser returned. No path aborts; a path whose first
    /// registry match is some other page conflicts (another window is
    /// editing that file) and nothing may be written; otherwise the save
    /// proceeds.
    pub fn save_as_decide(&self, w: usize, p: usize, chosen: &Option<Vec<u8>>) -> (d:
        SaveAsDecision)
        requires
            w < self.windows@.len(),
            p < self.windows@[w as int].pages@.len(),
        ensures
            d is Aborted <==> chosen is None,
            chosen matches Some(path) ==> (d is Conflict <==> self.save_as_conflict(
                w as int,
                p as int,
                path@,
            )),
    {
        match chosen {
            None => SaveAsDecision::Aborted,
            Some(path) => {
                match self.get_page(path) {
                    None => {
                        assert(!self.save_as_conflict(w as int, p as int, path@));
                        SaveAsDecision::Proceed
                    },
                    Some((a, b)) => {
                        if a == w && b == p {
                            assert(!self.save_as_conflict(w as int, p as int, path@));
                            SaveAsDecision::Proceed
                        } else {
                            proof {
                                let aa = a as int;
                                let bb = b as int;
                                let ww = w as int;
                                let pp = p as int;
                                if aa < ww || (aa == ww && bb < pp) {
                                    assert(conflict_witness(*self, aa, bb, ww, pp, path@));
                                } else {
                                    assert(!self.windows@[ww].pages@[pp].has_file(path@));
                                    assert(conflict_witness(*self, aa, bb, ww, pp, path@));
                                }
                            }
                            SaveAsDecision::Conflict
                        }
                    },
                }
            },
        }
    }

    /// The save-as target `path` conflicts for the page at `(w, p)`: the
    /// first page the registry scan finds for `path` exists and is some
    /// other page.
    pub open spec fn save_as_conflict(self, w: int, p: int, path: Seq<u8>) -> bool {
        exists|a: int, i: int| conflict_witness(self, a, i, w, p, path)
    }

    /// The tab-removed signal for tab `n` of window `w`; when the last tab
    /// goes, the window closes and leaves the registry, and the result
    /// says so.
    pub fn remove_page(&mut self, w: usize, n: usize) -> (closed: bool)
        requires
            old(self).wf(),
            w < old(self).windows@.len(),
            n < old(self).windows@[w as int].pages@.len(),
        ensures
            closed == (old(self).windows@[w as int].pages@.len() == 1),
            closed ==> final(self).windows@ == old(self).windows@.remove(w as int),
            !closed ==> final(self).windows@.len() == old(self).windows@.len(),
            !closed ==> forall|a: int|
                0 <= a < old(self).windows@.len() && a != w ==> final(self).windows@[a] == old(self).windows@[a],
            !closed ==> final(self).windows@[w as int].id == old(self).windows@[w as int].id,
            !closed ==> final(self).windows@[w as int].pages@ == old(self).windows@[w
                as int].pages@.remove(n as int),
            !closed ==> final(self).windows@[w as int].active as int == (if n as int == old(self).windows@[w as int].pages@.len() - 1 {
                n as int - 1
            } else {
                n as int
            }),
            !closed ==> final(self).windows@[w as int].title@ == final(self).windows@[w
                as int].pages@[final(self).windows@[w as int].active as int].spec_label(),
            final(self).next_id == old(self).next_id,
            final(self).wf(),
    {
        let ghost pre = *self;
        let mut win = self.windows.remove(w);
        let close_win = win.on_page_removed(n);
        if close_win {
            proof {
                lemma_wf_remove_window(pre, *self, w as int);
            }
            true
        } else {
            self.windows.insert(w, win);
            proof {
                assert(self.windows@ =~= pre.windows@.update(w as int, self.windows@[w as int]));
                let pm = |i: int|
                    if i < n as int {
                        i
                    } else {
                        i + 1
                    };
                lemma_wf_reshape_window(pre, *self, w as int, pm);
            }
            false
        }
    }

    /// The window-close (delete) event for window `w`: runs the
    /// confirmation loop with the given block decisions; if nothing
    /// blocked, the window is destroyed and leaves the registry.
    pub fn close_window(&mut self, w: usize, blocks: &Vec<bool>) -> (inhibited: bool)
        requires
            old(self).wf(),
            w < old(self).windows@.len(),
        ensures
            inhibited == close_result(old(self).windows@[w as int].pages@, blocks@).1,
            inhibited ==> final(self).windows@.len() == old(self).windows@.len(),
            inhibited ==> forall|a: int|
                0 <= a < old(self).windows@.len() && a != w ==> final(self).windows@[a] == old(self).windows@[a],
            inhibited ==> final(self).windows@[w as int].id == old(self).windows@[w as int].id,
            inhibited ==> final(self).windows@[w as int].pages@ == close_result(
                old(self).windows@[w as int].pages@,
                blocks@,
            ).0,
            inhibited && final(self).windows@[w as int].pages@.len() == old(self).windows@[w
                as int].pages@.len() ==> final(self).windows@[w as int].active == old(self).windows@[w as int].active && final(self).windows@[w as int].title == old(self).windows@[w as int].title,
            inhibited && final(self).windows@[w as int].pages@.len() < old(self).windows@[w
                as int].pages@.len() && final(self).windows@[w as int].pages@.len() > 0 ==> final(self).windows@[w as int].active as int == final(self).windows@[w as int].pages@.len() - 1
                && final(self).windows@[w as int].title@ == final(self).windows@[w
                as int].pages@.last().spec_label(),
            !inhibited ==> final(self).windows@ == old(self).windows@.remove(w as int),
            final(self).next_id == old(self).next_id,
            final(self).wf(),
    {
        let ghost pre = *self;
        let mut win = self.windows.remove(w);
        let inhibited = win.request_close(blocks);
        if inhibited {
            self.windows.insert(w, win);
            proof {
                assert(self.windows@ =~= pre.windows@.update(w as int, self.windows@[w as int]));
                lemma_close_result_prefix(pre.windows@[w as int].pages@, blocks@);
                let pm = |i: int| i;
                lemma_wf_reshape_window(pre, *self, w as int, pm);
            }
            true
        } else {
            proof {
                lemma_wf_remove_window(pre, *self, w as int);
            }
            false
        }
    }

    /// Shared reasoning for the operations that change one page's fields
    /// and nothing else.
    proof fn lemma_page_update(self, pre: Windows, w: int, p: int)
        requires
            pre.wf(),
            self.next_id == pre.next_id,
            self.windows@.len() == pre.windows@.len(),
            0 <= w < pre.windows@.len(),
            0 <= p < pre.windows@[w].pages@.len(),
            forall|a: int|
                0 <= a < pre.windows@.len() && a != w ==> self.windows@[a] == pre.windows@[a],
            self.windows@[w].id == pre.windows@[w].id,
            self.windows@[w].active == pre.windows@[w].active,
            self.windows@[w].title == pre.windows@[w].title,
            self.windows@[w].pages@.len() == pre.windows@[w].pages@.len(),
            forall|j: int|
                0 <= j < pre.windows@[w].pages@.len() && j != p ==> self.windows@[w].pages@[j]
                    == pre.windows@[w].pages@[j],
            self.windows@[w].pages@[p].id == pre.windows@[w].pages@[p].id,
            self.windows@[w].pages@[p].wf(),
        ensures
            self.wf(),
            same_but_page(pre, self, w, p),
    {
        assert(pre.windows@[w].wf());
        assert forall|i: int|
            0 <= i < self.windows@[w].pages@.len() implies (
        #[trigger] self.windows@[w].pages@[i]).wf() by {
            if i != p {
                assert(self.windows@[w].pages@[i] == pre.windows@[w].pages@[i]);
            }
        }
        assert(self.windows@[w].wf());
        let pm = |i: int| i;
        lemma_wf_reshape_window(pre, self, w, pm);
    }

    /// Unregisters the window at `w` and destroys it.
    pub fn destroy(&mut self, w: usize)
        requires
            old(self).wf(),
            w < old(self).windows@.len(),
        ensures
            final(self).windows@ == old(self).windows@.remove(w as int),
            final(self).next_id == old(self).next_id,
            final(self).wf(),
    {
        let ghost pre = *self;
        self.windows.remove(w);
        proof {
            lemma_wf_remove_window(pre, *self, w as int);
        }
    }
}

/// How an open request for a file is honoured in a window.
pub enum OpenDecision {
    /// The file is already open here: switch to that tab.
    PresentExisting(usize),
    /// Open it in this window; the flag asks for the open-elsewhere
    /// banner, set exactly when some other window has the file open.
    OpenHere(bool),
}

/// The outcome of the save-as decision.
pub enum SaveAsDecision {
    /// No path was chosen; nothing happens (and a close that asked for
    /// the save stays blocked).
    Aborted,
    /// The chosen path is bound to some other page: nothing is written,
    /// an error is reported, and the requesting page keeps its state.
    Conflict,
    /// The path may be bound and the buffer written.
    Proceed,
}

/// The page at `(a, i)` witnesses a save-as conflict for the page at
/// `(w, p)` and target `path`: it is bound to `path`, it is a different
/// page, and the registry scan finds it first — either it comes earlier in
/// scan order, or the page at `(w, p)` is not bound to `path` at all.
pub open spec fn conflict_witness(
    ws: Windows,
    a: int,
    i: int,
    w: int,
    p: int,
    path: Seq<u8>,
) -> bool {
    &&& 0 <= a < ws.windows@.len()
    &&& 0 <= i < ws.windows@[a].pages@.len()
    &&& ws.windows@[a].pages@[i].has_file(path)
    &&& (a != w || i != p)
    &&& (a < w || (a == w && i < p) || !ws.windows@[w].pages@[p].has_file(path))
}

/// All of `post` equals `pre` except the fields of the page at `(w, p)`;
/// every identity, every other page, and every window's active tab and
/// title are kept.
pub open spec fn same_but_page(pre: Windows, post: Windows, w: int, p: int) -> bool {
    &&& post.next_id == pre.next_id
    &&& post.windows@.len() == pre.windows@.len()
    &&& forall|a: int|
        0 <= a < pre.windows@.len() && a != w ==> post.windows@[a] == pre.windows@[a]
    &&& post.windows@[w].id == pre.windows@[w].id
    &&& post.windows@[w].active == pre.windows@[w].active
    &&& post.windows@[w].title == pre.windows@[w].title
    &&& post.windows@[w].pages@.len() == pre.windows@[w].pages@.len()
    &&& forall|j: int|
        0 <= j < pre.windows@[w].pages@.len() && j != p ==> post.windows@[w].pages@[j]
            == pre.windows@[w].pages@[j]
    &&& post.windows@[w].pages@[p].id == pre.windows@[w].pages@[p].id
}

/// `post` is `pre` after an open of `path` (read as `data`) in window `w`
/// landed on the page at `idx` there: either a reused empty page (`idx`
/// within the old tabs) or a freshly appended one (`idx` just past them).
/// The page shows the loaded file, its tab is active and titles the
/// window, and nothing else changed.
pub open spec fn opened_in(
    pre: Windows,
    post: Windows,
    w: int,
    idx: int,
    path: Seq<u8>,
    data: Seq<u8>,
    warning: bool,
) -> bool {
    &&& post.windows@.len() == pre.windows@.len()
    &&& forall|a: int|
        0 <= a < pre.windows@.len() && a != w ==> post.windows@[a] == pre.windows@[a]
    &&& post.windows@[w].id == pre.windows@[w].id
    &&& 0 <= idx < post.windows@[w].pages@.len()
    &&& idx <= pre.windows@[w].pages@.len()
    &&& post.windows@[w].pages@[idx].has_file(path)
    &&& post.windows@[w].pages@[idx].buffer@ == data
    &&& !post.windows@[w].pages@[idx].changed
    &&& (idx < pre.windows@[w].pages@.len() ==> post.windows@[w].pages@.len()
        == pre.windows@[w].pages@.len() && pre.windows@[w].pages@[idx].spec_is_empty()
        && post.windows@[w].pages@[idx].warning == (pre.windows@[w].pages@[idx].warning
        || warning))
    &&& (idx == pre.windows@[w].pages@.len() ==> post.windows@[w].pages@.len()
        == pre.windows@[w].pages@.len() + 1 && post.windows@[w].pages@[idx].warning == warning)
    &&& forall|j: int|
        0 <= j < pre.windows@[w].pages@.len() && j != idx ==> post.windows@[w].pages@[j]
            == pre.windows@[w].pages@[j]
    &&& post.windows@[w].active == idx
    &&& post.windows@[w].title@ == basename_of(path)
}

/// Opening a file from window `b` when it is open only elsewhere: the
/// request does not duplicate it within `b` — afterwards exactly one page
/// of `b` is bound to the file, it is the active tab and carries the
/// open-elsewhere banner — and every other window, in particular the one
/// already showing the file, is untouched.
pub proof fn lemma_open_elsewhere_no_duplicate(
    pre: Windows,
    post: Windows,
    b: int,
    idx: int,
    path: Seq<u8>,
    data: Seq<u8>,
)
    requires
        0 <= b < pre.windows@.len(),
        forall|i: int|
            0 <= i < pre.windows@[b].pages@.len() ==> !(
            #[trigger] pre.windows@[b].pages@[i]).has_file(path),
        opened_in(pre, post, b, idx, path, data, true),
    ensures
        post.windows@[b].pages@[idx].has_file(path),
        post.windows@[b].pages@[idx].warning,
        post.windows@[b].active == idx,
        forall|j: int|
            0 <= j < post.windows@[b].pages@.len() && j != idx ==> !(
            #[trigger] post.windows@[b].pages@[j]).has_file(path),
        forall|a: int|
            0 <= a < post.windows@.len() && a != b ==> post.windows@[a] == pre.windows@[a],
{
    assert forall|j: int|
        0 <= j < post.windows@[b].pages@.len() && j != idx implies !(
    #[trigger] post.windows@[b].pages@[j]).has_file(path) by {
        assert(j < pre.windows@[b].pages@.len());
        assert(post.windows@[b].pages@[j] == pre.windows@[b].pages@[j]);
    }
}

/// Well-formedness survives appending one page whose identity is drawn
/// from the counter to the window at `w`.
pub proof fn lemma_wf_push_page(pre: Windows, post: Windows, w: int)
    requires
        pre.wf(),
        post.next_id == pre.next_id + 1,
        post.windows@.len() == pre.windows@.len(),
        0 <= w < pre.windows@.len(),
        forall|a: int|
            0 <= a < pre.windows@.len() && a != w ==> post.windows@[a] == pre.windows@[a],
        post.windows@[w].id == pre.windows@[w].id,
        post.windows@[w].wf(),
        post.windows@[w].pages@.len() == pre.windows@[w].pages@.len() + 1,
        forall|i: int|
            0 <= i < pre.windows@[w].pages@.len() ==> (#[trigger] post.windows@[w].pages@[i].id)
                == pre.windows@[w].pages@[i].id,
        post.windows@[w].pages@[pre.windows@[w].pages@.len() as int].id == pre.next_id,
    ensures
        post.wf(),
{
    let np = pre.windows@[w].pages@.len() as int;
    let ws1 = pre.windows@;
    let ws2 = post.windows@;
    assert forall|a: int| 0 <= a < ws2.len() implies (#[trigger] ws2[a]).wf() by {
        if a != w {
            assert(ws2[a] == ws1[a]);
        }
    }
    assert forall|a: int| 0 <= a < ws2.len() implies (#[trigger] ws2[a].id) < post.next_id by {
        assert(ws2[a].id == ws1[a].id);
    }
    assert forall|a: int, i: int|
        0 <= a < ws2.len() && 0 <= i < ws2[a].pages@.len() implies (#[trigger] ws2[a].pages@[i].id)
        < post.next_id by {
        if a != w {
            assert(ws2[a] == ws1[a]);
        } else if i < np {
            assert(ws2[a].pages@[i].id == ws1[a].pages@[i].id);
        }
    }
    assert forall|a: int, b: int|
        #![trigger ws2[a].id, ws2[b].id]
        0 <= a < b < ws2.len() implies ws2[a].id != ws2[b].id by {
        assert(ws2[a].id == ws1[a].id);
        assert(ws2[b].id == ws1[b].id);
    }
    assert forall|a: int, i: int, b: int, j: int|
        #![trigger ws2[a].pages@[i].id, ws2[b].pages@[j].id]
        0 <= a < ws2.len() && 0 <= i < ws2[a].pages@.len() && 0 <= b < ws2.len() && 0 <= j
        < ws2[b].pages@.len() && (a != b || i != j) implies ws2[a].pages@[i].id
        != ws2[b].pages@[j].id by {
        if a != w {
            assert(ws2[a] == ws1[a]);
        }
        if b != w {
            assert(ws2[b] == ws1[b]);
        }
        if a == w && i == np {
            if b != w || j < np {
                let jd = ws2[b].pages@[j].id;
                assert(jd == ws1[b].pages@[j].id);
                assert(jd < pre.next_id);
            }
        } else if b == w && j == np {
            let id_ = ws2[a].pages@[i].id;
            assert(id_ == ws1[a].pages@[i].id);
            assert(id_ < pre.next_id);
        } else {
            if a == w {
                assert(ws2[a].pages@[i].id == ws1[a].pages@[i].id);
            }
            if b == w {
                assert(ws2[b].pages@[j].id == ws1[b].pages@[j].id);
            }
        }
    }
}

/// Well-formedness survives replacing the window at `w` by one with the
/// same identity whose pages map, in order, onto a subset of the old pages
/// (`pm` gives each new position's old position) with their identities
/// kept.
pub proof fn lemma_wf_reshape_window(pre: Windows, post: Windows, w: int, pm: spec_fn(int) -> int)
    requires
        pre.wf(),
        post.next_id == pre.next_id,
        post.windows@.len() == pre.windows@.len(),
        0 <= w < pre.windows@.len(),
        forall|a: int|
            0 <= a < pre.windows@.len() && a != w ==> post.windows@[a] == pre.windows@[a],
        post.windows@[w].id == pre.windows@[w].id,
        post.windows@[w].wf(),
        forall|i: int|
            0 <= i < post.windows@[w].pages@.len() ==> 0 <= #[trigger] pm(i) < pre.windows@[w].pages@.len(),
        forall|i: int|
            0 <= i < post.windows@[w].pages@.len() ==> (#[trigger] post.windows@[w].pages@[i].id)
                == pre.windows@[w].pages@[pm(i)].id,
        forall|i: int, j: int|
            0 <= i < j < post.windows@[w].pages@.len() ==> #[trigger] pm(i) < #[trigger] pm(j),
    ensures
        post.wf(),
{
    let ws1 = pre.windows@;
    let ws2 = post.windows@;
    assert forall|a: int| 0 <= a < ws2.len() implies (#[trigger] ws2[a]).wf() by {
        if a != w {
            assert(ws2[a] == ws1[a]);
        }
    }
    assert forall|a: int| 0 <= a < ws2.len() implies (#[trigger] ws2[a].id) < post.next_id by {
        assert(ws2[a].id == ws1[a].id);
    }
    assert forall|a: int, i: int|
        0 <= a < ws2.len() && 0 <= i < ws2[a].pages@.len() implies (#[trigger] ws2[a].pages@[i].id)
        < post.next_id by {
        if a == w {
            assert(ws2[a].pages@[i].id == ws1[a].pages@[pm(i)].id);
        } else {
            assert(ws2[a] == ws1[a]);
        }
    }
    assert forall|a: int, b: int|
        #![trigger ws2[a].id, ws2[b].id]
        0 <= a < b < ws2.len() implies ws2[a].id != ws2[b].id by {
        assert(ws2[a].id == ws1[a].id);
        assert(ws2[b].id == ws1[b].id);
    }
    assert forall|a: int, i: int, b: int, j: int|
        #![trigger ws2[a].pages@[i].id, ws2[b].pages@[j].id]
        0 <= a < ws2.len() && 0 <= i < ws2[a].pages@.len() && 0 <= b < ws2.len() && 0 <= j
        < ws2[b].pages@.len() && (a != b || i != j) implies ws2[a].pages@[i].id
        != ws2[b].pages@[j].id by {
        let i0 = if a == w {
            pm(i)
        } else {
            i
        };
        let j0 = if b == w {
            pm(j)
        } else {
            j
        };
        if a == w {
            assert(ws2[a].pages@[i].id == ws1[a].pages@[i0].id);
        } else {
            assert(ws2[a] == ws1[a]);
        }
        if b == w {
            assert(ws2[b].pages@[j].id == ws1[b].pages@[j0].id);
        } else {
            assert(ws2[b] == ws1[b]);
        }
        if a == b && a == w && i != j {
            if i < j {
                assert(pm(i) < pm(j));
            } else {
                assert(pm(j) < pm(i));
            }
        }
        assert(ws1[a].pages@[i0].id != ws1[b].pages@[j0].id);
    }
}

/// Well-formedness survives registering a fresh window whose identity and
/// single page identity are drawn from the counter.
pub proof fn lemma_wf_push_window(pre: Windows, post: Windows)
    requires
        pre.wf(),
        post.windows@.len() == pre.windows@.len() + 1,
        forall|a: int|
            0 <= a < pre.windows@.len() ==> post.windows@[a] == pre.windows@[a],
        post.windows@[pre.windows@.len() as int].wf(),
        post.windows@[pre.windows@.len() as int].id == pre.next_id,
        post.windows@[pre.windows@.len() as int].pages@.len() == 1,
        post.windows@[pre.windows@.len() as int].pages@[0].id == pre.next_id + 1,
        post.next_id == pre.next_id + 2,
    ensures
        post.wf(),
{
    let n = pre.windows@.len() as int;
    let ws1 = pre.windows@;
    let ws2 = post.windows@;
    assert forall|a: int| 0 <= a < ws2.len() implies (#[trigger] ws2[a]).wf() by {
        if a < n {
            assert(ws2[a] == ws1[a]);
        }
    }
    assert forall|a: int| 0 <= a < ws2.len() implies (#[trigger] ws2[a].id) < post.next_id by {
        if a < n {
            assert(ws2[a].id == ws1[a].id);
        }
    }
    assert forall|a: int, i: int|
        0 <= a < ws2.len() && 0 <= i < ws2[a].pages@.len() implies (#[trigger] ws2[a].pages@[i].id)
        < post.next_id by {
        if a < n {
            assert(ws2[a] == ws1[a]);
        }
    }
    assert forall|a: int, b: int|
        #![trigger ws2[a].id, ws2[b].id]
        0 <= a < b < ws2.len() implies ws2[a].id != ws2[b].id by {
        if b < n {
            assert(ws2[a].id == ws1[a].id);
            assert(ws2[b].id == ws1[b].id);
        } else {
            assert(ws2[a].id == ws1[a].id);
            assert(ws1[a].id < pre.next_id);
        }
    }
    assert forall|a: int, i: int, b: int, j: int|
        #![trigger ws2[a].pages@[i].id, ws2[b].pages@[j].id]
        0 <= a < ws2.len() && 0 <= i < ws2[a].pages@.len() && 0 <= b < ws2.len() && 0 <= j
        < ws2[b].pages@.len() && (a != b || i != j) implies ws2[a].pages@[i].id
        != ws2[b].pages@[j].id by {
        if a < n {
            assert(ws2[a] == ws1[a]);
        }
        if b < n {
            assert(ws2[b] == ws1[b]);
        }
    }
}

/// Well-formedness survives unregistering a window.
pub proof fn lemma_wf_remove_window(pre: Windows, post: Windows, w: int)
    requires
        pre.wf(),
        0 <= w < pre.windows@.len(),
        post.windows@ == pre.windows@.remove(w),
        post.next_id == pre.next_id,
    ensures
        post.wf(),
{
    let ws1 = pre.windows@;
    let ws2 = post.windows@;
    assert forall|a: int| 0 <= a < ws2.len() implies (#[trigger] ws2[a]).wf() by {
        if a < w {
            assert(ws2[a] == ws1[a]);
        } else {
            assert(ws2[a] == ws1[a + 1]);
        }
    }
    assert forall|a: int| 0 <= a < ws2.len() implies (#[trigger] ws2[a].id) < post.next_id by {
        if a < w {
            assert(ws2[a] == ws1[a]);
        } else {
            assert(ws2[a] == ws1[a + 1]);
        }
    }
    assert forall|a: int, i: int|
        0 <= a < ws2.len() && 0 <= i < ws2[a].pages@.len() implies (#[trigger] ws2[a].pages@[i].id)
        < post.next_id by {
        if a < w {
            assert(ws2[a] == ws1[a]);
        } else {
            assert(ws2[a] == ws1[a + 1]);
        }
    }
    assert forall|a: int, b: int|
        #![trigger ws2[a].id, ws2[b].id]
        0 <= a < b < ws2.len() implies ws2[a].id != ws2[b].id by {
        let a0 = if a < w {
            a
        } else {
            a + 1
        };
        let b0 = if b < w {
            b
        } else {
            b + 1
        };
        assert(ws2[a] == ws1[a0]);
        assert(ws2[b] == ws1[b0]);
    }
    assert forall|a: int, i: int, b: int, j: int|
        #![trigger ws2[a].pages@[i].id, ws2[b].pages@[j].id]
        0 <= a < ws2.len() && 0 <= i < ws2[a].pages@.len() && 0 <= b < ws2.len() && 0 <= j
        < ws2[b].pages@.len() && (a != b || i != j) implies ws2[a].pages@[i].id
        != ws2[b].pages@[j].id by {
        let a0 = if a < w {
            a
        } else {
            a + 1
        };
        let b0 = if b < w {
            b
        } else {
            b + 1
        };
        assert(ws2[a] == ws1[a0]);
        assert(ws2[b] == ws1[b0]);
    }
}

} // verus!
