use vstd::prelude::*;
use crate::pagination::{Row, paginate, row_models, spec_pages};
use crate::persist::ProgressRecord;
use crate::store::{ProgressStore, RawStore, spec_find, spec_load_store, spec_store_set};
use crate::clock::now_unix_time;

verus! {

/// Margin kept clear around the text inside the viewport, in the same unit
/// as row heights.
pub const PAGE_MARGIN: u64 = 16;

/// How far the long page-jump operations move.
pub const PAGE_JUMP: u64 = 10;

/// Where the controller stands with the current file's content.
#[derive(Clone, Copy, PartialEq, Eq, Structural, Debug)]
pub enum LoadState {
    /// No file is loaded.
    Idle,
    /// A file read is under way; its content is not yet available.
    Loading,
    /// The file's text is available.
    Ready,
}

/// The index the page lands on after clamping to a sequence of `len` pages:
/// untouched while no page exists, the last valid index when it would run
/// past the end.
pub open spec fn spec_clamp(p: u64, len: int) -> u64 {
    if len > 0 && p as int >= len {
        (len - 1) as u64
    } else {
        p
    }
}

/// After clamping to a non-empty page sequence the index is in range, and an
/// index already in range is untouched.
pub proof fn lemma_clamp_in_range(p: u64, len: int)
    requires
        0 < len <= u64::MAX,
    ensures
        0 <= spec_clamp(p, len) < len,
        (p as int) < len ==> spec_clamp(p, len) == p,
{
}

/// The session controller: the only mutable root state. It owns the current
/// file identity, the decoded text, the cached page sequence, the current
/// page index and the reading-progress store.
pub struct Session {
    pub state: LoadState,
    pub file_path: Option<String>,
    pub text: Option<String>,
    pub pages: Option<Vec<String>>,
    pub page: u64,
    pub store: ProgressStore,
    pub viewport: (u64, u64),
}

impl Session {
    /// The current file identity, as characters.
    pub open spec fn path_view(&self) -> Option<Seq<char>> {
        match self.file_path {
            Some(p) => Some(p@),
            None => None,
        }
    }

    /// The decoded text, as characters.
    pub open spec fn text_view(&self) -> Option<Seq<char>> {
        match self.text {
            Some(t) => Some(t@),
            None => None,
        }
    }

    /// The cached page sequence, as character sequences.
    pub open spec fn pages_view(&self) -> Option<Seq<Seq<char>>> {
        match self.pages {
            Some(ps) => Some(ps.deep_view()),
            None => None,
        }
    }

    /// How many pages the cached sequence holds; none while it is absent.
    pub open spec fn page_count(&self) -> int {
        match self.pages {
            Some(ps) => ps@.len() as int,
            None => 0,
        }
    }

    /// The controller's invariant: the store maps each file to one record;
    /// text is present exactly in the Ready state; pages exist only with
    /// text; a file is current exactly outside Idle; and the page index is
    /// in range whenever the cached sequence is non-empty.
    pub open spec fn wf(&self) -> bool {
        &&& self.store.wf()
        &&& (self.state is Ready <==> self.text is Some)
        &&& (self.state is Idle <==> self.file_path is None)
        &&& (self.pages is Some ==> self.state is Ready)
        &&& (self.page_count() > 0 ==> (self.page as int) < self.page_count())
    }

    /// A fresh controller over the given store: no file, page 0.
    pub fn new(store: ProgressStore) -> (s: Session)
        requires
            store.wf(),
        ensures
            s.wf(),
            s.state is Idle,
            s.file_path is None,
            s.text is None,
            s.pages is None,
            s.page == 0,
            s.store@ == store@,
            s.viewport == (0u64, 0u64),
    {
        Session {
            state: LoadState::Idle,
            file_path: None,
            text: None,
            pages: None,
            page: 0,
            store,
            viewport: (0, 0),
        }
    }
}

/// What opening `path` at moment `now` does to a session: the outgoing
/// file's page is persisted, the page recorded for `path` (or a fresh 0) is
/// restored, content and cached pages are dropped, and loading begins.
pub open spec fn spec_opened(pre: Session, post: Session, path: Seq<char>, now: i64) -> bool {
    let persisted = match pre.file_path {
        Some(p) => spec_store_set(
            pre.store@,
            p@,
            ProgressRecord { page: pre.page, readed_time: now },
        ),
        None => pre.store@,
    };
    &&& post.state is Loading
    &&& post.path_view() == Some(path)
    &&& post.text is None
    &&& post.pages is None
    &&& post.viewport == pre.viewport
    &&& match spec_find(persisted, path) {
        Some(rec) => post.store@ == persisted && post.page == rec.page,
        None => post.store@ == persisted.push(
            (path, ProgressRecord { page: 0, readed_time: now }),
        ) && post.page == 0,
    }
}

impl Session {
    /// Open `path`; `exists` says whether the caller found the file on the
    /// filesystem. A nonexistent path leaves the session unchanged. Otherwise
    /// the session enters Loading and the caller must read the file's bytes
    /// and hand the decoded text to `text_ready`. `now` stamps the records
    /// touched.
    pub fn open_file(&mut self, path: String, exists: bool, now: i64) -> (started: bool)
        requires
            old(self).wf(),
        ensures
            final(self).wf(),
            started == exists,
            !exists ==> *final(self) == *old(self),
            exists ==> spec_opened(*old(self), *final(self), path@, now),
    {
        if !exists {
            return false;
        }
        if let Some(p) = &self.file_path {
            let outgoing = p.clone();
            self.store.set(&outgoing, self.page, now);
        }
        let page = self.store.get_or_create(&path, now);
        self.page = page;
        self.file_path = Some(path);
        self.text = None;
        self.pages = None;
        self.state = LoadState::Loading;
        true
    }

    /// As `open_file`, stamping the touched records with the system clock.
    pub fn open_file_now(&mut self, path: String, exists: bool) -> (started: bool)
        requires
            old(self).wf(),
        ensures
            final(self).wf(),
            started == exists,
            !exists ==> *final(self) == *old(self),
            exists ==> exists|t: i64| spec_opened(*old(self), *final(self), path@, t),
    {
        let now = now_unix_time();
        self.open_file(path, exists, now)
    }

    /// Hand the decoded text of the file being loaded to the controller:
    /// Loading becomes Ready, and the cached page sequence is left absent
    /// for recomputation.
    pub fn text_ready(&mut self, text: String)
        requires
            old(self).wf(),
            old(self).state is Loading,
        ensures
            final(self).wf(),
            final(self).state is Ready,
            final(self).text_view() == Some(text@),
            final(self).pages is None,
            final(self).page == old(self).page,
            final(self).file_path == old(self).file_path,
            final(self).store@ == old(self).store@,
            final(self).viewport == old(self).viewport,
    {
        self.text = Some(text);
        self.pages = None;
        self.state = LoadState::Ready;
    }

    /// Record the viewport size. A changed size invalidates the cached page
    /// sequence; the page index is kept until repagination clamps it. An
    /// unchanged size changes nothing, so no recomputation is triggered by
    /// mere redraws.
    pub fn set_viewport(&mut self, width: u64, height: u64)
        requires
            old(self).wf(),
        ensures
            final(self).wf(),
            final(self).viewport == (width, height),
            old(self).viewport == (width, height) ==> *final(self) == *old(self),
            old(self).viewport != (width, height) ==> {
                &&& final(self).pages is None
                &&& final(self).page == old(self).page
                &&& final(self).text == old(self).text
                &&& final(self).file_path == old(self).file_path
                &&& final(self).store@ == old(self).store@
                &&& final(self).state == old(self).state
            },
    {
        if self.viewport.0 != width || self.viewport.1 != height {
            self.viewport = (width, height);
            self.pages = None;
        }
    }

    /// Whether new pages must be computed: text is present and no cached
    /// page sequence exists.
    pub fn needs_repaginate(&self) -> (r: bool)
        ensures
            r == (self.text is Some && self.pages is None),
    {
        self.text.is_some() && self.pages.is_none()
    }

    /// The page height available inside a viewport of height `h`: the margin
    /// is kept clear, and a viewport smaller than the margin leaves none.
    pub open spec fn spec_page_budget(h: u64) -> u64 {
        if h >= PAGE_MARGIN {
            (h - PAGE_MARGIN) as u64
        } else {
            0
        }
    }

    /// Install the page sequence for the given wrapped rows of the current
    /// text, paginated to the current viewport height less the margin, and
    /// clamp the page index to the new sequence.
    pub fn apply_pagination(&mut self, rows: Vec<Row>)
        requires
            old(self).wf(),
            old(self).state is Ready,
        ensures
            final(self).wf(),
            final(self).pages_view() == Some(
                spec_pages(
                    row_models(rows@),
                    Self::spec_page_budget(old(self).viewport.1) as int,
                ),
            ),
            final(self).page == spec_clamp(old(self).page, final(self).page_count()),
            final(self).state == old(self).state,
            final(self).text == old(self).text,
            final(self).file_path == old(self).file_path,
            final(self).store@ == old(self).store@,
            final(self).viewport == old(self).viewport,
    {
        let budget = if self.viewport.1 >= PAGE_MARGIN {
            self.viewport.1 - PAGE_MARGIN
        } else {
            0
        };
        let ps = paginate(&rows, budget);
        let len = ps.len();
        if len > 0 && self.page >= len as u64 {
            self.page = (len as u64) - 1;
        }
        self.pages = Some(ps);
    }

    /// One page forward.
    pub fn next_page(&mut self)
        requires
            old(self).wf(),
        ensures
            final(self).wf(),
            final(self).page == spec_clamp(
                if old(self).page == u64::MAX {
                    u64::MAX
                } else {
                    (old(self).page + 1) as u64
                },
                old(self).page_count(),
            ),
            final(self).state == old(self).state,
            final(self).text == old(self).text,
            final(self).pages == old(self).pages,
            final(self).file_path == old(self).file_path,
            final(self).store@ == old(self).store@,
            final(self).viewport == old(self).viewport,
    {
        if self.page < u64::MAX {
            self.page = self.page + 1;
        }
        self.clamp_page();
    }

    /// One page back.
    pub fn prev_page(&mut self)
        requires
            old(self).wf(),
        ensures
            final(self).wf(),
            final(self).page == spec_clamp(
                if old(self).page > 0 {
                    (old(self).page - 1) as u64
                } else {
                    0
                },
                old(self).page_count(),
            ),
            final(self).state == old(self).state,
            final(self).text == old(self).text,
            final(self).pages == old(self).pages,
            final(self).file_path == old(self).file_path,
            final(self).store@ == old(self).store@,
            final(self).viewport == old(self).viewport,
    {
        if self.page > 0 {
            self.page = self.page - 1;
        }
        self.clamp_page();
    }

    /// A long jump forward.
    pub fn jump_forward(&mut self)
        requires
            old(self).wf(),
        ensures
            final(self).wf(),
            final(self).page == spec_clamp(
                if old(self).page as int + PAGE_JUMP as int <= u64::MAX as int {
                    (old(self).page + PAGE_JUMP) as u64
                } else {
                    u64::MAX
                },
                old(self).page_count(),
            ),
            final(self).state == old(self).state,
            final(self).text == old(self).text,
            final(self).pages == old(self).pages,
            final(self).file_path == old(self).file_path,
            final(self).store@ == old(self).store@,
            final(self).viewport == old(self).viewport,
    {
        if self.page <= u64::MAX - PAGE_JUMP {
            self.page = self.page + PAGE_JUMP;
        } else {
            self.page = u64::MAX;
        }
        self.clamp_page();
    }

    /// A long jump back, stopping at the first page.
    pub fn jump_back(&mut self)
        requires
            old(self).wf(),
        ensures
            final(self).wf(),
            final(self).page == spec_clamp(
                if old(self).page > PAGE_JUMP {
                    (old(self).page - PAGE_JUMP) as u64
                } else {
                    0
                },
                old(self).page_count(),
            ),
            final(self).state == old(self).state,
            final(self).text == old(self).text,
            final(self).pages == old(self).pages,
            final(self).file_path == old(self).file_path,
            final(self).store@ == old(self).store@,
            final(self).viewport == old(self).viewport,
    {
        if self.page > PAGE_JUMP {
            self.page = self.page - PAGE_JUMP;
        } else {
            self.page = 0;
        }
        self.clamp_page();
    }

    /// To the first page.
    pub fn first_page(&mut self)
        requires
            old(self).wf(),
        ensures
            final(self).wf(),
            final(self).page == spec_clamp(0, old(self).page_count()),
            final(self).state == old(self).state,
            final(self).text == old(self).text,
            final(self).pages == old(self).pages,
            final(self).file_path == old(self).file_path,
            final(self).store@ == old(self).store@,
            final(self).viewport == old(self).viewport,
    {
        self.page = 0;
        self.clamp_page();
    }

    /// To the last valid page: the final index of the page sequence, never a
    /// sentinel past its end; without pages the index is untouched.
    pub fn last_page(&mut self)
        requires
            old(self).wf(),
        ensures
            final(self).wf(),
            final(self).page == if old(self).page_count() > 0 {
                (old(self).page_count() - 1) as u64
            } else {
                old(self).page
            },
            final(self).state == old(self).state,
            final(self).text == old(self).text,
            final(self).pages == old(self).pages,
            final(self).file_path == old(self).file_path,
            final(self).store@ == old(self).store@,
            final(self).viewport == old(self).viewport,
    {
        match &self.pages {
            Some(ps) => {
                let len = ps.len();
                if len > 0 {
                    self.page = (len as u64) - 1;
                }
            },
            None => {},
        }
    }

    /// Clamp the page index to the cached page sequence, when one exists.
    fn clamp_page(&mut self)
        ensures
            final(self).page == spec_clamp(old(self).page, old(self).page_count()),
            final(self).state == old(self).state,
            final(self).text == old(self).text,
            final(self).pages == old(self).pages,
            final(self).file_path == old(self).file_path,
            final(self).store@ == old(self).store@,
            final(self).viewport == old(self).viewport,
            old(self).wf() ==> final(self).wf(),
    {
        match &self.pages {
            Some(ps) => {
                let len = ps.len();
                if len > 0 && self.page >= len as u64 {
                    self.page = (len as u64) - 1;
                }
            },
            None => {},
        }
    }

    /// The text of the current page, when a page sequence exists and the
    /// index falls inside it.
    pub open spec fn spec_current_page_text(&self) -> Option<Seq<char>> {
        match self.pages {
            Some(ps) => if (self.page as int) < ps.deep_view().len() {
                Some(ps.deep_view()[self.page as int])
            } else {
                None
            },
            None => None,
        }
    }

    /// The current page's text, if one is on display.
    pub fn current_page_text(&self) -> (r: Option<&String>)
        ensures
            match r {
                Some(t) => self.spec_current_page_text() == Some(t@),
                None => self.spec_current_page_text() is None,
            },
    {
        match &self.pages {
            Some(ps) => {
                if self.page < ps.len() as u64 {
                    Some(&ps[self.page as usize])
                } else {
                    None
                }
            },
            None => None,
        }
    }

    /// What persisting the current page at moment `t` leaves in the store.
    pub open spec fn spec_recorded(pre: Session, store_after: Seq<(Seq<char>, ProgressRecord)>, t: i64) -> bool {
        store_after == match pre.file_path {
            Some(p) => spec_store_set(
                pre.store@,
                p@,
                ProgressRecord { page: pre.page, readed_time: t },
            ),
            None => pre.store@,
        }
    }

    /// Persist the current file's page into the store, as before switching
    /// away or at shutdown; with no file open the store is untouched.
    pub fn record_current(&mut self, now: i64)
        requires
            old(self).wf(),
        ensures
            final(self).wf(),
            Self::spec_recorded(*old(self), final(self).store@, now),
            final(self).state == old(self).state,
            final(self).text == old(self).text,
            final(self).pages == old(self).pages,
            final(self).page == old(self).page,
            final(self).file_path == old(self).file_path,
            final(self).viewport == old(self).viewport,
    {
        if let Some(p) = &self.file_path {
            let current = p.clone();
            self.store.set(&current, self.page, now);
        }
    }

    /// As `record_current`, stamping the record with the system clock.
    pub fn record_current_now(&mut self)
        requires
            old(self).wf(),
        ensures
            final(self).wf(),
            exists|t: i64| #[trigger] Self::spec_recorded(*old(self), final(self).store@, t),
            final(self).state == old(self).state,
            final(self).text == old(self).text,
            final(self).pages == old(self).pages,
            final(self).page == old(self).page,
            final(self).file_path == old(self).file_path,
            final(self).viewport == old(self).viewport,
    {
        let now = now_unix_time();
        self.record_current(now);
    }

    /// Rebuild a session at startup: `saved` is the persisted store (None
    /// when the persisted container was malformed, degrading to an empty
    /// store), `saved_path` the persisted current file, and `exists` whether
    /// that path is still on the filesystem. An existing saved file is
    /// reopened at its recorded page; otherwise the session starts Idle.
    pub fn restore(
        saved: Option<&RawStore>,
        saved_path: Option<String>,
        exists: bool,
        now: i64,
    ) -> (s: Session)
        ensures
            s.wf(),
            ({
                let st = match saved {
                    Some(raw) => spec_load_store(raw@),
                    None => Seq::<(Seq<char>, ProgressRecord)>::empty(),
                };
                match saved_path {
                    Some(p) => if exists {
                        &&& s.state is Loading
                        &&& s.path_view() == Some(p@)
                        &&& s.text is None
                        &&& s.pages is None
                        &&& match spec_find(st, p@) {
                            Some(rec) => s.store@ == st && s.page == rec.page,
                            None => s.store@ == st.push(
                                (p@, ProgressRecord { page: 0, readed_time: now }),
                            ) && s.page == 0,
                        }
                    } else {
                        s.state is Idle && s.file_path is None && s.store@ == st && s.page == 0
                    },
                    None => s.state is Idle && s.file_path is None && s.store@ == st && s.page
                        == 0,
                }
            }),
    {
        let store = match saved {
            Some(raw) => ProgressStore::load(raw),
            None => ProgressStore::new(),
        };
        let mut s = Session::new(store);
        match saved_path {
            Some(p) => {
                let _started = s.open_file(p, exists, now);
            },
            None => {},
        }
        s
    }
}

} // verus!
