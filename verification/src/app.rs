//! The navigation state machine.
//!
//! The machine owns the current directory, its listing, the selection,
//! the child preview, the hidden-entry flag and the termination flags.
//! It consumes one key event at a time.  Reading a directory is outside
//! work: before a key is applied, [`App::key_list_request`] names the
//! directory whose listing that key will need, and the caller hands the
//! listing in; after a key is applied, [`App::preview_request`] names
//! the directory the preview needs, and [`App::update_sub_files`] takes
//! that listing.  A read that fails is degraded to an empty listing at
//! the lister boundary and never aborts a transition.

use vstd::prelude::*;

use crate::components::{
    clone_files, filter_hidden_files, filter_visible, lemma_filter_visible_wf, listing_view,
    wf_listing, File, FileType, FileView,
};
use crate::paths::{get_parent_dir, join_of, join_path, parent_of, wf_dir, wf_name};

verus! {

/// The logical key codes the navigator reacts to.
#[derive(Clone, Copy, Debug, PartialEq, Eq)]
pub enum KeyCode {
    Esc,
    Enter,
    Left,
    Right,
    Up,
    Down,
    Char(char),
    Other,
}

/// Whether a key event is a press or a release; releases are ignored.
#[derive(Clone, Copy, Debug, PartialEq, Eq)]
pub enum KeyEventKind {
    Press,
    Release,
}

pub struct App {
    pub current_dir: String,
    pub files: Vec<File>,
    pub index: usize,
    pub sub_files: Vec<File>,
    pub filter_hidden_file: bool,
    pub exit: bool,
    pub output: bool,
}

/// Mathematical image of the whole navigator state.
#[verifier::ext_equal]
pub ghost struct AppView {
    pub current_dir: Seq<char>,
    pub files: Seq<FileView>,
    pub index: int,
    pub sub_files: Seq<FileView>,
    pub filter_hidden_file: bool,
    pub exit: bool,
    pub output: bool,
}

impl View for App {
    type V = AppView;

    open spec fn view(&self) -> AppView {
        AppView {
            current_dir: self.current_dir@,
            files: listing_view(self.files@),
            index: self.index as int,
            sub_files: listing_view(self.sub_files@),
            filter_hidden_file: self.filter_hidden_file,
            exit: self.exit,
            output: self.output,
        }
    }
}

impl AppView {
    /// The state invariant: well-formed directory and listings, and a
    /// selection that stays inside the listing, resting at the top
    /// when the listing is empty.
    pub open spec fn wf(self) -> bool {
        &&& wf_dir(self.current_dir)
        &&& wf_listing(self.files)
        &&& wf_listing(self.sub_files)
        &&& 0 <= self.index
        &&& (self.files.len() == 0 ==> self.index == 0)
        &&& (self.files.len() > 0 ==> self.index < self.files.len())
    }
}

pub open spec fn is_back_key(code: KeyCode) -> bool {
    code == KeyCode::Esc || code == KeyCode::Char('h') || code == KeyCode::Left
}

pub open spec fn is_enter_key(code: KeyCode) -> bool {
    code == KeyCode::Enter || code == KeyCode::Char('l') || code == KeyCode::Right
}

pub open spec fn is_up_key(code: KeyCode) -> bool {
    code == KeyCode::Up || code == KeyCode::Char('k')
}

pub open spec fn is_down_key(code: KeyCode) -> bool {
    code == KeyCode::Down || code == KeyCode::Char('j')
}

pub open spec fn is_toggle_key(code: KeyCode) -> bool {
    code == KeyCode::Char('H')
}

pub open spec fn is_confirm_key(code: KeyCode) -> bool {
    code == KeyCode::Char(' ')
}

pub open spec fn is_quit_key(code: KeyCode) -> bool {
    code == KeyCode::Char('q') || code == KeyCode::Char('Q')
}

/// Whether the selected entry exists and is a directory.
pub open spec fn selected_is_dir(s: AppView) -> bool {
    s.files.len() > 0 && 0 <= s.index < s.files.len() && s.files[s.index].file_type
        == FileType::Dir
}

/// The selection after one move up: wraps from the top to the bottom.
pub open spec fn up_index(s: AppView) -> int {
    if s.files.len() == 0 {
        0
    } else if s.index == 0 {
        s.files.len() - 1
    } else {
        s.index - 1
    }
}

/// The selection after one move down: wraps from the bottom to the top.
pub open spec fn down_index(s: AppView) -> int {
    if s.files.len() == 0 {
        0
    } else if s.index == s.files.len() - 1 {
        0
    } else {
        s.index + 1
    }
}

/// One key step, before the preview is refreshed.  `listing` is the
/// directory read the key asked for through
/// [`spec_key_list_request`]: the parent's listing for a back key, the
/// current directory's fresh listing for a toggle that turns the
/// filter off; every other key ignores it.
pub open spec fn step_key(
    s: AppView,
    code: KeyCode,
    kind: KeyEventKind,
    listing: Seq<FileView>,
) -> AppView {
    if kind == KeyEventKind::Release {
        s
    } else if is_back_key(code) {
        let parent = parent_of(s.current_dir);
        if parent == s.current_dir {
            s
        } else {
            AppView { current_dir: parent, files: listing, index: 0, ..s }
        }
    } else if is_enter_key(code) {
        if selected_is_dir(s) {
            AppView {
                current_dir: join_of(s.current_dir, s.files[s.index].name),
                files: s.sub_files,
                index: 0,
                ..s
            }
        } else {
            s
        }
    } else if is_up_key(code) {
        AppView { index: up_index(s), ..s }
    } else if is_down_key(code) {
        AppView { index: down_index(s), ..s }
    } else if is_toggle_key(code) {
        if !s.filter_hidden_file {
            AppView {
                filter_hidden_file: true,
                files: filter_visible(s.files),
                index: 0,
                ..s
            }
        } else {
            AppView { filter_hidden_file: false, files: listing, index: 0, ..s }
        }
    } else if is_confirm_key(code) {
        if selected_is_dir(s) {
            AppView { exit: true, ..s }
        } else {
            s
        }
    } else if is_quit_key(code) {
        AppView { output: false, exit: true, ..s }
    } else {
        s
    }
}

/// The preview refresh: the handed-in listing when a directory is
/// selected, empty otherwise.
pub open spec fn with_preview(s: AppView, listing: Seq<FileView>) -> AppView {
    AppView {
        sub_files: if selected_is_dir(s) {
            listing
        } else {
            Seq::<FileView>::empty()
        },
        ..s
    }
}

/// The directory a key step will read for its new listing, if any.
pub open spec fn spec_key_list_request(s: AppView, code: KeyCode, kind: KeyEventKind) -> Option<
    Seq<char>,
> {
    if kind == KeyEventKind::Release {
        None
    } else if is_back_key(code) && parent_of(s.current_dir) != s.current_dir {
        Some(parent_of(s.current_dir))
    } else if is_toggle_key(code) && s.filter_hidden_file {
        Some(s.current_dir)
    } else {
        None
    }
}

/// The directory the preview refresh will read, if any: the selected
/// entry's path when it is a directory.
pub open spec fn spec_preview_target(s: AppView) -> Option<Seq<char>> {
    if selected_is_dir(s) {
        Some(join_of(s.current_dir, s.files[s.index].name))
    } else {
        None
    }
}

/// `n` presses of one key in a row; the keys these laws apply it to
/// request no directory read, so each press gets an empty listing.
pub open spec fn iter_key(s: AppView, code: KeyCode, n: nat) -> AppView
    decreases n,
{
    if n == 0 {
        s
    } else {
        step_key(
            iter_key(s, code, (n - 1) as nat),
            code,
            KeyEventKind::Press,
            Seq::<FileView>::empty(),
        )
    }
}

proof fn lemma_down_iter(s: AppView, k: nat)
    requires
        s.files.len() > 0,
        0 <= s.index < s.files.len(),
        k <= s.files.len(),
    ensures
        iter_key(s, KeyCode::Down, k).files == s.files,
        iter_key(s, KeyCode::Down, k).index == if s.index + k < s.files.len() {
            s.index + k
        } else {
            s.index + k - s.files.len()
        },
    decreases k,
{
    if k > 0 {
        lemma_down_iter(s, (k - 1) as nat);
    }
}

proof fn lemma_up_iter(s: AppView, k: nat)
    requires
        s.files.len() > 0,
        0 <= s.index < s.files.len(),
        k <= s.files.len(),
    ensures
        iter_key(s, KeyCode::Up, k).files == s.files,
        iter_key(s, KeyCode::Up, k).index == if s.index - k >= 0 {
            s.index - k
        } else {
            s.index - k + s.files.len()
        },
    decreases k,
{
    if k > 0 {
        lemma_up_iter(s, (k - 1) as nat);
    }
}

/// Law: on a non-empty listing, moving down as many times as the
/// listing is long returns the selection to where it started, and so
/// does moving up.
pub proof fn lemma_wraparound(s: AppView, n: nat)
    requires
        s.files.len() > 0,
        0 <= s.index < s.files.len(),
        n == s.files.len(),
    ensures
        iter_key(s, KeyCode::Down, n).index == s.index,
        iter_key(s, KeyCode::Up, n).index == s.index,
{
    lemma_down_iter(s, n);
    lemma_up_iter(s, n);
}

/// Law: after any transition — one key step followed by the preview
/// refresh — the preview is consistent with the selection: it is
/// exactly the refreshed listing when the selected entry is a
/// directory (the listing read from the path [`spec_preview_target`]
/// names, the current directory joined with the selected name), and
/// empty when the entry is a file or the listing is empty.
pub proof fn lemma_preview_consistency(
    s: AppView,
    code: KeyCode,
    kind: KeyEventKind,
    l1: Seq<FileView>,
    l2: Seq<FileView>,
)
    ensures
        ({
            let t = with_preview(step_key(s, code, kind, l1), l2);
            &&& (selected_is_dir(t) ==> t.sub_files == l2 && spec_preview_target(t) == Some(
                join_of(t.current_dir, t.files[t.index].name),
            ))
            &&& (!selected_is_dir(t) ==> t.sub_files == Seq::<FileView>::empty())
        }),
{
}

/// Law: toggling the hidden filter twice from an unfiltered state
/// restores the untoggled listing.  The first toggle filters the
/// entries in place; the second re-reads the base directory, and when
/// that read returns the original listing — the base directory is
/// unchanged — the entries are exactly the ones never toggling would
/// have shown, with the selection reset to the top.
pub proof fn lemma_toggle_twice(s: AppView, l1: Seq<FileView>, l2: Seq<FileView>)
    requires
        !s.filter_hidden_file,
    ensures
        ({
            let once = step_key(s, KeyCode::Char('H'), KeyEventKind::Press, l1);
            let twice = step_key(once, KeyCode::Char('H'), KeyEventKind::Press, l2);
            &&& once.files == filter_visible(s.files)
            &&& once.filter_hidden_file
            &&& twice.filter_hidden_file == s.filter_hidden_file
            &&& twice.current_dir == s.current_dir
            &&& twice.index == 0
            &&& twice.files == l2
            &&& (l2 == s.files ==> twice.files == s.files)
        }),
{
}

/// Law: with an empty listing, moving, entering and confirming change
/// nothing — the selection rests at the top — and the refreshed
/// preview is empty.
pub proof fn lemma_empty_listing(
    s: AppView,
    code: KeyCode,
    kind: KeyEventKind,
    l1: Seq<FileView>,
    l2: Seq<FileView>,
)
    requires
        s.files.len() == 0,
        s.index == 0,
        is_up_key(code) || is_down_key(code) || is_enter_key(code) || is_confirm_key(code),
    ensures
        step_key(s, code, kind, l1) == s,
        with_preview(step_key(s, code, kind, l1), l2).sub_files == Seq::<FileView>::empty(),
{
    assert(step_key(s, code, kind, l1) =~= s);
}

/// Law: when the current directory is its own parent — at the
/// filesystem root — a back key changes nothing.
pub proof fn lemma_back_at_root(s: AppView, kind: KeyEventKind, l: Seq<FileView>)
    requires
        parent_of(s.current_dir) == s.current_dir,
    ensures
        step_key(s, KeyCode::Esc, kind, l) == s,
        step_key(s, KeyCode::Char('h'), kind, l) == s,
        step_key(s, KeyCode::Left, kind, l) == s,
{
}

impl App {
    /// Builds the navigator over an already-read listing of
    /// `current_dir`.  The preview starts empty; the first
    /// [`App::update_sub_files`] fills it.
    pub fn new(current_dir: String, files: Vec<File>) -> (app: App)
        requires
            wf_dir(current_dir@),
            wf_listing(listing_view(files@)),
        ensures
            app@ == (AppView {
                current_dir: current_dir@,
                files: listing_view(files@),
                index: 0,
                sub_files: Seq::<FileView>::empty(),
                filter_hidden_file: false,
                exit: false,
                output: true,
            }),
            app@.wf(),
    {
        let app = App {
            current_dir,
            files,
            index: 0,
            sub_files: Vec::new(),
            filter_hidden_file: false,
            exit: false,
            output: true,
        };
        proof {
            assert(listing_view(app.sub_files@) =~= Seq::<FileView>::empty());
            assert(app@ =~= (AppView {
                current_dir: app.current_dir@,
                files: listing_view(app.files@),
                index: 0,
                sub_files: Seq::<FileView>::empty(),
                filter_hidden_file: false,
                exit: false,
                output: true,
            }));
        }
        app
    }

    /// Marks the session as finished; nothing ever clears it.
    pub fn exit(&mut self)
        ensures
            final(self)@ == (AppView { exit: true, ..old(self)@ }),
    {
        self.exit = true;
        proof {
            assert(self@ =~= (AppView { exit: true, ..old(self)@ }));
        }
    }

    /// Adopts the preview as the current listing, with the selection
    /// reset to the top.  The preview refresh follows separately.
    pub fn update(&mut self)
        requires
            old(self)@.wf(),
        ensures
            final(self)@ == (AppView { files: old(self)@.sub_files, index: 0, ..old(self)@ }),
            final(self)@.wf(),
    {
        let copied = clone_files(&self.sub_files);
        self.files = copied;
        self.index = 0;
        proof {
            assert(self@ =~= (AppView { files: old(self)@.sub_files, index: 0, ..old(self)@ }));
        }
    }

    /// Applies one key event.  `listing` is the directory read named
    /// beforehand by [`App::key_list_request`]; keys that request no
    /// read ignore it.  The preview is refreshed afterwards by
    /// [`App::update_sub_files`].
    pub fn handle_key_evnet(&mut self, code: KeyCode, kind: KeyEventKind, listing: Vec<File>)
        requires
            old(self)@.wf(),
            wf_listing(listing_view(listing@)),
        ensures
            final(self)@ == step_key(old(self)@, code, kind, listing_view(listing@)),
            final(self)@.wf(),
    {
        let ghost s = old(self)@;
        let ghost lv = listing_view(listing@);
        if matches!(kind, KeyEventKind::Release) {
            return ;
        }
        match code {
            KeyCode::Esc | KeyCode::Char('h') | KeyCode::Left => {
                let parent = get_parent_dir(self.current_dir.as_str());
                if parent == self.current_dir {
                } else {
                    self.current_dir = parent;
                    self.index = 0;
                    self.files = listing;
                    proof {
                        assert(self@ =~= (AppView {
                            current_dir: parent_of(s.current_dir),
                            files: lv,
                            index: 0,
                            ..s
                        }));
                    }
                }
            },
            KeyCode::Enter | KeyCode::Char('l') | KeyCode::Right => {
                if self.files.len() > 0 {
                    if self.index < self.files.len() {
                        match self.files[self.index].file_type {
                            FileType::Dir => {
                                let joined = join_path(
                                    self.current_dir.as_str(),
                                    self.files[self.index].name.as_str(),
                                );
                                self.current_dir = joined;
                                self.update();
                                proof {
                                    assert(self@ =~= (AppView {
                                        current_dir: join_of(s.current_dir, s.files[s.index].name),
                                        files: s.sub_files,
                                        index: 0,
                                        ..s
                                    }));
                                }
                            },
                            FileType::File => {},
                        }
                    }
                }
            },
            KeyCode::Up | KeyCode::Char('k') => {
                if self.files.len() > 0 {
                    if self.index == 0 {
                        self.index = self.files.len() - 1;
                    } else {
                        self.index = self.index - 1;
                    }
                } else {
                    self.index = 0;
                }
                proof {
                    assert(self@ =~= (AppView { index: up_index(s), ..s }));
                }
            },
            KeyCode::Down | KeyCode::Char('j') => {
                if self.files.len() > 0 {
                    if self.index == self.files.len() - 1 {
                        self.index = 0;
                    } else {
                        self.index = self.index + 1;
                    }
                } else {
                    self.index = 0;
                }
                proof {
                    assert(self@ =~= (AppView { index: down_index(s), ..s }));
                }
            },
            KeyCode::Char('H') => {
                self.filter_hidden_file = !self.filter_hidden_file;
                if self.filter_hidden_file {
                    let copied = clone_files(&self.files);
                    self.files = filter_hidden_files(copied);
                    proof {
                        lemma_filter_visible_wf(s.files);
                    }
                } else {
                    self.files = listing;
                }
                self.index = 0;
                proof {
                    if s.filter_hidden_file {
                        assert(self@ =~= (AppView {
                            filter_hidden_file: false,
                            files: lv,
                            index: 0,
                            ..s
                        }));
                    } else {
                        assert(self@ =~= (AppView {
                            filter_hidden_file: true,
                            files: filter_visible(s.files),
                            index: 0,
                            ..s
                        }));
                    }
                }
            },
            KeyCode::Char(' ') => {
                if self.files.len() > 0 {
                    match self.files[self.index].file_type {
                        FileType::Dir => {
                            self.exit();
                            proof {
                                assert(self@ =~= (AppView { exit: true, ..s }));
                            }
                        },
                        FileType::File => {},
                    }
                }
            },
            KeyCode::Char('q') | KeyCode::Char('Q') => {
                self.output = false;
                self.exit();
                proof {
                    assert(self@ =~= (AppView { output: false, exit: true, ..s }));
                }
            },
            _ => {},
        }
    }

    /// Refreshes the preview: the handed-in listing of the selected
    /// directory (named by [`App::preview_request`]), or empty when no
    /// directory is selected.
    pub fn update_sub_files(&mut self, listing: Vec<File>)
        requires
            old(self)@.wf(),
            wf_listing(listing_view(listing@)),
        ensures
            final(self)@ == with_preview(old(self)@, listing_view(listing@)),
            final(self)@.wf(),
    {
        let ghost s = old(self)@;
        if self.files.len() > 0 {
            match self.files[self.index].file_type {
                FileType::Dir => {
                    self.files_set_sub(listing);
                },
                FileType::File => {
                    self.files_set_sub(Vec::new());
                    proof {
                        assert(listing_view(Seq::<File>::empty()) =~= Seq::<FileView>::empty());
                    }
                },
            }
        } else {
            self.files_set_sub(Vec::new());
            proof {
                assert(listing_view(Seq::<File>::empty()) =~= Seq::<FileView>::empty());
            }
        }
        proof {
            assert(self@ =~= with_preview(s, listing_view(listing@)));
        }
    }

    fn files_set_sub(&mut self, sub: Vec<File>)
        ensures
            final(self)@ == (AppView { sub_files: listing_view(sub@), ..old(self)@ }),
    {
        self.sub_files = sub;
        proof {
            assert(self@ =~= (AppView { sub_files: listing_view(self.sub_files@), ..old(self)@ }));
        }
    }

    /// Names the directory whose listing the given key will need, so
    /// the caller can read it before applying the key: the parent for
    /// a back key away from the root, the current directory for a
    /// toggle that turns the filter off.
    pub fn key_list_request(&self, code: KeyCode, kind: KeyEventKind) -> (r: Option<String>)
        requires
            self@.wf(),
        ensures
            match r {
                Some(p) => spec_key_list_request(self@, code, kind) == Some(p@),
                None => spec_key_list_request(self@, code, kind) is None,
            },
    {
        if matches!(kind, KeyEventKind::Release) {
            return None;
        }
        match code {
            KeyCode::Esc | KeyCode::Char('h') | KeyCode::Left => {
                let parent = get_parent_dir(self.current_dir.as_str());
                if parent == self.current_dir {
                    None
                } else {
                    Some(parent)
                }
            },
            KeyCode::Char('H') => {
                if self.filter_hidden_file {
                    Some(self.current_dir.clone())
                } else {
                    None
                }
            },
            _ => None,
        }
    }

    /// Names the directory the preview needs: the selected entry's
    /// path when that entry is a directory.
    pub fn preview_request(&self) -> (r: Option<String>)
        requires
            self@.wf(),
        ensures
            match r {
                Some(p) => spec_preview_target(self@) == Some(p@),
                None => spec_preview_target(self@) is None,
            },
    {
        if self.files.len() > 0 {
            match self.files[self.index].file_type {
                FileType::Dir => Some(
                    join_path(self.current_dir.as_str(), self.files[self.index].name.as_str()),
                ),
                FileType::File => None,
            }
        } else {
            None
        }
    }

    /// The confirmed target: the selected entry's path.
    pub fn finnal_dir(&self) -> (r: String)
        requires
            self@.wf(),
            self@.files.len() > 0,
        ensures
            r@ == join_of(self@.current_dir, self@.files[self@.index].name),
    {
        proof {
            assert(wf_name(self@.files[self@.index].name));
        }
        join_path(self.current_dir.as_str(), self.files[self.index].name.as_str())
    }
}

} // verus!

