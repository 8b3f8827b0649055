//! The navigation state machine: current directory, listing, selection,
//! hidden-file policy and preview, and how input events move them.

use vstd::prelude::*;
use vstd::string::StrSliceExecFns;

use crate::listing::build_listing;
use crate::listing::listing_model;
use crate::listing::views;
use crate::listing::Entry;
use crate::listing::EntryV;
use crate::preview::StyledLine;

verus! {

/// An absolute directory path, as the components under the filesystem root;
/// no components means the root itself.
pub struct DirPath {
    pub parts: Vec<String>,
}

impl View for DirPath {
    type V = Seq<Seq<char>>;

    open spec fn view(&self) -> Seq<Seq<char>> {
        self.parts@.map_values(|s: String| s@)
    }
}

impl DirPath {
    /// Whether the directory has a parent: anything but the root has one.
    pub fn has_parent(&self) -> (r: bool)
        ensures
            r == (self@.len() > 0),
    {
        self.parts.len() > 0
    }
}

/// An open preview: the previewed file's base name, its styled content, the
/// raw scroll offset, and whether only a prefix of the file is shown.
pub struct Preview {
    pub file_name: String,
    pub lines: Vec<StyledLine>,
    pub scroll: usize,
    pub truncated: bool,
}

/// The whole navigation state.
pub struct NavState {
    pub cwd: DirPath,
    pub listing: Vec<Entry>,
    pub selected: usize,
    pub show_hidden: bool,
    pub preview: Option<Preview>,
}

/// Selection clamped after a relist: kept when still in range, else the last
/// index, or zero for an empty listing.
pub open spec fn clamp_sel(i: int, len: int) -> int {
    if len == 0 {
        0
    } else if i < len {
        i
    } else {
        len - 1
    }
}

/// One step of "move selection up": saturates at the first index.
pub open spec fn sel_up(i: int) -> int {
    if i > 0 {
        i - 1
    } else {
        0
    }
}

/// One step of "move selection down": saturates at the last index.
pub open spec fn sel_down(i: int, len: int) -> int {
    if len == 0 {
        i
    } else if i + 1 < len {
        i + 1
    } else {
        len - 1
    }
}

/// `n` repetitions of "move selection up".
pub open spec fn sel_up_n(i: int, n: nat) -> int
    decreases n,
{
    if n == 0 {
        i
    } else {
        sel_up(sel_up_n(i, (n - 1) as nat))
    }
}

/// `n` repetitions of "move selection down" in a listing of length `len`.
pub open spec fn sel_down_n(i: int, len: int, n: nat) -> int
    decreases n,
{
    if n == 0 {
        i
    } else {
        sel_down(sel_down_n(i, len, (n - 1) as nat), len)
    }
}

/// Moving up any number of times from the first index stays at the first
/// index: no wraparound.
pub proof fn lemma_up_saturates(n: nat)
    ensures
        sel_up_n(0, n) == 0,
    decreases n,
{
    if n > 0 {
        lemma_up_saturates((n - 1) as nat);
    }
}

/// Moving down any number of times from the last index stays at the last
/// index: no wraparound.
pub proof fn lemma_down_saturates(len: int, n: nat)
    requires
        len > 0,
    ensures
        sel_down_n(len - 1, len, n) == len - 1,
    decreases n,
{
    if n > 0 {
        lemma_down_saturates(len, (n - 1) as nat);
    }
}

/// The part of the state a relist touches, at the mathematical level.
pub ghost struct ListViewV {
    pub listing: Seq<EntryV>,
    pub selected: int,
    pub show_hidden: bool,
}

/// What toggling the hidden-file policy does, given the same raw enumeration:
/// flips the policy, rebuilds the listing, clamps the selection by index.
pub open spec fn toggle_model(s: ListViewV, raw: Seq<EntryV>, has_parent: bool) -> ListViewV {
    let l = listing_model(raw, has_parent, !s.show_hidden);
    ListViewV {
        listing: l,
        selected: clamp_sel(s.selected, l.len() as int),
        show_hidden: !s.show_hidden,
    }
}

/// Toggling the hidden-file policy twice over an unchanged directory
/// restores the listing, the policy, and the selected position, provided the
/// selection survives the intermediate listing (it always does when hidden
/// entries are being revealed; hiding can clip a selection past the shorter
/// listing's end).
pub proof fn lemma_toggle_twice(s: ListViewV, raw: Seq<EntryV>, has_parent: bool)
    requires
        s.listing == listing_model(raw, has_parent, s.show_hidden),
        s.listing.len() == 0 ==> s.selected == 0,
        s.listing.len() > 0 ==> 0 <= s.selected < s.listing.len(),
        s.selected < listing_model(raw, has_parent, !s.show_hidden).len() || s.selected == 0,
    ensures
        toggle_model(toggle_model(s, raw, has_parent), raw, has_parent) == s,
{
    let mid = toggle_model(s, raw, has_parent);
    let back = toggle_model(mid, raw, has_parent);
    assert(back.show_hidden == s.show_hidden);
    assert(back.listing == s.listing);
    assert(mid.selected == s.selected);
    assert(back.selected == clamp_sel(s.selected, s.listing.len() as int));
    assert(back.selected == s.selected);
}

/// The view-level relist state of a navigation state.
pub open spec fn lview(s: NavState) -> ListViewV {
    ListViewV {
        listing: views(s.listing@),
        selected: s.selected as int,
        show_hidden: s.show_hidden,
    }
}

/// What activating the current selection asks for.
pub enum Activation {
    /// Nothing to do: the listing is empty, or `..` is selected at the root.
    Idle,
    /// Go to the parent directory.
    Parent,
    /// Descend into the named subdirectory.
    Dir(String),
    /// Open a preview of the named file.
    File(String),
}

/// One decoded key press, as the state machine sees it.
pub enum InputKey {
    /// Arrow up: move the selection.
    Up,
    /// Arrow down: move the selection.
    Down,
    /// `k`: scroll the preview when one is open, else move the selection.
    VimUp,
    /// `j`: scroll the preview when one is open, else move the selection.
    VimDown,
    /// Enter or `l`: activate the selected entry.
    Activate,
    /// `h`: go to the parent directory.
    Parent,
    /// `H`: flip the hidden-file policy.
    ToggleHidden,
    /// Escape: close the preview, or quit when none is open.
    Cancel,
    /// `q`: quit.
    Quit,
    /// Any other key: ignored.
    Other,
}

/// What the caller must do next: nothing, stop, or perform one directory
/// read or file load and hand the result back.
pub enum Effect {
    /// Nothing further; redraw.
    Continue,
    /// Terminate the program.
    Exit,
    /// Read the parent directory and call [`NavState::enter_parent`].
    NeedParentList,
    /// Read the named subdirectory and call [`NavState::enter_dir`].
    NeedDirList(String),
    /// Load the named file and call [`NavState::open_preview`].
    NeedFileLoad(String),
    /// Re-read the current directory and call [`NavState::toggle_hidden`].
    NeedRelist,
}

/// All fields equal except the selection.
pub open spec fn same_but_selected(a: NavState, b: NavState) -> bool {
    a.cwd == b.cwd && a.listing == b.listing && a.show_hidden == b.show_hidden && a.preview
        == b.preview
}

/// All fields equal except the preview.
pub open spec fn same_but_preview(a: NavState, b: NavState) -> bool {
    a.cwd == b.cwd && a.listing == b.listing && a.show_hidden == b.show_hidden && a.selected
        == b.selected
}

impl NavState {
    /// The selection points into the listing, or sits at zero when the
    /// listing is empty.
    pub open spec fn wf(&self) -> bool {
        if self.listing@.len() == 0 {
            self.selected == 0
        } else {
            (self.selected as int) < self.listing@.len()
        }
    }

    /// Starts a session in the given directory, from its raw enumeration:
    /// hidden files start hidden, nothing is selected but the first entry,
    /// no preview is open.
    pub fn new(cwd: DirPath, raw: Vec<Entry>) -> (r: NavState)
        ensures
            r.wf(),
            r.cwd@ == cwd@,
            views(r.listing@) == listing_model(views(raw@), cwd@.len() > 0, false),
            r.selected == 0,
            !r.show_hidden,
            r.preview is None,
    {
        let hp = cwd.has_parent();
        let listing = build_listing(raw, hp, false);
        NavState { cwd, listing, selected: 0, show_hidden: false, preview: None }
    }

    /// Moves the selection one entry up, saturating at the top.
    pub fn selection_up(&mut self)
        requires
            old(self).wf(),
        ensures
            final(self).wf(),
            same_but_selected(*final(self), *old(self)),
            old(self).listing@.len() > 0 ==> final(self).selected as int == sel_up(
                old(self).selected as int,
            ),
            old(self).listing@.len() == 0 ==> final(self).selected == old(self).selected,
    {
        if self.listing.len() == 0 {
            return;
        }
        if self.selected > 0 {
            self.selected = self.selected - 1;
        }
    }

    /// Moves the selection one entry down, saturating at the bottom.
    pub fn selection_down(&mut self)
        requires
            old(self).wf(),
        ensures
            final(self).wf(),
            same_but_selected(*final(self), *old(self)),
            old(self).listing@.len() > 0 ==> final(self).selected as int == sel_down(
                old(self).selected as int,
                old(self).listing@.len() as int,
            ),
            old(self).listing@.len() == 0 ==> final(self).selected == old(self).selected,
    {
        if self.listing.len() == 0 {
            return;
        }
        if self.selected + 1 < self.listing.len() {
            self.selected = self.selected + 1;
        } else {
            self.selected = self.listing.len() - 1;
        }
    }

    /// Closes the preview; nothing else moves.
    pub fn close_preview(&mut self)
        requires
            old(self).wf(),
        ensures
            final(self).wf(),
            same_but_preview(*final(self), *old(self)),
            final(self).preview is None,
    {
        self.preview = None;
    }

    /// Scrolls an open preview one line down; the upper bound is enforced at
    /// render time, not here.
    pub fn preview_scroll_down(&mut self)
        requires
            old(self).wf(),
        ensures
            final(self).wf(),
            same_but_preview(*final(self), *old(self)),
            match old(self).preview {
                Some(p) => final(self).preview matches Some(q) && q.file_name == p.file_name
                    && q.lines == p.lines && q.truncated == p.truncated && q.scroll as int == (
                if p.scroll as int + 1 <= usize::MAX as int {
                    p.scroll as int + 1
                } else {
                    p.scroll as int
                }),
                None => final(self).preview is None,
            },
    {
        match &mut self.preview {
            Some(p) => {
                if p.scroll < usize::MAX {
                    p.scroll = p.scroll + 1;
                }
            },
            None => {},
        }
    }

    /// Scrolls an open preview one line up, saturating at zero.
    pub fn preview_scroll_up(&mut self)
        requires
            old(self).wf(),
        ensures
            final(self).wf(),
            same_but_preview(*final(self), *old(self)),
            match old(self).preview {
                Some(p) => final(self).preview matches Some(q) && q.file_name == p.file_name
                    && q.lines == p.lines && q.truncated == p.truncated && q.scroll as int
                    == sel_up(p.scroll as int),
                None => final(self).preview is None,
            },
    {
        match &mut self.preview {
            Some(p) => {
                if p.scroll > 0 {
                    p.scroll = p.scroll - 1;
                }
            },
            None => {},
        }
    }

    /// Flips the hidden-file policy and rebuilds the listing from the given
    /// raw enumeration of the (unchanged) current directory; the selection is
    /// clamped by index, not tracked by entry.
    pub fn toggle_hidden(&mut self, raw: Vec<Entry>)
        requires
            old(self).wf(),
        ensures
            final(self).wf(),
            final(self).cwd == old(self).cwd,
            final(self).preview == old(self).preview,
            lview(*final(self)) == toggle_model(
                lview(*old(self)),
                views(raw@),
                old(self).cwd@.len() > 0,
            ),
    {
        self.show_hidden = !self.show_hidden;
        let hp = self.cwd.has_parent();
        self.listing = build_listing(raw, hp, self.show_hidden);
        if self.listing.len() == 0 {
            self.selected = 0;
        } else if self.selected >= self.listing.len() {
            self.selected = self.listing.len() - 1;
        }
    }

    /// Moves to the parent directory, given its raw enumeration; the
    /// selection resets to the top.
    pub fn enter_parent(&mut self, raw: Vec<Entry>)
        requires
            old(self).wf(),
            old(self).cwd@.len() > 0,
        ensures
            final(self).wf(),
            final(self).cwd@ == old(self).cwd@.drop_last(),
            final(self).show_hidden == old(self).show_hidden,
            final(self).preview == old(self).preview,
            final(self).selected == 0,
            views(final(self).listing@) == listing_model(
                views(raw@),
                old(self).cwd@.len() > 1,
                old(self).show_hidden,
            ),
    {
        let ghost before = self.cwd.parts@;
        self.cwd.parts.pop();
        proof {
            assert(self.cwd@ =~= before.map_values(|s: String| s@).drop_last());
        }
        self.selected = 0;
        let hp = self.cwd.has_parent();
        self.listing = build_listing(raw, hp, self.show_hidden);
        if self.listing.len() == 0 {
            self.selected = 0;
        } else if self.selected >= self.listing.len() {
            self.selected = self.listing.len() - 1;
        }
    }

    /// Descends into the named subdirectory, given its raw enumeration; the
    /// selection resets to the top.
    pub fn enter_dir(&mut self, name: String, raw: Vec<Entry>)
        requires
            old(self).wf(),
        ensures
            final(self).wf(),
            final(self).cwd@ == old(self).cwd@.push(name@),
            final(self).show_hidden == old(self).show_hidden,
            final(self).preview == old(self).preview,
            final(self).selected == 0,
            views(final(self).listing@) == listing_model(
                views(raw@),
                true,
                old(self).show_hidden,
            ),
    {
        let ghost before = self.cwd.parts@;
        let ghost namev = name@;
        self.cwd.parts.push(name);
        proof {
            assert(self.cwd@ =~= before.map_values(|s: String| s@).push(namev));
        }
        self.selected = 0;
        let hp = self.cwd.has_parent();
        proof {
            assert(self.cwd@.len() > 0);
        }
        self.listing = build_listing(raw, hp, self.show_hidden);
        if self.listing.len() == 0 {
            self.selected = 0;
        } else if self.selected >= self.listing.len() {
            self.selected = self.listing.len() - 1;
        }
    }

    /// Opens (or replaces) the preview with freshly loaded content; its
    /// scroll starts at the top.
    pub fn open_preview(&mut self, file_name: String, lines: Vec<StyledLine>, truncated: bool)
        requires
            old(self).wf(),
        ensures
            final(self).wf(),
            same_but_preview(*final(self), *old(self)),
            final(self).preview matches Some(p) && p.file_name@ == file_name@ && p.lines == lines
                && p.scroll == 0 && p.truncated == truncated,
    {
        self.preview = Some(Preview { file_name, lines, scroll: 0, truncated });
    }

    /// What activating the current selection asks for: nothing on an empty
    /// listing, the parent for `..` (when one exists), the subdirectory for a
    /// directory entry, a file load otherwise.
    pub fn activation(&self) -> (r: Activation)
        requires
            self.wf(),
        ensures
            self.listing@.len() == 0 ==> r is Idle,
            self.listing@.len() > 0 ==> {
                let e = self.listing@[self.selected as int]@;
                if e.name == ".."@ {
                    if self.cwd_has_parent() {
                        r is Parent
                    } else {
                        r is Idle
                    }
                } else if e.is_dir {
                    r matches Activation::Dir(n) && n@ == e.name
                } else {
                    r matches Activation::File(n) && n@ == e.name
                }
            },
    {
        if self.listing.len() == 0 {
            return Activation::Idle;
        }
        let e = &self.listing[self.selected];
        if name_is_parent(&e.name) {
            if self.cwd.parts.len() > 0 {
                return Activation::Parent;
            }
            return Activation::Idle;
        }
        if e.is_dir {
            return Activation::Dir(e.name.clone());
        }
        Activation::File(e.name.clone())
    }

    /// Whether the current directory has a parent.
    pub open spec fn cwd_has_parent(&self) -> bool {
        self.cwd@.len() > 0
    }

    /// Applies one key press: pure transitions happen here; transitions that
    /// need the filesystem come back as an [`Effect`] for the caller.
    pub fn handle_key(&mut self, key: InputKey) -> (eff: Effect)
        requires
            old(self).wf(),
        ensures
            final(self).wf(),
            match key {
                InputKey::Quit => eff is Exit && *final(self) == *old(self),
                InputKey::Cancel => {
                    if old(self).preview is Some {
                        &&& eff is Continue
                        &&& same_but_preview(*final(self), *old(self))
                        &&& final(self).preview is None
                    } else {
                        eff is Exit && *final(self) == *old(self)
                    }
                },
                InputKey::Up => eff is Continue && same_but_selected(*final(self), *old(self)) && (
                old(self).listing@.len() > 0 ==> final(self).selected as int == sel_up(
                    old(self).selected as int,
                )),
                InputKey::Down => eff is Continue && same_but_selected(*final(self), *old(self))
                    && (old(self).listing@.len() > 0 ==> final(self).selected as int == sel_down(
                    old(self).selected as int,
                    old(self).listing@.len() as int,
                )),
                InputKey::VimUp => eff is Continue && (if old(self).preview is Some {
                    same_but_preview(*final(self), *old(self)) && (final(self).preview matches Some(
                        q,
                    ) && old(self).preview matches Some(p) && q.scroll as int == sel_up(
                        p.scroll as int,
                    ))
                } else {
                    same_but_selected(*final(self), *old(self)) && (old(self).listing@.len() > 0
                        ==> final(self).selected as int == sel_up(old(self).selected as int))
                }),
                InputKey::VimDown => eff is Continue && (if old(self).preview is Some {
                    same_but_preview(*final(self), *old(self)) && (final(self).preview matches Some(
                        q,
                    ) && old(self).preview matches Some(p) && q.scroll as int == (
                    if p.scroll as int + 1 <= usize::MAX as int {
                        p.scroll as int + 1
                    } else {
                        p.scroll as int
                    }))
                } else {
                    same_but_selected(*final(self), *old(self)) && (old(self).listing@.len() > 0
                        ==> final(self).selected as int == sel_down(
                        old(self).selected as int,
                        old(self).listing@.len() as int,
                    ))
                }),
                InputKey::Activate => *final(self) == *old(self) && (
                if old(self).listing@.len() == 0 {
                    eff is Continue
                } else {
                    let e = old(self).listing@[old(self).selected as int]@;
                    if e.name == ".."@ {
                        if old(self).cwd_has_parent() {
                            eff is NeedParentList
                        } else {
                            eff is Continue
                        }
                    } else if e.is_dir {
                        eff matches Effect::NeedDirList(n) && n@ == e.name
                    } else {
                        eff matches Effect::NeedFileLoad(n) && n@ == e.name
                    }
                }),
                InputKey::Parent => *final(self) == *old(self) && (if old(self).cwd_has_parent() {
                    eff is NeedParentList
                } else {
                    eff is Continue
                }),
                InputKey::ToggleHidden => *final(self) == *old(self) && eff is NeedRelist,
                InputKey::Other => *final(self) == *old(self) && eff is Continue,
            },
    {
        match key {
            InputKey::Quit => Effect::Exit,
            InputKey::Cancel => {
                if self.preview.is_some() {
                    self.close_preview();
                    Effect::Continue
                } else {
                    Effect::Exit
                }
            },
            InputKey::Up => {
                self.selection_up();
                Effect::Continue
            },
            InputKey::Down => {
                self.selection_down();
                Effect::Continue
            },
            InputKey::VimUp => {
                if self.preview.is_some() {
                    self.preview_scroll_up();
                } else {
                    self.selection_up();
                }
                Effect::Continue
            },
            InputKey::VimDown => {
                if self.preview.is_some() {
                    self.preview_scroll_down();
                } else {
                    self.selection_down();
                }
                Effect::Continue
            },
            InputKey::Activate => {
                match self.activation() {
                    Activation::Idle => Effect::Continue,
                    Activation::Parent => Effect::NeedParentList,
                    Activation::Dir(n) => Effect::NeedDirList(n),
                    Activation::File(n) => Effect::NeedFileLoad(n),
                }
            },
            InputKey::Parent => {
                if self.cwd.parts.len() > 0 {
                    Effect::NeedParentList
                } else {
                    Effect::Continue
                }
            },
            InputKey::ToggleHidden => Effect::NeedRelist,
            InputKey::Other => Effect::Continue,
        }
    }
}

/// Whether a name is the synthetic parent entry's name `..`.
pub fn name_is_parent(n: &String) -> (r: bool)
    ensures
        r == (n@ == ".."@),
{
    proof {
        reveal_strlit("..");
    }
    let s = n.as_str();
    let len = s.unicode_len();
    if len == 2 && s.get_char(0) == '.' && s.get_char(1) == '.' {
        proof {
            assert(n@ =~= ".."@);
        }
        return true;
    }
    proof {
        assert(n@ != ".."@);
    }
    false
}

} // verus!
