//! Panels, focus and list selection: how the navigator moves between panels
//! and through lists, and how it matches search queries.
use vstd::prelude::*;

use crate::model::{Commit, DiffLayout, HistorySelection, Worktree};
use crate::text::{chars_of, owned};

verus! {

/// The panel that keyboard input goes to.
#[derive(Clone, Copy, Debug, Default, PartialEq, Eq, Structural)]
pub enum Focus {
    #[default]
    Worktrees,
    Files,
    Diff,
}

impl Focus {
    /// The panel to the left; with the first panel hidden, focus stays on
    /// Files or Diff.
    pub open spec fn moved_left(self, first_panel_visible: bool) -> Focus {
        match self {
            Focus::Worktrees => if first_panel_visible {
                Focus::Worktrees
            } else {
                Focus::Files
            },
            Focus::Files => if first_panel_visible {
                Focus::Worktrees
            } else {
                Focus::Files
            },
            Focus::Diff => Focus::Files,
        }
    }

    /// The panel to the right.
    pub open spec fn moved_right(self, first_panel_visible: bool) -> Focus {
        match self {
            Focus::Worktrees => if first_panel_visible {
                Focus::Files
            } else {
                Focus::Diff
            },
            Focus::Files => Focus::Diff,
            Focus::Diff => Focus::Diff,
        }
    }

    /// Moves focus one panel to the left.
    pub fn left(self, first_panel_visible: bool) -> (r: Focus)
        ensures
            r == self.moved_left(first_panel_visible),
    {
        if !first_panel_visible {
            return match self {
                Focus::Diff => Focus::Files,
                Focus::Files | Focus::Worktrees => Focus::Files,
            };
        }
        match self {
            Focus::Worktrees => Focus::Worktrees,
            Focus::Files => Focus::Worktrees,
            Focus::Diff => Focus::Files,
        }
    }

    /// Moves focus one panel to the right.
    pub fn right(self, first_panel_visible: bool) -> (r: Focus)
        ensures
            r == self.moved_right(first_panel_visible),
    {
        if !first_panel_visible {
            return match self {
                Focus::Files | Focus::Worktrees => Focus::Diff,
                Focus::Diff => Focus::Diff,
            };
        }
        match self {
            Focus::Worktrees => Focus::Files,
            Focus::Files => Focus::Diff,
            Focus::Diff => Focus::Diff,
        }
    }
}

/// Moving left never reaches a hidden first panel, nor does moving right;
/// Left stops at the first visible panel and Right at the Diff.
pub proof fn lemma_focus_stays_on_visible_panels(focus: Focus, first_panel_visible: bool)
    ensures
        !first_panel_visible ==> focus.moved_left(first_panel_visible) != Focus::Worktrees,
        !first_panel_visible ==> focus.moved_right(first_panel_visible) != Focus::Worktrees,
        focus.moved_right(first_panel_visible) != Focus::Worktrees,
        Focus::Diff.moved_right(first_panel_visible) == Focus::Diff,
        first_panel_visible ==> Focus::Worktrees.moved_left(first_panel_visible) == Focus::Worktrees,
        first_panel_visible && focus != Focus::Diff ==> focus.moved_right(
            first_panel_visible,
        ).moved_left(first_panel_visible) == focus,
{
}

/// How the three panels are arranged.
#[derive(Clone, Copy, Debug, Default, PartialEq, Eq, Structural)]
pub enum PanelLayout {
    #[default]
    Columns,
    SidebarLeft,
    SidebarTop,
}

impl PanelLayout {
    /// The next arrangement in the cycle Columns, SidebarLeft, SidebarTop.
    pub open spec fn next(self) -> PanelLayout {
        match self {
            PanelLayout::Columns => PanelLayout::SidebarLeft,
            PanelLayout::SidebarLeft => PanelLayout::SidebarTop,
            PanelLayout::SidebarTop => PanelLayout::Columns,
        }
    }

    /// Cycles to the next arrangement.
    pub fn toggle(self) -> (r: PanelLayout)
        ensures
            r == self.next(),
    {
        match self {
            PanelLayout::Columns => PanelLayout::SidebarLeft,
            PanelLayout::SidebarLeft => PanelLayout::SidebarTop,
            PanelLayout::SidebarTop => PanelLayout::Columns,
        }
    }
}

/// Cycling the layout visits every arrangement and returns after three steps.
pub proof fn lemma_panel_layout_cycle(layout: PanelLayout)
    ensures
        layout.next().next().next() == layout,
        layout.next() != layout,
        layout.next().next() != layout,
        layout.next() != layout.next().next(),
{
}

/// What the first panel shows.
#[derive(Clone, Copy, Debug, Default, PartialEq, Eq, Structural)]
pub enum WorktreePanel {
    #[default]
    Worktrees,
    History,
}

/// A pending request to clean up a worktree.
#[derive(Clone, Debug, PartialEq, Eq)]
pub struct DeleteConfirmation {
    pub path: String,
    pub branch: String,
    pub prune_only: bool,
}

/// Whether a status message reports success or failure.
#[derive(Clone, Copy, Debug, PartialEq, Eq, Structural)]
pub enum StatusKind {
    Info,
    Error,
}

/// A message in the status line.
#[derive(Clone, Debug, PartialEq, Eq)]
pub struct StatusMessage {
    pub kind: StatusKind,
    pub text: String,
}

/// A search being typed into a panel.
#[derive(Clone, Debug, PartialEq, Eq)]
pub struct SearchState {
    pub focus: Focus,
    pub query: String,
}

/// How the panels are shown.
pub struct ViewState {
    pub diff_layout: DiffLayout,
    pub line_wrap: bool,
    pub expanded: bool,
    pub initial_layout_applied: bool,
    pub panel_layout: PanelLayout,
    pub focus: Focus,
    pub show_help: bool,
    pub delete_confirmation: Option<DeleteConfirmation>,
    pub status: Option<StatusMessage>,
    pub worktree_filter: String,
    pub file_filter: String,
    pub search: Option<SearchState>,
    pub follow_changes: bool,
}

/// The view the navigator starts with: split diffs without wrapping, no
/// panel expanded and the width-based startup layout still to come, the
/// sidebar on the left, the Files panel focused, and no help, cleanup
/// dialog, status, filter or search; changes are not followed.
pub open spec fn is_startup_view(v: ViewState) -> bool {
    &&& v.diff_layout == DiffLayout::Split
    &&& !v.line_wrap
    &&& !v.expanded
    &&& !v.initial_layout_applied
    &&& v.panel_layout == PanelLayout::SidebarLeft
    &&& v.focus == Focus::Files
    &&& !v.show_help
    &&& v.delete_confirmation is None
    &&& v.status is None
    &&& v.worktree_filter@.len() == 0
    &&& v.file_filter@.len() == 0
    &&& v.search is None
    &&& !v.follow_changes
}

/// The view and history selection to start with: with linked worktrees the
/// first panel lists them and no history entry is selected; without, it
/// shows the history with the working tree (WIP) selected.
pub fn initial_view(linked: bool) -> (r: (ViewState, Option<HistorySelection>))
    ensures
        is_startup_view(r.0),
        linked ==> r.1 is None,
        !linked ==> r.1 == Some(HistorySelection::Wip),
{
    let view = ViewState {
        diff_layout: DiffLayout::Split,
        line_wrap: false,
        expanded: false,
        initial_layout_applied: false,
        panel_layout: PanelLayout::SidebarLeft,
        focus: Focus::Files,
        show_help: false,
        delete_confirmation: None,
        status: None,
        worktree_filter: String::new(),
        file_filter: String::new(),
        search: None,
        follow_changes: false,
    };
    let selection = if linked {
        None
    } else {
        Some(HistorySelection::Wip)
    };
    (view, selection)
}

/// What the first panel shows at start: the worktrees when some are linked,
/// the history otherwise.
pub fn initial_panel(linked: bool) -> (r: WorktreePanel)
    ensures
        r == (if linked {
            WorktreePanel::Worktrees
        } else {
            WorktreePanel::History
        }),
{
    if linked {
        WorktreePanel::Worktrees
    } else {
        WorktreePanel::History
    }
}

/// The filter typed into a panel: Worktrees and Files keep theirs; the
/// Diff panel has none.
pub open spec fn filter_of(view: ViewState, focus: Focus) -> Seq<char> {
    match focus {
        Focus::Worktrees => view.worktree_filter@,
        Focus::Files => view.file_filter@,
        Focus::Diff => Seq::<char>::empty(),
    }
}

/// The view after choosing the startup layout: unless it was chosen
/// already, a terminal narrower than `threshold` starts expanded with Unified
/// diffs, a wider one with Split diffs.
pub open spec fn with_initial_layout(view: ViewState, width: u16, threshold: u16) -> ViewState {
    if view.initial_layout_applied {
        view
    } else {
        ViewState {
            expanded: width < threshold,
            diff_layout: if width < threshold {
                DiffLayout::Unified
            } else {
                DiffLayout::Split
            },
            initial_layout_applied: true,
            ..view
        }
    }
}

impl ViewState {
    /// Chooses the startup layout once: narrower terminals than `threshold`
    /// start expanded with Unified diffs, wider ones with Split diffs; later
    /// calls change nothing.
    pub fn apply_initial_layout(&mut self, terminal_width: u16, threshold: u16)
        ensures
            *final(self) == with_initial_layout(*old(self), terminal_width, threshold),
    {
        if self.initial_layout_applied {
            return;
        }
        self.expanded = terminal_width < threshold;
        self.diff_layout = if terminal_width < threshold {
            DiffLayout::Unified
        } else {
            DiffLayout::Split
        };
        self.initial_layout_applied = true;
    }

    /// The filter typed into a panel.
    pub fn search_query(&self, focus: Focus) -> (r: &str)
        ensures
            r@ == filter_of(*self, focus),
    {
        match focus {
            Focus::Worktrees => self.worktree_filter.as_str(),
            Focus::Files => self.file_filter.as_str(),
            Focus::Diff => {
                proof {
                    reveal_strlit("");
                }
                ""
            },
        }
    }

    /// Whether a dialog (help or a cleanup confirmation) is open.
    pub fn modal_open(&self) -> (r: bool)
        ensures
            r == (self.show_help || self.delete_confirmation is Some),
    {
        self.show_help || self.delete_confirmation.is_some()
    }

    /// Cycles the panel layout and returns to the multi-panel view.
    pub fn cycle_layout(&mut self)
        ensures
            *final(self) == (ViewState {
                panel_layout: old(self).panel_layout.next(),
                expanded: false,
                ..*old(self)
            }),
    {
        self.panel_layout = self.panel_layout.toggle();
        self.expanded = false;
    }

    /// Expands the focused panel, or restores the multi-panel view.
    pub fn toggle_expanded(&mut self)
        ensures
            *final(self) == (ViewState { expanded: !old(self).expanded, ..*old(self) }),
    {
        self.expanded = !self.expanded;
    }

    /// Switches between Split and Unified diffs.
    pub fn toggle_diff_layout(&mut self)
        ensures
            *final(self) == (ViewState { diff_layout: old(self).diff_layout.toggled(), ..*old(self) }),
    {
        self.diff_layout = self.diff_layout.toggle();
    }

    /// Switches wrapping of long diff lines.
    pub fn toggle_wrap(&mut self)
        ensures
            *final(self) == (ViewState { line_wrap: !old(self).line_wrap, ..*old(self) }),
    {
        self.line_wrap = !self.line_wrap;
    }

    /// Switches following of changed files, clearing the status line.
    pub fn toggle_follow(&mut self)
        ensures
            *final(self) == (ViewState {
                follow_changes: !old(self).follow_changes,
                status: None,
                ..*old(self)
            }),
    {
        self.follow_changes = !self.follow_changes;
        self.status = None;
    }

    /// Starts a search of the focused panel with its current filter.
    pub fn begin_search(&mut self)
        ensures
            final(self).search matches Some(s) && s.focus == old(self).focus && s.query@ == filter_of(
                *old(self),
                old(self).focus,
            ),
            *final(self) == (ViewState { search: final(self).search, ..*old(self) }),
    {
        let focus = self.focus;
        let query = crate::text::owned(self.search_query(focus));
        self.search = Some(SearchState { focus, query });
    }
}

/// The panel a search moves to with Left or Right: from Worktrees right to
/// Files, from Files left to Worktrees; otherwise it stays.
pub open spec fn search_panel_after(focus: Focus, right: bool) -> Focus {
    match (focus, right) {
        (Focus::Worktrees, true) => Focus::Files,
        (Focus::Files, false) => Focus::Worktrees,
        _ => focus,
    }
}

/// The view with the filter of a panel set; the Diff panel keeps none.
pub open spec fn with_filter(view: ViewState, focus: Focus, filter: Seq<char>) -> bool {
    match focus {
        Focus::Worktrees => view.worktree_filter@ == filter,
        Focus::Files => view.file_filter@ == filter,
        Focus::Diff => true,
    }
}

/// Everything but the search, the focus and the two filters is equal.
pub open spec fn same_but_search(a: ViewState, b: ViewState) -> bool {
    &&& a.diff_layout == b.diff_layout
    &&& a.line_wrap == b.line_wrap
    &&& a.expanded == b.expanded
    &&& a.initial_layout_applied == b.initial_layout_applied
    &&& a.panel_layout == b.panel_layout
    &&& a.show_help == b.show_help
    &&& a.delete_confirmation == b.delete_confirmation
    &&& a.status == b.status
    &&& a.follow_changes == b.follow_changes
}

/// The filter of a panel other than `focus` is kept.
pub open spec fn other_filters_kept(a: ViewState, b: ViewState, focus: Focus) -> bool {
    &&& focus != Focus::Worktrees ==> b.worktree_filter@ == a.worktree_filter@
    &&& focus != Focus::Files ==> b.file_filter@ == a.file_filter@
}

impl ViewState {
    fn set_filter_text(&mut self, focus: Focus, filter: &Vec<char>)
        ensures
            with_filter(*final(self), focus, filter@),
            other_filters_kept(*old(self), *final(self), focus),
            same_but_search(*old(self), *final(self)),
            final(self).focus == old(self).focus,
            final(self).search == old(self).search,
    {
        match focus {
            Focus::Worktrees => self.worktree_filter = crate::text::string_of(filter),
            Focus::Files => self.file_filter = crate::text::string_of(filter),
            Focus::Diff => {},
        }
    }

    /// After the worktrees are listed again: when the first panel is no
    /// longer shown and had the focus, the focus moves to the Files panel and
    /// a search closes; otherwise nothing changes.
    pub fn leave_hidden_panel(&mut self, first_panel_visible: bool)
        ensures
            !first_panel_visible && old(self).focus == Focus::Worktrees ==> *final(self) == (ViewState {
                focus: Focus::Files,
                search: None,
                ..*old(self)
            }),
            first_panel_visible || old(self).focus != Focus::Worktrees ==> *final(self) == *old(self),
    {
        if !first_panel_visible && self.focus == Focus::Worktrees {
            self.focus = Focus::Files;
            self.search = None;
        }
    }

    /// Ends a search with Esc: clears the filter of the searched panel and
    /// closes the search; gives the panel searched.
    pub fn clear_search(&mut self) -> (r: Option<Focus>)
        ensures
            old(self).search is None ==> r is None && *final(self) == *old(self),
            old(self).search matches Some(s) ==> r == Some(s.focus) && with_filter(
                *final(self),
                s.focus,
                Seq::<char>::empty(),
            ) && other_filters_kept(*old(self), *final(self), s.focus) && final(self).search is None
                && final(self).focus == old(self).focus && same_but_search(*old(self), *final(self)),
    {
        let focus = match &self.search {
            None => return None,
            Some(s) => s.focus,
        };
        let empty: Vec<char> = Vec::new();
        self.set_filter_text(focus, &empty);
        self.search = None;
        Some(focus)
    }

    /// Moves a search to the next panel with Left or Right: focuses that
    /// panel, keeps its filter and closes the search; gives the panel.
    pub fn switch_search_panel(&mut self, right: bool) -> (r: Option<Focus>)
        ensures
            old(self).search is None ==> r is None && *final(self) == *old(self),
            old(self).search matches Some(s) ==> r == Some(search_panel_after(s.focus, right))
                && final(self).focus == search_panel_after(s.focus, right) && final(self).search is None
                && final(self).worktree_filter == old(self).worktree_filter && final(self).file_filter
                == old(self).file_filter && same_but_search(*old(self), *final(self)),
    {
        let current = match &self.search {
            None => return None,
            Some(s) => s.focus,
        };
        let next = match (current, right) {
            (Focus::Worktrees, true) => Focus::Files,
            (Focus::Files, false) => Focus::Worktrees,
            _ => current,
        };
        self.focus = next;
        self.search = None;
        Some(next)
    }

    /// Types a character into the search: the query grows by it and becomes
    /// the filter of the searched panel; gives the panel and the query.
    pub fn type_search_char(&mut self, c: char) -> (r: Option<(Focus, String)>)
        ensures
            old(self).search is None ==> r is None && *final(self) == *old(self),
            old(self).search matches Some(s) ==> r matches Some((f, q)) && f == s.focus && q@
                == s.query@.push(c) && search_edited(*old(self), *final(self), q@),
    {
        let (focus, mut query) = match &self.search {
            None => return None,
            Some(s) => (s.focus, crate::text::chars_of(s.query.as_str())),
        };
        query.push(c);
        self.set_filter_text(focus, &query);
        let text = crate::text::string_of(&query);
        let kept = crate::text::string_of(&query);
        self.search = Some(SearchState { focus, query: kept });
        Some((focus, text))
    }

    /// Deletes the last character of the search: the query shrinks (an empty
    /// one stays empty) and becomes the filter of the searched panel; gives
    /// the panel and the query.
    pub fn delete_search_char(&mut self) -> (r: Option<(Focus, String)>)
        ensures
            old(self).search is None ==> r is None && *final(self) == *old(self),
            old(self).search matches Some(s) ==> r matches Some((f, q)) && f == s.focus && q@
                == shortened(s.query@) && search_edited(*old(self), *final(self), q@),
    {
        let (focus, mut query) = match &self.search {
            None => return None,
            Some(s) => (s.focus, crate::text::chars_of(s.query.as_str())),
        };
        if query.len() > 0 {
            query.pop();
        }
        self.set_filter_text(focus, &query);
        let text = crate::text::string_of(&query);
        let kept = crate::text::string_of(&query);
        self.search = Some(SearchState { focus, query: kept });
        Some((focus, text))
    }
}

/// A query less its last character; an empty query stays empty.
pub open spec fn shortened(q: Seq<char>) -> Seq<char> {
    if q.len() > 0 {
        q.drop_last()
    } else {
        q
    }
}

/// `b` is `a` with the search query set to `query`, which is also the
/// searched panel's filter now; the focus and the rest of the view stay.
pub open spec fn search_edited(a: ViewState, b: ViewState, query: Seq<char>) -> bool {
    &&& a.search is Some
    &&& b.search is Some
    &&& b.search->0.focus == a.search->0.focus
    &&& b.search->0.query@ == query
    &&& with_filter(b, a.search->0.focus, query)
    &&& other_filters_kept(a, b, a.search->0.focus)
    &&& b.focus == a.focus
    &&& same_but_search(a, b)
}

/// Typing a character into a search and deleting it again gives the query
/// back; when the searched panel's filter was the query, as it is when a
/// search starts, every filter is as it was too.
pub proof fn lemma_type_then_delete(a: ViewState, b: ViewState, c: ViewState, ch: char)
    requires
        a.search is Some,
        search_edited(a, b, a.search->0.query@.push(ch)),
        search_edited(b, c, shortened(b.search->0.query@)),
    ensures
        c.search is Some,
        c.search->0.focus == a.search->0.focus,
        c.search->0.query@ == a.search->0.query@,
        c.focus == a.focus,
        same_but_search(a, c),
        with_filter(a, a.search->0.focus, a.search->0.query@) ==> c.worktree_filter@
            == a.worktree_filter@ && c.file_filter@ == a.file_filter@,
{
    assert(a.search->0.query@.push(ch).drop_last() =~= a.search->0.query@);
}

/// Applying the startup layout a second time changes nothing, whatever
/// width the terminal has by then.
pub proof fn lemma_initial_layout_applies_once(
    view: ViewState,
    width: u16,
    threshold: u16,
    later_width: u16,
    later_threshold: u16,
)
    ensures
        with_initial_layout(with_initial_layout(view, width, threshold), later_width, later_threshold)
            == with_initial_layout(view, width, threshold),
{
}

/// The selection after moving `delta` places: from the selected item (the
/// first when none is), saturating at zero and at the last item; none in an
/// empty list.
pub open spec fn moved_position(selected: Option<usize>, length: usize, delta: isize) -> Option<
    usize,
> {
    if length == 0 {
        None
    } else {
        let current: int = match selected {
            Some(s) => s as int,
            None => 0,
        };
        let target = current + delta;
        let clamped: int = if target < 0 {
            0
        } else if target > usize::MAX {
            usize::MAX as int
        } else {
            target
        };
        Some(
            (if clamped > length - 1 {
                length - 1
            } else {
                clamped
            }) as usize,
        )
    }
}

/// Moves a list selection by `delta` places, stopping at the list's ends.
pub fn moved_selection(selected: Option<usize>, length: usize, delta: isize) -> (r: Option<usize>)
    ensures
        r == moved_position(selected, length, delta),
{
    if length == 0 {
        return None;
    }
    let current: usize = match selected {
        Some(s) => s,
        None => 0,
    };
    let target: i128 = current as i128 + delta as i128;
    let clamped: usize = if target < 0 {
        0
    } else if target > usize::MAX as i128 {
        usize::MAX
    } else {
        target as usize
    };
    if clamped > length - 1 {
        Some(length - 1)
    } else {
        Some(clamped)
    }
}

/// A moved selection stays inside the list, and only an empty list has none.
pub proof fn lemma_moved_selection_in_bounds(selected: Option<usize>, length: usize, delta: isize)
    ensures
        moved_position(selected, length, delta) is None <==> length == 0,
        moved_position(selected, length, delta) matches Some(i) ==> i < length,
        forall|s: usize|
            delta == 0 && selected == Some(s) && s < length ==> moved_position(selected, length, delta)
                == Some(s),
{
}

/// The position of the first worktree at `path`.
pub fn worktree_index(worktrees: &Vec<Worktree>, path: &str) -> (r: Option<usize>)
    ensures
        r matches Some(i) ==> i < worktrees@.len() && worktrees@[i as int].path@ == path@ && forall|
            j: int,
        |
            0 <= j < i ==> worktrees@[j].path@ != path@,
        r is None ==> forall|j: int| 0 <= j < worktrees@.len() ==> worktrees@[j].path@ != path@,
{
    let target = owned(path);
    let mut i: usize = 0;
    while i < worktrees.len()
        invariant
            i <= worktrees@.len(),
            target@ == path@,
            forall|j: int| 0 <= j < i ==> worktrees@[j].path@ != path@,
        decreases worktrees.len() - i,
    {
        if worktrees[i].path == target {
            return Some(i);
        }
        i += 1;
    }
    None
}

/// What `char::to_lowercase` yields for a character: the characters of its
/// Unicode lowercase mapping.
pub uninterp spec fn lowercase_of(c: char) -> Seq<char>;

/// The ASCII lowercase of a character: `A` to `Z` become `a` to `z`, any
/// other character stays as it is.
pub open spec fn ascii_lowercase(c: char) -> char {
    if 'A' <= c && c <= 'Z' {
        ((c as u32) + 32) as char
    } else {
        c
    }
}

/// Calls `char::to_lowercase`, which depends on the character alone; for an
/// ASCII character it yields that character's ASCII lowercase alone, as the
/// Unicode lowercase mapping of ASCII is.
#[verifier::external_body]
fn char_lowercase(c: char) -> (r: Vec<char>)
    ensures
        r@ == lowercase_of(c),
        (c as u32) < 128 ==> r@ == seq![ascii_lowercase(c)],
{
    c.to_lowercase().collect()
}

/// The lowercase mapping of a text, character by character.
pub open spec fn lowercase_text(s: Seq<char>) -> Seq<char>
    decreases s.len(),
{
    if s.len() == 0 {
        seq![]
    } else {
        lowercase_text(s.drop_last()) + lowercase_of(s.last())
    }
}

fn lowercase_chars(s: &str) -> (r: Vec<char>)
    ensures
        r@ == lowercase_text(s@),
{
    let v = chars_of(s);
    let mut out: Vec<char> = Vec::new();
    let mut i: usize = 0;
    while i < v.len()
        invariant
            i <= v@.len(),
            v@ == s@,
            out@ == lowercase_text(v@.take(i as int)),
        decreases v.len() - i,
    {
        let mut low = char_lowercase(v[i]);
        let ghost before = out@;
        out.append(&mut low);
        assert(v@.take(i as int + 1).drop_last() =~= v@.take(i as int));
        i += 1;
    }
    assert(v@.take(v@.len() as int) =~= v@);
    out
}

/// Whether `query` can be read off `text` from left to right, skipping
/// characters of the text.
pub open spec fn is_subsequence(query: Seq<char>, text: Seq<char>) -> bool
    decreases text.len(),
{
    if query.len() == 0 {
        true
    } else if text.len() == 0 {
        false
    } else if query[0] == text[0] {
        is_subsequence(query.drop_first(), text.drop_first())
    } else {
        is_subsequence(query, text.drop_first())
    }
}

/// Case-insensitive fuzzy matching: the lowercase query is a subsequence of
/// the lowercase candidate.
pub open spec fn fuzzy_matches(query: Seq<char>, candidate: Seq<char>) -> bool {
    is_subsequence(lowercase_text(query), lowercase_text(candidate))
}

/// Whether `candidate` matches `query` fuzzily; the empty query matches all.
pub fn fuzzy_match(query: &str, candidate: &str) -> (r: bool)
    ensures
        r == fuzzy_matches(query@, candidate@),
{
    let q = lowercase_chars(query);
    let c = lowercase_chars(candidate);
    let mut i: usize = 0;
    let mut j: usize = 0;
    assert(q@.skip(0) =~= q@);
    assert(c@.skip(0) =~= c@);
    while i < q.len() && j < c.len()
        invariant
            i <= q@.len(),
            j <= c@.len(),
            is_subsequence(q@, c@) == is_subsequence(q@.skip(i as int), c@.skip(j as int)),
        decreases c.len() - j,
    {
        assert(q@.skip(i as int)[0] == q@[i as int]);
        assert(c@.skip(j as int)[0] == c@[j as int]);
        assert(q@.skip(i as int).drop_first() =~= q@.skip(i as int + 1));
        assert(c@.skip(j as int).drop_first() =~= c@.skip(j as int + 1));
        if q[i] == c[j] {
            i += 1;
        }
        j += 1;
    }
    assert(i < q@.len() ==> q@.skip(i as int).len() > 0);
    assert(j == c@.len() ==> c@.skip(j as int).len() == 0);
    i == q.len()
}

/// The empty query matches every candidate, and every text matches itself.
pub proof fn lemma_fuzzy_match_basics(candidate: Seq<char>)
    ensures
        fuzzy_matches(seq![], candidate),
        fuzzy_matches(candidate, candidate),
{
    assert(lowercase_text(seq![]) =~= Seq::<char>::empty());
    lemma_subsequence_reflexive(lowercase_text(candidate));
}

proof fn lemma_subsequence_reflexive(s: Seq<char>)
    ensures
        is_subsequence(s, s),
    decreases s.len(),
{
    if s.len() > 0 {
        lemma_subsequence_reflexive(s.drop_first());
    }
}

/// The history row to select after a refresh, as a position in the list whose
/// first entry is WIP: WIP stays selected, a commit stays selected by its full
/// hash, and a commit that is gone falls back to WIP.
pub open spec fn refreshed_position(
    wip_selected: bool,
    selected_hash: Option<Seq<char>>,
    commits: Seq<Commit>,
) -> Option<usize> {
    if wip_selected {
        Some(0)
    } else {
        match selected_hash {
            Some(h) => if exists|i: int| 0 <= i < commits.len() && commits[i].hash@ == h {
                let i = choose|i: int|
                    0 <= i < commits.len() && commits[i].hash@ == h && forall|j: int|
                        0 <= j < i ==> commits[j].hash@ != h;
                Some((i + 1) as usize)
            } else {
                Some(0)
            },
            None => Some(0),
        }
    }
}

fn commit_position(hash: &str, commits: &Vec<Commit>) -> (r: Option<usize>)
    ensures
        r matches Some(i) ==> i < commits@.len() && commits@[i as int].hash@ == hash@ && forall|
            j: int,
        |
            0 <= j < i ==> commits@[j].hash@ != hash@,
        r is None ==> forall|j: int| 0 <= j < commits@.len() ==> commits@[j].hash@ != hash@,
{
    let target = owned(hash);
    let mut i: usize = 0;
    while i < commits.len()
        invariant
            i <= commits@.len(),
            target@ == hash@,
            forall|j: int| 0 <= j < i ==> commits@[j].hash@ != hash@,
        decreases commits.len() - i,
    {
        if commits[i].hash == target {
            return Some(i);
        }
        i += 1;
    }
    None
}

/// The history row to select after a refresh; row 0 is WIP.
pub fn history_selection_after_refresh(
    wip_selected: bool,
    selected_hash: Option<&str>,
    commits: &Vec<Commit>,
) -> (r: Option<usize>)
    ensures
        r == refreshed_position(
            wip_selected,
            match selected_hash {
                Some(h) => Some(h@),
                None => None,
            },
            commits@,
        ),
{
    if wip_selected {
        return Some(0);
    }
    let count = commits.len();
    match selected_hash {
        Some(hash) => match commit_position(hash, commits) {
            Some(i) => {
                proof {
                    let h = hash@;
                    let c = choose|k: int|
                        0 <= k < commits@.len() && commits@[k].hash@ == h && forall|j: int|
                            0 <= j < k ==> commits@[j].hash@ != h;
                    assert(c == i as int) by {
                        if c < i {
                            assert(commits@[c].hash@ != h);
                        }
                        if c > i {
                            assert(commits@[i as int].hash@ != h);
                        }
                    }
                }
                Some(i + 1)
            },
            None => Some(0),
        },
        None => Some(0),
    }
}

/// The history selection after a refresh: WIP stays selected, a commit stays
/// selected while the refreshed history still has its full hash, and
/// otherwise WIP is selected.
pub fn selection_after_refresh(selection: Option<&HistorySelection>, commits: &Vec<Commit>) -> (r:
    Option<HistorySelection>)
    ensures
        r matches Some(s) && (match selection {
            Some(HistorySelection::Commit { hash }) => if exists|i: int|
                0 <= i < commits@.len() && commits@[i].hash@ == hash@ {
                s matches HistorySelection::Commit { hash: kept } && kept@ == hash@
            } else {
                s is Wip
            },
            _ => s is Wip,
        }),
{
    match selection {
        Some(HistorySelection::Commit { hash }) => match commit_position(hash.as_str(), commits) {
            Some(i) => Some(HistorySelection::Commit { hash: commits[i].hash.clone() }),
            None => Some(HistorySelection::Wip),
        },
        _ => Some(HistorySelection::Wip),
    }
}

} // verus!
