//! The interactive browser model: the loaded note summaries, cursor,
//! viewport and selection, the modal input state machine over them, and
//! the computation of what a frame shows.  Terminal input and output
//! stay outside; the model takes abstract keys and hands back frames
//! and actions.
use vstd::prelude::*;

use crate::db;
use crate::db::DbError;
use crate::pattern;
use crate::util;
use crate::util::string_views;
use crate::util::ListArgs;

verus! {

/// One row of the browser: a note summary.
pub struct SelectNode {
    pub id: u32,
    pub priority: i32,
    pub summary: String,
    pub selected: bool,
    pub tags: Vec<String>,
}

/// Mathematical model of a browser row.
pub struct SelectNodeView {
    pub id: u32,
    pub priority: i32,
    pub summary: Seq<char>,
    pub selected: bool,
    pub tags: Seq<Seq<char>>,
}

impl View for SelectNode {
    type V = SelectNodeView;

    open spec fn view(&self) -> SelectNodeView {
        SelectNodeView {
            id: self.id,
            priority: self.priority,
            summary: self.summary@,
            selected: self.selected,
            tags: string_views(self.tags@),
        }
    }
}

/// The models of the loaded rows, in order.
pub open spec fn nodes_view(ns: Seq<SelectNode>) -> Seq<SelectNodeView> {
    Seq::new(ns.len(), |i: int| ns[i]@)
}

/// The ids of the selected rows, in order.
pub open spec fn selected_ids(ns: Seq<SelectNode>) -> Seq<u32>
    decreases ns.len(),
{
    if ns.len() == 0 {
        Seq::empty()
    } else {
        selected_ids(ns.drop_last()) + (if ns.last()@.selected {
            seq![ns.last()@.id]
        } else {
            Seq::empty()
        })
    }
}

/// The input mode of the browser.  Exactly one is active at a time.
#[derive(PartialEq, Eq, Structural, Clone, Copy, Debug)]
pub enum State {
    Normal,
    Search,
    Command,
    Delete,
}

/// What the caller must do after feeding one key to the browser.
/// `Edit` and `Create` ask for the external editor, which only the
/// caller can run; it should reload afterwards.
#[derive(PartialEq, Eq, Structural, Clone, Copy, Debug)]
pub enum InputAction {
    /// Keep going: the key was handled in full.
    Continue,
    /// Leave the browser.
    Quit,
    /// Run the editor on the note with this id, then reload.
    Edit(u32),
    /// Run the editor on a fresh note, then reload.
    Create,
}

/// The interactive browser's whole state.
pub struct SelectScreen {
    /// The query arguments behind the current listing.
    pub args: ListArgs,
    /// The loaded rows, in listing order.
    pub nodes: Vec<SelectNode>,
    /// Index of the row the cursor is over.
    pub hover: usize,
    /// Index of the first row currently displayed.
    pub start: usize,
    /// Terminal (columns, rows).
    pub termsize: (u16, u16),
    /// The live search filter text.
    pub pattern: String,
    /// The active input mode.
    pub state: State,
    /// How many rows of margin the cursor keeps from the viewport
    /// edges, where the list allows it.
    pub cursor_off: usize,
    /// Whether the pending deletion targets the single hovered row.
    pub delete_hover: bool,
    /// The ids captured when delete-confirm mode was entered.
    pub delete_sel: Vec<u32>,
    /// The command line buffer.
    pub command: String,
    /// The accumulated numeric prefix for cursor motions.
    pub action_count: usize,
    /// Whether a first `g` awaits a second one.
    pub gpending: bool,
    /// Every id set whose deletion was sent to the backend, in order.
    pub deleted_log: Ghost<Seq<Seq<u32>>>,
    /// Every tag mutation sent to the backend, in order.
    pub tag_log: Ghost<Seq<TagMutation>>,
}

/// One tag mutation as it was issued: which notes, which tags, and
/// whether they were added (or else removed).
pub struct TagMutation {
    pub ids: Seq<u32>,
    pub tags: Seq<Seq<char>>,
    pub added: bool,
}

impl SelectScreen {
    /// The cursor/viewport invariant: the hovered row exists and lies
    /// within the viewport, whose height is positive; with no rows,
    /// cursor and viewport sit at the top.  The invariant holds after
    /// every operation of the browser.
    pub open spec fn view_ok(self) -> bool {
        &&& self.termsize.1 >= 1
        &&& (self.nodes@.len() == 0 ==> self.hover == 0 && self.start == 0)
        &&& (self.nodes@.len() > 0 ==> self.start <= self.hover < self.nodes@.len()
            && self.hover - self.start < self.termsize.1)
    }

    /// Everything the browser keeps in good repair: the
    /// cursor/viewport invariant, and a filter pattern fit for the
    /// query builder.
    pub open spec fn wf(self) -> bool {
        &&& self.view_ok()
        &&& util::list_args_wf(self.args)
    }

    pub fn termx(&self) -> (r: u16)
        ensures
            r == self.termsize.0,
    {
        self.termsize.0
    }

    pub fn termy(&self) -> (r: u16)
        ensures
            r == self.termsize.1,
    {
        self.termsize.1
    }

    /// The hover after clamping into the list.
    pub open spec fn clamped_hover(self) -> int {
        if self.nodes@.len() == 0 {
            0
        } else if self.hover < self.nodes@.len() {
            self.hover as int
        } else {
            self.nodes@.len() - 1
        }
    }

    /// The cursor margin above the hover: at most `cursor_off`, at
    /// most half the viewport, never past the top of the list.
    pub open spec fn spec_topd(self, h: int) -> int {
        min3(self.cursor_off as int, h, self.termsize.1 as int / 2)
    }

    /// The cursor margin below the hover.
    pub open spec fn spec_botd(self, h: int) -> int {
        min3(
            self.cursor_off as int,
            self.nodes@.len() - 1 - h,
            (self.termsize.1 as int - 1) / 2,
        )
    }

    /// Where the viewport starts after `correct_hover`, given the
    /// clamped hover: pulled up when the hover runs past the top
    /// margin, pulled down when it runs past the bottom margin.
    pub open spec fn corrected_start(self) -> int {
        let h = self.clamped_hover();
        let topd = self.spec_topd(h);
        let botd = self.spec_botd(h);
        let s1 = if h - topd < self.start {
            h - topd
        } else {
            self.start as int
        };
        if h - s1 >= self.termsize.1 - botd {
            let back = self.termsize.1 - 1 - botd;
            if h - back >= 0 {
                h - back
            } else {
                0
            }
        } else {
            s1
        }
    }

    /// Clamps the hover into the list and moves the viewport so that
    /// the hover stays visible, keeping the configured margin from the
    /// viewport edges where the list around it allows.
    #[verifier::rlimit(100)]
    pub fn correct_hover(&mut self)
        requires
            old(self).termsize.1 >= 1,
        ensures
            *final(self) == (SelectScreen {
                hover: final(self).hover,
                start: final(self).start,
                ..*old(self)
            }),
            final(self).hover as int == old(self).clamped_hover(),
            final(self).start as int == old(self).corrected_start(),
            final(self).view_ok(),
    {
        if self.nodes.len() == 0 {
            self.hover = 0;
            self.start = 0;
            return ;
        }
        if self.hover > self.nodes.len() - 1 {
            self.hover = self.nodes.len() - 1;
        }
        let termy = self.termsize.1 as usize;
        let mut topd: usize = if self.cursor_off < self.hover {
            self.cursor_off
        } else {
            self.hover
        };
        if topd > termy / 2 {
            topd = termy / 2;
        }
        if self.hover - topd < self.start {
            self.start = self.hover - topd;
        }
        let below = self.nodes.len() - 1 - self.hover;
        let mut botd: usize = if self.cursor_off < below {
            self.cursor_off
        } else {
            below
        };
        if botd > (termy - 1) / 2 {
            botd = (termy - 1) / 2;
        }
        if self.hover - self.start >= termy - botd {
            let back = termy - 1 - botd;
            self.start = self.hover.saturating_sub(back);
        }
    }

    /// Moves the cursor down by `n`, clamped to the end of the list,
    /// and keeps the viewport consistent.
    pub fn cursor_down(&mut self, n: usize)
        requires
            old(self).termsize.1 >= 1,
        ensures
            *final(self) == (SelectScreen {
                hover: final(self).hover,
                start: final(self).start,
                ..*old(self)
            }),
            final(self).hover as int == (if old(self).nodes@.len() == 0 {
                0int
            } else if old(self).hover + n < old(self).nodes@.len() {
                old(self).hover + n
            } else {
                old(self).nodes@.len() - 1
            }),
            final(self).view_ok(),
    {
        // Reading the length pins it as a machine word, so that the
        // saturation below provably clamps within the list.
        let _len = self.nodes.len();
        self.hover = self.hover.saturating_add(n);
        self.correct_hover();
    }

    /// Moves the cursor up by `n`, clamped to the start of the list,
    /// and keeps the viewport consistent.
    pub fn cursor_up(&mut self, n: usize)
        requires
            old(self).termsize.1 >= 1,
        ensures
            *final(self) == (SelectScreen {
                hover: final(self).hover,
                start: final(self).start,
                ..*old(self)
            }),
            final(self).hover as int == (if old(self).nodes@.len() == 0 {
                0int
            } else if old(self).hover - n >= old(self).nodes@.len() {
                old(self).nodes@.len() - 1
            } else if old(self).hover - n >= 0 {
                old(self).hover - n
            } else {
                0int
            }),
            final(self).view_ok(),
    {
        let _len = self.nodes.len();
        self.hover = self.hover.saturating_sub(n);
        self.correct_hover();
    }

    /// Unselects every row.  No backend call is made.
    pub fn clear_selection(&mut self)
        ensures
            *final(self) == (SelectScreen { nodes: final(self).nodes, ..*old(self) }),
            final(self).nodes@.len() == old(self).nodes@.len(),
            forall|i: int|
                0 <= i < old(self).nodes@.len() ==> (#[trigger] final(self).nodes@[i])@ == (
                SelectNodeView { selected: false, ..old(self).nodes@[i]@ }),
    {
        let mut out: Vec<SelectNode> = Vec::new();
        let mut i: usize = 0;
        while i < self.nodes.len()
            invariant
                i <= self.nodes@.len(),
                out@.len() == i,
                forall|q: int|
                    0 <= q < i ==> (#[trigger] out@[q])@ == (SelectNodeView {
                        selected: false,
                        ..self.nodes@[q]@
                    }),
            decreases self.nodes@.len() - i,
        {
            let n = &self.nodes[i];
            out.push(
                SelectNode {
                    id: n.id,
                    priority: n.priority,
                    summary: n.summary.clone(),
                    selected: false,
                    tags: clone_strings(&n.tags),
                },
            );
            i = i + 1;
        }
        self.nodes = out;
    }

    /// Toggles the selection of the hovered row; with no rows, does
    /// nothing.  No backend call is made.
    pub fn toggle_selection(&mut self)
        requires
            old(self).view_ok(),
        ensures
            *final(self) == (SelectScreen { nodes: final(self).nodes, ..*old(self) }),
            final(self).nodes@.len() == old(self).nodes@.len(),
            old(self).nodes@.len() == 0 ==> final(self).nodes == old(self).nodes,
            old(self).nodes@.len() > 0 ==> {
                &&& (forall|i: int|
                    0 <= i < old(self).nodes@.len() && i != old(self).hover
                        ==> #[trigger] final(self).nodes@[i] == old(self).nodes@[i])
                &&& final(self).nodes@[old(self).hover as int]@ == (SelectNodeView {
                    selected: !old(self).nodes@[old(self).hover as int]@.selected,
                    ..old(self).nodes@[old(self).hover as int]@
                })
            },
            final(self).view_ok(),
    {
        if self.nodes.len() == 0 {
            return ;
        }
        let mut n = self.nodes.remove(self.hover);
        n.selected = !n.selected;
        self.nodes.insert(self.hover, n);
        proof {
            assert(final(self).nodes@ =~= old(self).nodes@.update(
                old(self).hover as int,
                final(self).nodes@[old(self).hover as int],
            ));
        }
    }

    /// What `selection_or_hover` hands back: the selected ids when
    /// any row is selected, else the single hovered id; the flag says
    /// whether the hovered fallback was taken.
    pub open spec fn sel_or_hover_spec(self) -> (Seq<u32>, bool) {
        let sel = selected_ids(self.nodes@);
        if sel.len() > 0 {
            (sel, false)
        } else if self.nodes@.len() > 0 {
            (seq![self.nodes@[self.hover as int]@.id], true)
        } else {
            (Seq::<u32>::empty(), false)
        }
    }

    /// The ids of the selected rows, in listing order.
    pub fn collect_selected(&self) -> (r: Vec<u32>)
        ensures
            r@ == selected_ids(self.nodes@),
    {
        let mut sel: Vec<u32> = Vec::new();
        let mut i: usize = 0;
        while i < self.nodes.len()
            invariant
                i <= self.nodes@.len(),
                sel@ == selected_ids(self.nodes@.subrange(0, i as int)),
            decreases self.nodes@.len() - i,
        {
            if self.nodes[i].selected {
                sel.push(self.nodes[i].id);
            }
            proof {
                let pre = self.nodes@.subrange(0, i + 1 as int);
                assert(pre.drop_last() =~= self.nodes@.subrange(0, i as int));
                assert(pre.last() == self.nodes@[i as int]);
                if self.nodes@[i as int]@.selected {
                    assert(sel@ =~= selected_ids(pre.drop_last()) + seq![pre.last()@.id]);
                } else {
                    assert(sel@ =~= selected_ids(pre.drop_last()));
                }
            }
            i = i + 1;
        }
        proof {
            assert(self.nodes@.subrange(0, self.nodes@.len() as int) =~= self.nodes@);
        }
        sel
    }

    /// Returns the selected ids; when nothing is selected and a row is
    /// hovered, that single id instead.  The flag says whether the
    /// hovered fallback was taken.
    pub fn selection_or_hover(&self) -> (r: (Vec<u32>, bool))
        requires
            self.view_ok(),
        ensures
            r.0@ == self.sel_or_hover_spec().0,
            r.1 == self.sel_or_hover_spec().1,
    {
        let sel = self.collect_selected();
        if sel.len() == 0 && self.nodes.len() > 0 {
            let mut one: Vec<u32> = Vec::new();
            one.push(self.nodes[self.hover].id);
            (one, true)
        } else {
            (sel, false)
        }
    }

    /// Cycles the sort key: id, edited time, priority, and back to id.
    /// An unset key stays unset.
    pub fn next_sort_mode(&mut self)
        ensures
            *final(self) == (SelectScreen {
                args: (ListArgs { sort: final(self).args.sort, ..old(self).args }),
                ..*old(self)
            }),
            final(self).args.sort == (match old(self).args.sort {
                Some(util::Sort::ID) => Some(util::Sort::Edited),
                Some(util::Sort::Edited) => Some(util::Sort::Priority),
                Some(util::Sort::Priority) => Some(util::Sort::ID),
                None => None::<util::Sort>,
            }),
    {
        self.args.sort = match &self.args.sort {
            Some(util::Sort::ID) => Some(util::Sort::Edited),
            Some(util::Sort::Edited) => Some(util::Sort::Priority),
            Some(util::Sort::Priority) => Some(util::Sort::ID),
            None => None,
        };
    }

    /// Moves the hover to the first row with the given id, if one is
    /// there, and keeps the viewport consistent.
    pub fn set_hover_to_id(&mut self, id: u32)
        requires
            old(self).termsize.1 >= 1,
        ensures
            *final(self) == (SelectScreen {
                hover: final(self).hover,
                start: final(self).start,
                ..*old(self)
            }),
            final(self).view_ok(),
            (exists|i: int|
                0 <= i < old(self).nodes@.len() && (#[trigger] old(self).nodes@[i])@.id == id)
                ==> final(self).hover as int == first_index_with_id(old(self).nodes@, id),
    {
        let mut i: usize = 0;
        let mut found = false;
        while i < self.nodes.len() && !found
            invariant
                *self == (SelectScreen { hover: self.hover, ..*old(self) }),
                i <= self.nodes@.len(),
                !found ==> self.hover == old(self).hover,
                !found ==> forall|q: int|
                    0 <= q < i ==> (#[trigger] self.nodes@[q])@.id != id,
                found ==> i > 0 && self.nodes@[i - 1]@.id == id && self.hover == i - 1 && (
                forall|q: int| 0 <= q < i - 1 ==> (#[trigger] self.nodes@[q])@.id != id),
            decreases self.nodes@.len() - i,
        {
            if self.nodes[i].id == id {
                found = true;
                self.hover = i;
            }
            i = i + 1;
        }
        proof {
            if found {
                assert(first_index_with_id(self.nodes@, id) == i - 1) by {
                    lemma_first_index_with_id(self.nodes@, id, i - 1);
                }
                assert(self.hover == i - 1);
                assert(self.hover < self.nodes@.len());
                assert(self.clamped_hover() == self.hover as int);
            }
        }
        self.correct_hover();
    }
}


/// The rows of `ns` that are not selected, in order.
pub open spec fn unselected_of(ns: Seq<SelectNode>) -> Seq<SelectNode>
    decreases ns.len(),
{
    if ns.len() == 0 {
        Seq::empty()
    } else {
        (if ns[0]@.selected {
            Seq::empty()
        } else {
            seq![ns[0]]
        }) + unselected_of(ns.drop_first())
    }
}

/// The first line of a note body; empty when the body is.
pub open spec fn first_line_spec(content: Seq<char>) -> Seq<char> {
    if util::lines_of(content).len() > 0 {
        util::lines_of(content)[0]
    } else {
        Seq::empty()
    }
}

/// The first line of a note body, as the row summary.
fn first_line(content: &str) -> (r: String)
    ensures
        r@ == first_line_spec(content@),
{
    let mut ls = util::split_lines(content);
    let ghost ls0 = ls@;
    if ls.len() > 0 {
        let head = ls.remove(0);
        proof {
            assert(head@ == string_views(ls0)[0]);
        }
        head
    } else {
        String::new()
    }
}

/// Whether the id is among the given ones.
fn contains_u32(v: &Vec<u32>, x: u32) -> (r: bool)
    ensures
        r == v@.contains(x),
{
    let mut i: usize = 0;
    while i < v.len()
        invariant
            i <= v@.len(),
            forall|q: int| 0 <= q < i ==> v@[q] != x,
        decreases v@.len() - i,
    {
        if v[i] == x {
            return true;
        }
        i = i + 1;
    }
    proof {
        assert(!v@.contains(x));
    }
    false
}

impl SelectScreen {
    /// Re-runs the listing query with the current arguments and
    /// replaces the rows with the result.  Whatever the backend
    /// returns, a previously selected id stays selected exactly when
    /// it is still listed, and the cursor and viewport are brought
    /// back within bounds.  On failure nothing changes.
    pub fn reload_nodes(&mut self, conn: &rusqlite::Connection) -> (r: Result<(), DbError>)
        requires
            old(self).wf(),
        ensures
            r is Ok ==> *final(self) == (SelectScreen {
                nodes: final(self).nodes,
                hover: final(self).hover,
                start: final(self).start,
                ..*old(self)
            }),
            r is Ok ==> forall|i: int|
                0 <= i < final(self).nodes@.len() ==> (#[trigger] final(self).nodes@[i])@.selected
                    == selected_ids(old(self).nodes@).contains(final(self).nodes@[i]@.id),
            r is Ok ==> final(self).wf(),
            r is Ok && old(self).hover == 0 && old(self).start == 0 ==> final(self).hover == 0
                && final(self).start == 0,
            r is Err ==> *final(self) == *old(self) && r matches Err(DbError::SQL(_)),
    {
        let sel = self.collect_selected();
        match db::iter_nodes(conn, &self.args) {
            Err(e) => Err(e),
            Ok(rows) => {
                let mut nodes: Vec<SelectNode> = Vec::new();
                let mut i: usize = 0;
                while i < rows.len()
                    invariant
                        i <= rows@.len(),
                        sel@ == selected_ids(old(self).nodes@),
                        nodes@.len() == i,
                        forall|q: int|
                            0 <= q < i ==> (#[trigger] nodes@[q])@.selected == selected_ids(
                                old(self).nodes@,
                            ).contains(nodes@[q]@.id),
                    decreases rows@.len() - i,
                {
                    let row = &rows[i];
                    let summary = first_line(row.content.as_str());
                    let selected = contains_u32(&sel, row.id);
                    nodes.push(
                        SelectNode {
                            id: row.id,
                            priority: row.priority,
                            summary,
                            selected,
                            tags: clone_strings(&row.tags),
                        },
                    );
                    i = i + 1;
                }
                self.nodes = nodes;
                self.correct_hover();
                Ok(())
            },
        }
    }

    /// Toggles the archived state of the selection, or of the hovered
    /// row when nothing is selected.  While the view is restricted to
    /// one archived state, the rows that no longer belong are removed
    /// in place, without a reload: a hovered row alone, leaving every
    /// other row where it was; the selected rows otherwise.  On
    /// failure nothing changes.
    pub fn archive(&mut self, conn: &rusqlite::Connection) -> (r: Result<(), DbError>)
        requires
            old(self).wf(),
        ensures
            final(self).wf(),
            r is Ok ==> *final(self) == (SelectScreen {
                nodes: final(self).nodes,
                hover: final(self).hover,
                start: final(self).start,
                ..*old(self)
            }),
            (r is Ok && old(self).sel_or_hover_spec().1 && old(self).args.archived is Some)
                ==> final(self).nodes@ == old(self).nodes@.remove(old(self).hover as int),
            (r is Ok && old(self).sel_or_hover_spec().1 && old(self).args.archived is None)
                ==> final(self).nodes == old(self).nodes,
            r is Ok && !old(self).sel_or_hover_spec().1 && old(self).args.archived is Some
                ==> final(self).nodes@ == unselected_of(old(self).nodes@),
            r is Ok && !old(self).sel_or_hover_spec().1 && old(self).args.archived is None
                ==> final(self).nodes == old(self).nodes,
            r is Err ==> *final(self) == *old(self) && r matches Err(DbError::SQL(_)),
    {
        let (selected, hovered) = self.selection_or_hover();
        if hovered {
            match db::toggle_archived(conn, selected[0]) {
                Err(e) => {
                    return Err(e);
                },
                Ok(_) => {},
            }
            if self.args.archived.is_some() {
                let _removed = self.nodes.remove(self.hover);
            }
            self.correct_hover();
            Ok(())
        } else {
            match db::toggle_archived_range(conn, selected.as_slice()) {
                Err(e) => {
                    return Err(e);
                },
                Ok(_) => {},
            }
            if self.args.archived.is_some() {
                let mut owned: Vec<SelectNode> = Vec::new();
                core::mem::swap(&mut owned, &mut self.nodes);
                self.nodes = retain_unselected(owned);
            }
            self.correct_hover();
            Ok(())
        }
    }

    /// Takes note of a changed terminal size and brings the viewport
    /// back into bounds.
    pub fn resized(&mut self, size: (u16, u16))
        requires
            size.1 >= 1,
        ensures
            *final(self) == (SelectScreen {
                termsize: size,
                hover: final(self).hover,
                start: final(self).start,
                ..*old(self)
            }),
            final(self).view_ok(),
    {
        self.termsize = size;
        self.correct_hover();
    }

    /// Re-parses the live search text.  An empty text clears the
    /// filter; a text that parses replaces it; one that does not parse
    /// leaves everything as it was, keeping the last good filter.
    /// Returns whether the filter changed and a reload is due.
    pub fn reparse_pattern(&mut self) -> (r: bool)
        requires
            util::list_args_wf(old(self).args),
        ensures
            util::list_args_wf(final(self).args),
            *final(self) == (SelectScreen {
                args: (ListArgs { pattern: final(self).args.pattern, ..old(self).args }),
                ..*old(self)
            }),
            old(self).pattern@.len() == 0 ==> final(self).args.pattern is None && r == (old(self).args.pattern is Some),
            old(self).pattern@.len() > 0 ==> match pattern::parse_cond(old(self).pattern@) {
                pattern::ParseOutcome::Parsed(c) => r == true && (final(self).args.pattern matches Some(p) && pattern::cond_view(p) == c),
                pattern::ParseOutcome::Trailing(_) => r == false && *final(self) == *old(self),
                pattern::ParseOutcome::Malformed => r == false && *final(self) == *old(self),
            },
    {
        if self.pattern.as_str().is_empty() {
            let changed = self.args.pattern.is_some();
            self.args.pattern = None;
            return changed;
        }
        match pattern::parse_condition(self.pattern.as_str()) {
            Err(_) => false,
            Ok(p) => {
                self.args.pattern = Some(p);
                true
            },
        }
    }
}

/// The given rows without the selected ones, kept in order.
fn retain_unselected(ns: Vec<SelectNode>) -> (r: Vec<SelectNode>)
    ensures
        r@ == unselected_of(ns@),
{
    let ghost orig = ns@;
    let mut rest = ns;
    let mut out: Vec<SelectNode> = Vec::new();
    while rest.len() > 0
        invariant
            out@ + unselected_of(rest@) == unselected_of(orig),
        decreases rest@.len(),
    {
        let ghost before = rest@;
        let n = rest.remove(0);
        proof {
            assert(rest@ =~= before.drop_first());
            assert(n == before[0]);
        }
        if !n.selected {
            out.push(n);
            proof {
                assert(out@ + unselected_of(rest@) =~= unselected_of(orig));
            }
        } else {
            proof {
                assert(out@ + unselected_of(rest@) =~= unselected_of(orig));
            }
        }
    }
    proof {
        assert(out@ =~= out@ + unselected_of(rest@));
    }
    out
}


/// One keystroke, as the browser understands it.  `Char('\n')` is the
/// enter key.
#[derive(PartialEq, Eq, Structural, Clone, Copy, Debug)]
pub enum InputKey {
    Char(char),
    Up,
    Down,
    Home,
    End,
    Delete,
    Backspace,
    Esc,
    Ctrl(char),
}

/// A separator within a command line: space or comma.
pub open spec fn is_cmd_sep(c: char) -> bool {
    c == ',' || c == ' '
}

/// Index of the first command separator at or after `i`, or the length
/// of `s` if there is none.
pub open spec fn scan_sep(s: Seq<char>, i: int) -> int
    decreases s.len() - i,
{
    if 0 <= i < s.len() {
        if is_cmd_sep(s[i]) {
            i
        } else {
            scan_sep(s, i + 1)
        }
    } else {
        s.len() as int
    }
}

proof fn lemma_scan_sep_at(t: Seq<char>, j: int, k: int)
    requires
        0 <= j <= k <= t.len(),
        forall|q: int| j <= q < k ==> !is_cmd_sep(t[q]),
        k == t.len() || is_cmd_sep(t[k]),
    ensures
        scan_sep(t, j) == k,
    decreases k - j,
{
    if j < k {
        lemma_scan_sep_at(t, j + 1, k);
    }
}

/// The tokens of a command line: split at every space or comma, empty
/// tokens kept.
pub open spec fn cmd_tokens(s: Seq<char>) -> Seq<Seq<char>>
    decreases s.len(),
{
    let e = scan_sep(s, 0);
    if 0 <= e < s.len() {
        seq![s.subrange(0, e)] + cmd_tokens(s.subrange(e + 1, s.len() as int))
    } else {
        seq![s]
    }
}

/// Splits the characters of `s` from `from` on at every separator.
fn cmd_tokens_x(s: &Vec<char>, from: usize) -> (r: Vec<String>)
    requires
        from <= s@.len(),
    ensures
        string_views(r@) == cmd_tokens(s@.subrange(from as int, s@.len() as int)),
    decreases s@.len() - from,
{
    let ghost suffix = s@.subrange(from as int, s@.len() as int);
    let mut e: usize = from;
    while e < s.len() && !(s[e] == ',' || s[e] == ' ')
        invariant
            from <= e <= s@.len(),
            forall|q: int| from <= q < e ==> !is_cmd_sep(s@[q]),
        decreases s@.len() - e,
    {
        e = e + 1;
    }
    proof {
        assert forall|q: int| 0 <= q < e - from implies !is_cmd_sep(suffix[q]) by {
            assert(suffix[q] == s@[from + q]);
        }
        lemma_scan_sep_at(suffix, 0, e - from);
    }
    if e < s.len() {
        let head = crate::util::seg_string(s, from, e);
        let rest = cmd_tokens_x(s, e + 1);
        let ghost restv = rest@;
        let mut out: Vec<String> = Vec::new();
        out.push(head);
        let mut tail = rest;
        out.append(&mut tail);
        proof {
            assert(suffix.subrange(0, e - from) =~= s@.subrange(from as int, e as int));
            assert(suffix.subrange(e - from + 1, suffix.len() as int) =~= s@.subrange(
                e + 1 as int,
                s@.len() as int,
            ));
            assert(out@ =~= seq![head] + restv);
            assert(string_views(out@) =~= seq![s@.subrange(from as int, e as int)] + string_views(
                restv,
            ));
            assert(string_views(out@) =~= cmd_tokens(suffix));
        }
        out
    } else {
        let whole = crate::util::seg_string(s, from, s.len());
        let mut out: Vec<String> = Vec::new();
        out.push(whole);
        proof {
            assert(string_views(out@) =~= seq![suffix]);
        }
        out
    }
}

/// Whether the string holds exactly this text.
fn string_is(s: &String, lit: &str) -> (r: bool)
    ensures
        r == (s@ == lit@),
{
    let owned = lit.to_owned();
    s.eq(&owned)
}

/// The strings `v[1..]`, as owned copies.
fn tail_strings(v: &Vec<String>) -> (r: Vec<String>)
    requires
        v@.len() >= 1,
    ensures
        string_views(r@) == string_views(v@).drop_first(),
{
    let mut out: Vec<String> = Vec::new();
    let mut i: usize = 1;
    while i < v.len()
        invariant
            1 <= i <= v@.len(),
            out@.len() == i - 1,
            forall|q: int| 0 <= q < i - 1 ==> (#[trigger] out@[q])@ == v@[q + 1]@,
        decreases v@.len() - i,
    {
        out.push(v[i].clone());
        i = i + 1;
    }
    proof {
        assert(string_views(out@) =~= string_views(v@).drop_first());
    }
    out
}

impl SelectScreen {
    /// What the `a` command turns the archived tri-state into: hidden
    /// becomes shown-mixed and back; the archived-only view stays.
    pub open spec fn archived_cycled(self) -> Option<bool> {
        match self.args.archived {
            None => Some(false),
            Some(false) => None::<bool>,
            Some(true) => Some(true),
        }
    }

    /// What the `A` command turns the archived tri-state into: the
    /// archived-only view toggles off, everything else toggles it on.
    pub open spec fn archived_only_toggled(self) -> Option<bool> {
        match self.args.archived {
            Some(true) => Some(false),
            _ => Some(true),
        }
    }

    /// Whether the first token names the tag command, the untag
    /// command, or neither.
    pub open spec fn tag_command(tok: Seq<char>) -> Option<bool> {
        if tok == "t"@ || tok == "tag"@ {
            Some(true)
        } else if tok == "ut"@ || tok == "untag"@ {
            Some(false)
        } else {
            None
        }
    }

    /// Runs one committed command line, already split into tokens:
    /// `t`/`tag` and `ut`/`untag` mutate the tags of the
    /// selection-or-hover set and reload; `a` cycles the
    /// archived-visibility between hidden and shown-mixed; `A` toggles
    /// the archived-only view; anything else is silently ignored.
    pub fn exec_cmd(&mut self, args: &Vec<String>, conn: &rusqlite::Connection) -> (r: Result<
        (),
        DbError,
    >)
        requires
            old(self).wf(),
        ensures
            final(self).wf(),
            final(self).deleted_log == old(self).deleted_log,
            *final(self) == (SelectScreen {
                args: final(self).args,
                nodes: final(self).nodes,
                hover: final(self).hover,
                start: final(self).start,
                tag_log: final(self).tag_log,
                ..*old(self)
            }),
            args@.len() == 0 ==> r is Ok && *final(self) == *old(self),
            args@.len() > 0 && args@[0]@ == "a"@ && r is Ok ==> final(self).args.archived == old(self).archived_cycled() && final(self).tag_log == old(self).tag_log,
            args@.len() > 0 && args@[0]@ == "A"@ && r is Ok ==> final(self).args.archived == old(self).archived_only_toggled() && final(self).tag_log == old(self).tag_log,
            args@.len() > 0 && !(args@[0]@ == "a"@) && !(args@[0]@ == "A"@)
                && Self::tag_command(args@[0]@) is None ==> r is Ok && *final(self) == *old(self),
            args@.len() == 1 && Self::tag_command(args@[0]@) is Some ==> r is Ok && *final(self)
                == *old(self),
            args@.len() > 1 && r is Ok ==> (match Self::tag_command(args@[0]@) {
                Some(added) => final(self).args == old(self).args && final(self).state == old(
                    self,
                ).state && final(self).tag_log@ == old(self).tag_log@.push(
                    (TagMutation {
                        ids: old(self).sel_or_hover_spec().0,
                        tags: string_views(args@).drop_first(),
                        added,
                    }),
                ),
                None => true,
            }),
    {
        proof {
            reveal_strlit("a");
            reveal_strlit("A");
            reveal_strlit("t");
            reveal_strlit("tag");
            reveal_strlit("ut");
            reveal_strlit("untag");
            assert("a"@.len() == 1 && "A"@.len() == 1 && "t"@.len() == 1);
            assert("tag"@.len() == 3 && "ut"@.len() == 2 && "untag"@.len() == 5);
            assert("a"@[0] == 'a' && "A"@[0] == 'A' && "t"@[0] == 't' && "ut"@[0] == 'u');
        }
        if args.len() == 0 {
            return Ok(());
        }
        let a0 = &args[0];
        if (string_is(a0, "t") || string_is(a0, "tag")) && args.len() > 1 {
            let (nodes, _hovered) = self.selection_or_hover();
            let tags = tail_strings(args);
            match db::add_tags(conn, nodes.as_slice(), tags.as_slice()) {
                Err(e) => {
                    return Err(e);
                },
                Ok(_) => {},
            }
            self.tag_log = Ghost(
                self.tag_log@.push(
                    TagMutation { ids: nodes@, tags: string_views(tags@), added: true },
                ),
            );
            match self.reload_nodes(conn) {
                Err(e) => Err(e),
                Ok(_) => Ok(()),
            }
        } else if (string_is(a0, "ut") || string_is(a0, "untag")) && args.len() > 1 {
            let (nodes, _hovered) = self.selection_or_hover();
            let tags = tail_strings(args);
            match db::remove_tags(conn, nodes.as_slice(), tags.as_slice()) {
                Err(e) => {
                    return Err(e);
                },
                Ok(_) => {},
            }
            self.tag_log = Ghost(
                self.tag_log@.push(
                    TagMutation { ids: nodes@, tags: string_views(tags@), added: false },
                ),
            );
            match self.reload_nodes(conn) {
                Err(e) => Err(e),
                Ok(_) => Ok(()),
            }
        } else if string_is(a0, "a") {
            self.args.archived = match self.args.archived {
                None => Some(false),
                Some(false) => None,
                Some(true) => Some(true),
            };
            match self.reload_nodes(conn) {
                Err(e) => Err(e),
                Ok(_) => Ok(()),
            }
        } else if string_is(a0, "A") {
            self.args.archived = match self.args.archived {
                Some(true) => Some(false),
                _ => Some(true),
            };
            match self.reload_nodes(conn) {
                Err(e) => Err(e),
                Ok(_) => Ok(()),
            }
        } else {
            Ok(())
        }
    }

    /// Handles one key in normal mode.  Motions take the accumulated
    /// numeric prefix; `q` quits; `d` captures the selection-or-hover
    /// set and asks for confirmation; `/` and `:` enter the search and
    /// command modes; the editor keys hand an action back to the
    /// caller.  The numeric prefix survives only a digit, the pending
    /// `g` only its first press.
    #[verifier::rlimit(100)]
    pub fn input_normal(&mut self, key: InputKey, conn: &rusqlite::Connection) -> (r: Result<
        InputAction,
        DbError,
    >)
        requires
            old(self).wf(),
        ensures
            final(self).wf(),
            final(self).deleted_log == old(self).deleted_log,
            key == InputKey::Char('q') ==> (r matches Ok(a) && a == InputAction::Quit && *final(self) == *old(self)),
            !(key == InputKey::Char('q')) ==> !(r matches Ok(a) && a == InputAction::Quit),
            key == InputKey::Char('/') ==> r is Ok && *final(self) == (SelectScreen {
                state: State::Search,
                gpending: false,
                action_count: 0,
                ..*old(self)
            }),
            key == InputKey::Char(':') ==> r is Ok && *final(self) == (SelectScreen {
                state: State::Command,
                gpending: false,
                action_count: 0,
                ..*old(self)
            }),
            (key == InputKey::Char('d') || key == InputKey::Delete) ==> r is Ok && (if old(self).sel_or_hover_spec().0.len() > 0 {
                *final(self) == (SelectScreen {
                    state: State::Delete,
                    delete_sel: final(self).delete_sel,
                    delete_hover: old(self).sel_or_hover_spec().1,
                    gpending: false,
                    action_count: 0,
                    ..*old(self)
                }) && final(self).delete_sel@ == old(self).sel_or_hover_spec().0
            } else {
                *final(self) == (SelectScreen { gpending: false, action_count: 0, ..*old(self) })
            }),
            key == InputKey::Home ==> r is Ok && *final(self) == (SelectScreen {
                hover: 0,
                start: 0,
                gpending: false,
                action_count: 0,
                ..*old(self)
            }),
            (key == InputKey::Char('G') || key == InputKey::End) && old(self).nodes@.len() > 0
                ==> r is Ok && *final(self) == (SelectScreen {
                hover: (old(self).nodes@.len() - 1) as usize,
                start: final(self).start,
                gpending: false,
                action_count: 0,
                ..*old(self)
            }) && final(self).start as int == (if old(self).nodes@.len() - 1
                > old(self).termsize.1 - 1 {
                old(self).nodes@.len() - old(self).termsize.1
            } else {
                0int
            }),
            (key == InputKey::Char('j') || key == InputKey::Down) ==> r is Ok && *final(self) == (
            SelectScreen {
                hover: final(self).hover,
                start: final(self).start,
                gpending: false,
                action_count: 0,
                ..*old(self)
            }) && final(self).hover as int == (if old(self).nodes@.len() == 0 {
                0int
            } else if old(self).hover + (if old(self).action_count > 1 {
                old(self).action_count
            } else {
                1
            }) < old(self).nodes@.len() {
                old(self).hover + (if old(self).action_count > 1 {
                    old(self).action_count
                } else {
                    1
                })
            } else {
                old(self).nodes@.len() - 1
            }),
            (key == InputKey::Char('k') || key == InputKey::Up) ==> r is Ok && *final(self) == (
            SelectScreen {
                hover: final(self).hover,
                start: final(self).start,
                gpending: false,
                action_count: 0,
                ..*old(self)
            }) && final(self).hover as int == (if old(self).nodes@.len() == 0 {
                0int
            } else if old(self).hover - (if old(self).action_count > 1 {
                old(self).action_count
            } else {
                1
            }) >= old(self).nodes@.len() {
                old(self).nodes@.len() - 1
            } else if old(self).hover - (if old(self).action_count > 1 {
                old(self).action_count
            } else {
                1
            }) >= 0 {
                old(self).hover - (if old(self).action_count > 1 {
                    old(self).action_count
                } else {
                    1
                })
            } else {
                0int
            }),
            key == InputKey::Char('g') && old(self).gpending ==> r is Ok && *final(self) == (
            SelectScreen { hover: 0, start: 0, gpending: false, action_count: 0, ..*old(self) }),
            key == InputKey::Char('g') && !old(self).gpending ==> r is Ok && *final(self) == (
            SelectScreen { gpending: true, action_count: 0, ..*old(self) }),
            key == InputKey::Char(' ') && old(self).nodes@.len() > 0 ==> r is Ok && *final(self)
                == (SelectScreen {
                nodes: final(self).nodes,
                gpending: false,
                action_count: 0,
                ..*old(self)
            }) && final(self).nodes@.len() == old(self).nodes@.len() && final(self).nodes@[old(self).hover as int]@ == (SelectNodeView {
                selected: !old(self).nodes@[old(self).hover as int]@.selected,
                ..old(self).nodes@[old(self).hover as int]@
            }) && (forall|i: int|
                0 <= i < old(self).nodes@.len() && i != old(self).hover
                    ==> #[trigger] final(self).nodes@[i] == old(self).nodes@[i]),
            key == InputKey::Char('s') ==> r is Ok && *final(self) == (SelectScreen {
                nodes: final(self).nodes,
                gpending: false,
                action_count: 0,
                ..*old(self)
            }) && final(self).nodes@.len() == old(self).nodes@.len() && (forall|i: int|
                0 <= i < old(self).nodes@.len() ==> (#[trigger] final(self).nodes@[i])@ == (
                SelectNodeView { selected: false, ..old(self).nodes@[i]@ })),
            (key == InputKey::Char('e') || key == InputKey::Char('\n')) && old(self).nodes@.len()
                > 0 ==> (r matches Ok(a) && a == InputAction::Edit(
                old(self).nodes@[old(self).hover as int]@.id,
            ) && *final(self) == (SelectScreen { gpending: false, action_count: 0, ..*old(self) })),
            key == InputKey::Char('c') ==> (r matches Ok(a) && a == InputAction::Create && *final(self) == (SelectScreen { gpending: false, action_count: 0, ..*old(self) })),
            key matches InputKey::Char(c) ==> (crate::util::is_digit(c) ==> (r is Ok && *final(self) == (SelectScreen {
                action_count: final(self).action_count,
                gpending: false,
                ..*old(self)
            }) && final(self).action_count as int == (if old(self).action_count * 10
                + crate::util::digit_val(c) <= usize::MAX {
                old(self).action_count * 10 + crate::util::digit_val(c)
            } else {
                usize::MAX as int
            }))),
            key == InputKey::Ctrl('o') && r is Ok ==> *final(self) == (SelectScreen {
                args: final(self).args,
                nodes: final(self).nodes,
                hover: final(self).hover,
                start: final(self).start,
                gpending: false,
                action_count: 0,
                ..*old(self)
            }) && final(self).args == (ListArgs { sort: final(self).args.sort, ..old(self).args })
                && final(self).args.sort == (match old(self).args.sort {
                Some(util::Sort::ID) => Some(util::Sort::Edited),
                Some(util::Sort::Edited) => Some(util::Sort::Priority),
                Some(util::Sort::Priority) => Some(util::Sort::ID),
                None => None::<util::Sort>,
            }),
            key == InputKey::Char('a') && r is Ok ==> *final(self) == (SelectScreen {
                nodes: final(self).nodes,
                hover: final(self).hover,
                start: final(self).start,
                gpending: false,
                action_count: 0,
                ..*old(self)
            }),
            key == InputKey::Char('r') && r is Ok ==> *final(self) == (SelectScreen {
                nodes: final(self).nodes,
                hover: final(self).hover,
                start: final(self).start,
                termsize: final(self).termsize,
                gpending: false,
                action_count: 0,
                ..*old(self)
            }) && final(self).termsize.1 >= 1,
            (key == InputKey::Char('J') || key == InputKey::Char('K')) && r is Ok ==> (if old(self).nodes@.len() == 0 {
                *final(self) == (SelectScreen { gpending: false, action_count: 0, ..*old(self) })
            } else {
                *final(self) == (SelectScreen {
                    nodes: final(self).nodes,
                    hover: final(self).hover,
                    start: final(self).start,
                    gpending: false,
                    action_count: 0,
                    ..*old(self)
                }) && ((exists|q: int|
                    0 <= q < final(self).nodes@.len() && (#[trigger] final(self).nodes@[q])@.id
                        == old(self).nodes@[old(self).hover as int]@.id) ==> final(self).hover
                    as int == first_index_with_id(
                    final(self).nodes@,
                    old(self).nodes@[old(self).hover as int]@.id,
                ))
            }),
            !(key == InputKey::Char('g')) && !(key == InputKey::Char('q')) && r is Ok ==> final(self).gpending == false,
            (match key {
                InputKey::Char(c) => !crate::util::is_digit(c),
                _ => true,
            }) && !(key == InputKey::Char('q')) && r is Ok ==> final(self).action_count == 0,
    {
        let mut reset_acount = true;
        let mut reset_gpending = true;
        let mut action = InputAction::Continue;
        match key {
            InputKey::Char('q') => {
                return Ok(InputAction::Quit);
            },
            InputKey::Char('j') | InputKey::Down => {
                let n: usize = if self.action_count > 1 {
                    self.action_count
                } else {
                    1
                };
                self.cursor_down(n);
            },
            InputKey::Char('k') | InputKey::Up => {
                let n: usize = if self.action_count > 1 {
                    self.action_count
                } else {
                    1
                };
                self.cursor_up(n);
            },
            InputKey::Char('G') | InputKey::End => {
                if self.nodes.len() > 0 {
                    self.hover = self.nodes.len() - 1;
                    self.start = self.hover.saturating_sub((self.termsize.1 - 1) as usize);
                }
            },
            InputKey::Home => {
                self.start = 0;
                self.hover = 0;
            },
            InputKey::Char('g') => {
                if self.gpending {
                    self.start = 0;
                    self.hover = 0;
                } else {
                    self.gpending = true;
                    reset_gpending = false;
                }
            },
            InputKey::Char(' ') => {
                self.toggle_selection();
            },
            InputKey::Char('e') | InputKey::Char('\n') => {
                if self.nodes.len() > 0 {
                    action = InputAction::Edit(self.nodes[self.hover].id);
                }
            },
            InputKey::Char('c') => {
                action = InputAction::Create;
            },
            InputKey::Char('a') => {
                match self.archive(conn) {
                    Err(e) => {
                        return Err(e);
                    },
                    Ok(_) => {},
                }
            },
            InputKey::Char('r') => {
                let size = crate::util::terminal_size();
                let clamped: (u16, u16) = (size.0, if size.1 >= 1 {
                    size.1
                } else {
                    1
                });
                self.resized(clamped);
                match self.reload_nodes(conn) {
                    Err(e) => {
                        return Err(e);
                    },
                    Ok(_) => {},
                }
            },
            InputKey::Char('s') => {
                self.clear_selection();
            },
            InputKey::Char('d') | InputKey::Delete => {
                let (sel, dhover) = self.selection_or_hover();
                if sel.len() > 0 {
                    self.delete_sel = sel;
                    self.delete_hover = dhover;
                    self.state = State::Delete;
                }
            },
            InputKey::Char('/') => {
                self.state = State::Search;
            },
            InputKey::Char(':') => {
                self.state = State::Command;
            },
            InputKey::Ctrl('o') => {
                self.next_sort_mode();
                match self.reload_nodes(conn) {
                    Err(e) => {
                        return Err(e);
                    },
                    Ok(_) => {},
                }
            },
            InputKey::Char('J') => {
                if self.nodes.len() > 0 {
                    let hover_id = self.nodes[self.hover].id;
                    let (ids, _hovered) = self.selection_or_hover();
                    match db::priority_add(conn, ids.as_slice(), -1) {
                        Err(e) => {
                            return Err(e);
                        },
                        Ok(_) => {},
                    }
                    match self.reload_nodes(conn) {
                        Err(e) => {
                            return Err(e);
                        },
                        Ok(_) => {},
                    }
                    self.set_hover_to_id(hover_id);
                }
            },
            InputKey::Char('K') => {
                if self.nodes.len() > 0 {
                    let hover_id = self.nodes[self.hover].id;
                    let (ids, _hovered) = self.selection_or_hover();
                    match db::priority_add(conn, ids.as_slice(), 1) {
                        Err(e) => {
                            return Err(e);
                        },
                        Ok(_) => {},
                    }
                    match self.reload_nodes(conn) {
                        Err(e) => {
                            return Err(e);
                        },
                        Ok(_) => {},
                    }
                    self.set_hover_to_id(hover_id);
                }
            },
            InputKey::Char(c) => {
                let d = crate::util::digit_val_x(c);
                if d < 10 {
                    let grown: usize = match self.action_count.checked_mul(10) {
                        Some(v) => v,
                        None => usize::MAX,
                    };
                    self.action_count = grown.saturating_add(d as usize);
                    reset_acount = false;
                }
            },
            _ => {},
        }
        if reset_gpending {
            self.gpending = false;
        }
        if reset_acount {
            self.action_count = 0;
        }
        Ok(action)
    }

    /// What a change of the live search text to `buf` must do to the
    /// browser: an empty text clears the filter (sending the view to
    /// the top only if a filter was in effect); a text that parses
    /// becomes the filter, with the view sent to the top; a text that
    /// does not parse leaves the filter, the rows and the view exactly
    /// as they were.  Nothing else of the browser changes either way.
    pub open spec fn search_reparse_ok(self, post: SelectScreen, buf: Seq<char>) -> bool {
        &&& post == (SelectScreen {
            args: post.args,
            nodes: post.nodes,
            hover: post.hover,
            start: post.start,
            pattern: post.pattern,
            state: post.state,
            ..self
        })
        &&& post.args == (ListArgs { pattern: post.args.pattern, ..self.args })
        &&& if buf.len() == 0 {
            post.args.pattern is None && (self.args.pattern is Some ==> post.hover == 0
                && post.start == 0) && (self.args.pattern is None ==> post.nodes == self.nodes
                && post.hover == self.hover && post.start == self.start)
        } else {
            match pattern::parse_cond(buf) {
                pattern::ParseOutcome::Parsed(cv) => (post.args.pattern matches Some(p)
                    && pattern::cond_view(p) == cv) && post.hover == 0 && post.start == 0,
                pattern::ParseOutcome::Trailing(_) => post.args.pattern == self.args.pattern
                    && post.nodes == self.nodes && post.hover == self.hover && post.start
                    == self.start,
                pattern::ParseOutcome::Malformed => post.args.pattern == self.args.pattern
                    && post.nodes == self.nodes && post.hover == self.hover && post.start
                    == self.start,
            }
        }
    }

    /// Handles one key in search mode.  Printable characters grow the
    /// live pattern, backspace shrinks it (and leaves the mode when it
    /// was empty), enter commits the last good filter, escape cancels
    /// and clears the pattern.  Every buffer change re-parses, with
    /// the effect that `search_reparse_ok` lays down: a text that does
    /// not parse leaves the previous filter standing; one that parses
    /// replaces it and sends the view to the top.
    pub fn input_search(&mut self, key: InputKey, conn: &rusqlite::Connection) -> (r: Result<
        InputAction,
        DbError,
    >)
        requires
            old(self).wf(),
        ensures
            final(self).wf(),
            final(self).deleted_log == old(self).deleted_log,
            r matches Ok(a) ==> a == InputAction::Continue,
            r is Ok ==> final(self).state == (match key {
                InputKey::Esc | InputKey::Ctrl('c') | InputKey::Ctrl('d') => State::Normal,
                InputKey::Char('\n') => State::Normal,
                InputKey::Backspace => if old(self).pattern@.len() == 0 {
                    State::Normal
                } else {
                    old(self).state
                },
                _ => old(self).state,
            }),
            (key == InputKey::Esc || key == InputKey::Ctrl('c') || key == InputKey::Ctrl('d'))
                && r is Ok ==> final(self).pattern@.len() == 0 && old(self).search_reparse_ok(
                *final(self),
                Seq::empty(),
            ),
            key == InputKey::Char('\n') ==> r is Ok && *final(self) == (SelectScreen {
                state: State::Normal,
                ..*old(self)
            }),
            key matches InputKey::Char(c) ==> ((!(c == '\n') && r is Ok) ==> final(self).pattern@ == old(self).pattern@.push(c) && old(self).search_reparse_ok(*final(self), old(self).pattern@.push(c))),
            key == InputKey::Backspace && old(self).pattern@.len() > 0 && r is Ok ==> final(self).pattern@ == old(self).pattern@.drop_last() && old(self).search_reparse_ok(*final(self), old(self).pattern@.drop_last()),
            key == InputKey::Backspace && old(self).pattern@.len() == 0 ==> r is Ok && *final(self) == (SelectScreen { state: State::Normal, ..*old(self) }),
    {
        let mut changed = true;
        let mut end = false;
        match key {
            InputKey::Esc | InputKey::Ctrl('c') | InputKey::Ctrl('d') => {
                end = true;
                self.pattern = String::new();
            },
            InputKey::Char('\n') => {
                end = true;
                changed = false;
            },
            InputKey::Backspace => {
                let popped = crate::util::pop_char(&mut self.pattern);
                if !popped {
                    end = true;
                    changed = false;
                }
            },
            InputKey::Char(c) => {
                crate::util::push_char(&mut self.pattern, c);
            },
            _ => {
                changed = false;
            },
        }
        if changed {
            if self.reparse_pattern() {
                self.hover = 0;
                self.start = 0;
                match self.reload_nodes(conn) {
                    Err(e) => {
                        return Err(e);
                    },
                    Ok(_) => {},
                }
            }
        }
        if end {
            self.state = State::Normal;
        }
        Ok(InputAction::Continue)
    }

    /// What committing the command line must do to the browser, per
    /// the buffer's first token: `a` and `A` set the archived
    /// visibility that `archived_cycled` and `archived_only_toggled`
    /// lay down; the tag commands with at least one tag record, in
    /// the tag log, exactly the mutation of the selection-or-hover
    /// set by the remaining tokens; anything else changes nothing but
    /// the buffer and the mode.
    pub open spec fn cmd_commit_ok(self, post: SelectScreen) -> bool {
        let toks = cmd_tokens(self.command@);
        &&& post.deleted_log == self.deleted_log
        &&& (toks[0] == "a"@ ==> post.args.archived == self.archived_cycled() && post.tag_log
            == self.tag_log)
        &&& (toks[0] == "A"@ ==> post.args.archived == self.archived_only_toggled() && post.tag_log
            == self.tag_log)
        &&& (!(toks[0] == "a"@) && !(toks[0] == "A"@) && Self::tag_command(toks[0]) is None
            ==> post == (SelectScreen { command: post.command, state: post.state, ..self }))
        &&& (toks.len() == 1 && Self::tag_command(toks[0]) is Some ==> post == (SelectScreen {
            command: post.command,
            state: post.state,
            ..self
        }))
        &&& (toks.len() > 1 ==> match Self::tag_command(toks[0]) {
            Some(added) => post.args == self.args && post.tag_log@ == self.tag_log@.push(
                (TagMutation {
                    ids: self.sel_or_hover_spec().0,
                    tags: toks.drop_first(),
                    added,
                }),
            ),
            None => true,
        })
    }

    /// Handles one key in command mode.  Characters grow the buffer,
    /// backspace shrinks it (and leaves the mode when it was empty),
    /// enter splits the buffer into tokens and runs the command with
    /// the effect that `cmd_commit_ok` lays down, escape discards it.
    pub fn input_cmd(&mut self, key: InputKey, conn: &rusqlite::Connection) -> (r: Result<
        InputAction,
        DbError,
    >)
        requires
            old(self).wf(),
        ensures
            final(self).wf(),
            final(self).deleted_log == old(self).deleted_log,
            r matches Ok(a) ==> a == InputAction::Continue,
            (key == InputKey::Esc || key == InputKey::Ctrl('c') || key == InputKey::Ctrl('d'))
                ==> r is Ok && *final(self) == (SelectScreen {
                command: final(self).command,
                state: State::Normal,
                ..*old(self)
            }) && final(self).command@.len() == 0,
            key == InputKey::Char('\n') && r is Ok ==> final(self).state == State::Normal && final(self).command@.len() == 0 && old(self).cmd_commit_ok(*final(self)),
            key matches InputKey::Char(c) ==> (!(c == '\n') ==> (r is Ok && *final(self) == (
            SelectScreen { command: final(self).command, ..*old(self) }) && final(self).command@
                == old(self).command@.push(c))),
            key == InputKey::Backspace ==> r is Ok && *final(self) == (SelectScreen {
                command: final(self).command,
                state: final(self).state,
                ..*old(self)
            }) && (if old(self).command@.len() == 0 {
                final(self).state == State::Normal && final(self).command@.len() == 0
            } else {
                final(self).state == old(self).state && final(self).command@ == old(self).command@.drop_last()
            }),
    {
        let mut end = false;
        let mut exec = false;
        match key {
            InputKey::Esc | InputKey::Ctrl('c') | InputKey::Ctrl('d') => {
                self.command = String::new();
                end = true;
            },
            InputKey::Char('\n') => {
                end = true;
                exec = true;
            },
            InputKey::Backspace => {
                let popped = crate::util::pop_char(&mut self.command);
                if !popped {
                    end = true;
                }
            },
            InputKey::Char(c) => {
                crate::util::push_char(&mut self.command, c);
            },
            _ => {},
        }
        if exec {
            let ghost toks = cmd_tokens(old(self).command@);
            let cs = crate::util::str_chars(self.command.as_str());
            let tokens = cmd_tokens_x(&cs, 0);
            proof {
                assert(cs@.subrange(0, cs@.len() as int) =~= old(self).command@);
                assert(string_views(tokens@) == toks);
                assert(tokens@.len() == toks.len());
                assert(tokens@[0]@ == toks[0]);
                assert(string_views(tokens@).drop_first() =~= toks.drop_first());
            }
            self.command = String::new();
            match self.exec_cmd(&tokens, conn) {
                Err(e) => {
                    self.state = State::Normal;
                    return Err(e);
                },
                Ok(_) => {},
            }
        }
        if end {
            self.state = State::Normal;
        }
        Ok(InputAction::Continue)
    }

    /// Handles one key in delete-confirm mode.  `y` or `Y` deletes
    /// exactly the ids captured when the mode was entered, whatever
    /// the selection has become since, and removes the matching rows
    /// in place; any other key cancels.  Either way the browser is
    /// back in normal mode.
    pub fn input_delete(&mut self, key: InputKey, conn: &rusqlite::Connection) -> (r: Result<
        InputAction,
        DbError,
    >)
        requires
            old(self).wf(),
        ensures
            final(self).wf(),
            r matches Ok(a) ==> a == InputAction::Continue,
            r is Err ==> *final(self) == *old(self) && r matches Err(DbError::SQL(_)),
            (key == InputKey::Char('y') || key == InputKey::Char('Y')) && r is Ok ==> {
                &&& final(self).deleted_log@ == old(self).deleted_log@.push(old(self).delete_sel@)
                &&& *final(self) == (SelectScreen {
                    nodes: final(self).nodes,
                    hover: final(self).hover,
                    start: final(self).start,
                    state: State::Normal,
                    deleted_log: final(self).deleted_log,
                    ..*old(self)
                })
                &&& (old(self).delete_hover && old(self).nodes@.len() > 0 ==> final(self).nodes@
                    == old(self).nodes@.remove(old(self).hover as int))
                &&& (!old(self).delete_hover ==> final(self).nodes@ == unselected_of(
                    old(self).nodes@,
                ))
            },
            !(key == InputKey::Char('y') || key == InputKey::Char('Y')) ==> r is Ok && *final(self) == (SelectScreen { state: State::Normal, ..*old(self) }),
    {
        match key {
            InputKey::Char('y') | InputKey::Char('Y') => {
                match db::delete_range(conn, self.delete_sel.as_slice()) {
                    Err(e) => {
                        return Err(e);
                    },
                    Ok(_) => {},
                }
                self.deleted_log = Ghost(self.deleted_log@.push(self.delete_sel@));
                if self.delete_hover {
                    if self.hover < self.nodes.len() {
                        let _removed = self.nodes.remove(self.hover);
                    }
                } else {
                    let mut owned: Vec<SelectNode> = Vec::new();
                    core::mem::swap(&mut owned, &mut self.nodes);
                    self.nodes = retain_unselected(owned);
                }
                self.correct_hover();
                self.state = State::Normal;
                Ok(InputAction::Continue)
            },
            _ => {
                self.state = State::Normal;
                Ok(InputAction::Continue)
            },
        }
    }

    /// Feeds one key to whichever input mode is active.
    pub fn input(&mut self, key: InputKey, conn: &rusqlite::Connection) -> (r: Result<
        InputAction,
        DbError,
    >)
        requires
            old(self).wf(),
        ensures
            final(self).wf(),
            (r matches Ok(a) && a == InputAction::Quit) ==> old(self).state == State::Normal && key
                == InputKey::Char('q'),
    {
        match self.state {
            State::Normal => self.input_normal(key, conn),
            State::Search => self.input_search(key, conn),
            State::Command => self.input_cmd(key, conn),
            State::Delete => self.input_delete(key, conn),
        }
    }
}


/// One displayed row, ready for the terminal: the texts to draw and
/// the widths to lay them out in.
pub struct RenderRow {
    pub id: u32,
    pub summary: String,
    pub tags_text: String,
    pub hovered: bool,
    pub selected: bool,
    pub sum_width: usize,
    pub tags_width: usize,
}

/// One computed frame: the visible rows, top to bottom, and the
/// mode's status line, if any.
pub struct Frame {
    pub rows: Vec<RenderRow>,
    pub status: Option<String>,
}

/// The character budget of one row after its id and separator.
pub open spec fn row_width(termx: int, idlen: int) -> int {
    if termx - idlen - 3 >= 0 {
        termx - idlen - 3
    } else {
        0
    }
}

/// How much of a row's budget the summary gets: everything on a
/// narrow terminal, seven tenths but at least sixty columns on a wide
/// one; never below the three columns an ellipsis needs.
pub open spec fn sum_width_of(w: int) -> int {
    if w > 80 {
        if 7 * w / 10 >= 60 {
            7 * w / 10
        } else {
            60
        }
    } else if w < 3 {
        3
    } else {
        w
    }
}

/// How much of a row's budget the tag column gets.
pub open spec fn tags_width_of(w: int) -> int {
    if w > 80 {
        w - sum_width_of(w)
    } else {
        0
    }
}

/// Every tag in square brackets, in order.
pub open spec fn bracketed_tags(tags: Seq<Seq<char>>) -> Seq<char>
    decreases tags.len(),
{
    if tags.len() == 0 {
        Seq::empty()
    } else {
        bracketed_tags(tags.drop_last()) + "["@ + tags.last() + "]"@
    }
}

/// The tag column of one row: the priority in parentheses, and the
/// bracketed tags where there is room for any.
pub open spec fn tags_text_of(pri: int, tags: Seq<Seq<char>>, tagsw: int) -> Seq<char> {
    "("@ + crate::util::signed_dec_digits(pri) + ")"@ + (if tagsw > 0 && tags.len() > 0 {
        bracketed_tags(tags)
    } else {
        Seq::empty()
    })
}

impl SelectScreen {
    /// How many rows the frame shows: the viewport's worth, or what is
    /// left of the list below `start`.
    pub open spec fn visible_count(self) -> int {
        if self.nodes@.len() - self.start < self.termsize.1 {
            self.nodes@.len() - self.start
        } else {
            self.termsize.1 as int
        }
    }

    /// The mode's status line: the live search text after `/`, the
    /// command line after `:`, the delete-confirm question, or none in
    /// normal mode.
    pub open spec fn status_spec(self) -> Option<Seq<char>> {
        match self.state {
            State::Normal => None,
            State::Search => Some("/"@ + self.pattern@),
            State::Command => Some(":"@ + self.command@),
            State::Delete => Some(
                if self.delete_sel@.len() == 1 {
                    "Delete node "@ + crate::util::dec_digits(self.delete_sel@[0] as nat)
                        + "? [y/n]"@
                } else {
                    "Delete selected nodes? [y/n]"@
                },
            ),
        }
    }

    /// What the frame's row `k` shows of the listed row below it.
    pub open spec fn row_matches(self, k: int, row: RenderRow) -> bool {
        let n = self.nodes@[self.start + k]@;
        let w = row_width(
            self.termsize.0 as int,
            crate::util::dec_digits(n.id as nat).len() as int,
        );
        &&& row.id == n.id
        &&& row.hovered == (self.start + k == self.hover)
        &&& row.selected == n.selected
        &&& row.sum_width == sum_width_of(w)
        &&& row.tags_width == tags_width_of(w)
        &&& row.summary@ == crate::util::short_string_spec(n.summary, sum_width_of(w))
        &&& row.tags_text@ == tags_text_of(n.priority as int, n.tags, tags_width_of(w))
    }

    /// Computes what a frame shows: the rows of the viewport slice,
    /// each with its texts shortened to the terminal's widths, and the
    /// mode's status line.
    pub fn render(&self) -> (r: Frame)
        requires
            self.view_ok(),
        ensures
            r.rows@.len() == self.visible_count(),
            forall|k: int| 0 <= k < r.rows@.len() ==> self.row_matches(k, #[trigger] r.rows@[k]),
            match r.status {
                Some(s) => self.status_spec() matches Some(t) && s@ == t,
                None => self.status_spec() is None,
            },
    {
        let count: usize = if self.nodes.len() - self.start < self.termsize.1 as usize {
            self.nodes.len() - self.start
        } else {
            self.termsize.1 as usize
        };
        let mut rows: Vec<RenderRow> = Vec::new();
        let mut k: usize = 0;
        while k < count
            invariant
                k <= count,
                self.view_ok(),
                count == self.visible_count(),
                self.nodes@.len() <= usize::MAX,
                rows@.len() == k,
                forall|q: int| 0 <= q < k ==> self.row_matches(q, #[trigger] rows@[q]),
            decreases count - k,
        {
            let n = &self.nodes[self.start + k];
            let idstr = crate::util::u32_string(n.id);
            let idlen = crate::util::str_chars(idstr.as_str()).len();
            let termx = self.termsize.0 as usize;
            let w: usize = if termx >= idlen && termx - idlen >= 3 {
                termx - idlen - 3
            } else {
                0
            };
            let sumw: usize = if w > 80 {
                if 7 * w / 10 >= 60 {
                    7 * w / 10
                } else {
                    60
                }
            } else if w < 3 {
                3
            } else {
                w
            };
            let tagsw: usize = if w > 80 {
                w - sumw
            } else {
                0
            };
            let mut tags_text = "(".to_owned();
            tags_text.append(crate::util::i32_string(n.priority).as_str());
            tags_text.append(")");
            let ghost tags_base = tags_text@;
            if tagsw > 0 && n.tags.len() > 0 {
                let mut i: usize = 0;
                while i < n.tags.len()
                    invariant
                        i <= n.tags@.len(),
                        tags_text@ == tags_base + bracketed_tags(
                            string_views(n.tags@).subrange(0, i as int),
                        ),
                    decreases n.tags@.len() - i,
                {
                    tags_text.append("[");
                    tags_text.append(n.tags[i].as_str());
                    tags_text.append("]");
                    proof {
                        let tv = string_views(n.tags@);
                        let pre = tv.subrange(0, i + 1 as int);
                        assert(pre.drop_last() =~= tv.subrange(0, i as int));
                        assert(pre.last() == n.tags@[i as int]@);
                        assert(tags_text@ =~= tags_base + (bracketed_tags(pre.drop_last()) + "["@
                            + pre.last() + "]"@));
                        assert(tags_text@ =~= tags_base + bracketed_tags(pre));
                    }
                    i = i + 1;
                }
                proof {
                    assert(string_views(n.tags@).subrange(
                        0,
                        string_views(n.tags@).len() as int,
                    ) =~= string_views(n.tags@));
                }
            }
            let summary = crate::util::short_string(n.summary.as_str(), sumw);
            rows.push(
                RenderRow {
                    id: n.id,
                    summary,
                    tags_text,
                    hovered: self.start + k == self.hover,
                    selected: n.selected,
                    sum_width: sumw,
                    tags_width: tagsw,
                },
            );
            k = k + 1;
        }
        let status: Option<String> = match self.state {
            State::Normal => None,
            State::Search => {
                let mut s = "/".to_owned();
                s.append(self.pattern.as_str());
                Some(s)
            },
            State::Command => {
                let mut s = ":".to_owned();
                s.append(self.command.as_str());
                Some(s)
            },
            State::Delete => {
                if self.delete_sel.len() == 1 {
                    let mut s = "Delete node ".to_owned();
                    s.append(crate::util::u32_string(self.delete_sel[0]).as_str());
                    s.append("? [y/n]");
                    Some(s)
                } else {
                    Some("Delete selected nodes? [y/n]".to_owned())
                }
            },
        };
        Frame { rows, status }
    }

    /// Builds a browser over the given listing arguments and performs
    /// the first load.  The browser starts in normal mode at the top
    /// of the list, with nothing selected and nothing yet deleted.
    pub fn new(conn: &rusqlite::Connection, args: ListArgs) -> (r: Result<SelectScreen, DbError>)
        requires
            crate::util::list_args_wf(args),
        ensures
            r matches Ok(s) ==> s.wf() && s.args == args && s.state == State::Normal && s.hover
                == 0 && s.start == 0 && s.pattern@.len() == 0 && s.command@.len() == 0
                && s.action_count == 0 && s.gpending == false && s.delete_sel@.len() == 0
                && s.delete_hover == false && s.deleted_log@.len() == 0 && s.tag_log@.len() == 0
                && s.cursor_off == 20,
            r is Err ==> r matches Err(DbError::SQL(_)),
    {
        let size = crate::util::terminal_size();
        let clamped: (u16, u16) = (size.0, if size.1 >= 1 {
            size.1
        } else {
            1
        });
        let mut s = SelectScreen {
            args,
            nodes: Vec::new(),
            hover: 0,
            start: 0,
            termsize: clamped,
            pattern: String::new(),
            state: State::Normal,
            cursor_off: 20,
            delete_hover: false,
            delete_sel: Vec::new(),
            command: String::new(),
            action_count: 0,
            gpending: false,
            deleted_log: Ghost(Seq::empty()),
            tag_log: Ghost(Seq::empty()),
        };
        match s.reload_nodes(conn) {
            Err(e) => Err(e),
            Ok(_) => Ok(s),
        }
    }
}

/// The smallest of three numbers.
pub open spec fn min3(a: int, b: int, c: int) -> int {
    if a <= b && a <= c {
        a
    } else if b <= c {
        b
    } else {
        c
    }
}

/// The first index whose row carries the given id; the length when no
/// row does.
pub open spec fn first_index_with_id(ns: Seq<SelectNode>, id: u32) -> int
    decreases ns.len(),
{
    if ns.len() == 0 {
        0
    } else if ns[0]@.id == id {
        0
    } else {
        1 + first_index_with_id(ns.drop_first(), id)
    }
}

proof fn lemma_first_index_with_id(ns: Seq<SelectNode>, id: u32, i: int)
    requires
        0 <= i < ns.len(),
        ns[i]@.id == id,
        forall|q: int| 0 <= q < i ==> (#[trigger] ns[q])@.id != id,
    ensures
        first_index_with_id(ns, id) == i,
    decreases i,
{
    if i > 0 {
        assert(ns[0]@.id != id);
        assert(ns.drop_first()[i - 1]@.id == id);
        assert forall|q: int| 0 <= q < i - 1 implies (#[trigger] ns.drop_first()[q])@.id != id by {
            assert(ns.drop_first()[q] == ns[q + 1]);
        }
        lemma_first_index_with_id(ns.drop_first(), id, i - 1);
    }
}

/// A copy of a list of strings, texts kept.
fn clone_strings(v: &Vec<String>) -> (r: Vec<String>)
    ensures
        string_views(r@) == string_views(v@),
{
    let mut out: Vec<String> = Vec::new();
    let mut i: usize = 0;
    while i < v.len()
        invariant
            i <= v@.len(),
            out@.len() == i,
            forall|q: int| 0 <= q < i ==> (#[trigger] out@[q])@ == v@[q]@,
        decreases v@.len() - i,
    {
        out.push(v[i].clone());
        i = i + 1;
    }
    proof {
        assert(string_views(out@) =~= string_views(v@));
    }
    out
}

} // verus!
