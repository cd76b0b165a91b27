//! How the screen is divided: the header, panel body and footer, the three
//! panels in each layout (and as rails around an expanded panel), and the
//! centred dialogs. The sizes of the pieces come from Ratatui's layout
//! solver; which splits are asked for, and which piece goes to which panel,
//! is decided here.
use vstd::prelude::*;

use crate::navigation::{Focus, PanelLayout};
use crate::pointer::Area;
use ratatui::layout::{Constraint, Flex, Layout, Rect};

verus! {

/// How much of a row or column one piece asks for.
#[derive(Clone, Copy, Debug, PartialEq, Eq, Structural)]
pub enum Span {
    /// A fixed number of cells.
    Length(u16),
    /// A percentage of the whole.
    Percentage(u16),
    /// A share of what is left over.
    Fill(u16),
}

/// Calls `ratatui::layout::Layout::split` on a layout in the given direction
/// (`vertical`: one piece above the other), with one constraint per span and
/// centred flex when `centered`. It gives one rectangle per constraint. The
/// sizes are left unsaid: the solver picks among equally good solutions by
/// walking hash maps seeded per process, so the same arguments need not give
/// the same rectangles everywhere.
#[verifier::external_body]
fn split(vertical: bool, centered: bool, spans: &Vec<Span>, area: Area) -> (r: Vec<Area>)
    ensures
        r@.len() == spans@.len(),
{
    let constraints = spans.iter().map(|span| match *span {
        Span::Length(n) => Constraint::Length(n),
        Span::Percentage(n) => Constraint::Percentage(n),
        Span::Fill(n) => Constraint::Fill(n),
    });
    let layout = if vertical { Layout::vertical(constraints) } else { Layout::horizontal(constraints) };
    let layout = if centered { layout.flex(Flex::Center) } else { layout };
    let rect = Rect { x: area.x, y: area.y, width: area.width, height: area.height };
    layout.split(rect).iter().map(|r| Area { x: r.x, y: r.y, width: r.width, height: r.height }).collect()
}

/// The area of a panel that is not shown.
pub open spec fn no_area() -> Area {
    Area { x: 0, y: 0, width: 0, height: 0 }
}

/// A panel's width in columns when it is a rail beside an expanded panel.
pub const RAIL_WIDTH: u16 = 5;

/// The spans of the panels side by side when one is expanded: the expanded
/// one fills the row, the others are rails. Without the first panel only the
/// Files and Diff panels take part.
pub open spec fn expanded_spans(focus: Focus, show_worktrees: bool) -> Seq<Span> {
    if !show_worktrees {
        if focus == Focus::Diff {
            seq![Span::Length(RAIL_WIDTH), Span::Fill(1)]
        } else {
            seq![Span::Fill(1), Span::Length(RAIL_WIDTH)]
        }
    } else {
        match focus {
            Focus::Worktrees => seq![Span::Fill(1), Span::Length(RAIL_WIDTH), Span::Length(RAIL_WIDTH)],
            Focus::Files => seq![Span::Length(RAIL_WIDTH), Span::Fill(1), Span::Length(RAIL_WIDTH)],
            Focus::Diff => seq![Span::Length(RAIL_WIDTH), Span::Length(RAIL_WIDTH), Span::Fill(1)],
        }
    }
}

/// Two pieces of the given percentages.
pub open spec fn percent_spans(first: u16, second: u16) -> Seq<Span> {
    seq![Span::Percentage(first), Span::Percentage(second)]
}

/// The split of the whole panel body: its direction (`true` for one piece
/// above the other) and spans.
///
/// Expanded, the focused panel fills the row and the others are rails,
/// whatever the layout. Otherwise, with the first panel shown, `Columns`
/// puts the three side by side (18%, 22%, 60%), `SidebarLeft` cuts a left
/// sidebar of a quarter of the width and `SidebarTop` a top band of a quarter
/// of the height. Without the first panel, the Files panel takes a quarter
/// beside (in `SidebarTop`, above) the Diff panel.
pub open spec fn outer_split(focus: Focus, expanded: bool, layout: PanelLayout, show_worktrees: bool) -> (
    bool,
    Seq<Span>,
) {
    if expanded {
        (false, expanded_spans(focus, show_worktrees))
    } else if !show_worktrees {
        (layout == PanelLayout::SidebarTop, percent_spans(25, 75))
    } else {
        match layout {
            PanelLayout::Columns => (
                false,
                seq![Span::Percentage(18), Span::Percentage(22), Span::Percentage(60)],
            ),
            PanelLayout::SidebarLeft => (false, percent_spans(25, 75)),
            PanelLayout::SidebarTop => (true, percent_spans(25, 75)),
        }
    }
}

/// The split of the sidebar or top band, the first piece of the outer split,
/// when there is one: in `SidebarLeft` the first panel above the Files panel
/// (35% and 65%), in `SidebarTop` the two side by side (half each).
pub open spec fn inner_split(focus: Focus, expanded: bool, layout: PanelLayout, show_worktrees: bool) -> Option<
    (bool, Seq<Span>),
> {
    if expanded || !show_worktrees {
        None
    } else {
        match layout {
            PanelLayout::Columns => None,
            PanelLayout::SidebarLeft => Some((true, percent_spans(35, 65))),
            PanelLayout::SidebarTop => Some((false, percent_spans(50, 50))),
        }
    }
}

/// Which piece goes to which panel (first panel, Files, Diff): without the
/// first panel it gets no area and the Files and Diff panels take the two
/// outer pieces; with an inner split the first panel and the Files panel
/// take its two pieces and the Diff panel the second outer piece; otherwise
/// the three outer pieces go to the three panels in order.
pub open spec fn placed(
    outer: Seq<Area>,
    inner: Seq<Area>,
    expanded: bool,
    layout: PanelLayout,
    show_worktrees: bool,
) -> Seq<Area> {
    if !show_worktrees {
        seq![no_area(), outer[0], outer[1]]
    } else if expanded || layout == PanelLayout::Columns {
        seq![outer[0], outer[1], outer[2]]
    } else {
        seq![inner[0], inner[1], outer[1]]
    }
}

/// Whether the pieces have as many areas as the splits ask for.
pub open spec fn pieces_fit(
    outer: Seq<Area>,
    inner: Seq<Area>,
    focus: Focus,
    expanded: bool,
    layout: PanelLayout,
    show_worktrees: bool,
) -> bool {
    &&& outer.len() == outer_split(focus, expanded, layout, show_worktrees).1.len()
    &&& inner_split(focus, expanded, layout, show_worktrees) matches Some(plan) ==> inner.len()
        == plan.1.len()
}

fn spans_vec(a: Span, b: Span) -> (r: Vec<Span>)
    ensures
        r@ == seq![a, b],
{
    let r = vec![a, b];
    assert(r@ =~= seq![a, b]);
    r
}

fn spans_vec3(a: Span, b: Span, c: Span) -> (r: Vec<Span>)
    ensures
        r@ == seq![a, b, c],
{
    let r = vec![a, b, c];
    assert(r@ =~= seq![a, b, c]);
    r
}

/// The split of the whole panel body.
pub fn outer_plan(focus: Focus, expanded: bool, layout: PanelLayout, show_worktrees: bool) -> (r: (
    bool,
    Vec<Span>,
))
    ensures
        (r.0, r.1@) == outer_split(focus, expanded, layout, show_worktrees),
{
    let rail = Span::Length(RAIL_WIDTH);
    let fill = Span::Fill(1);
    let quarter = spans_vec(Span::Percentage(25), Span::Percentage(75));
    if expanded {
        let spans = if !show_worktrees {
            if focus == Focus::Diff {
                spans_vec(rail, fill)
            } else {
                spans_vec(fill, rail)
            }
        } else {
            match focus {
                Focus::Worktrees => spans_vec3(fill, rail, rail),
                Focus::Files => spans_vec3(rail, fill, rail),
                Focus::Diff => spans_vec3(rail, rail, fill),
            }
        };
        (false, spans)
    } else if !show_worktrees {
        (layout == PanelLayout::SidebarTop, quarter)
    } else {
        match layout {
            PanelLayout::Columns => (
                false,
                spans_vec3(Span::Percentage(18), Span::Percentage(22), Span::Percentage(60)),
            ),
            PanelLayout::SidebarLeft => (false, quarter),
            PanelLayout::SidebarTop => (true, quarter),
        }
    }
}

/// The split of the sidebar or top band, if any.
pub fn inner_plan(focus: Focus, expanded: bool, layout: PanelLayout, show_worktrees: bool) -> (r:
    Option<(bool, Vec<Span>)>)
    ensures
        r is None <==> inner_split(focus, expanded, layout, show_worktrees) is None,
        r matches Some(plan) ==> inner_split(focus, expanded, layout, show_worktrees) == Some(
            (plan.0, plan.1@),
        ),
{
    if expanded || !show_worktrees {
        None
    } else {
        match layout {
            PanelLayout::Columns => None,
            PanelLayout::SidebarLeft => Some(
                (true, spans_vec(Span::Percentage(35), Span::Percentage(65))),
            ),
            PanelLayout::SidebarTop => Some(
                (false, spans_vec(Span::Percentage(50), Span::Percentage(50))),
            ),
        }
    }
}

/// Gives each panel its piece of the splits, as `placed` says.
pub fn place_panels(
    outer: &Vec<Area>,
    inner: &Vec<Area>,
    focus: Focus,
    expanded: bool,
    layout: PanelLayout,
    show_worktrees: bool,
) -> (r: [Area; 3])
    requires
        pieces_fit(outer@, inner@, focus, expanded, layout, show_worktrees),
    ensures
        r@ == placed(outer@, inner@, expanded, layout, show_worktrees),
{
    let r = if !show_worktrees {
        [Area { x: 0, y: 0, width: 0, height: 0 }, outer[0], outer[1]]
    } else if expanded || layout == PanelLayout::Columns {
        [outer[0], outer[1], outer[2]]
    } else {
        [inner[0], inner[1], outer[1]]
    };
    assert(r@ =~= placed(outer@, inner@, expanded, layout, show_worktrees));
    r
}

/// Divides the panel body among the first panel, the Files panel and the
/// Diff panel: the solver cuts the body as `outer_split` asks, and the first
/// piece as `inner_split` asks, and the pieces go to the panels as `placed`
/// says.
pub fn panel_areas(
    area: Area,
    focus: Focus,
    expanded: bool,
    layout: PanelLayout,
    show_worktrees: bool,
) -> (r: [Area; 3])
    ensures
        exists|outer: Seq<Area>, inner: Seq<Area>|
            pieces_fit(outer, inner, focus, expanded, layout, show_worktrees) && r@ == placed(
                outer,
                inner,
                expanded,
                layout,
                show_worktrees,
            ),
{
    let (vertical, spans) = outer_plan(focus, expanded, layout, show_worktrees);
    let outer = split(vertical, false, &spans, area);
    let inner = match inner_plan(focus, expanded, layout, show_worktrees) {
        Some((inner_vertical, inner_spans)) => split(inner_vertical, false, &inner_spans, outer[0]),
        None => Vec::new(),
    };
    let r = place_panels(&outer, &inner, focus, expanded, layout, show_worktrees);
    assert(pieces_fit(outer@, inner@, focus, expanded, layout, show_worktrees));
    r
}

/// An expanded panel ignores the layout choice: the same split is asked
/// for, no inner one, and the pieces go to the same panels, in every
/// layout.
pub proof fn lemma_expanded_ignores_layout(
    outer: Seq<Area>,
    inner: Seq<Area>,
    focus: Focus,
    show_worktrees: bool,
    first: PanelLayout,
    second: PanelLayout,
)
    ensures
        outer_split(focus, true, first, show_worktrees) == outer_split(
            focus,
            true,
            second,
            show_worktrees,
        ),
        inner_split(focus, true, first, show_worktrees) is None,
        placed(outer, inner, true, first, show_worktrees) == placed(
            outer,
            inner,
            true,
            second,
            show_worktrees,
        ),
{
}

/// Without the first panel it gets no area, in every layout, expanded or
/// not, and the Files and Diff panels share the body.
pub proof fn lemma_hidden_first_panel_has_no_area(
    outer: Seq<Area>,
    inner: Seq<Area>,
    focus: Focus,
    expanded: bool,
    layout: PanelLayout,
)
    ensures
        placed(outer, inner, expanded, layout, false)[0] == no_area(),
        placed(outer, inner, expanded, layout, false).len() == 3,
        outer_split(focus, expanded, layout, false).1.len() == 2,
        inner_split(focus, expanded, layout, false) is None,
{
}

/// The spans of the screen: a header of two lines, the panel body, and a
/// footer of one line.
pub open spec fn screen_spans() -> Seq<Span> {
    seq![Span::Length(2), Span::Fill(1), Span::Length(1)]
}

/// Divides the screen into header, panel body and footer: the pieces the
/// solver cuts for `screen_spans`, in that order. Their sizes are the
/// solver's.
pub fn screen_parts(area: Area) -> (r: [Area; 3]) {
    let parts = split(true, false, &spans_vec3(Span::Length(2), Span::Fill(1), Span::Length(1)), area);
    [parts[0], parts[1], parts[2]]
}

/// Places a dialog in the middle of the screen: a centred column of
/// `horizontal` percent of the width, then a centred piece of it of
/// `vertical` percent of the height. The sizes are the solver's.
pub fn centered_area(horizontal: u16, vertical: u16, area: Area) -> (r: Area) {
    let column = split(false, true, &vec![Span::Percentage(horizontal)], area);
    let parts = split(true, true, &vec![Span::Percentage(vertical)], column[0]);
    parts[0]
}

} // verus!
