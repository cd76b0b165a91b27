use git_navigator::arrangement::{
    centered_area, inner_plan, outer_plan, panel_areas, place_panels, screen_parts, Span,
};
use git_navigator::navigation::{Focus, PanelLayout};
use git_navigator::pointer::Area;

fn area(x: u16, y: u16, width: u16, height: u16) -> Area {
    Area { x, y, width, height }
}

fn bottom(a: Area) -> u16 {
    a.y + a.height
}

fn right(a: Area) -> u16 {
    a.x + a.width
}

fn sidebar_layout_check() {
    let [worktrees, files, diff] =
        panel_areas(area(0, 0, 100, 40), Focus::Worktrees, false, PanelLayout::SidebarLeft, true);
    assert_eq!(worktrees.x, 0);
    assert_eq!(files.x, 0);
    assert_eq!(worktrees.width, 25);
    assert_eq!(files.width, 25);
    assert_eq!(files.y, bottom(worktrees));
    assert_eq!(diff.x, 25);
    assert_eq!(diff.width, 75);
    assert_eq!(diff.height, 40);
}

#[test]
fn ui_sidebar_layout_puts_files_below_worktrees_and_widens_diff() {
    sidebar_layout_check();
}

#[test]
fn mod_sidebar_layout_puts_files_below_worktrees_and_widens_diff() {
    sidebar_layout_check();
}

#[test]
fn layouts_hide_worktrees_when_no_linked_worktree_exists_and_history_is_inactive() {
    let [worktrees, files, diff] =
        panel_areas(area(0, 0, 100, 40), Focus::Files, false, PanelLayout::Columns, false);
    assert_eq!(worktrees, area(0, 0, 0, 0));
    assert_eq!(files.width, 25);
    assert_eq!(diff.x, right(files));
    assert_eq!(diff.width, 75);
}

#[test]
fn history_layouts_keep_the_first_panel_visible_without_linked_worktrees() {
    let [history, files, diff] =
        panel_areas(area(0, 0, 100, 40), Focus::Files, false, PanelLayout::SidebarLeft, true);
    assert_eq!(history.width, 25);
    assert_eq!(files.width, 25);
    assert_eq!(files.y, bottom(history));
    assert_eq!(diff.x, 25);
    assert_eq!(diff.width, 75);
}

fn vertical_layout_check() {
    let [worktrees, files, diff] =
        panel_areas(area(0, 0, 100, 40), Focus::Worktrees, false, PanelLayout::SidebarTop, true);
    assert_eq!(worktrees.x, 0);
    assert_eq!(worktrees.y, 0);
    assert_eq!(worktrees.width, 50);
    assert_eq!(files.x, right(worktrees));
    assert_eq!(files.y, 0);
    assert_eq!(files.width, 50);
    assert_eq!(diff.x, 0);
    assert_eq!(diff.y, 10);
    assert_eq!(diff.width, 100);
    assert_eq!(diff.height, 30);
}

#[test]
fn ui_vertical_layout_puts_diff_below_full_width_top_panels() {
    vertical_layout_check();
}

#[test]
fn mod_vertical_layout_puts_diff_below_full_width_top_panels() {
    vertical_layout_check();
}

fn expanded_layout_check() {
    let whole = area(0, 0, 100, 40);
    let columns = panel_areas(whole, Focus::Diff, true, PanelLayout::Columns, true);
    let sidebar_left = panel_areas(whole, Focus::Diff, true, PanelLayout::SidebarLeft, true);
    let sidebar_top = panel_areas(whole, Focus::Diff, true, PanelLayout::SidebarTop, true);
    assert_eq!(columns, sidebar_left);
    assert_eq!(columns, sidebar_top);
}

#[test]
fn ui_expanded_layout_ignores_the_panel_layout_preference() {
    expanded_layout_check();
}

#[test]
fn mod_expanded_layout_ignores_the_panel_layout_preference() {
    expanded_layout_check();
}

#[test]
fn an_expanded_panel_fills_the_row_between_rails() {
    let whole = area(0, 0, 100, 40);
    let [first, files, diff] = panel_areas(whole, Focus::Files, true, PanelLayout::SidebarTop, true);
    assert_eq!(first, area(0, 0, 5, 40));
    assert_eq!(files, area(5, 0, 90, 40));
    assert_eq!(diff, area(95, 0, 5, 40));
    let [hidden, files, diff] = panel_areas(whole, Focus::Diff, true, PanelLayout::Columns, false);
    assert_eq!(hidden, area(0, 0, 0, 0));
    assert_eq!(files, area(0, 0, 5, 40));
    assert_eq!(diff, area(5, 0, 95, 40));
    let [_, files, diff] = panel_areas(whole, Focus::Files, false, PanelLayout::SidebarTop, false);
    assert_eq!(files, area(0, 0, 100, 10));
    assert_eq!(diff, area(0, 10, 100, 30));
    let [first, files, diff] = panel_areas(whole, Focus::Files, false, PanelLayout::Columns, true);
    assert_eq!((first.width, files.width, diff.width), (18, 22, 60));
}

#[test]
fn the_screen_has_a_header_a_body_and_a_footer() {
    let [header, body, footer] = screen_parts(area(0, 0, 100, 40));
    assert_eq!(header, area(0, 0, 100, 2));
    assert_eq!(body, area(0, 2, 100, 37));
    assert_eq!(footer, area(0, 39, 100, 1));
}

#[test]
fn dialogs_are_centred() {
    assert_eq!(centered_area(50, 50, area(0, 0, 100, 40)), area(25, 10, 50, 20));
}

#[test]
fn the_splits_asked_for_follow_the_layout() {
    assert_eq!(
        outer_plan(Focus::Files, false, PanelLayout::SidebarTop, true),
        (true, vec![Span::Percentage(25), Span::Percentage(75)])
    );
    assert_eq!(
        inner_plan(Focus::Files, false, PanelLayout::SidebarTop, true),
        Some((false, vec![Span::Percentage(50), Span::Percentage(50)]))
    );
    assert_eq!(
        inner_plan(Focus::Files, false, PanelLayout::SidebarLeft, true),
        Some((true, vec![Span::Percentage(35), Span::Percentage(65)]))
    );
    assert_eq!(inner_plan(Focus::Files, false, PanelLayout::Columns, true), None);
    assert_eq!(inner_plan(Focus::Files, true, PanelLayout::SidebarLeft, true), None);
    assert_eq!(
        outer_plan(Focus::Worktrees, true, PanelLayout::SidebarLeft, true),
        (false, vec![Span::Fill(1), Span::Length(5), Span::Length(5)])
    );
    assert_eq!(
        outer_plan(Focus::Diff, true, PanelLayout::Columns, false),
        (false, vec![Span::Length(5), Span::Fill(1)])
    );
    assert_eq!(
        outer_plan(Focus::Files, false, PanelLayout::SidebarTop, false),
        (true, vec![Span::Percentage(25), Span::Percentage(75)])
    );
}

#[test]
fn pieces_go_to_their_panels() {
    let a = area(0, 0, 1, 1);
    let b = area(1, 0, 1, 1);
    let c = area(2, 0, 1, 1);
    let d = area(0, 1, 1, 1);
    let e = area(0, 2, 1, 1);
    assert_eq!(
        place_panels(&vec![a, b, c], &vec![], Focus::Files, false, PanelLayout::Columns, true),
        [a, b, c]
    );
    assert_eq!(
        place_panels(&vec![a, b], &vec![d, e], Focus::Files, false, PanelLayout::SidebarLeft, true),
        [d, e, b]
    );
    assert_eq!(
        place_panels(&vec![a, b], &vec![], Focus::Files, false, PanelLayout::SidebarTop, false),
        [area(0, 0, 0, 0), a, b]
    );
}
