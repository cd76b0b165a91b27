//! The rows of the History panel: graph continuation lines, the WIP entry,
//! branch labels and commits, and which of them can be selected.
use vstd::prelude::*;

use crate::history::{tip_names, tips_view, BranchTips};
use crate::model::{commits_view, texts, Commit, CommitView};
use crate::text::owned;

verus! {

/// A row of the History panel.
#[derive(Clone, Debug, PartialEq, Eq)]
pub enum HistoryRow {
    /// A graph line that continues below the previous commit.
    Graph(String),
    /// The live worktree changes, drawn with the graph of the head commit.
    Wip { graph: String },
    /// The branches that point at the commit below.
    BranchLabel { graph: String, names: Vec<String>, connected: bool },
    /// A commit, by its place in the history.
    Commit { index: usize },
}

/// A history row as values.
pub enum RowShape {
    Graph(Seq<char>),
    Wip(Seq<char>),
    BranchLabel(Seq<char>, Seq<Seq<char>>, bool),
    Commit(nat),
}

impl View for HistoryRow {
    type V = RowShape;

    open spec fn view(&self) -> RowShape {
        match self {
            HistoryRow::Graph(g) => RowShape::Graph(g@),
            HistoryRow::Wip { graph } => RowShape::Wip(graph@),
            HistoryRow::BranchLabel { graph, names, connected } => RowShape::BranchLabel(
                graph@,
                texts(names@),
                *connected,
            ),
            HistoryRow::Commit { index } => RowShape::Commit(*index as nat),
        }
    }
}

/// The views of a list of rows.
pub open spec fn shapes(v: Seq<HistoryRow>) -> Seq<RowShape> {
    v.map_values(|r: HistoryRow| r@)
}

/// The graph drawn beside a commit's own row: its last graph line, or a dot.
pub open spec fn node_graph(c: CommitView) -> Seq<char> {
    if c.graph.len() > 0 {
        c.graph.last()
    } else {
        "●"@
    }
}

/// Whether a newer commit (one listed before commit `i`) has it as a parent.
pub open spec fn has_newer_child(commits: Seq<CommitView>, i: int) -> bool {
    exists|j: int| 0 <= j < i && commits[j].parents.contains(commits[i].hash)
}

/// The graph lines of a commit before its own row.
pub open spec fn graph_rows(c: CommitView) -> Seq<RowShape> {
    let n: int = if c.graph.len() > 0 {
        c.graph.len() - 1
    } else {
        0
    };
    c.graph.take(n).map_values(|g: Seq<char>| RowShape::Graph(g))
}

/// The rows of commit `i`: its graph lines, WIP when it is the head, its
/// branch label when branches point at it, and the commit itself.
pub open spec fn commit_rows(
    commits: Seq<CommitView>,
    tips: Seq<(Seq<char>, Seq<Seq<char>>)>,
    head: Option<Seq<char>>,
    i: int,
) -> Seq<RowShape> {
    let c = commits[i];
    let wip: Seq<RowShape> = if head == Some(c.hash) {
        seq![RowShape::Wip(node_graph(c))]
    } else {
        seq![]
    };
    let label: Seq<RowShape> = match tip_names(tips, c.hash, 0) {
        Some(names) => seq![RowShape::BranchLabel(node_graph(c), names, has_newer_child(commits, i))],
        None => seq![],
    };
    graph_rows(c) + wip + label + seq![RowShape::Commit(i as nat)]
}

/// The rows of the first `n` commits.
pub open spec fn rows_upto(
    commits: Seq<CommitView>,
    tips: Seq<(Seq<char>, Seq<Seq<char>>)>,
    head: Option<Seq<char>>,
    n: int,
) -> Seq<RowShape>
    decreases n,
{
    if n <= 0 {
        seq![]
    } else {
        rows_upto(commits, tips, head, n - 1) + commit_rows(commits, tips, head, n - 1)
    }
}

/// Whether a row is the WIP entry.
pub open spec fn is_wip(r: RowShape) -> bool {
    r is Wip
}

/// The rows of the History panel: each commit's rows, with the WIP entry
/// first when no commit is the head.
pub open spec fn history_rows(
    commits: Seq<CommitView>,
    tips: Seq<(Seq<char>, Seq<Seq<char>>)>,
    head: Option<Seq<char>>,
) -> Seq<RowShape> {
    let rows = rows_upto(commits, tips, head, commits.len() as int);
    if exists|k: int| 0 <= k < rows.len() && is_wip(#[trigger] rows[k]) {
        rows
    } else {
        seq![RowShape::Wip("●"@)] + rows
    }
}

fn node_graph_of(c: &Commit) -> (r: String)
    ensures
        r@ == node_graph(c@),
{
    if c.graph.len() > 0 {
        c.graph[c.graph.len() - 1].clone()
    } else {
        owned("●")
    }
}

fn has_child_before(commits: &Vec<Commit>, i: usize) -> (r: bool)
    requires
        i < commits@.len(),
    ensures
        r == has_newer_child(commits_view(commits@), i as int),
{
    let ghost cv = commits_view(commits@);
    let mut j: usize = 0;
    while j < i
        invariant
            j <= i < commits@.len(),
            cv == commits_view(commits@),
            forall|k: int| 0 <= k < j ==> !cv[k].parents.contains(cv[i as int].hash),
        decreases i - j,
    {
        let parents = &commits[j].parents;
        let mut p: usize = 0;
        while p < parents.len()
            invariant
                j < i < commits@.len(),
                cv == commits_view(commits@),
                parents == commits@[j as int].parents,
                p <= parents@.len(),
                forall|q: int| 0 <= q < p ==> parents@[q]@ != cv[i as int].hash,
            decreases parents.len() - p,
        {
            if parents[p] == commits[i].hash {
                assert(cv[j as int].parents[p as int] == cv[i as int].hash);
                return true;
            }
            p += 1;
        }
        proof {
            if cv[j as int].parents.contains(cv[i as int].hash) {
                let q = choose|q: int|
                    0 <= q < cv[j as int].parents.len() && cv[j as int].parents[q] == cv[i as int].hash;
                assert(parents@[q]@ == cv[i as int].hash);
            }
        }
        j += 1;
    }
    false
}

/// The rows of the History panel for `commits`, with the branch labels of
/// `tips` and the WIP entry at the head commit `head_hash` (first when no
/// commit is the head).
pub fn display_rows_for(commits: &Vec<Commit>, tips: &BranchTips, head_hash: Option<&str>) -> (r:
    Vec<HistoryRow>)
    ensures
        shapes(r@) == history_rows(
            commits_view(commits@),
            tips_view(tips.tips@),
            match head_hash {
                Some(h) => Some(h@),
                None => None,
            },
        ),
{
    let ghost cv = commits_view(commits@);
    let ghost tv = tips_view(tips.tips@);
    let ghost head = match head_hash {
        Some(h) => Some(h@),
        None => None,
    };
    let mut rows: Vec<HistoryRow> = Vec::new();
    let mut has_wip = false;
    let mut i: usize = 0;
    assert(shapes(rows@) =~= Seq::<RowShape>::empty());
    while i < commits.len()
        invariant
            i <= commits@.len(),
            cv == commits_view(commits@),
            tv == tips_view(tips.tips@),
            head == (match head_hash {
                Some(h) => Some(h@),
                None => None,
            }),
            shapes(rows@) == rows_upto(cv, tv, head, i as int),
            has_wip == (exists|k: int| 0 <= k < shapes(rows@).len() && is_wip(#[trigger] shapes(rows@)[k])),
        decreases commits.len() - i,
    {
        let commit = &commits[i];
        let ghost c = cv[i as int];
        let ghost start = shapes(rows@);
        let ghost start_wip = has_wip;
        let count = if commit.graph.len() > 0 {
            commit.graph.len() - 1
        } else {
            0
        };
        let mut g: usize = 0;
        while g < count
            invariant
                g <= count,
                count <= commit.graph@.len(),
                c == commit@,
                shapes(rows@) == start + c.graph.take(g as int).map_values(|t: Seq<char>| RowShape::Graph(t)),
                has_wip == start_wip,
                start_wip == (exists|k: int| 0 <= k < start.len() && is_wip(#[trigger] start[k])),
                forall|k: int| 0 <= k < shapes(rows@).len() - start.len() ==> !is_wip(#[trigger] shapes(rows@)[start.len() + k]),
            decreases count - g,
        {
            let ghost before = shapes(rows@);
            rows.push(HistoryRow::Graph(commit.graph[g].clone()));
            assert(c.graph.take(g as int + 1).map_values(|t: Seq<char>| RowShape::Graph(t)) =~= c.graph.take(g as int).map_values(|t: Seq<char>| RowShape::Graph(t)).push(RowShape::Graph(c.graph[g as int])));
            assert(shapes(rows@) =~= before.push(RowShape::Graph(c.graph[g as int])));
            g += 1;
        }
        proof {
            assert(shapes(rows@) == start + graph_rows(c));
            if has_wip {
                let k = choose|k: int| 0 <= k < start.len() && is_wip(#[trigger] start[k]);
                assert(shapes(rows@)[k] == start[k]);
            } else {
                assert forall|k: int| 0 <= k < shapes(rows@).len() implies !is_wip(#[trigger] shapes(rows@)[k]) by {
                    if k < start.len() {
                        assert(shapes(rows@)[k] == start[k]);
                    } else {
                        assert(shapes(rows@)[start.len() + (k - start.len())] == shapes(rows@)[k]);
                    }
                }
            }
        }
        let after_graph = rows.len();
        let ghost mid = shapes(rows@);
        let is_head = match head_hash {
            Some(h) => commit.hash == owned(h),
            None => false,
        };
        if is_head {
            rows.push(HistoryRow::Wip { graph: node_graph_of(commit) });
            has_wip = true;
            assert(shapes(rows@)[mid.len() as int] == RowShape::Wip(node_graph(c)));
        }
        let ghost mid2 = shapes(rows@);
        assert(mid2 == mid + (if head == Some(c.hash) {
            seq![RowShape::Wip(node_graph(c))]
        } else {
            seq![]
        }));
        match tips.get(commit.hash.as_str()) {
            Some(names) => {
                let connected = has_child_before(commits, i);
                rows.push(
                    HistoryRow::BranchLabel {
                        graph: node_graph_of(commit),
                        names: names.clone(),
                        connected,
                    },
                );
                assert(shapes(rows@) =~= mid2.push(
                    RowShape::BranchLabel(node_graph(c), texts(names@), has_newer_child(cv, i as int)),
                ));
            },
            None => {},
        }
        let ghost mid3 = shapes(rows@);
        rows.push(HistoryRow::Commit { index: i });
        proof {
            assert(shapes(rows@) =~= mid3.push(RowShape::Commit(i as nat)));
            assert(shapes(rows@) =~= start + commit_rows(cv, tv, head, i as int));
            let now = shapes(rows@);
            if has_wip {
                if is_head {
                    assert(is_wip(now[mid.len() as int]));
                } else {
                    let k = choose|k: int| 0 <= k < mid.len() && is_wip(#[trigger] mid[k]);
                    assert(now[k] == mid[k]);
                }
            } else {
                assert forall|k: int| 0 <= k < now.len() implies !is_wip(#[trigger] now[k]) by {
                    if k < mid.len() {
                        assert(now[k] == mid[k]);
                    }
                }
            }
        }
        i += 1;
    }
    if !has_wip {
        let ghost before = shapes(rows@);
        rows.insert(0, HistoryRow::Wip { graph: owned("●") });
        assert(shapes(rows@) =~= seq![RowShape::Wip("●"@)] + before);
    }
    rows
}

/// Which entry of the list WIP-then-commits a row selects: 0 for WIP, the
/// commit's place plus one for a commit; graph lines and branch labels
/// select nothing.
pub open spec fn row_selection(r: RowShape) -> Option<nat> {
    match r {
        RowShape::Wip(_) => Some(0),
        RowShape::Commit(i) => Some(i + 1),
        _ => None,
    }
}

/// The entries that the selectable rows select, in row order.
pub open spec fn selectable(rows: Seq<RowShape>) -> Seq<nat>
    decreases rows.len(),
{
    if rows.len() == 0 {
        seq![]
    } else {
        match row_selection(rows.last()) {
            Some(e) => selectable(rows.drop_last()).push(e),
            None => selectable(rows.drop_last()),
        }
    }
}

/// The entries selected by the selectable rows, in order.
pub fn selectable_indices(rows: &Vec<HistoryRow>) -> (r: Vec<usize>)
    requires
        forall|k: int|
            0 <= k < rows@.len() ==> (#[trigger] rows@[k] matches HistoryRow::Commit { index }
                ==> index < usize::MAX),
    ensures
        r@.map_values(|x: usize| x as nat) == selectable(shapes(rows@)),
{
    let ghost sh = shapes(rows@);
    let mut out: Vec<usize> = Vec::new();
    let mut i: usize = 0;
    assert(sh.take(0) =~= Seq::<RowShape>::empty());
    assert(out@.map_values(|x: usize| x as nat) =~= Seq::<nat>::empty());
    while i < rows.len()
        invariant
            i <= rows@.len(),
            sh == shapes(rows@),
            forall|k: int|
                0 <= k < rows@.len() ==> (#[trigger] rows@[k] matches HistoryRow::Commit { index }
                    ==> index < usize::MAX),
            out@.map_values(|x: usize| x as nat) == selectable(sh.take(i as int)),
        decreases rows.len() - i,
    {
        assert(sh.take(i as int + 1).drop_last() =~= sh.take(i as int));
        assert(sh.take(i as int + 1).last() == rows@[i as int]@);
        let ghost before = out@;
        match &rows[i] {
            HistoryRow::Wip { .. } => {
                out.push(0);
                assert(out@.map_values(|x: usize| x as nat) =~= before.map_values(|x: usize| x as nat).push(0));
            },
            HistoryRow::Commit { index } => {
                out.push(*index + 1);
                assert(out@.map_values(|x: usize| x as nat) =~= before.map_values(|x: usize| x as nat).push((*index + 1) as nat));
            },
            _ => {},
        }
        i += 1;
    }
    assert(sh.take(rows@.len() as int) =~= sh);
    out
}


/// The commits that the commit rows show, in row order.
pub open spec fn commit_indices(rows: Seq<RowShape>) -> Seq<nat>
    decreases rows.len(),
{
    if rows.len() == 0 {
        seq![]
    } else {
        match rows.last() {
            RowShape::Commit(i) => commit_indices(rows.drop_last()).push(i),
            _ => commit_indices(rows.drop_last()),
        }
    }
}

proof fn lemma_commit_indices_concat(a: Seq<RowShape>, b: Seq<RowShape>)
    ensures
        commit_indices(a + b) == commit_indices(a) + commit_indices(b),
    decreases b.len(),
{
    if b.len() == 0 {
        assert(a + b =~= a);
        assert(commit_indices(a) + commit_indices(b) =~= commit_indices(a));
    } else {
        lemma_commit_indices_concat(a, b.drop_last());
        assert((a + b).drop_last() =~= a + b.drop_last());
        assert((a + b).last() == b.last());
        match b.last() {
            RowShape::Commit(i) => {
                assert(commit_indices(a) + commit_indices(b.drop_last()).push(i) =~= (commit_indices(a)
                    + commit_indices(b.drop_last())).push(i));
            },
            _ => {},
        }
    }
}

proof fn lemma_no_commit_rows(rows: Seq<RowShape>)
    requires
        forall|k: int| 0 <= k < rows.len() ==> !(#[trigger] rows[k] is Commit),
    ensures
        commit_indices(rows) == Seq::<nat>::empty(),
    decreases rows.len(),
{
    if rows.len() > 0 {
        assert(!(rows[rows.len() - 1] is Commit));
        lemma_no_commit_rows(rows.drop_last());
    }
}

proof fn lemma_rows_upto_commits(
    commits: Seq<CommitView>,
    tips: Seq<(Seq<char>, Seq<Seq<char>>)>,
    head: Option<Seq<char>>,
    n: int,
)
    requires
        0 <= n <= commits.len(),
    ensures
        commit_indices(rows_upto(commits, tips, head, n)) == Seq::new(n as nat, |i: int| i as nat),
    decreases n,
{
    if n > 0 {
        lemma_rows_upto_commits(commits, tips, head, n - 1);
        let c = commits[n - 1];
        let wip: Seq<RowShape> = if head == Some(c.hash) {
            seq![RowShape::Wip(node_graph(c))]
        } else {
            seq![]
        };
        let label: Seq<RowShape> = match tip_names(tips, c.hash, 0) {
            Some(names) => seq![RowShape::BranchLabel(node_graph(c), names, has_newer_child(commits, n - 1))],
            None => seq![],
        };
        let front = graph_rows(c) + wip + label;
        assert forall|k: int| 0 <= k < front.len() implies !(#[trigger] front[k] is Commit) by {
            if k < graph_rows(c).len() {
                assert(front[k] == graph_rows(c)[k]);
            } else if k < graph_rows(c).len() + wip.len() {
                assert(front[k] == wip[k - graph_rows(c).len()]);
            } else {
                assert(front[k] == label[k - graph_rows(c).len() - wip.len()]);
            }
        }
        lemma_no_commit_rows(front);
        assert(commit_rows(commits, tips, head, n - 1) == front + seq![RowShape::Commit((n - 1) as nat)]);
        lemma_commit_indices_concat(front, seq![RowShape::Commit((n - 1) as nat)]);
        let single = seq![RowShape::Commit((n - 1) as nat)];
        assert(single.drop_last() =~= Seq::<RowShape>::empty());
        assert(single.last() == RowShape::Commit((n - 1) as nat));
        assert(commit_indices(Seq::<RowShape>::empty()) =~= Seq::<nat>::empty());
        assert(commit_indices(single.drop_last()) =~= Seq::<nat>::empty());
        assert(commit_indices(single) =~= seq![(n - 1) as nat]);
        lemma_commit_indices_concat(
            rows_upto(commits, tips, head, n - 1),
            commit_rows(commits, tips, head, n - 1),
        );
        assert(Seq::new((n - 1) as nat, |i: int| i as nat).push((n - 1) as nat) =~= Seq::new(
            n as nat,
            |i: int| i as nat,
        ));
    }
}

/// The History panel shows every commit once, in history order, and always
/// has a WIP entry; graph lines and branch labels are not commits.
pub proof fn lemma_history_rows_show_each_commit(
    commits: Seq<CommitView>,
    tips: Seq<(Seq<char>, Seq<Seq<char>>)>,
    head: Option<Seq<char>>,
)
    ensures
        commit_indices(history_rows(commits, tips, head)) == Seq::new(
            commits.len(),
            |i: int| i as nat,
        ),
        exists|k: int|
            0 <= k < history_rows(commits, tips, head).len() && is_wip(
                #[trigger] history_rows(commits, tips, head)[k],
            ),
{
    let rows = rows_upto(commits, tips, head, commits.len() as int);
    lemma_rows_upto_commits(commits, tips, head, commits.len() as int);
    if !(exists|k: int| 0 <= k < rows.len() && is_wip(#[trigger] rows[k])) {
        let front = seq![RowShape::Wip("●"@)];
        lemma_no_commit_rows(front);
        lemma_commit_indices_concat(front, rows);
        assert(front + rows == history_rows(commits, tips, head));
        assert(is_wip((front + rows)[0]));
        assert(commit_indices(front) + commit_indices(rows) =~= commit_indices(rows));
    }
}

} // verus!
