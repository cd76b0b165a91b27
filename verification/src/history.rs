//! Commit history: the graph that `git log --graph` draws, branch tips, the
//! commits of a branch, and the references that name them.
use vstd::prelude::*;

use crate::model::{commits_view, opt_text, texts, Commit, CommitView};
use crate::text::{
    chars_of, copy_chars, ends_with_str, fields_of, fields_of_chars, find_char,
    has_prefix, has_suffix, lines_of, lines_of_str, skip_chars, slice_chars, split_at_char,
    owned, split_chars, starts_with_str, string_of, strings_of, trim, trim_chars,
};

verus! {

/// The ASCII graph of `git log --graph` drawn with box characters.
pub open spec fn graph_char(c: char) -> char {
    if c == '|' {
        '│'
    } else if c == '/' {
        '╱'
    } else if c == '\\' {
        '╲'
    } else if c == '-' {
        '─'
    } else if c == '*' {
        '●'
    } else {
        c
    }
}

/// A graph line drawn with box characters.
pub open spec fn graph_line(text: Seq<char>) -> Seq<char> {
    text.map_values(|c: char| graph_char(c))
}

/// Draws a graph line with box characters.
pub fn graph_text(text: &Vec<char>) -> (r: Vec<char>)
    ensures
        r@ == graph_line(text@),
{
    let mut out: Vec<char> = Vec::new();
    let mut i: usize = 0;
    while i < text.len()
        invariant
            i <= text.len(),
            out@ == graph_line(text@.take(i as int)),
        decreases text.len() - i,
    {
        let c = text[i];
        let d = if c == '|' {
            '│'
        } else if c == '/' {
            '╱'
        } else if c == '\\' {
            '╲'
        } else if c == '-' {
            '─'
        } else if c == '*' {
            '●'
        } else {
            c
        };
        out.push(d);
        assert(graph_line(text@.take(i as int + 1)) =~= graph_line(text@.take(i as int)).push(d));
        i += 1;
    }
    assert(text@.take(text.len() as int) =~= text@);
    out
}

/// Drawing a graph line replaces each ASCII stroke of `git log --graph` by
/// its box character, place by place: `|` by `│`, `/` by the rising `╱`,
/// `\` by the falling `╲` (so the two diagonals stay apart), `-` by `─` and
/// `*` by `●`; every other character stays as it is.
pub proof fn lemma_graph_strokes(text: Seq<char>)
    ensures
        graph_line(text).len() == text.len(),
        forall|i: int|
            0 <= i < text.len() ==> {
                let c = text[i];
                let d = #[trigger] graph_line(text)[i];
                &&& c == '|' ==> d == '│'
                &&& c == '/' ==> d == '╱'
                &&& c == '\\' ==> d == '╲'
                &&& c == '-' ==> d == '─'
                &&& c == '*' ==> d == '●'
                &&& (c != '|' && c != '/' && c != '\\' && c != '-' && c != '*') ==> d == c
            },
        graph_char('\\') != graph_char('/'),
        graph_char('\\') == '\u{2572}',
        graph_char('/') == '\u{2571}',
{
}

/// Drawing a graph line keeps its length.
pub proof fn lemma_graph_line_len(text: Seq<char>)
    ensures
        graph_line(text).len() == text.len(),
{
}

/// Graph lines waiting for their commit, and the commits read so far.
pub struct HistoryAcc {
    pub pending: Seq<Seq<char>>,
    pub commits: Seq<CommitView>,
}

/// How one line of `git log --graph --format=%x01%H%x00%P%x00%h%x00%s` changes
/// the history being read: a line without the `U+0001` marker is a graph line;
/// a marked line whose metadata has four `NUL`-separated fields is a commit,
/// which takes the pending graph lines and its own; other marked lines are
/// skipped.
pub open spec fn history_step(st: HistoryAcc, line: Seq<char>) -> HistoryAcc {
    match find_char(line, '\u{1}') {
        None => HistoryAcc { pending: st.pending.push(graph_line(line)), ..st },
        Some(k) => {
            let graph = line.take(k as int);
            let fields = split_at_char(line.skip(k as int + 1), '\0');
            if fields.len() < 4 {
                st
            } else {
                HistoryAcc {
                    pending: seq![],
                    commits: st.commits.push(
                        CommitView {
                            hash: fields[0],
                            parents: fields_of(fields[1]),
                            short_hash: fields[2],
                            subject: fields[3],
                            graph: st.pending.push(graph_line(graph)),
                        },
                    ),
                }
            }
        },
    }
}

/// The history after reading the given lines.
pub open spec fn history_lines(lines: Seq<Seq<char>>) -> HistoryAcc
    decreases lines.len(),
{
    if lines.len() == 0 {
        HistoryAcc { pending: seq![], commits: seq![] }
    } else {
        history_step(history_lines(lines.drop_last()), lines.last())
    }
}

/// The commits that a `git log --graph` output shows.
pub open spec fn parsed_history(output: Seq<char>) -> Seq<CommitView> {
    history_lines(lines_of(output)).commits
}

spec fn texts_of_chars(v: Seq<Vec<char>>) -> Seq<Seq<char>> {
    v.map_values(|x: Vec<char>| x@)
}

/// Reads the commits of `git log --all --graph` output in the format
/// `%x01%H%x00%P%x00%h%x00%s`.
pub fn commit_history(output: &str) -> (r: Vec<Commit>)
    ensures
        commits_view(r@) == parsed_history(output@),
{
    let lines = lines_of_str(output);
    let ghost ls = lines_of(output@);
    let mut pending: Vec<Vec<char>> = Vec::new();
    let mut commits: Vec<Commit> = Vec::new();
    let mut i: usize = 0;
    assert(ls.take(0) =~= Seq::<Seq<char>>::empty());
    assert(texts_of_chars(pending@) =~= Seq::<Seq<char>>::empty());
    assert(commits_view(commits@) =~= Seq::<CommitView>::empty());
    while i < lines.len()
        invariant
            i <= lines@.len(),
            lines@.len() == ls.len(),
            forall|q: int| 0 <= q < lines@.len() ==> #[trigger] lines@[q]@ == ls[q],
            texts_of_chars(pending@) == history_lines(ls.take(i as int)).pending,
            commits_view(commits@) == history_lines(ls.take(i as int)).commits,
        decreases lines.len() - i,
    {
        let line = &lines[i];
        let ghost st = history_lines(ls.take(i as int));
        assert(ls.take(i as int + 1).drop_last() =~= ls.take(i as int));
        assert(ls.take(i as int + 1).last() == line@);
        let mut k: usize = 0;
        while k < line.len() && line[k] != '\u{1}'
            invariant
                k <= line@.len(),
                forall|j: int| 0 <= j < k ==> line@[j] != '\u{1}',
            decreases line.len() - k,
        {
            k += 1;
        }
        proof {
            crate::text::lemma_find_char_at(line@, '\u{1}', k as int);
        }
        if k == line.len() {
            let g = graph_text(line);
            let ghost before = pending@;
            pending.push(g);
            assert(texts_of_chars(pending@) =~= texts_of_chars(before).push(g@));
        } else {
            let graph = slice_chars(line, 0, k);
            let meta = skip_chars(line, k + 1);
            let fields = split_chars(&meta, '\0');
            if fields.len() >= 4 {
                let g = graph_text(&graph);
                let ghost before = pending@;
                pending.push(g);
                assert(texts_of_chars(pending@) =~= texts_of_chars(before).push(g@));
                let parents = fields_of_chars(&fields[1]);
                let commit = Commit {
                    hash: string_of(&fields[0]),
                    parents: strings_of(&parents),
                    short_hash: string_of(&fields[2]),
                    subject: string_of(&fields[3]),
                    graph: strings_of(&pending),
                };
                proof {
                    assert(texts(commit.parents@) =~= fields_of(fields@[1]@));
                    assert(texts(commit.graph@) =~= texts_of_chars(pending@));
                }
                let ghost before_commits = commits@;
                commits.push(commit);
                assert(commits_view(commits@) =~= commits_view(before_commits).push(commit@));
                pending = Vec::new();
                assert(texts_of_chars(pending@) =~= Seq::<Seq<char>>::empty());
            }
        }
        i += 1;
    }
    assert(ls.take(lines.len() as int) =~= ls);
    commits
}

/// The commit hash of `git rev-parse HEAD` output.
pub fn head_hash(output: &str) -> (r: String)
    ensures
        r@ == trim(output@),
{
    let v = chars_of(output);
    let t = trim_chars(&v);
    string_of(&t)
}

/// The directory of `git rev-parse --git-common-dir` output.
pub fn common_git_dir(output: &str) -> (r: String)
    ensures
        r@ == trim(output@),
{
    head_hash(output)
}

/// The commit a reference names, when `git rev-parse --verify` succeeded.
pub open spec fn resolved_hash(success: bool, output: Seq<char>) -> Option<Seq<char>> {
    if success {
        Some(trim(output))
    } else {
        None
    }
}

fn resolve_ref_hash(success: bool, output: &str) -> (r: Option<String>)
    ensures
        opt_text(r) == resolved_hash(success, output@),
{
    if success {
        Some(head_hash(output))
    } else {
        None
    }
}

/// The tips of the base branch and of its `origin` copy, from what
/// `git rev-parse --verify` reported for each.
pub fn base_tip_hashes(
    local_success: bool,
    local_output: &str,
    remote_success: bool,
    remote_output: &str,
) -> (r: (Option<String>, Option<String>))
    ensures
        opt_text(r.0) == resolved_hash(local_success, local_output@),
        opt_text(r.1) == resolved_hash(remote_success, remote_output@),
{
    (resolve_ref_hash(local_success, local_output), resolve_ref_hash(remote_success, remote_output))
}

/// The references to try for a base branch: the name itself, and its `origin`
/// copy when the name has no `/`.
pub open spec fn base_candidates(base: Seq<char>) -> Seq<Seq<char>> {
    if base.contains('/') {
        seq![base]
    } else {
        seq![base, "origin/"@ + base]
    }
}

/// The references to try for a base branch.
pub fn base_ref_candidates(base: &str) -> (r: Vec<String>)
    ensures
        texts(r@) == base_candidates(base@),
{
    let v = chars_of(base);
    let has_slash = crate::text::contains_char(&v, '/');
    let mut r: Vec<String> = Vec::new();
    r.push(string_of(&v));
    if !has_slash {
        let mut other = chars_of("origin/");
        let mut rest = copy_chars(&v);
        other.append(&mut rest);
        r.push(string_of(&other));
    }
    assert(texts(r@) =~= base_candidates(base@));
    r
}


/// The branch named by a full reference under `refs/heads/` or
/// `refs/remotes/`.
pub open spec fn tip_name(reference: Seq<char>) -> Option<Seq<char>> {
    if has_prefix(reference, "refs/heads/"@) {
        Some(reference.skip("refs/heads/"@.len() as int))
    } else if has_prefix(reference, "refs/remotes/"@) {
        Some(reference.skip("refs/remotes/"@.len() as int))
    } else {
        None
    }
}

/// The commit and branch of one `%(objectname)\t%(refname)` line, unless the
/// line has no tab, names no branch, or names a remote's `HEAD`.
pub open spec fn tip_entry(line: Seq<char>) -> Option<(Seq<char>, Seq<char>)> {
    match find_char(line, '\t') {
        None => None,
        Some(k) => match tip_name(line.skip(k as int + 1)) {
            None => None,
            Some(name) => if has_suffix(name, "/HEAD"@) {
                None
            } else {
                Some((line.take(k as int), name))
            },
        },
    }
}

/// The branches that point at one commit.
#[derive(Clone, Debug, PartialEq, Eq)]
pub struct BranchTip {
    pub hash: String,
    pub names: Vec<String>,
}

/// A commit and the branches that point at it, as text.
pub type TipView = (Seq<char>, Seq<Seq<char>>);

/// The commit of a group.
pub open spec fn tip_view(t: BranchTip) -> TipView {
    (t.hash@, texts(t.names@))
}

/// The groups, as text.
pub open spec fn tips_view(v: Seq<BranchTip>) -> Seq<TipView> {
    v.map_values(|t: BranchTip| tip_view(t))
}

/// The last position of the group of a commit, or `-1`.
pub open spec fn tip_position(groups: Seq<TipView>, hash: Seq<char>) -> int
    decreases groups.len(),
{
    if groups.len() == 0 {
        -1
    } else if groups.last().0 == hash {
        groups.len() - 1
    } else {
        tip_position(groups.drop_last(), hash)
    }
}

/// Adds a branch to the group of its commit, opening the group if the commit
/// has none yet.
pub open spec fn add_tip(groups: Seq<TipView>, hash: Seq<char>, name: Seq<char>) -> Seq<TipView> {
    let p = tip_position(groups, hash);
    if p < 0 {
        groups.push((hash, seq![name]))
    } else {
        groups.update(p, (hash, groups[p].1.push(name)))
    }
}

/// The groups after reading the given lines.
pub open spec fn tips_of_lines(lines: Seq<Seq<char>>) -> Seq<TipView>
    decreases lines.len(),
{
    if lines.len() == 0 {
        seq![]
    } else {
        let groups = tips_of_lines(lines.drop_last());
        match tip_entry(lines.last()) {
            None => groups,
            Some((hash, name)) => add_tip(groups, hash, name),
        }
    }
}

/// The branch tips of `git for-each-ref --format=%(objectname)%09%(refname)`
/// output, grouped by commit in the order commits first appear.
pub open spec fn parsed_tips(output: Seq<char>) -> Seq<TipView> {
    tips_of_lines(lines_of(output))
}

/// No commit has two groups.
pub open spec fn keys_distinct(groups: Seq<TipView>) -> bool {
    forall|i: int, j: int| 0 <= i < j < groups.len() ==> groups[i].0 != groups[j].0
}

proof fn lemma_tip_position(groups: Seq<TipView>, hash: Seq<char>)
    ensures
        -1 <= tip_position(groups, hash) < groups.len(),
        tip_position(groups, hash) >= 0 ==> groups[tip_position(groups, hash)].0 == hash,
        tip_position(groups, hash) < 0 ==> forall|i: int| 0 <= i < groups.len() ==> groups[i].0 != hash,
    decreases groups.len(),
{
    if groups.len() > 0 {
        lemma_tip_position(groups.drop_last(), hash);
        if groups.last().0 != hash && tip_position(groups, hash) < 0 {
            assert forall|i: int| 0 <= i < groups.len() implies groups[i].0 != hash by {
                if i < groups.len() - 1 {
                    assert(groups.drop_last()[i] == groups[i]);
                }
            }
        }
    }
}

/// Adding a branch keeps the commits of the groups distinct.
proof fn lemma_add_tip_distinct(groups: Seq<TipView>, hash: Seq<char>, name: Seq<char>)
    requires
        keys_distinct(groups),
    ensures
        keys_distinct(add_tip(groups, hash, name)),
{
    lemma_tip_position(groups, hash);
}

/// Each commit has one group at most, whatever the output.
pub proof fn lemma_tips_grouped_by_commit(output: Seq<char>)
    ensures
        keys_distinct(parsed_tips(output)),
{
    lemma_tips_lines_distinct(lines_of(output));
}

proof fn lemma_tips_lines_distinct(lines: Seq<Seq<char>>)
    ensures
        keys_distinct(tips_of_lines(lines)),
    decreases lines.len(),
{
    if lines.len() > 0 {
        lemma_tips_lines_distinct(lines.drop_last());
        match tip_entry(lines.last()) {
            None => {},
            Some((hash, name)) => lemma_add_tip_distinct(tips_of_lines(lines.drop_last()), hash, name),
        }
    }
}

/// The branch tips of a repository, grouped by commit.
#[derive(Clone, Debug, PartialEq, Eq)]
pub struct BranchTips {
    pub tips: Vec<BranchTip>,
}

/// The branches of the first group of a commit.
pub open spec fn tip_names(tips: Seq<TipView>, hash: Seq<char>, from: int) -> Option<Seq<Seq<char>>>
    decreases tips.len() - from,
{
    if from < 0 || from >= tips.len() {
        None
    } else if tips[from].0 == hash {
        Some(tips[from].1)
    } else {
        tip_names(tips, hash, from + 1)
    }
}

impl BranchTips {
    /// The branches that point at a commit, if any do.
    pub fn get(&self, hash: &str) -> (r: Option<&Vec<String>>)
        ensures
            r matches Some(names) ==> tip_names(tips_view(self.tips@), hash@, 0) == Some(
                texts(names@),
            ),
            r is None ==> tip_names(tips_view(self.tips@), hash@, 0) is None,
    {
        let ghost groups = tips_view(self.tips@);
        let target = owned(hash);
        let mut i: usize = 0;
        while i < self.tips.len()
            invariant
                i <= self.tips@.len(),
                target@ == hash@,
                groups == tips_view(self.tips@),
                tip_names(groups, hash@, 0) == tip_names(groups, hash@, i as int),
            decreases self.tips.len() - i,
        {
            if self.tips[i].hash == target {
                return Some(&self.tips[i].names);
            }
            i += 1;
        }
        None
    }
}

fn tip_entry_of(line: &Vec<char>) -> (r: Option<(Vec<char>, Vec<char>)>)
    ensures
        r matches Some((h, n)) ==> tip_entry(line@) == Some((h@, n@)),
        r is None ==> tip_entry(line@) is None,
{
    let mut k: usize = 0;
    while k < line.len() && line[k] != '\t'
        invariant
            k <= line@.len(),
            forall|j: int| 0 <= j < k ==> line@[j] != '\t',
        decreases line.len() - k,
    {
        k += 1;
    }
    proof {
        crate::text::lemma_find_char_at(line@, '\t', k as int);
    }
    if k == line.len() {
        return None;
    }
    let reference = skip_chars(line, k + 1);
    let name = match crate::text::strip_str(&reference, "refs/heads/") {
        Some(rest) => rest,
        None => match crate::text::strip_str(&reference, "refs/remotes/") {
            Some(rest) => rest,
            None => {
                return None;
            },
        },
    };
    if ends_with_str(&name, "/HEAD") {
        return None;
    }
    Some((slice_chars(line, 0, k), name))
}

/// Groups the branch tips of `git for-each-ref --format=%(objectname)%09%(refname)
/// refs/heads refs/remotes` output by commit.
pub fn branch_tips(output: &str) -> (r: BranchTips)
    ensures
        tips_view(r.tips@) == parsed_tips(output@),
{
    let lines = lines_of_str(output);
    let ghost ls = lines_of(output@);
    let mut tips: Vec<BranchTip> = Vec::new();
    let mut i: usize = 0;
    assert(ls.take(0) =~= Seq::<Seq<char>>::empty());
    assert(tips_view(tips@) =~= Seq::<TipView>::empty());
    while i < lines.len()
        invariant
            i <= lines@.len(),
            lines@.len() == ls.len(),
            forall|q: int| 0 <= q < lines@.len() ==> #[trigger] lines@[q]@ == ls[q],
            tips_view(tips@) == tips_of_lines(ls.take(i as int)),
        decreases lines.len() - i,
    {
        assert(ls.take(i as int + 1).drop_last() =~= ls.take(i as int));
        assert(ls.take(i as int + 1).last() == lines@[i as int]@);
        match tip_entry_of(&lines[i]) {
            None => {},
            Some((hash, name)) => {
                let ghost groups = tips_view(tips@);
                let h = string_of(&hash);
                let n = string_of(&name);
                let mut p: usize = tips.len();
                while p > 0 && tips[p - 1].hash != h
                    invariant
                        p <= tips@.len(),
                        groups == tips_view(tips@),
                        h@ == hash@,
                        forall|j: int| p <= j < tips@.len() ==> tips@[j].hash@ != h@,
                    decreases p,
                {
                    p -= 1;
                }
                proof {
                    lemma_tip_position_at(groups, h@, p as int);
                }
                let ghost before = tips@;
                if p == 0 {
                    tips.push(BranchTip { hash: h, names: vec![n] });
                    proof {
                        assert(texts(tips@.last().names@) =~= seq![name@]);
                        assert(tips_view(tips@) =~= groups.push((hash@, seq![name@])));
                    }
                } else {
                    tips[p - 1].names.push(n);
                    proof {
                        assert(texts(tips@[p - 1].names@) =~= texts(before[p - 1].names@).push(name@));
                        assert(tips_view(tips@) =~= groups.update(p - 1, (hash@, groups[p - 1].1.push(name@))));
                    }
                }
            },
        }
        i += 1;
    }
    assert(ls.take(lines.len() as int) =~= ls);
    BranchTips { tips }
}

proof fn lemma_tip_position_at(groups: Seq<TipView>, hash: Seq<char>, p: int)
    requires
        0 <= p <= groups.len(),
        p > 0 ==> groups[p - 1].0 == hash,
        forall|j: int| p <= j < groups.len() ==> groups[j].0 != hash,
    ensures
        tip_position(groups, hash) == p - 1,
    decreases groups.len(),
{
    if groups.len() > 0 && p < groups.len() {
        lemma_tip_position_at(groups.drop_last(), hash, p);
    }
}


/// The commits of `git rev-list <target> --not <base>` output: each line
/// trimmed, empty lines left out, each commit once, in the order first listed.
pub open spec fn range_hashes(lines: Seq<Seq<char>>) -> Seq<Seq<char>>
    decreases lines.len(),
{
    if lines.len() == 0 {
        seq![]
    } else {
        let earlier = range_hashes(lines.drop_last());
        let hash = trim(lines.last());
        if hash.len() == 0 || earlier.contains(hash) {
            earlier
        } else {
            earlier.push(hash)
        }
    }
}

/// The commits that `history_range_commits_from_base` reads from an output.
pub open spec fn range_commits(output: Seq<char>) -> Seq<Seq<char>> {
    range_hashes(lines_of(output))
}

fn contains_text(v: &Vec<String>, s: &String) -> (r: bool)
    ensures
        r == texts(v@).contains(s@),
{
    let mut i: usize = 0;
    while i < v.len()
        invariant
            i <= v@.len(),
            forall|j: int| 0 <= j < i ==> v@[j]@ != s@,
        decreases v.len() - i,
    {
        if v[i] == *s {
            assert(texts(v@)[i as int] == s@);
            return true;
        }
        i += 1;
    }
    proof {
        if texts(v@).contains(s@) {
            let j = choose|j: int| 0 <= j < texts(v@).len() && texts(v@)[j] == s@;
            assert(v@[j]@ == s@);
        }
    }
    false
}

/// The commits of `git rev-list <target> --not <comparison base>` output.
pub fn history_range_commits_from_base(output: &str) -> (r: Vec<String>)
    ensures
        texts(r@) == range_commits(output@),
{
    let lines = lines_of_str(output);
    let ghost ls = lines_of(output@);
    let mut out: Vec<String> = Vec::new();
    let mut i: usize = 0;
    assert(ls.take(0) =~= Seq::<Seq<char>>::empty());
    assert(texts(out@) =~= Seq::<Seq<char>>::empty());
    while i < lines.len()
        invariant
            i <= lines@.len(),
            lines@.len() == ls.len(),
            forall|q: int| 0 <= q < lines@.len() ==> #[trigger] lines@[q]@ == ls[q],
            texts(out@) == range_hashes(ls.take(i as int)),
        decreases lines.len() - i,
    {
        assert(ls.take(i as int + 1).drop_last() =~= ls.take(i as int));
        assert(ls.take(i as int + 1).last() == lines@[i as int]@);
        let trimmed = trim_chars(&lines[i]);
        let hash = string_of(&trimmed);
        if trimmed.len() > 0 && !contains_text(&out, &hash) {
            let ghost before = out@;
            out.push(hash);
            assert(texts(out@) =~= texts(before).push(hash@));
        }
        i += 1;
    }
    assert(ls.take(lines.len() as int) =~= ls);
    out
}

proof fn lemma_range_hashes(lines: Seq<Seq<char>>)
    ensures
        range_hashes(lines).no_duplicates(),
        forall|h: Seq<char>| range_hashes(lines).contains(h) <==> (h.len() > 0 && exists|i: int|
            0 <= i < lines.len() && #[trigger] trim(lines[i]) == h),
    decreases lines.len(),
{
    if lines.len() > 0 {
        let rest = lines.drop_last();
        lemma_range_hashes(rest);
        let earlier = range_hashes(rest);
        let hash = trim(lines.last());
        assert forall|h: Seq<char>| range_hashes(lines).contains(h) <==> (h.len() > 0 && exists|i: int|
            0 <= i < lines.len() && #[trigger] trim(lines[i]) == h) by {
            if range_hashes(lines).contains(h) {
                if earlier.contains(h) {
                    let i = choose|i: int| 0 <= i < rest.len() && #[trigger] trim(rest[i]) == h;
                    assert(lines[i] == rest[i]);
                } else {
                    assert(h == hash);
                    assert(trim(lines[lines.len() - 1]) == h);
                }
            }
            if h.len() > 0 && exists|i: int| 0 <= i < lines.len() && #[trigger] trim(lines[i]) == h {
                let i = choose|i: int| 0 <= i < lines.len() && #[trigger] trim(lines[i]) == h;
                if i < lines.len() - 1 {
                    assert(rest[i] == lines[i]);
                    assert(earlier.contains(h));
                    if !(hash.len() == 0 || earlier.contains(hash)) {
                        assert(earlier.push(hash)[earlier.push(hash).len() - 2] == earlier.last()
                            || true);
                        let k = choose|k: int| 0 <= k < earlier.len() && earlier[k] == h;
                        assert(earlier.push(hash)[k] == h);
                    }
                } else {
                    assert(h == hash);
                    if !earlier.contains(hash) {
                        assert(earlier.push(hash)[earlier.len() as int] == h);
                    }
                }
            }
        }
    }
}

/// A commit range names each commit once, and exactly the commits that the
/// output lists on a line of their own (surrounding spaces aside).
pub proof fn lemma_range_commits_are_a_set(output: Seq<char>)
    ensures
        range_commits(output).no_duplicates(),
        forall|h: Seq<char>| range_commits(output).contains(h) <==> (h.len() > 0 && exists|i: int|
            0 <= i < lines_of(output).len() && #[trigger] trim(lines_of(output)[i]) == h),
{
    lemma_range_hashes(lines_of(output));
}

/// Whether `git merge-base --is-ancestor` reported that the first commit is
/// an ancestor of the second: its exit code is 0.
pub fn is_ancestor(exit_code: Option<i32>) -> (r: bool)
    ensures
        r == (exit_code == Some(0i32)),
{
    match exit_code {
        Some(code) => code == 0,
        None => false,
    }
}


/// The references of the base branch itself, which never name a branch's
/// own history: the local and remote forms of the resolved base, and the
/// `origin` copy of the base as given.
pub open spec fn base_refs(base: Seq<char>, base_ref: Seq<char>) -> Seq<Seq<char>> {
    seq!["refs/heads/"@ + base_ref, "refs/remotes/"@ + base_ref, "refs/remotes/origin/"@ + base]
}

/// The references that `git for-each-ref --contains` listed, trimmed, without
/// empty lines and the base's own references.
pub open spec fn listed_refs(lines: Seq<Seq<char>>, excluded: Seq<Seq<char>>) -> Seq<Seq<char>>
    decreases lines.len(),
{
    if lines.len() == 0 {
        seq![]
    } else {
        let earlier = listed_refs(lines.drop_last(), excluded);
        let reference = trim(lines.last());
        if reference.len() == 0 || excluded.contains(reference) {
            earlier
        } else {
            earlier.push(reference)
        }
    }
}

/// The first local branch among the references.
pub open spec fn first_local(refs: Seq<Seq<char>>) -> Option<Seq<char>>
    decreases refs.len(),
{
    if refs.len() == 0 {
        None
    } else if has_prefix(refs[0], "refs/heads/"@) {
        Some(refs[0])
    } else {
        first_local(refs.drop_first())
    }
}

/// The branch that holds a commit: the first local branch that contains it,
/// else the first reference that does, the base's own references aside.
pub open spec fn branch_ref(output: Seq<char>, base: Seq<char>, base_ref: Seq<char>) -> Option<
    Seq<char>,
> {
    let refs = listed_refs(lines_of(output), base_refs(base, base_ref));
    match first_local(refs) {
        Some(r) => Some(r),
        None => if refs.len() > 0 {
            Some(refs[0])
        } else {
            None
        },
    }
}

fn concat_str(lit: &str, rest: &str) -> (r: String)
    ensures
        r@ == lit@ + rest@,
{
    let mut v = chars_of(lit);
    let mut w = chars_of(rest);
    v.append(&mut w);
    string_of(&v)
}

/// The branch that holds `target`, from `git for-each-ref --contains <target>
/// --format=%(refname) refs/heads refs/remotes` output, where `base` is the
/// base branch as given and `base_ref` the reference it resolved to.
pub fn history_branch_ref(output: &str, base: &str, base_ref: &str) -> (r: Option<String>)
    ensures
        opt_text(r) == branch_ref(output@, base@, base_ref@),
{
    let mut excluded: Vec<String> = Vec::new();
    excluded.push(concat_str("refs/heads/", base_ref));
    excluded.push(concat_str("refs/remotes/", base_ref));
    excluded.push(concat_str("refs/remotes/origin/", base));
    let ghost excl = base_refs(base@, base_ref@);
    assert(texts(excluded@) =~= excl);
    let lines = lines_of_str(output);
    let ghost ls = lines_of(output@);
    let mut refs: Vec<String> = Vec::new();
    let mut i: usize = 0;
    assert(ls.take(0) =~= Seq::<Seq<char>>::empty());
    assert(texts(refs@) =~= Seq::<Seq<char>>::empty());
    while i < lines.len()
        invariant
            i <= lines@.len(),
            lines@.len() == ls.len(),
            forall|q: int| 0 <= q < lines@.len() ==> #[trigger] lines@[q]@ == ls[q],
            texts(excluded@) == excl,
            texts(refs@) == listed_refs(ls.take(i as int), excl),
        decreases lines.len() - i,
    {
        assert(ls.take(i as int + 1).drop_last() =~= ls.take(i as int));
        assert(ls.take(i as int + 1).last() == lines@[i as int]@);
        let trimmed = trim_chars(&lines[i]);
        let reference = string_of(&trimmed);
        if trimmed.len() > 0 && !contains_text(&excluded, &reference) {
            let ghost before = refs@;
            refs.push(reference);
            assert(texts(refs@) =~= texts(before).push(reference@));
        }
        i += 1;
    }
    assert(ls.take(lines.len() as int) =~= ls);
    let ghost all = texts(refs@);
    let mut j: usize = 0;
    assert(all.skip(0) =~= all);
    while j < refs.len()
        invariant
            j <= refs@.len(),
            all == texts(refs@),
            all == listed_refs(lines_of(output@), base_refs(base@, base_ref@)),
            first_local(all) == first_local(all.skip(j as int)),
        decreases refs.len() - j,
    {
        assert(all.skip(j as int).drop_first() =~= all.skip(j as int + 1));
        let v = chars_of(refs[j].as_str());
        if starts_with_str(&v, "refs/heads/") {
            assert(all.skip(j as int)[0] == v@);
            return Some(refs[j].clone());
        }
        j += 1;
    }
    assert(all.skip(refs.len() as int) =~= Seq::<Seq<char>>::empty());
    if refs.len() > 0 {
        Some(refs[0].clone())
    } else {
        None
    }
}

/// The first candidate that `git rev-parse --verify <candidate>^{commit}`
/// found, given what it reported for each candidate in turn.
pub open spec fn first_found(candidates: Seq<Seq<char>>, found: Seq<bool>) -> Option<Seq<char>>
    decreases candidates.len(),
{
    if candidates.len() == 0 || found.len() == 0 {
        None
    } else if found[0] {
        Some(candidates[0])
    } else {
        first_found(candidates.drop_first(), found.drop_first())
    }
}

/// The base reference: the first candidate of `base_ref_candidates` that
/// names a commit, or `None` when the base branch was not found.
pub fn resolve_base_ref(candidates: &Vec<String>, found: &Vec<bool>) -> (r: Option<String>)
    ensures
        opt_text(r) == first_found(texts(candidates@), found@),
{
    let ghost cs = texts(candidates@);
    let mut i: usize = 0;
    assert(cs.skip(0) =~= cs);
    assert(found@.skip(0) =~= found@);
    while i < candidates.len() && i < found.len()
        invariant
            i <= candidates@.len(),
            i <= found@.len(),
            cs == texts(candidates@),
            first_found(cs, found@) == first_found(cs.skip(i as int), found@.skip(i as int)),
        decreases candidates.len() - i,
    {
        assert(cs.skip(i as int).drop_first() =~= cs.skip(i as int + 1));
        assert(found@.skip(i as int).drop_first() =~= found@.skip(i as int + 1));
        if found[i] {
            return Some(candidates[i].clone());
        }
        i += 1;
    }
    assert(cs.skip(i as int).len() == 0 || found@.skip(i as int).len() == 0);
    None
}


/// A merge on the base branch's first-parent line: its first parent, and one
/// of the parents it merged in.
#[derive(Clone, Debug, PartialEq, Eq)]
pub struct MergeProbe {
    pub first_parent: String,
    pub merged_parent: String,
}

/// A probe, as text.
pub open spec fn probe_view(p: MergeProbe) -> (Seq<char>, Seq<char>) {
    (p.first_parent@, p.merged_parent@)
}

/// The probes, as text.
pub open spec fn probes_view(v: Seq<MergeProbe>) -> Seq<(Seq<char>, Seq<char>)> {
    v.map_values(|p: MergeProbe| probe_view(p))
}

/// The probes of one `%H%x00%P` line: each parent after the first, paired
/// with the first; none for a line without `NUL` or without parents.
pub open spec fn line_probes(line: Seq<char>) -> Seq<(Seq<char>, Seq<char>)> {
    match find_char(line, '\0') {
        None => seq![],
        Some(k) => {
            let parents = fields_of(line.skip(k as int + 1));
            if parents.len() == 0 {
                seq![]
            } else {
                parents.drop_first().map_values(|p: Seq<char>| (parents[0], p))
            }
        },
    }
}

/// The probes of all lines, in order.
pub open spec fn probes_of_lines(lines: Seq<Seq<char>>) -> Seq<(Seq<char>, Seq<char>)>
    decreases lines.len(),
{
    if lines.len() == 0 {
        seq![]
    } else {
        probes_of_lines(lines.drop_last()) + line_probes(lines.last())
    }
}

/// The probes of `git log --first-parent --merges --format=%H%x00%P <base>`
/// output, in the order the merges and their parents are listed.
pub fn merge_probes(merges: &str) -> (r: Vec<MergeProbe>)
    ensures
        probes_view(r@) == probes_of_lines(lines_of(merges@)),
{
    let lines = lines_of_str(merges);
    let ghost ls = lines_of(merges@);
    let mut out: Vec<MergeProbe> = Vec::new();
    let mut i: usize = 0;
    assert(ls.take(0) =~= Seq::<Seq<char>>::empty());
    assert(probes_view(out@) =~= Seq::<(Seq<char>, Seq<char>)>::empty());
    while i < lines.len()
        invariant
            i <= lines@.len(),
            lines@.len() == ls.len(),
            forall|q: int| 0 <= q < lines@.len() ==> #[trigger] lines@[q]@ == ls[q],
            probes_view(out@) == probes_of_lines(ls.take(i as int)),
        decreases lines.len() - i,
    {
        assert(ls.take(i as int + 1).drop_last() =~= ls.take(i as int));
        let line = &lines[i];
        assert(ls.take(i as int + 1).last() == line@);
        let ghost start = probes_view(out@);
        let mut k: usize = 0;
        while k < line.len() && line[k] != '\0'
            invariant
                k <= line@.len(),
                forall|j: int| 0 <= j < k ==> line@[j] != '\0',
            decreases line.len() - k,
        {
            k += 1;
        }
        proof {
            crate::text::lemma_find_char_at(line@, '\0', k as int);
        }
        if k < line.len() {
            let rest = skip_chars(line, k + 1);
            let parents = fields_of_chars(&rest);
            if parents.len() > 0 {
                let ghost ps = fields_of(rest@);
                let ghost want = ps.drop_first().map_values(|p: Seq<char>| (ps[0], p));
                let mut m: usize = 1;
                while m < parents.len()
                    invariant
                        1 <= m <= parents@.len(),
                        parents@.len() == ps.len(),
                        ps.len() > 0,
                        forall|q: int| 0 <= q < parents@.len() ==> #[trigger] parents@[q]@ == ps[q],
                        want == ps.drop_first().map_values(|p: Seq<char>| (ps[0], p)),
                        probes_view(out@) == start + want.take(m - 1),
                    decreases parents.len() - m,
                {
                    let probe = MergeProbe {
                        first_parent: string_of(&parents[0]),
                        merged_parent: string_of(&parents[m]),
                    };
                    let ghost before = out@;
                    out.push(probe);
                    assert(want.take(m as int) =~= want.take(m - 1).push((ps[0], ps[m as int])));
                    assert(probes_view(out@) =~= probes_view(before).push(probe_view(probe)));
                    m += 1;
                }
                assert(want.take(parents.len() - 1) =~= want);
            } else {
                assert(start + line_probes(line@) =~= start);
            }
        } else {
            assert(start + line_probes(line@) =~= start);
        }
        i += 1;
    }
    assert(ls.take(lines.len() as int) =~= ls);
    out
}

/// What to do next while looking for the comparison base of a history range.
#[derive(Clone, Debug, PartialEq, Eq)]
pub enum ComparisonStep {
    /// Ask whether the compared reference is an ancestor of this probe's
    /// merged parent.
    CheckAncestor(usize),
    /// The comparison base is this commit.
    Found(String),
    /// No merge brought the compared reference in: use its merge base with
    /// the base branch.
    MergeBase,
}

/// The first step: check the first probe, or fall back to the merge base
/// when there is none.
pub fn first_comparison_step(probes: &Vec<MergeProbe>) -> (r: ComparisonStep)
    ensures
        probes@.len() > 0 ==> r == ComparisonStep::CheckAncestor(0),
        probes@.len() == 0 ==> r is MergeBase,
{
    if probes.len() > 0 {
        ComparisonStep::CheckAncestor(0)
    } else {
        ComparisonStep::MergeBase
    }
}

/// The step after learning whether the compared reference is an ancestor of
/// the merged parent of probe `checked`: a merge that brought it in gives its
/// first parent; otherwise the next probe, or the merge base after the last.
pub fn history_comparison_base(probes: &Vec<MergeProbe>, checked: usize, ancestor: bool) -> (r:
    ComparisonStep)
    requires
        checked < probes@.len(),
    ensures
        ancestor ==> (r matches ComparisonStep::Found(h) && h@ == probes@[checked as int].first_parent@),
        !ancestor && checked + 1 < probes@.len() ==> r == ComparisonStep::CheckAncestor((checked + 1) as usize),
        !ancestor && checked + 1 == probes@.len() ==> r is MergeBase,
{
    if ancestor {
        ComparisonStep::Found(probes[checked].first_parent.clone())
    } else if checked < probes.len() - 1 {
        ComparisonStep::CheckAncestor(checked + 1)
    } else {
        ComparisonStep::MergeBase
    }
}

fn same_text(a: &String, b: &String) -> (r: bool)
    ensures
        r == (a@ == b@),
{
    crate::text::chars_eq(&crate::text::chars_of(a.as_str()), &crate::text::chars_of(b.as_str()))
}

fn same_texts(a: &Vec<String>, b: &Vec<String>) -> (r: bool)
    ensures
        r == (texts(a@) == texts(b@)),
{
    if a.len() != b.len() {
        assert(texts(a@).len() != texts(b@).len());
        return false;
    }
    let mut i: usize = 0;
    while i < a.len()
        invariant
            i <= a@.len(),
            a@.len() == b@.len(),
            forall|j: int| 0 <= j < i ==> a@[j]@ == b@[j]@,
        decreases a.len() - i,
    {
        if !same_text(&a[i], &b[i]) {
            assert(texts(a@)[i as int] != texts(b@)[i as int]);
            return false;
        }
        i += 1;
    }
    assert(texts(a@) =~= texts(b@));
    true
}

fn same_tips(a: &Vec<BranchTip>, b: &Vec<BranchTip>) -> (r: bool)
    ensures
        r == (tips_view(a@) == tips_view(b@)),
{
    if a.len() != b.len() {
        assert(tips_view(a@).len() != tips_view(b@).len());
        return false;
    }
    let mut i: usize = 0;
    while i < a.len()
        invariant
            i <= a@.len(),
            a@.len() == b@.len(),
            forall|j: int| 0 <= j < i ==> tip_view(a@[j]) == tip_view(b@[j]),
        decreases a.len() - i,
    {
        if !same_text(&a[i].hash, &b[i].hash) || !same_texts(&a[i].names, &b[i].names) {
            assert(tips_view(a@)[i as int] != tips_view(b@)[i as int]);
            return false;
        }
        i += 1;
    }
    assert(tips_view(a@) =~= tips_view(b@));
    true
}

/// Whether a refresh loads the commit history again: when none is loaded,
/// or when the branch tips or the checked-out commit changed.
pub fn history_needs_reload(
    commits: &Vec<Commit>,
    old_tips: &BranchTips,
    new_tips: &BranchTips,
    old_head: &Option<String>,
    new_head: &Option<String>,
) -> (r: bool)
    ensures
        r == (commits@.len() == 0 || tips_view(old_tips.tips@) != tips_view(new_tips.tips@)
            || opt_text(*old_head) != opt_text(*new_head)),
{
    if commits.len() == 0 {
        return true;
    }
    if !same_tips(&old_tips.tips, &new_tips.tips) {
        return true;
    }
    match (old_head, new_head) {
        (Some(a), Some(b)) => !same_text(a, b),
        (None, None) => false,
        _ => true,
    }
}

} // verus!
