//! The shape of a listed group: each session that stands at the top, followed
//! by its children where it is expanded.
use vstd::prelude::*;

use crate::tui::session_list::{
    group_has_id, group_has_root, group_rows, has_row, is_top, is_under, law_sort_siblings,
    lemma_sort_siblings_contains, pile, row_indices, row_of, rows_of_group, sort_siblings, tops,
    under, walk, SessionRow,
};
use crate::types::SessionInfo;

verus! {

/// Whether the sessions of a group are different and have different IDs.
pub open spec fn unique_ids(s: Seq<SessionInfo>, group: Seq<usize>) -> bool {
    &&& group.no_duplicates()
    &&& forall|a: int, b: int|
        0 <= a < group.len() && 0 <= b < group.len() && s[#[trigger] group[a] as int].id@
            == s[#[trigger] group[b] as int].id@ ==> a == b
}

/// The rows of the children of a session.
pub open spec fn child_rows(
    s: Seq<SessionInfo>,
    group: Seq<usize>,
    expanded: Set<Seq<char>>,
    i: usize,
) -> Seq<SessionRow> {
    let children = under(s, group, s[i as int].id@);
    Seq::new(children.len(), |k: int| row_of(s, group, expanded, children[k], 1))
}

/// A session at the top, followed by its children where it is expanded.
pub open spec fn branch(
    s: Seq<SessionInfo>,
    group: Seq<usize>,
    expanded: Set<Seq<char>>,
    i: usize,
) -> Seq<SessionRow> {
    let row = row_of(s, group, expanded, i, 0);
    if row.is_expanded {
        seq![row] + child_rows(s, group, expanded, i)
    } else {
        seq![row]
    }
}

/// The branches of sessions one after the other.
pub open spec fn branches(
    s: Seq<SessionInfo>,
    group: Seq<usize>,
    expanded: Set<Seq<char>>,
    list: Seq<usize>,
) -> Seq<SessionRow>
    decreases list.len(),
{
    if list.len() == 0 {
        Seq::empty()
    } else {
        branches(s, group, expanded, list.drop_last()) + branch(s, group, expanded, list.last())
    }
}

/// A sorted selection of different sessions holds each of them once.
proof fn lemma_selection(s: Seq<SessionInfo>, group: Seq<usize>, p: spec_fn(usize) -> bool)
    requires
        group.no_duplicates(),
    ensures
        sort_siblings(s, group.filter(p)).no_duplicates(),
        forall|i: usize| #[trigger]
            sort_siblings(s, group.filter(p)).contains(i) <==> group.contains(i) && p(i),
{
    let chosen = group.filter(p);
    let sorted = sort_siblings(s, chosen);
    lemma_filter_distinct(group, p);
    law_sort_siblings(s, chosen);
    chosen.lemma_multiset_has_no_duplicates();
    sorted.lemma_multiset_has_no_duplicates_conv();
    assert forall|i: usize| #[trigger] sorted.contains(i) <==> group.contains(i) && p(i) by {
        lemma_sort_siblings_contains(s, chosen, i);
        if chosen.contains(i) {
            group.lemma_filter_contains_rev(p, i);
            let k = choose|k: int| 0 <= k < chosen.len() && chosen[k] == i;
            group.lemma_filter_pred(p, k);
        }
        if group.contains(i) && p(i) {
            let k = choose|k: int| 0 <= k < group.len() && group[k] == i;
            group.lemma_filter_contains(p, k);
        }
    }
}

proof fn lemma_filter_distinct(group: Seq<usize>, p: spec_fn(usize) -> bool)
    requires
        group.no_duplicates(),
    ensures
        group.filter(p).no_duplicates(),
    decreases group.len(),
{
    reveal(Seq::filter);
    if group.len() > 0 {
        let head = group.drop_last();
        lemma_filter_distinct(head, p);
        let before = head.filter(p);
        if p(group.last()) {
            assert(group.filter(p) == before.push(group.last()));
            assert(!before.contains(group.last())) by {
                if before.contains(group.last()) {
                    head.lemma_filter_contains_rev(p, group.last());
                    let k = choose|k: int| 0 <= k < head.len() && head[k] == group.last();
                    assert(group[k] == group[group.len() - 1]);
                }
            }
            assert forall|a: int, b: int| 0 <= a < b < group.filter(p).len() implies group.filter(
                p,
            )[a] != group.filter(p)[b] by {
                if b == before.len() {
                    assert(before.contains(before[a]));
                }
            }
        }
    }
}

/// Two sessions of a group with one ID are one session.
proof fn lemma_same_id(s: Seq<SessionInfo>, group: Seq<usize>, i: usize, j: usize)
    requires
        unique_ids(s, group),
        group.contains(i),
        group.contains(j),
        s[i as int].id@ == s[j as int].id@,
    ensures
        i == j,
{
    let a = choose|a: int| 0 <= a < group.len() && group[a] == i;
    let b = choose|b: int| 0 <= b < group.len() && group[b] == j;
    assert(s[group[a] as int].id@ == s[group[b] as int].id@);
}

/// A session under another one stands neither at the top nor above others.
proof fn lemma_child(
    s: Seq<SessionInfo>,
    group: Seq<usize>,
    expanded: Set<Seq<char>>,
    c: usize,
    id: Seq<char>,
)
    requires
        unique_ids(s, group),
        group.contains(c),
        is_under(s, group, c, id),
    ensures
        !is_top(s, group, c),
        !row_of(s, group, expanded, c, 1).has_children,
        !row_of(s, group, expanded, c, 1).is_expanded,
{
    let own = s[c as int].id@;
    let mine = |i: usize| is_under(s, group, i, own);
    let children = under(s, group, own);
    lemma_selection(s, group, mine);
    if children.len() > 0 {
        assert(children.contains(children[0]));
        assert(mine(children[0]));
        assert(group_has_root(s, group, own));
        let k = choose|k: int|
            0 <= k < group.len() && s[#[trigger] group[k] as int].id@ == own
                && s[group[k] as int].parent_id is None;
        assert(group.contains(group[k]));
        lemma_same_id(s, group, group[k], c);
    }
    assert(group_has_root(s, group, id));
    let k = choose|k: int|
        0 <= k < group.len() && s[#[trigger] group[k] as int].id@ == id
            && s[group[k] as int].parent_id is None;
    assert(s[group[k] as int].id@ == id);
    assert(group_has_id(s, group, id));
}

/// Whether a row belongs to the branch of a session.
spec fn of_branch(s: Seq<SessionInfo>, group: Seq<usize>, row: SessionRow, i: usize) -> bool {
    row.session_index == i || is_under(s, group, row.session_index, s[i as int].id@)
}

proof fn lemma_branch(s: Seq<SessionInfo>, group: Seq<usize>, expanded: Set<Seq<char>>, i: usize)
    requires
        unique_ids(s, group),
        group.contains(i),
        is_top(s, group, i),
    ensures
        rows_of_group(branch(s, group, expanded, i), group),
        forall|k: int|
            0 <= k < branch(s, group, expanded, i).len() ==> of_branch(
                s,
                group,
                #[trigger] branch(s, group, expanded, i)[k],
                i,
            ),
{
    let id = s[i as int].id@;
    let children = under(s, group, id);
    let b = branch(s, group, expanded, i);
    lemma_selection(s, group, |c: usize| is_under(s, group, c, id));
    assert forall|k: int| 0 <= k < b.len() implies of_branch(s, group, #[trigger] b[k], i)
        && group.contains(b[k].session_index) by {
        if k > 0 {
            assert(children.contains(children[k - 1]));
        }
    }
    assert forall|x: int, y: int| 0 <= x < y < b.len() implies (
    #[trigger] b[x]).session_index != (#[trigger] b[y]).session_index by {
        assert(b[y].session_index == children[y - 1]);
        assert(children.contains(children[y - 1]));
        if x == 0 {
            lemma_child(s, group, expanded, children[y - 1], id);
        } else {
            assert(b[x].session_index == children[x - 1]);
        }
    }
}

proof fn lemma_branches(
    s: Seq<SessionInfo>,
    group: Seq<usize>,
    expanded: Set<Seq<char>>,
    list: Seq<usize>,
)
    requires
        unique_ids(s, group),
        list.no_duplicates(),
        forall|n: int|
            0 <= n < list.len() ==> group.contains(#[trigger] list[n]) && is_top(s, group, list[n]),
    ensures
        rows_of_group(branches(s, group, expanded, list), group),
        forall|k: int|
            0 <= k < branches(s, group, expanded, list).len() ==> exists|n: int|
                0 <= n < list.len() && of_branch(
                    s,
                    group,
                    #[trigger] branches(s, group, expanded, list)[k],
                    #[trigger] list[n],
                ),
    decreases list.len(),
{
    if list.len() > 0 {
        let head = list.drop_last();
        let i = list.last();
        assert(list[list.len() - 1] == i);
        assert forall|n: int| 0 <= n < head.len() implies group.contains(#[trigger] head[n])
            && is_top(s, group, head[n]) by {
            assert(head[n] == list[n]);
        }
        lemma_branches(s, group, expanded, head);
        lemma_branch(s, group, expanded, i);
        let before = branches(s, group, expanded, head);
        let b = branch(s, group, expanded, i);
        let all = branches(s, group, expanded, list);
        assert forall|k: int| 0 <= k < all.len() implies group.contains(
            (#[trigger] all[k]).session_index,
        ) && exists|n: int|
            0 <= n < list.len() && of_branch(s, group, all[k], #[trigger] list[n]) by {
            if k < before.len() {
                assert(all[k] == before[k]);
                let n = choose|n: int|
                    0 <= n < head.len() && of_branch(s, group, before[k], #[trigger] head[n]);
                assert(head[n] == list[n]);
            } else {
                assert(all[k] == b[k - before.len()]);
                assert(of_branch(s, group, all[k], list[list.len() - 1]));
            }
        }
        assert forall|x: int, y: int| 0 <= x < y < all.len() implies (
        #[trigger] all[x]).session_index != (#[trigger] all[y]).session_index by {
            if y < before.len() {
                assert(before[x].session_index != before[y].session_index);
            } else if x >= before.len() {
                assert(b[x - before.len()].session_index != b[y - before.len()].session_index);
            } else {
                assert(all[x] == before[x]);
                let n = choose|n: int|
                    0 <= n < head.len() && of_branch(s, group, before[x], #[trigger] head[n]);
                assert(head[n] == list[n]);
                let t = list[n];
                let row = b[y - before.len()];
                assert(of_branch(s, group, row, i));
                assert(t != i);
                if before[x].session_index == row.session_index {
                    let c = row.session_index;
                    if c == t {
                        lemma_child(s, group, expanded, c, s[i as int].id@);
                    } else if c == i {
                        lemma_child(s, group, expanded, c, s[t as int].id@);
                    } else {
                        lemma_same_id(s, group, t, i);
                    }
                }
            }
        }
    }
}

/// Rows of different members are at most as many as the members.
proof fn lemma_rows_fit(rows: Seq<SessionRow>, group: Seq<usize>)
    requires
        rows_of_group(rows, group),
    ensures
        rows.len() <= group.len(),
{
    let shown = row_indices(rows);
    assert(shown.no_duplicates());
    shown.unique_seq_to_set();
    group.lemma_cardinality_of_set();
    vstd::seq_lib::seq_to_set_is_finite(group);
    assert forall|x: usize| shown.to_set().contains(x) implies group.to_set().contains(x) by {
        let k = choose|k: int| 0 <= k < shown.len() && shown[k] == x;
        assert(group.contains(rows[k].session_index));
    }
    vstd::set_lib::lemma_len_subset(shown.to_set(), group.to_set());
}

/// Children that wait get their rows one after the other.
proof fn lemma_walk_children(
    s: Seq<SessionInfo>,
    group: Seq<usize>,
    expanded: Set<Seq<char>>,
    rows: Seq<SessionRow>,
    rest: Seq<(usize, usize)>,
    children: Seq<usize>,
    id: Seq<char>,
)
    requires
        unique_ids(s, group),
        forall|k: int|
            0 <= k < children.len() ==> group.contains(#[trigger] children[k]) && is_under(
                s,
                group,
                children[k],
                id,
            ),
        rows_of_group(
            rows + Seq::new(children.len(), |k: int| row_of(s, group, expanded, children[k], 1)),
            group,
        ),
    ensures
        walk(s, group, expanded, rows, rest + pile(children, 1)) == walk(
            s,
            group,
            expanded,
            rows + Seq::new(children.len(), |k: int| row_of(s, group, expanded, children[k], 1)),
            rest,
        ),
    decreases children.len(),
{
    let more = Seq::new(children.len(), |k: int| row_of(s, group, expanded, children[k], 1));
    let waiting = rest + pile(children, 1);
    if children.len() == 0 {
        assert(waiting =~= rest);
        assert(rows + more =~= rows);
    } else {
        let c = children[0];
        let tail = children.skip(1);
        let row = row_of(s, group, expanded, c, 1);
        let after = Seq::new(tail.len(), |k: int| row_of(s, group, expanded, tail[k], 1));
        assert(waiting.last() == (c, 1usize));
        assert(waiting.drop_last() =~= rest + pile(tail, 1));
        assert(rows.push(row) + after =~= rows + more);
        assert((rows + more)[rows.len() as int] == row);
        assert(!has_row(rows, c)) by {
            if has_row(rows, c) {
                let k = choose|k: int| 0 <= k < rows.len() && (#[trigger] rows[k]).session_index == c;
                assert((rows + more)[k].session_index == c);
            }
        }
        lemma_rows_fit(rows + more, group);
        lemma_child(s, group, expanded, c, id);
        assert forall|k: int| 0 <= k < tail.len() implies group.contains(#[trigger] tail[k])
            && is_under(s, group, tail[k], id) by {
            assert(tail[k] == children[k + 1]);
        }
        lemma_walk_children(s, group, expanded, rows.push(row), rest, tail, id);
    }
}

proof fn lemma_walk_branches(
    s: Seq<SessionInfo>,
    group: Seq<usize>,
    expanded: Set<Seq<char>>,
    list: Seq<usize>,
    n: int,
)
    requires
        unique_ids(s, group),
        list.no_duplicates(),
        0 <= n <= list.len(),
        forall|n: int|
            0 <= n < list.len() ==> group.contains(#[trigger] list[n]) && is_top(s, group, list[n]),
    ensures
        walk(
            s,
            group,
            expanded,
            branches(s, group, expanded, list.take(n)),
            pile(list.skip(n), 0),
        ) == branches(s, group, expanded, list),
    decreases list.len() - n,
{
    let rows = branches(s, group, expanded, list.take(n));
    let waiting = pile(list.skip(n), 0);
    if n == list.len() {
        assert(list.take(n) =~= list);
    } else {
        let i = list[n];
        let next = list.take(n + 1);
        assert(next.drop_last() =~= list.take(n));
        assert(next.last() == i);
        assert forall|m: int| 0 <= m < next.len() implies group.contains(#[trigger] next[m])
            && is_top(s, group, next[m]) by {
            assert(next[m] == list[m]);
        }
        lemma_branches(s, group, expanded, next);
        let grown = branches(s, group, expanded, next);
        let row = row_of(s, group, expanded, i, 0);
        assert(grown == rows + branch(s, group, expanded, i));
        assert(grown[rows.len() as int] == row);
        assert(waiting.last() == (i, 0usize));
        let rest = waiting.drop_last();
        assert(rest =~= pile(list.skip(n + 1), 0));
        assert(!has_row(rows, i)) by {
            if has_row(rows, i) {
                let k = choose|k: int| 0 <= k < rows.len() && (#[trigger] rows[k]).session_index == i;
                assert(grown[k].session_index == i);
            }
        }
        lemma_rows_fit(grown, group);
        if row.is_expanded {
            let id = s[i as int].id@;
            let children = under(s, group, id);
            lemma_selection(s, group, |c: usize| is_under(s, group, c, id));
            let more = Seq::new(
                children.len(),
                |k: int| row_of(s, group, expanded, children[k], 1),
            );
            assert(grown =~= rows.push(row) + more);
            assert forall|k: int| 0 <= k < children.len() implies group.contains(
                #[trigger] children[k],
            ) && is_under(s, group, children[k], id) by {
                assert(children.contains(children[k]));
            }
            lemma_walk_children(s, group, expanded, rows.push(row), rest, children, id);
        } else {
            assert(grown =~= rows.push(row));
        }
        lemma_walk_branches(s, group, expanded, list, n + 1);
    }
}

/// Where IDs are unique, a group is listed as its sessions without a parent in
/// it, in the order of their last activity, each followed by its children where
/// it is expanded.
pub proof fn law_rows_are_branches(
    s: Seq<SessionInfo>,
    group: Seq<usize>,
    expanded: Set<Seq<char>>,
)
    requires
        unique_ids(s, group),
    ensures
        group_rows(s, group, expanded) == branches(s, group, expanded, tops(s, group)),
{
    let list = tops(s, group);
    lemma_selection(s, group, |i: usize| is_top(s, group, i));
    assert forall|n: int| 0 <= n < list.len() implies group.contains(#[trigger] list[n]) && is_top(
        s,
        group,
        list[n],
    ) by {
        assert(list.contains(list[n]));
    }
    lemma_walk_branches(s, group, expanded, list, 0);
    assert(list.skip(0) =~= list);
    assert(branches(s, group, expanded, list.take(0)) =~= Seq::<SessionRow>::empty());
}

} // verus!
