//! The tree of sessions: grouped by host and by working directory, each
//! session followed by the sessions that it started where it is expanded.

use vstd::prelude::*;
use vstd::string::*;

use crate::keyed::KeySet;
use crate::text::{
    chars_of, clone_chars, concat2, concat5, decimal, join, join_chars, lemma_texts_push,
    number_text, path_parts, path_parts_of, str_eq, strings, text_before, text_lt, texts,
};
use crate::tui::app::{App, AppView};
use crate::tui::view::{
    bold, bold_span, color_of_state, colored, colored_span, plain, plain_span, shortened, spans_of,
    state_color, styled, truncate, Color, Span, SpanView, Style,
};
use crate::types::{icon_text, session_key, HostStatus, SessionInfo};

verus! {

// ---------------------------------------------------------------------------
// Parents and children
// ---------------------------------------------------------------------------

/// Whether a session may be the parent of another: same host, the ID that the
/// other names, and no parent of its own.
pub open spec fn is_parent_of(candidate: SessionInfo, session: SessionInfo) -> bool {
    &&& session.parent_id is Some
    &&& candidate.host@ == session.host@
    &&& candidate.id@ == session.parent_id->0@
    &&& candidate.parent_id is None
}

/// Whether a session was started by another on the same host.
pub open spec fn is_child_of(candidate: SessionInfo, session: SessionInfo) -> bool {
    &&& candidate.host@ == session.host@
    &&& candidate.parent_id is Some
    &&& candidate.parent_id->0@ == session.id@
}

/// The first session from `from` on that may be the parent of another.
pub open spec fn first_parent(
    sessions: Seq<SessionInfo>,
    session: SessionInfo,
    from: nat,
) -> Option<usize>
    decreases sessions.len() - from,
{
    if from >= sessions.len() {
        None
    } else if is_parent_of(sessions[from as int], session) {
        Some(from as usize)
    } else {
        first_parent(sessions, session, from + 1)
    }
}

/// The first session that may be the parent of the one at `index`.
pub open spec fn parent_index(sessions: Seq<SessionInfo>, index: int) -> Option<usize> {
    if 0 <= index < sessions.len() {
        first_parent(sessions, sessions[index], 0)
    } else {
        None
    }
}

/// Whether the session at `index` has no parent and started another one.
pub open spec fn has_children(sessions: Seq<SessionInfo>, index: int) -> bool {
    &&& 0 <= index < sessions.len()
    &&& sessions[index].parent_id is None
    &&& exists|j: int|
        0 <= j < sessions.len() && is_child_of(#[trigger] sessions[j], sessions[index])
}

/// The position of the session that started the one at `session_index`.
pub fn parent_session_index(sessions: &[SessionInfo], session_index: usize) -> (r: Option<usize>)
    ensures
        r == parent_index(sessions@, session_index as int),
{
    if session_index >= sessions.len() {
        return None;
    }
    let session = &sessions[session_index];
    let mut j: usize = 0;
    while j < sessions.len()
        invariant
            j <= sessions@.len(),
            session_index < sessions@.len(),
            *session == sessions@[session_index as int],
            parent_index(sessions@, session_index as int) == first_parent(
                sessions@,
                *session,
                j as nat,
            ),
        decreases sessions@.len() - j,
    {
        let candidate = &sessions[j];
        match &session.parent_id {
            Some(parent_id) => {
                if candidate.parent_id.is_none() && str_eq(
                    candidate.host.as_str(),
                    session.host.as_str(),
                ) && str_eq(candidate.id.as_str(), parent_id.as_str()) {
                    return Some(j);
                }
            },
            None => {},
        }
        j = j + 1;
    }
    None
}

/// Whether the session at `session_index` has no parent and started another.
pub fn session_has_children(sessions: &[SessionInfo], session_index: usize) -> (r: bool)
    ensures
        r == has_children(sessions@, session_index as int),
{
    if session_index >= sessions.len() {
        return false;
    }
    let session = &sessions[session_index];
    if session.parent_id.is_some() {
        return false;
    }
    for j in 0..sessions.len()
        invariant
            session_index < sessions@.len(),
            *session == sessions@[session_index as int],
            session.parent_id is None,
            forall|k: int| 0 <= k < j ==> !is_child_of(#[trigger] sessions@[k], *session),
    {
        let candidate = &sessions[j];
        match &candidate.parent_id {
            Some(parent_id) => {
                if str_eq(candidate.host.as_str(), session.host.as_str()) && str_eq(
                    parent_id.as_str(),
                    session.id.as_str(),
                ) {
                    assert(is_child_of(sessions@[j as int], *session));
                    return true;
                }
            },
            None => {},
        }
    }
    false
}

/// What is found as a parent may be one.
proof fn lemma_first_parent(sessions: Seq<SessionInfo>, session: SessionInfo, from: nat)
    requires
        sessions.len() <= usize::MAX,
    ensures
        match first_parent(sessions, session, from) {
            Some(p) => from <= p < sessions.len() && is_parent_of(sessions[p as int], session),
            None => forall|j: int|
                from <= j < sessions.len() ==> !is_parent_of(#[trigger] sessions[j], session),
        },
    decreases sessions.len() - from,
{
    if from < sessions.len() && !is_parent_of(sessions[from as int], session) {
        lemma_first_parent(sessions, session, from + 1);
    }
}

/// A parent is a session without a parent, so no session has a grandparent.
pub proof fn law_parent_has_no_parent(sessions: Seq<SessionInfo>, index: int, p: usize)
    requires
        sessions.len() <= usize::MAX,
        parent_index(sessions, index) == Some(p),
    ensures
        p < sessions.len(),
        sessions[p as int].parent_id is None,
        parent_index(sessions, p as int) is None,
        has_children(sessions, p as int),
{
    lemma_first_parent(sessions, sessions[index], 0);
    lemma_first_parent(sessions, sessions[p as int], 0);
    assert(is_child_of(sessions[index], sessions[p as int]));
}

// ---------------------------------------------------------------------------
// The order of siblings
// ---------------------------------------------------------------------------

/// Whether a session is listed before its sibling: the one updated last first,
/// then by title, then by ID.
pub open spec fn sibling_lt(a: SessionInfo, b: SessionInfo) -> bool {
    ||| a.activity_age_secs < b.activity_age_secs
    ||| a.activity_age_secs == b.activity_age_secs && text_lt(a.title@, b.title@)
    ||| a.activity_age_secs == b.activity_age_secs && a.title@ == b.title@ && text_lt(a.id@, b.id@)
}

fn sibling_before(a: &SessionInfo, b: &SessionInfo) -> (r: bool)
    ensures
        r == sibling_lt(*a, *b),
{
    if a.activity_age_secs != b.activity_age_secs {
        return a.activity_age_secs < b.activity_age_secs;
    }
    if !str_eq(a.title.as_str(), b.title.as_str()) {
        return text_before(a.title.as_str(), b.title.as_str());
    }
    proof {
        crate::text::lemma_text_lt_irreflexive(a.title@);
    }
    text_before(a.id.as_str(), b.id.as_str())
}

/// Where an index goes in a list of siblings: behind the last one that it does
/// not precede.
pub open spec fn sibling_slot(sessions: Seq<SessionInfo>, sorted: Seq<usize>, i: usize) -> int
    decreases sorted.len(),
{
    if sorted.len() == 0 {
        0
    } else if sibling_lt(sessions[i as int], sessions[sorted.last() as int]) {
        sibling_slot(sessions, sorted.drop_last(), i)
    } else {
        sorted.len() as int
    }
}

/// Indices in the order of siblings; those that tie keep their order.
pub open spec fn sort_siblings(sessions: Seq<SessionInfo>, indices: Seq<usize>) -> Seq<usize>
    decreases indices.len(),
{
    if indices.len() == 0 {
        Seq::empty()
    } else {
        let sorted = sort_siblings(sessions, indices.drop_last());
        sorted.insert(sibling_slot(sessions, sorted, indices.last()), indices.last())
    }
}

proof fn lemma_sibling_slot_bounds(sessions: Seq<SessionInfo>, sorted: Seq<usize>, i: usize)
    ensures
        0 <= sibling_slot(sessions, sorted, i) <= sorted.len(),
    decreases sorted.len(),
{
    if sorted.len() > 0 {
        lemma_sibling_slot_bounds(sessions, sorted.drop_last(), i);
    }
}

/// The order of siblings is transitive, and no session precedes itself.
proof fn lemma_sibling_lt_order(a: SessionInfo, b: SessionInfo, c: SessionInfo)
    ensures
        !sibling_lt(a, a),
        sibling_lt(a, b) && sibling_lt(b, c) ==> sibling_lt(a, c),
        sibling_lt(a, b) ==> !sibling_lt(b, a),
        !sibling_lt(a, b) && !sibling_lt(b, c) ==> !sibling_lt(a, c),
{
    lemma_sibling_lt_pair(a, b, c);
    lemma_sibling_lt_pair(b, a, b);
    lemma_sibling_lt_pair(a, b, a);
    lemma_sibling_lt_pair(a, a, a);
    lemma_sibling_lt_pair(c, b, a);
    lemma_sibling_lt_pair(a, c, b);
    lemma_sibling_lt_pair(b, a, c);
    lemma_sibling_lt_pair(b, c, a);
    lemma_sibling_lt_pair(c, a, b);
}

proof fn lemma_sibling_lt_pair(a: SessionInfo, b: SessionInfo, c: SessionInfo)
    ensures
        !text_lt(a.title@, a.title@),
        !text_lt(a.id@, a.id@),
        a.title@ == b.title@ || text_lt(a.title@, b.title@) || text_lt(b.title@, a.title@),
        a.id@ == b.id@ || text_lt(a.id@, b.id@) || text_lt(b.id@, a.id@),
        text_lt(a.title@, b.title@) && text_lt(b.title@, c.title@) ==> text_lt(a.title@, c.title@),
        text_lt(a.id@, b.id@) && text_lt(b.id@, c.id@) ==> text_lt(a.id@, c.id@),
{
    crate::text::lemma_text_lt_irreflexive(a.title@);
    crate::text::lemma_text_lt_irreflexive(a.id@);
    crate::text::lemma_text_lt_total(a.title@, b.title@);
    crate::text::lemma_text_lt_total(a.id@, b.id@);
    if text_lt(a.title@, b.title@) && text_lt(b.title@, c.title@) {
        crate::text::lemma_text_lt_transitive(a.title@, b.title@, c.title@);
    }
    if text_lt(a.id@, b.id@) && text_lt(b.id@, c.id@) {
        crate::text::lemma_text_lt_transitive(a.id@, b.id@, c.id@);
    }
}

/// Whether no index in a list precedes one that stands before it.
pub open spec fn in_sibling_order(sessions: Seq<SessionInfo>, s: Seq<usize>) -> bool {
    forall|a: int, b: int|
        0 <= a < b < s.len() ==> !sibling_lt(
            sessions[(#[trigger] s[b]) as int],
            sessions[(#[trigger] s[a]) as int],
        )
}

/// The slot of an index splits a sorted list: it precedes what stands behind
/// the slot and nothing that stands before it.
proof fn lemma_sibling_slot_splits(sessions: Seq<SessionInfo>, sorted: Seq<usize>, i: usize)
    requires
        in_sibling_order(sessions, sorted),
    ensures
        forall|a: int|
            0 <= a < sibling_slot(sessions, sorted, i) ==> !sibling_lt(
                sessions[i as int],
                sessions[(#[trigger] sorted[a]) as int],
            ),
        forall|a: int|
            sibling_slot(sessions, sorted, i) <= a < sorted.len() ==> sibling_lt(
                sessions[i as int],
                sessions[(#[trigger] sorted[a]) as int],
            ),
    decreases sorted.len(),
{
    if sorted.len() > 0 {
        let last = sorted.last();
        let shorter = sorted.drop_last();
        assert forall|a: int, b: int| 0 <= a < b < shorter.len() implies !sibling_lt(
            sessions[(#[trigger] shorter[b]) as int],
            sessions[(#[trigger] shorter[a]) as int],
        ) by {
            assert(shorter[a] == sorted[a]);
            assert(shorter[b] == sorted[b]);
        }
        if sibling_lt(sessions[i as int], sessions[last as int]) {
            lemma_sibling_slot_splits(sessions, shorter, i);
            lemma_sibling_slot_bounds(sessions, shorter, i);
            let slot = sibling_slot(sessions, sorted, i);
            assert forall|a: int| 0 <= a < slot implies !sibling_lt(
                sessions[i as int],
                sessions[(#[trigger] sorted[a]) as int],
            ) by {
                assert(shorter[a] == sorted[a]);
            }
            assert forall|a: int| slot <= a < sorted.len() implies sibling_lt(
                sessions[i as int],
                sessions[(#[trigger] sorted[a]) as int],
            ) by {
                if a < shorter.len() {
                    assert(shorter[a] == sorted[a]);
                }
            }
        } else {
            assert forall|a: int| 0 <= a < sorted.len() implies !sibling_lt(
                sessions[i as int],
                sessions[(#[trigger] sorted[a]) as int],
            ) by {
                lemma_sibling_lt_order(
                    sessions[i as int],
                    sessions[last as int],
                    sessions[sorted[a] as int],
                );
                if a < sorted.len() - 1 {
                    assert(!sibling_lt(sessions[sorted[sorted.len() - 1] as int], sessions[sorted[a] as int]));
                }
            }
        }
    }
}

/// Sorting siblings lists the same indices, and none of them precedes one that
/// stands before it.
pub proof fn law_sort_siblings(sessions: Seq<SessionInfo>, indices: Seq<usize>)
    ensures
        sort_siblings(sessions, indices).to_multiset() == indices.to_multiset(),
        sort_siblings(sessions, indices).len() == indices.len(),
        in_sibling_order(sessions, sort_siblings(sessions, indices)),
    decreases indices.len(),
{
    broadcast use vstd::seq_lib::group_to_multiset_ensures;

    if indices.len() > 0 {
        let sorted = sort_siblings(sessions, indices.drop_last());
        let i = indices.last();
        let slot = sibling_slot(sessions, sorted, i);
        let out = sort_siblings(sessions, indices);
        law_sort_siblings(sessions, indices.drop_last());
        lemma_sibling_slot_bounds(sessions, sorted, i);
        lemma_sibling_slot_splits(sessions, sorted, i);
        assert(indices =~= indices.drop_last().push(i));
        assert(out.to_multiset() =~= sorted.to_multiset().insert(i));
        assert forall|a: int, b: int| 0 <= a < b < out.len() implies !sibling_lt(
            sessions[(#[trigger] out[b]) as int],
            sessions[(#[trigger] out[a]) as int],
        ) by {
            let a0 = if a < slot { a } else { a - 1 };
            let b0 = if b < slot { b } else { b - 1 };
            if a != slot {
                assert(out[a] == sorted[a0]);
            }
            if b != slot {
                assert(out[b] == sorted[b0]);
            }
            if a == slot {
                lemma_sibling_lt_order(sessions[i as int], sessions[sorted[b0] as int], sessions[i as int]);
            }
        }
    }
}

/// The elements of a sorted list are those of the list.
pub proof fn lemma_sort_siblings_contains(sessions: Seq<SessionInfo>, indices: Seq<usize>, i: usize)
    ensures
        sort_siblings(sessions, indices).contains(i) == indices.contains(i),
{
    broadcast use vstd::seq_lib::group_to_multiset_ensures;

    law_sort_siblings(sessions, indices);
    let out = sort_siblings(sessions, indices);
    assert(out.contains(i) <==> out.to_multiset().count(i) > 0);
    assert(indices.contains(i) <==> indices.to_multiset().count(i) > 0);
}

/// Indices in the order of siblings.
fn sorted_siblings(sessions: &[SessionInfo], indices: &Vec<usize>) -> (r: Vec<usize>)
    requires
        forall|k: int| 0 <= k < indices@.len() ==> #[trigger] indices@[k] < sessions@.len(),
    ensures
        r@ == sort_siblings(sessions@, indices@),
        forall|k: int| 0 <= k < r@.len() ==> #[trigger] r@[k] < sessions@.len(),
{
    let mut sorted: Vec<usize> = Vec::new();
    for n in 0..indices.len()
        invariant
            forall|k: int| 0 <= k < indices@.len() ==> #[trigger] indices@[k] < sessions@.len(),
            forall|k: int| 0 <= k < sorted@.len() ==> #[trigger] sorted@[k] < sessions@.len(),
            sorted@ == sort_siblings(sessions@, indices@.take(n as int)),
            sorted@.len() == n,
    {
        let i = indices[n];
        let mut slot: usize = sorted.len();
        assert(sorted@.take(slot as int) =~= sorted@);
        while slot > 0 && sibling_before(&sessions[i], &sessions[sorted[slot - 1]])
            invariant
                i < sessions@.len(),
                slot <= sorted@.len(),
                forall|k: int| 0 <= k < sorted@.len() ==> #[trigger] sorted@[k] < sessions@.len(),
                sibling_slot(sessions@, sorted@, i) == sibling_slot(
                    sessions@,
                    sorted@.take(slot as int),
                    i,
                ),
            decreases slot,
        {
            assert(sorted@.take(slot as int).drop_last() =~= sorted@.take(slot - 1));
            slot = slot - 1;
        }
        let ghost prev = sorted@;
        sorted.insert(slot, i);
        assert(indices@.take(n + 1).drop_last() =~= indices@.take(n as int));
        assert(sorted@ =~= prev.insert(slot as int, i));
    }
    assert(indices@.take(indices@.len() as int) =~= indices@);
    sorted
}


// ---------------------------------------------------------------------------
// The rows of a group
// ---------------------------------------------------------------------------

/// One row of the session list.
#[derive(Clone, Copy, Debug, PartialEq, Eq, Structural)]
pub struct SessionRow {
    pub session_index: usize,
    pub depth: usize,
    pub has_children: bool,
    pub is_expanded: bool,
}

/// Whether some session of a group has an ID.
pub open spec fn group_has_id(
    sessions: Seq<SessionInfo>,
    group: Seq<usize>,
    id: Seq<char>,
) -> bool {
    exists|k: int| 0 <= k < group.len() && sessions[(#[trigger] group[k]) as int].id@ == id
}

/// Whether some session of a group without a parent has an ID.
pub open spec fn group_has_root(
    sessions: Seq<SessionInfo>,
    group: Seq<usize>,
    id: Seq<char>,
) -> bool {
    exists|k: int|
        0 <= k < group.len() && sessions[(#[trigger] group[k]) as int].id@ == id
            && sessions[group[k] as int].parent_id is None
}

/// Whether a session stands at the top of its group: it has no parent, or one
/// that is not in the group.
pub open spec fn is_top(sessions: Seq<SessionInfo>, group: Seq<usize>, i: usize) -> bool {
    match sessions[i as int].parent_id {
        Some(p) => !group_has_id(sessions, group, p@),
        None => true,
    }
}

/// Whether a session is listed under the session with an ID: it names that ID
/// as its parent, and a session of the group with that ID has no parent.
pub open spec fn is_under(
    sessions: Seq<SessionInfo>,
    group: Seq<usize>,
    i: usize,
    id: Seq<char>,
) -> bool {
    match sessions[i as int].parent_id {
        Some(p) => p@ == id && group_has_root(sessions, group, id),
        None => false,
    }
}

/// The sessions at the top of a group, in the order of siblings.
pub open spec fn tops(sessions: Seq<SessionInfo>, group: Seq<usize>) -> Seq<usize> {
    sort_siblings(sessions, group.filter(|i: usize| is_top(sessions, group, i)))
}

/// The sessions under one with an ID, in the order of siblings.
pub open spec fn under(
    sessions: Seq<SessionInfo>,
    group: Seq<usize>,
    id: Seq<char>,
) -> Seq<usize> {
    sort_siblings(sessions, group.filter(|i: usize| is_under(sessions, group, i, id)))
}

/// The row of a session at a depth.
pub open spec fn row_of(
    sessions: Seq<SessionInfo>,
    group: Seq<usize>,
    expanded: Set<Seq<char>>,
    i: usize,
    depth: usize,
) -> SessionRow {
    let children = under(sessions, group, sessions[i as int].id@);
    SessionRow {
        session_index: i,
        depth,
        has_children: children.len() > 0,
        is_expanded: children.len() > 0 && expanded.contains(sessions[i as int].spec_key()),
    }
}

/// Indices that wait for their rows at a depth, the first of them on top.
pub open spec fn pile(indices: Seq<usize>, depth: usize) -> Seq<(usize, usize)> {
    Seq::new(indices.len(), |k: int| (indices[indices.len() - 1 - k], depth))
}

/// Whether a session has a row already.
pub open spec fn has_row(rows: Seq<SessionRow>, i: usize) -> bool {
    exists|k: int| 0 <= k < rows.len() && (#[trigger] rows[k]).session_index == i
}

/// The rows that follow `rows` while `waiting` holds the indices to come, the
/// next one on top. Each session gets one row; an expanded one is followed by
/// the sessions under it, one level deeper. A group has no more rows than
/// sessions.
pub open spec fn walk(
    sessions: Seq<SessionInfo>,
    group: Seq<usize>,
    expanded: Set<Seq<char>>,
    rows: Seq<SessionRow>,
    waiting: Seq<(usize, usize)>,
) -> Seq<SessionRow>
    decreases group.len() - rows.len(), waiting.len(),
{
    if waiting.len() == 0 || rows.len() >= group.len() {
        rows
    } else {
        let (i, depth) = waiting.last();
        let rest = waiting.drop_last();
        if has_row(rows, i) {
            walk(sessions, group, expanded, rows, rest)
        } else {
            let row = row_of(sessions, group, expanded, i, depth);
            if row.is_expanded {
                let children = under(sessions, group, sessions[i as int].id@);
                walk(
                    sessions,
                    group,
                    expanded,
                    rows.push(row),
                    rest + pile(children, (depth + 1) as usize),
                )
            } else {
                walk(sessions, group, expanded, rows.push(row), rest)
            }
        }
    }
}

/// The rows of a group.
pub open spec fn group_rows(
    sessions: Seq<SessionInfo>,
    group: Seq<usize>,
    expanded: Set<Seq<char>>,
) -> Seq<SessionRow> {
    walk(sessions, group, expanded, Seq::empty(), pile(tops(sessions, group), 0))
}

/// Whether every index of a group is the index of a session.
pub open spec fn valid_group(sessions: Seq<SessionInfo>, group: Seq<usize>) -> bool {
    forall|k: int| 0 <= k < group.len() ==> #[trigger] group[k] < sessions.len()
}

fn group_contains_id(sessions: &[SessionInfo], group: &Vec<usize>, id: &str) -> (r: bool)
    requires
        valid_group(sessions@, group@),
    ensures
        r == group_has_id(sessions@, group@, id@),
{
    for k in 0..group.len()
        invariant
            valid_group(sessions@, group@),
            forall|j: int|
                0 <= j < k ==> sessions@[(#[trigger] group@[j]) as int].id@ != id@,
    {
        if str_eq(sessions[group[k]].id.as_str(), id) {
            assert(sessions@[group@[k as int] as int].id@ == id@);
            return true;
        }
    }
    false
}

fn group_contains_root(sessions: &[SessionInfo], group: &Vec<usize>, id: &str) -> (r: bool)
    requires
        valid_group(sessions@, group@),
    ensures
        r == group_has_root(sessions@, group@, id@),
{
    for k in 0..group.len()
        invariant
            valid_group(sessions@, group@),
            forall|j: int|
                0 <= j < k ==> !(sessions@[(#[trigger] group@[j]) as int].id@ == id@
                    && sessions@[group@[j] as int].parent_id is None),
    {
        if sessions[group[k]].parent_id.is_none() && str_eq(sessions[group[k]].id.as_str(), id) {
            assert(sessions@[group@[k as int] as int].id@ == id@);
            return true;
        }
    }
    false
}

/// The sessions at the top of a group, in the order of siblings.
fn top_indices(sessions: &[SessionInfo], group: &Vec<usize>) -> (r: Vec<usize>)
    requires
        valid_group(sessions@, group@),
    ensures
        r@ == tops(sessions@, group@),
        valid_group(sessions@, r@),
{
    let ghost keep = |i: usize| is_top(sessions@, group@, i);
    let mut found: Vec<usize> = Vec::new();
    assert(group@.take(0).filter(keep) =~= Seq::empty()) by {
        reveal(Seq::filter);
    }
    for k in 0..group.len()
        invariant
            valid_group(sessions@, group@),
            valid_group(sessions@, found@),
            keep == (|i: usize| is_top(sessions@, group@, i)),
            found@ == group@.take(k as int).filter(keep),
    {
        let i = group[k];
        proof {
            crate::text::lemma_filter_push(group@.take(k as int), keep, i);
            assert(group@.take(k as int).push(i) =~= group@.take(k + 1));
        }
        let top = match &sessions[i].parent_id {
            Some(p) => !group_contains_id(sessions, group, p.as_str()),
            None => true,
        };
        assert(top == keep(i));
        if top {
            found.push(i);
        }
    }
    assert(group@.take(group@.len() as int) =~= group@);
    sorted_siblings(sessions, &found)
}

/// The sessions under one with an ID, in the order of siblings.
fn under_indices(sessions: &[SessionInfo], group: &Vec<usize>, id: &str) -> (r: Vec<usize>)
    requires
        valid_group(sessions@, group@),
    ensures
        r@ == under(sessions@, group@, id@),
        valid_group(sessions@, r@),
{
    let ghost keep = |i: usize| is_under(sessions@, group@, i, id@);
    let root = group_contains_root(sessions, group, id);
    let mut found: Vec<usize> = Vec::new();
    assert(group@.take(0).filter(keep) =~= Seq::empty()) by {
        reveal(Seq::filter);
    }
    for k in 0..group.len()
        invariant
            valid_group(sessions@, group@),
            valid_group(sessions@, found@),
            root == group_has_root(sessions@, group@, id@),
            keep == (|i: usize| is_under(sessions@, group@, i, id@)),
            found@ == group@.take(k as int).filter(keep),
    {
        let i = group[k];
        proof {
            crate::text::lemma_filter_push(group@.take(k as int), keep, i);
            assert(group@.take(k as int).push(i) =~= group@.take(k + 1));
        }
        let below = match &sessions[i].parent_id {
            Some(p) => root && str_eq(p.as_str(), id),
            None => false,
        };
        assert(below == keep(i));
        if below {
            found.push(i);
        }
    }
    assert(group@.take(group@.len() as int) =~= group@);
    sorted_siblings(sessions, &found)
}

fn row_exists(rows: &Vec<SessionRow>, i: usize) -> (r: bool)
    ensures
        r == has_row(rows@, i),
{
    for k in 0..rows.len()
        invariant
            forall|j: int| 0 <= j < k ==> (#[trigger] rows@[j]).session_index != i,
    {
        if rows[k].session_index == i {
            assert(rows@[k as int].session_index == i);
            return true;
        }
    }
    false
}

/// Puts indices on a pile, the first of them on top.
fn push_pile(waiting: &mut Vec<(usize, usize)>, indices: &Vec<usize>, depth: usize)
    ensures
        final(waiting)@ == old(waiting)@ + pile(indices@, depth),
{
    let ghost start = waiting@;
    let mut k: usize = indices.len();
    let ghost all = pile(indices@, depth);
    assert(all.take(0) =~= Seq::empty());
    while k > 0
        invariant
            k <= indices@.len(),
            all == pile(indices@, depth),
            waiting@ == start + all.take(indices@.len() - k),
        decreases k,
    {
        k = k - 1;
        waiting.push((indices[k], depth));
        let ghost n = indices@.len() - k - 1;
        assert(all[n] == (indices@[k as int], depth));
        assert(all.take(n).push(all[n]) =~= all.take(n + 1));
        assert(waiting@ =~= start + all.take(n + 1));
    }
    assert(all.take(indices@.len() as int) =~= all);
}

/// The rows of a group: its top sessions, each one that is expanded followed by
/// the sessions under it.
pub fn build_host_session_rows(
    sessions: &[SessionInfo],
    session_indices: &Vec<usize>,
    expanded_session_keys: &KeySet,
) -> (rows: Vec<SessionRow>)
    requires
        valid_group(sessions@, session_indices@),
    ensures
        rows@ == group_rows(sessions@, session_indices@, expanded_session_keys@),
{
    let tops_found = top_indices(sessions, session_indices);
    let mut rows: Vec<SessionRow> = Vec::new();
    let mut waiting: Vec<(usize, usize)> = Vec::new();
    push_pile(&mut waiting, &tops_found, 0);
    assert(waiting@ =~= pile(tops_found@, 0));
    assert forall|k: int| 0 <= k < waiting@.len() implies (#[trigger] waiting@[k]).0
        < sessions@.len() && waiting@[k].1 <= 0 by {
        assert(tops_found@[tops_found@.len() - 1 - k] < sessions@.len());
    }
    let ghost whole = group_rows(sessions@, session_indices@, expanded_session_keys@);
    loop
        invariant
            valid_group(sessions@, session_indices@),
            forall|k: int|
                0 <= k < waiting@.len() ==> (#[trigger] waiting@[k]).0 < sessions@.len()
                    && waiting@[k].1 <= rows@.len(),
            whole == walk(
                sessions@,
                session_indices@,
                expanded_session_keys@,
                rows@,
                waiting@,
            ),
            rows@.len() <= session_indices@.len(),
        ensures
            rows@ == whole,
        decreases session_indices@.len() - rows@.len(), waiting@.len(),
    {
        if rows.len() >= session_indices.len() {
            break;
        }
        match waiting.pop() {
            None => {
                break;
            },
            Some((i, depth)) => {
                let ghost rest = waiting@;
                if !row_exists(&rows, i) {
                    let children = under_indices(
                        sessions,
                        session_indices,
                        sessions[i].id.as_str(),
                    );
                    let has_children = children.len() > 0;
                    let is_expanded = has_children && expanded_session_keys.contains(
                        sessions[i].key().as_str(),
                    );
                    let row = SessionRow { session_index: i, depth, has_children, is_expanded };
                    assert(row == row_of(
                        sessions@,
                        session_indices@,
                        expanded_session_keys@,
                        i,
                        depth,
                    ));
                    rows.push(row);
                    if is_expanded {
                        push_pile(&mut waiting, &children, depth + 1);
                        assert forall|k: int| 0 <= k < waiting@.len() implies (
                        #[trigger] waiting@[k]).0 < sessions@.len() && waiting@[k].1
                            <= rows@.len() by {
                            if k >= rest.len() {
                                let m = k - rest.len();
                                assert(waiting@[k] == pile(children@, (depth + 1) as usize)[m]);
                                assert(children@[children@.len() - 1 - m] < sessions@.len());
                            } else {
                                assert(waiting@[k] == rest[k]);
                            }
                        }
                    }
                }
            },
        }
    }
    rows
}


/// Whether rows stand for different members of a group.
pub open spec fn rows_of_group(rows: Seq<SessionRow>, group: Seq<usize>) -> bool {
    &&& forall|k: int| 0 <= k < rows.len() ==> group.contains((#[trigger] rows[k]).session_index)
    &&& forall|a: int, b: int|
        0 <= a < b < rows.len() ==> (#[trigger] rows[a]).session_index != (
        #[trigger] rows[b]).session_index
}

/// Whether what waits for a row are members of a group.
spec fn waits_in_group(waiting: Seq<(usize, usize)>, group: Seq<usize>) -> bool {
    forall|k: int| 0 <= k < waiting.len() ==> group.contains((#[trigger] waiting[k]).0)
}

/// What is in a sorted selection of a group is in the group.
proof fn lemma_pile_in_group(
    sessions: Seq<SessionInfo>,
    group: Seq<usize>,
    selected: spec_fn(usize) -> bool,
    depth: usize,
)
    ensures
        waits_in_group(pile(sort_siblings(sessions, group.filter(selected)), depth), group),
{
    let chosen = group.filter(selected);
    let sorted = sort_siblings(sessions, chosen);
    assert forall|k: int| 0 <= k < pile(sorted, depth).len() implies group.contains(
        (#[trigger] pile(sorted, depth)[k]).0,
    ) by {
        let i = pile(sorted, depth)[k].0;
        assert(sorted.contains(i));
        lemma_sort_siblings_contains(sessions, chosen, i);
        group.lemma_filter_contains_rev(selected, i);
    }
}

proof fn lemma_walk_in_group(
    sessions: Seq<SessionInfo>,
    group: Seq<usize>,
    expanded: Set<Seq<char>>,
    rows: Seq<SessionRow>,
    waiting: Seq<(usize, usize)>,
)
    requires
        rows_of_group(rows, group),
        waits_in_group(waiting, group),
    ensures
        rows_of_group(walk(sessions, group, expanded, rows, waiting), group),
    decreases group.len() - rows.len(), waiting.len(),
{
    if waiting.len() > 0 && rows.len() < group.len() {
        let (i, depth) = waiting.last();
        let rest = waiting.drop_last();
        assert(group.contains(waiting[waiting.len() - 1].0));
        assert(waits_in_group(rest, group));
        if has_row(rows, i) {
            lemma_walk_in_group(sessions, group, expanded, rows, rest);
        } else {
            let row = row_of(sessions, group, expanded, i, depth);
            assert(rows_of_group(rows.push(row), group)) by {
                assert forall|a: int, b: int| 0 <= a < b < rows.push(row).len() implies (
                #[trigger] rows.push(row)[a]).session_index != (
                #[trigger] rows.push(row)[b]).session_index by {
                    assert(rows[a] == rows.push(row)[a]);
                }
            }
            if row.is_expanded {
                let id = sessions[i as int].id@;
                let children = under(sessions, group, id);
                lemma_pile_in_group(
                    sessions,
                    group,
                    |i: usize| is_under(sessions, group, i, id),
                    (depth + 1) as usize,
                );
                let more = pile(children, (depth + 1) as usize);
                assert(waits_in_group(rest + more, group)) by {
                    assert forall|k: int| 0 <= k < (rest + more).len() implies group.contains(
                        (#[trigger] (rest + more)[k]).0,
                    ) by {
                        if k < rest.len() {
                            assert((rest + more)[k] == rest[k]);
                        } else {
                            assert((rest + more)[k] == more[k - rest.len()]);
                        }
                    }
                }
                lemma_walk_in_group(sessions, group, expanded, rows.push(row), rest + more);
            } else {
                lemma_walk_in_group(sessions, group, expanded, rows.push(row), rest);
            }
        }
    }
}

/// A group has at most one row for each of its sessions, and none for others.
pub proof fn law_rows_are_members(
    sessions: Seq<SessionInfo>,
    group: Seq<usize>,
    expanded: Set<Seq<char>>,
)
    ensures
        rows_of_group(group_rows(sessions, group, expanded), group),
{
    lemma_pile_in_group(sessions, group, |i: usize| is_top(sessions, group, i), 0);
    lemma_walk_in_group(
        sessions,
        group,
        expanded,
        Seq::empty(),
        pile(tops(sessions, group), 0),
    );
}

// ---------------------------------------------------------------------------
// Grouping
// ---------------------------------------------------------------------------

/// The different texts of a list in the order in which they first occur.
pub open spec fn firsts(keys: Seq<Seq<char>>) -> Seq<Seq<char>>
    decreases keys.len(),
{
    if keys.len() == 0 {
        Seq::empty()
    } else {
        let before = firsts(keys.drop_last());
        if before.contains(keys.last()) {
            before
        } else {
            before.push(keys.last())
        }
    }
}

/// The items whose key, at the same position, is `k`.
pub open spec fn members(keys: Seq<Seq<char>>, items: Seq<usize>, k: Seq<char>) -> Seq<usize>
    decreases keys.len(),
{
    if keys.len() == 0 {
        Seq::empty()
    } else {
        let before = members(keys.drop_last(), items.drop_last(), k);
        if keys.last() == k {
            before.push(items.last())
        } else {
            before
        }
    }
}

/// The different texts of a list are different, and they are its texts.
pub proof fn lemma_firsts(keys: Seq<Seq<char>>)
    ensures
        firsts(keys).no_duplicates(),
        forall|k: Seq<char>| firsts(keys).contains(k) <==> #[trigger] keys.contains(k),
    decreases keys.len(),
{
    if keys.len() > 0 {
        lemma_firsts(keys.drop_last());
        let before = firsts(keys.drop_last());
        let now = firsts(keys);
        assert forall|k: Seq<char>| now.contains(k) <==> #[trigger] keys.contains(k) by {
            if keys.contains(k) {
                let i = choose|i: int| 0 <= i < keys.len() && keys[i] == k;
                if i < keys.len() - 1 {
                    assert(keys.drop_last()[i] == k);
                    assert(keys.drop_last().contains(k));
                    let j = choose|j: int| 0 <= j < before.len() && before[j] == k;
                    assert(now[j] == k);
                } else if before.contains(k) {
                    let j = choose|j: int| 0 <= j < before.len() && before[j] == k;
                    assert(now[j] == k);
                } else {
                    assert(now[now.len() - 1] == k);
                }
            }
            if now.contains(k) {
                let j = choose|j: int| 0 <= j < now.len() && now[j] == k;
                if j < before.len() {
                    assert(before[j] == k);
                    assert(before.contains(k));
                    assert(keys.drop_last().contains(k));
                    let i = choose|i: int|
                        0 <= i < keys.drop_last().len() && keys.drop_last()[i] == k;
                    assert(keys[i] == k);
                } else {
                    assert(keys[keys.len() - 1] == k);
                }
            }
        }
    }
}

/// The items of a key are items of the list.
pub proof fn lemma_members_in(keys: Seq<Seq<char>>, items: Seq<usize>, k: Seq<char>)
    requires
        keys.len() == items.len(),
    ensures
        forall|j: int|
            0 <= j < members(keys, items, k).len() ==> items.contains(
                #[trigger] members(keys, items, k)[j],
            ),
    decreases keys.len(),
{
    if keys.len() > 0 {
        lemma_members_in(keys.drop_last(), items.drop_last(), k);
        let before = members(keys.drop_last(), items.drop_last(), k);
        assert forall|j: int| 0 <= j < members(keys, items, k).len() implies items.contains(
            #[trigger] members(keys, items, k)[j],
        ) by {
            if j < before.len() {
                let i = before[j];
                assert(items.drop_last().contains(i));
                let n = choose|n: int|
                    0 <= n < items.drop_last().len() && items.drop_last()[n] == i;
                assert(items[n] == i);
            } else {
                assert(items[items.len() - 1] == items.last());
            }
        }
    }
}

/// A text and the items that have it as their key.
struct Bucket {
    key: String,
    items: Vec<usize>,
}

/// Whether buckets hold each key of a list once, with its items.
spec fn buckets_of(b: Seq<Bucket>, keys: Seq<Seq<char>>, items: Seq<usize>) -> bool {
    &&& b.len() == firsts(keys).len()
    &&& forall|g: int| 0 <= g < b.len() ==> (#[trigger] b[g]).key@ == firsts(keys)[g]
    &&& forall|g: int|
        0 <= g < b.len() ==> (#[trigger] b[g]).items@ == members(keys, items, firsts(keys)[g])
}

/// A key that does not occur has no items.
proof fn lemma_members_absent(keys: Seq<Seq<char>>, items: Seq<usize>, k: Seq<char>)
    requires
        !keys.contains(k),
    ensures
        members(keys, items, k) == Seq::<usize>::empty(),
    decreases keys.len(),
{
    if keys.len() > 0 {
        assert(keys[keys.len() - 1] == keys.last());
        assert(!keys.drop_last().contains(k)) by {
            if keys.drop_last().contains(k) {
                let i = choose|i: int| 0 <= i < keys.drop_last().len() && keys.drop_last()[i] == k;
                assert(keys[i] == k);
            }
        }
        lemma_members_absent(keys.drop_last(), items.drop_last(), k);
    }
}

/// Puts the items of a list into buckets by their keys.
fn fill_buckets(keys: &Vec<String>, items: &Vec<usize>) -> (r: Vec<Bucket>)
    requires
        keys@.len() == items@.len(),
    ensures
        buckets_of(r@, strings(keys@), items@),
{
    let ghost ks = strings(keys@);
    let mut out: Vec<Bucket> = Vec::new();
    for n in 0..keys.len()
        invariant
            keys@.len() == items@.len(),
            ks == strings(keys@),
            buckets_of(out@, ks.take(n as int), items@.take(n as int)),
    {
        let ghost done = ks.take(n as int);
        let ghost next = ks.take(n + 1);
        let ghost done_items = items@.take(n as int);
        let ghost next_items = items@.take(n + 1);
        proof {
            assert(next.drop_last() =~= done);
            assert(next_items.drop_last() =~= done_items);
            assert(next.last() == keys@[n as int]@);
            assert(next_items.last() == items@[n as int]);
            lemma_firsts(done);
        }
        let mut at: usize = 0;
        while at < out.len() && !str_eq(out[at].key.as_str(), keys[n].as_str())
            invariant
                n < keys@.len(),
                at <= out@.len(),
                forall|g: int| 0 <= g < at ==> (#[trigger] out@[g]).key@ != keys@[n as int]@,
            decreases out@.len() - at,
        {
            at = at + 1;
        }
        let ghost prev = out@;
        if at < out.len() {
            assert(firsts(done)[at as int] == keys@[n as int]@);
            assert(firsts(done).contains(keys@[n as int]@));
            let mut bucket = out.remove(at);
            bucket.items.push(items[n]);
            out.insert(at, bucket);
            proof {
                assert(out@.len() == prev.len());
                assert forall|g: int| 0 <= g < out@.len() implies (#[trigger] out@[g]).key@
                    == firsts(next)[g] && out@[g].items@ == members(
                    next,
                    next_items,
                    firsts(next)[g],
                ) by {
                    assert(prev[g].key@ == firsts(done)[g]);
                    assert(prev[g].items@ == members(done, done_items, firsts(done)[g]));
                    if g != at {
                        assert(out@[g] == prev[g]);
                        assert(firsts(done)[g] != firsts(done)[at as int]);
                    }
                }
            }
        } else {
            assert(!firsts(done).contains(keys@[n as int]@)) by {
                if firsts(done).contains(keys@[n as int]@) {
                    let g = choose|g: int|
                        0 <= g < firsts(done).len() && firsts(done)[g] == keys@[n as int]@;
                    assert(out@[g].key@ == keys@[n as int]@);
                }
            }
            let mut fresh: Vec<usize> = Vec::new();
            fresh.push(items[n]);
            out.push(Bucket { key: keys[n].clone(), items: fresh });
            proof {
                lemma_members_absent(done, done_items, keys@[n as int]@);
                assert forall|g: int| 0 <= g < out@.len() implies (#[trigger] out@[g]).key@
                    == firsts(next)[g] && out@[g].items@ == members(
                    next,
                    next_items,
                    firsts(next)[g],
                ) by {
                    if g < prev.len() {
                        assert(out@[g] == prev[g]);
                        assert(prev[g].key@ == firsts(done)[g]);
                        assert(firsts(done).contains(firsts(done)[g]));
                    } else {
                        assert(out@[g].items@ =~= members(next, next_items, firsts(next)[g]));
                    }
                }
            }
        }
    }
    assert(ks.take(ks.len() as int) =~= ks);
    assert(items@.take(items@.len() as int) =~= items@);
    out
}

// ---------------------------------------------------------------------------
// Labels of working directories
// ---------------------------------------------------------------------------

/// The last `depth` segments of a path with slashes between them; a path
/// without segments is the root.
pub open spec fn suffix_label(parts: Seq<Seq<char>>, depth: nat) -> Seq<char> {
    if parts.len() == 0 {
        "/"@
    } else {
        let start = if parts.len() > depth {
            parts.len() - depth
        } else {
            0
        };
        join(parts.skip(start), "/"@)
    }
}

/// Whether the last `depth` segments tell paths apart.
pub open spec fn labels_differ(paths: Seq<Seq<char>>, depth: nat) -> bool {
    forall|i: int, j: int|
        0 <= i < j < paths.len() && #[trigger] paths[i] != #[trigger] paths[j] ==> suffix_label(
            path_parts(paths[i]),
            depth,
        ) != suffix_label(path_parts(paths[j]), depth)
}

/// The number of segments of the longest path; one where there is no path.
pub open spec fn longest(paths: Seq<Seq<char>>) -> nat
    decreases paths.len(),
{
    if paths.len() == 0 {
        1
    } else {
        let n = path_parts(paths.last()).len();
        if paths.len() == 1 || n > longest(paths.drop_last()) {
            n
        } else {
            longest(paths.drop_last())
        }
    }
}

/// The least number of segments from `depth` to `max` that tells paths apart.
pub open spec fn label_depth(paths: Seq<Seq<char>>, depth: nat, max: nat) -> Option<nat>
    decreases max + 1 - depth,
{
    if depth > max {
        None
    } else if labels_differ(paths, depth) {
        Some(depth)
    } else {
        label_depth(paths, depth + 1, max)
    }
}

/// The label of a path among others: as few of its last segments as tell all of
/// them apart, or the whole path where no number of segments does.
pub open spec fn label_among(paths: Seq<Seq<char>>, path: Seq<char>) -> Seq<char> {
    match label_depth(paths, 1, longest(paths)) {
        Some(depth) => suffix_label(path_parts(path), depth),
        None => path,
    }
}

proof fn lemma_label_depth(paths: Seq<Seq<char>>, depth: nat, max: nat)
    ensures
        label_depth(paths, depth, max) matches Some(d) ==> labels_differ(paths, d),
    decreases max + 1 - depth,
{
    if depth <= max && !labels_differ(paths, depth) {
        lemma_label_depth(paths, depth + 1, max);
    }
}

/// Different paths have different labels.
pub proof fn law_labels_are_unique(paths: Seq<Seq<char>>, i: int, j: int)
    requires
        0 <= i < paths.len(),
        0 <= j < paths.len(),
        paths[i] != paths[j],
    ensures
        label_among(paths, paths[i]) != label_among(paths, paths[j]),
{
    lemma_label_depth(paths, 1, longest(paths));
    if i < j {
        assert(label_depth(paths, 1, longest(paths)) matches Some(d) ==> suffix_label(
            path_parts(paths[i]),
            d,
        ) != suffix_label(path_parts(paths[j]), d));
    } else {
        assert(label_depth(paths, 1, longest(paths)) matches Some(d) ==> suffix_label(
            path_parts(paths[j]),
            d,
        ) != suffix_label(path_parts(paths[i]), d));
    }
}

/// The last `depth` segments of a path with slashes between them.
pub fn path_suffix_label(segments: &Vec<Vec<char>>, depth: usize) -> (r: String)
    ensures
        r@ == suffix_label(texts(segments@), depth as nat),
{
    if segments.len() == 0 {
        return "/".to_string();
    }
    let start: usize = if segments.len() > depth {
        segments.len() - depth
    } else {
        0
    };
    let mut kept: Vec<Vec<char>> = Vec::new();
    let ghost want = texts(segments@).skip(start as int);
    assert(texts(kept@) =~= want.take(0));
    for k in start..segments.len()
        invariant
            start <= segments@.len(),
            want == texts(segments@).skip(start as int),
            texts(kept@) == want.take(k - start),
    {
        let piece = clone_chars(&segments[k]);
        proof {
            lemma_texts_push(kept@, piece);
            assert(want.take(k - start).push(piece@) =~= want.take(k + 1 - start));
        }
        kept.push(piece);
    }
    assert(want.take(segments@.len() - start) =~= want);
    join_chars(&kept, "/")
}

/// The segment lists of paths.
spec fn segment_lists(lists: Seq<Vec<Vec<char>>>, paths: Seq<Seq<char>>) -> bool {
    &&& lists.len() == paths.len()
    &&& forall|i: int|
        0 <= i < lists.len() ==> texts((#[trigger] lists[i])@) == path_parts(paths[i])
}

/// Whether the last `depth` segments tell paths apart.
fn depth_tells_apart(names: &Vec<String>, lists: &Vec<Vec<Vec<char>>>, depth: usize) -> (r: bool)
    requires
        segment_lists(lists@, strings(names@)),
    ensures
        r == labels_differ(strings(names@), depth as nat),
{
    let ghost paths = strings(names@);
    let mut labels: Vec<String> = Vec::new();
    for i in 0..lists.len()
        invariant
            paths == strings(names@),
            segment_lists(lists@, paths),
            labels@.len() == i,
            forall|k: int|
                0 <= k < i ==> (#[trigger] labels@[k])@ == suffix_label(
                    path_parts(paths[k]),
                    depth as nat,
                ),
            forall|a: int, b: int|
                0 <= a < b < i && #[trigger] paths[a] != #[trigger] paths[b] ==> suffix_label(
                    path_parts(paths[a]),
                    depth as nat,
                ) != suffix_label(path_parts(paths[b]), depth as nat),
    {
        let label = path_suffix_label(&lists[i], depth);
        assert(label@ == suffix_label(path_parts(paths[i as int]), depth as nat));
        for j in 0..labels.len()
            invariant
                paths == strings(names@),
                i < paths.len(),
                labels@.len() == i,
                label@ == suffix_label(path_parts(paths[i as int]), depth as nat),
                forall|k: int|
                    0 <= k < i ==> (#[trigger] labels@[k])@ == suffix_label(
                        path_parts(paths[k]),
                        depth as nat,
                    ),
                forall|k: int|
                    0 <= k < j && paths[k] != paths[i as int] ==> (#[trigger] labels@[k])@
                        != label@,
        {
            if str_eq(labels[j].as_str(), label.as_str()) && !str_eq(
                names[j].as_str(),
                names[i].as_str(),
            ) {
                assert(suffix_label(path_parts(paths[j as int]), depth as nat) == suffix_label(
                    path_parts(paths[i as int]),
                    depth as nat,
                ));
                return false;
            }
        }
        labels.push(label);
        assert forall|a: int, b: int|
            0 <= a < b < i + 1 && #[trigger] paths[a] != #[trigger] paths[b] implies suffix_label(
            path_parts(paths[a]),
            depth as nat,
        ) != suffix_label(path_parts(paths[b]), depth as nat) by {
            if b == i {
                assert(labels@[a]@ != label@);
            }
        }
    }
    true
}

/// The labels of paths, in their order.
pub fn unique_cwd_group_labels(paths: &Vec<String>) -> (r: Vec<String>)
    ensures
        r@.len() == paths@.len(),
        forall|i: int|
            0 <= i < r@.len() ==> (#[trigger] r@[i])@ == label_among(
                strings(paths@),
                paths@[i]@,
            ),
{
    let ghost ps = strings(paths@);
    let mut lists: Vec<Vec<Vec<char>>> = Vec::new();
    let mut max: usize = 1;
    for i in 0..paths.len()
        invariant
            ps == strings(paths@),
            segment_lists(lists@, ps.take(i as int)),
            max == longest(ps.take(i as int)),
    {
        let parts = path_parts_of(&chars_of(paths[i].as_str()));
        assert(texts(parts@) == path_parts(ps[i as int]));
        assert(ps.take(i + 1).drop_last() =~= ps.take(i as int));
        assert(ps.take(i + 1).last() == ps[i as int]);
        if i == 0 || parts.len() > max {
            max = parts.len();
        }
        lists.push(parts);
        assert forall|k: int| 0 <= k < lists@.len() implies texts((#[trigger] lists@[k])@)
            == path_parts(ps.take(i + 1)[k]) by {
            if k < i {
                assert(ps.take(i as int)[k] == ps.take(i + 1)[k]);
            }
        }
    }
    assert(ps.take(ps.len() as int) =~= ps);
    let mut depth: usize = 1;
    let mut found: bool = false;
    let mut over: bool = max < 1;
    while !found && !over
        invariant
            ps == strings(paths@),
            segment_lists(lists@, ps),
            1 <= depth,
            !over ==> depth <= max,
            !found && !over ==> label_depth(ps, 1, max as nat) == label_depth(
                ps,
                depth as nat,
                max as nat,
            ),
            over ==> label_depth(ps, 1, max as nat) is None,
            found ==> !over && label_depth(ps, 1, max as nat) == Some(depth as nat),
        decreases
                (if found || over {
                    0
                } else {
                    max + 1 - depth
                }),
    {
        if depth_tells_apart(paths, &lists, depth) {
            found = true;
        } else if depth == max {
            assert(label_depth(ps, (depth + 1) as nat, max as nat) is None);
            over = true;
        } else {
            depth = depth + 1;
        }
    }
    let mut out: Vec<String> = Vec::new();
    for i in 0..paths.len()
        invariant
            ps == strings(paths@),
            segment_lists(lists@, ps),
            max == longest(ps),
            found ==> label_depth(ps, 1, max as nat) == Some(depth as nat),
            !found ==> label_depth(ps, 1, max as nat) is None,
            out@.len() == i,
            forall|k: int|
                0 <= k < i ==> (#[trigger] out@[k])@ == label_among(ps, paths@[k]@),
    {
        if found {
            out.push(path_suffix_label(&lists[i], depth));
        } else {
            out.push(paths[i].clone());
        }
    }
    out
}

// ---------------------------------------------------------------------------
// Working-directory groups of a host
// ---------------------------------------------------------------------------

/// The sessions of one working directory under one label.
pub struct CwdGroup {
    pub label: String,
    pub session_rows: Vec<SessionRow>,
}

/// A group as its label and its rows.
#[verifier::ext_equal]
pub struct GroupView {
    pub label: Seq<char>,
    pub rows: Seq<SessionRow>,
}

impl View for CwdGroup {
    type V = GroupView;

    open spec fn view(&self) -> GroupView {
        GroupView { label: self.label@, rows: self.session_rows@ }
    }
}

/// The working directories of sessions, in the order of `idx`.
pub open spec fn cwds(s: Seq<SessionInfo>, idx: Seq<usize>) -> Seq<Seq<char>> {
    Seq::new(idx.len(), |k: int| s[idx[k] as int].working_dir@)
}

/// The position of the first row whose session works in `cwd`; the greatest
/// number where there is none.
pub open spec fn cwd_position(s: Seq<SessionInfo>, rows: Seq<SessionRow>, cwd: Seq<char>) -> usize
    decreases rows.len(),
{
    if rows.len() == 0 {
        usize::MAX
    } else {
        let before = cwd_position(s, rows.drop_last(), cwd);
        if before == usize::MAX && s[rows.last().session_index as int].working_dir@ == cwd {
            (rows.len() - 1) as usize
        } else {
            before
        }
    }
}

/// Whether a placed group stands before another: by its position, then by its
/// label.
pub open spec fn placed_lt(a: (usize, GroupView), b: (usize, GroupView)) -> bool {
    a.0 < b.0 || (a.0 == b.0 && text_lt(a.1.label, b.1.label))
}

/// Where a group goes in a list in order: behind every group that it does not
/// stand before.
pub open spec fn placed_slot(list: Seq<(usize, GroupView)>, g: (usize, GroupView)) -> nat
    decreases list.len(),
{
    if list.len() == 0 || !placed_lt(g, list.last()) {
        list.len()
    } else {
        placed_slot(list.drop_last(), g)
    }
}

/// Groups in order; of two that neither stands before the other, the first one
/// stays first.
pub open spec fn sort_placed(list: Seq<(usize, GroupView)>) -> Seq<(usize, GroupView)>
    decreases list.len(),
{
    if list.len() == 0 {
        list
    } else {
        let rest = sort_placed(list.drop_last());
        rest.insert(placed_slot(rest, list.last()) as int, list.last())
    }
}

/// The groups of a host in the order of their first sessions, each with its
/// position among the rows of the host.
pub open spec fn placed_groups(
    s: Seq<SessionInfo>,
    idx: Seq<usize>,
    expanded: Set<Seq<char>>,
) -> Seq<(usize, GroupView)> {
    let keys = cwds(s, idx);
    let paths = firsts(keys);
    let host_rows = group_rows(s, idx, expanded);
    Seq::new(
        paths.len(),
        |g: int|
            (
                cwd_position(s, host_rows, paths[g]),
                GroupView {
                    label: label_among(paths, paths[g]),
                    rows: group_rows(s, members(keys, idx, paths[g]), expanded),
                },
            ),
    )
}

/// The group without its position.
pub open spec fn group_of() -> spec_fn((usize, GroupView)) -> GroupView {
    |p: (usize, GroupView)| p.1
}

/// The groups of a host as they are listed.
pub open spec fn cwd_groups(
    s: Seq<SessionInfo>,
    idx: Seq<usize>,
    expanded: Set<Seq<char>>,
) -> Seq<GroupView> {
    sort_placed(placed_groups(s, idx, expanded)).map_values(group_of())
}

/// The views of groups.
pub open spec fn group_views(groups: Seq<CwdGroup>) -> Seq<GroupView> {
    Seq::new(groups.len(), |g: int| groups[g]@)
}

/// The views of placed groups.
spec fn placed_views(groups: Seq<(usize, CwdGroup)>) -> Seq<(usize, GroupView)> {
    Seq::new(groups.len(), |g: int| (groups[g].0, groups[g].1@))
}

/// The position of the first row whose session works in `cwd`.
fn first_position(sessions: &[SessionInfo], rows: &Vec<SessionRow>, cwd: &str) -> (r: usize)
    requires
        forall|k: int| 0 <= k < rows@.len() ==> (#[trigger] rows@[k]).session_index < sessions@.len(),
    ensures
        r == cwd_position(sessions@, rows@, cwd@),
{
    let mut found: usize = usize::MAX;
    for k in 0..rows.len()
        invariant
            forall|k: int|
                0 <= k < rows@.len() ==> (#[trigger] rows@[k]).session_index < sessions@.len(),
            found == cwd_position(sessions@, rows@.take(k as int), cwd@),
    {
        assert(rows@.take(k + 1).drop_last() =~= rows@.take(k as int));
        if found == usize::MAX && str_eq(
            sessions[rows[k].session_index].working_dir.as_str(),
            cwd,
        ) {
            found = k;
        }
    }
    assert(rows@.take(rows@.len() as int) =~= rows@);
    found
}

/// Puts a group into a list in order.
fn insert_placed(list: &mut Vec<(usize, CwdGroup)>, position: usize, group: CwdGroup)
    ensures
        placed_views(final(list)@) == placed_views(old(list)@).insert(
            placed_slot(placed_views(old(list)@), (position, group@)) as int,
            (position, group@),
        ),
{
    let ghost views = placed_views(list@);
    let ghost it = (position, group@);
    let mut at: usize = list.len();
    assert(views.take(views.len() as int) =~= views);
    while at > 0 && (position < list[at - 1].0 || (position == list[at - 1].0 && text_before(
        group.label.as_str(),
        list[at - 1].1.label.as_str(),
    )))
        invariant
            at <= list@.len(),
            views == placed_views(list@),
            it == (position, group@),
            placed_slot(views, it) == placed_slot(views.take(at as int), it),
        decreases at,
    {
        assert(views.take(at as int).drop_last() =~= views.take(at - 1));
        assert(views.take(at as int).last() == views[at - 1]);
        at = at - 1;
    }
    assert(placed_slot(views, it) == at) by {
        if at > 0 {
            assert(views.take(at as int).last() == views[at - 1]);
        }
    }
    list.insert(at, (position, group));
    assert(placed_views(list@) =~= views.insert(at as int, it));
}

/// Lists the groups of a host.
pub fn build_host_cwd_groups(
    sessions: &[SessionInfo],
    session_indices: &Vec<usize>,
    expanded: &KeySet,
) -> (r: Vec<CwdGroup>)
    requires
        valid_group(sessions@, session_indices@),
    ensures
        group_views(r@) == cwd_groups(sessions@, session_indices@, expanded@),
{
    let ghost s = sessions@;
    let ghost idx = session_indices@;
    let mut keys: Vec<String> = Vec::new();
    for k in 0..session_indices.len()
        invariant
            s == sessions@,
            idx == session_indices@,
            valid_group(s, idx),
            keys@.len() == k,
            forall|j: int| 0 <= j < k ==> (#[trigger] keys@[j])@ == s[idx[j] as int].working_dir@,
    {
        keys.push(sessions[session_indices[k]].working_dir.clone());
    }
    let ghost ks = cwds(s, idx);
    assert(strings(keys@) =~= ks);
    let buckets = fill_buckets(&keys, session_indices);
    let ghost paths = firsts(ks);
    let mut names: Vec<String> = Vec::new();
    for g in 0..buckets.len()
        invariant
            buckets_of(buckets@, ks, idx),
            paths == firsts(ks),
            names@.len() == g,
            forall|j: int| 0 <= j < g ==> (#[trigger] names@[j])@ == paths[j],
    {
        names.push(buckets[g].key.clone());
    }
    assert(strings(names@) =~= paths);
    let labels = unique_cwd_group_labels(&names);
    let host_rows = build_host_session_rows(sessions, session_indices, expanded);
    proof {
        law_rows_are_members(s, idx, expanded@);
    }
    let ghost placed = placed_groups(s, idx, expanded@);
    let mut sorted: Vec<(usize, CwdGroup)> = Vec::new();
    assert(placed_views(sorted@) =~= sort_placed(placed.take(0)));
    for g in 0..buckets.len()
        invariant
            s == sessions@,
            idx == session_indices@,
            valid_group(s, idx),
            ks == cwds(s, idx),
            buckets_of(buckets@, ks, idx),
            paths == firsts(ks),
            names@.len() == paths.len(),
            labels@.len() == paths.len(),
            forall|j: int|
                0 <= j < paths.len() ==> (#[trigger] labels@[j])@ == label_among(paths, paths[j]),
            host_rows@ == group_rows(s, idx, expanded@),
            forall|k: int|
                0 <= k < host_rows@.len() ==> (#[trigger] host_rows@[k]).session_index < s.len(),
            placed == placed_groups(s, idx, expanded@),
            placed_views(sorted@) == sort_placed(placed.take(g as int)),
    {
        assert(buckets@[g as int].key@ == paths[g as int]);
        proof {
            lemma_members_in(ks, idx, paths[g as int]);
        }
        let rows = build_host_session_rows(sessions, &buckets[g].items, expanded);
        let position = first_position(sessions, &host_rows, buckets[g].key.as_str());
        let group = CwdGroup { label: labels[g].clone(), session_rows: rows };
        assert(placed[g as int] == (position, group@));
        assert(placed.take(g + 1).drop_last() =~= placed.take(g as int));
        assert(placed.take(g + 1).last() == placed[g as int]);
        insert_placed(&mut sorted, position, group);
    }
    assert(placed.take(placed.len() as int) =~= placed);
    let ghost views = placed_views(sorted@);
    let mut out: Vec<CwdGroup> = Vec::new();
    let ghost want = cwd_groups(s, idx, expanded@);
    assert(group_views(out@) =~= want.take(0));
    while sorted.len() > 0
        invariant
            placed_views(sorted@) == views.skip(want.len() - sorted@.len()),
            want == views.map_values(group_of()),
            sorted@.len() <= want.len(),
            group_views(out@) == want.take(want.len() - sorted@.len()),
        decreases sorted@.len(),
    {
        let ghost prev = sorted@;
        let ghost n = want.len() - prev.len();
        assert(placed_views(prev)[0] == views[n]);
        let placed_group = sorted.remove(0);
        assert forall|j: int| 0 <= j < sorted@.len() implies #[trigger] placed_views(sorted@)[j]
            == views.skip(n + 1)[j] by {
            assert(placed_views(prev)[j + 1] == views.skip(n)[j + 1]);
        }
        assert(placed_views(sorted@) =~= views.skip(n + 1));
        let ghost before = out@;
        out.push(placed_group.1);
        assert(group_views(out@) =~= group_views(before).push(placed_group.1@));
        assert(group_views(out@) =~= want.take(n + 1));
    }
    assert(want.take(want.len() as int) =~= want);
    out
}

// ---------------------------------------------------------------------------
// Groups of all hosts
// ---------------------------------------------------------------------------

/// The groups of one host.
pub struct HostGroup {
    pub host: String,
    pub groups: Vec<CwdGroup>,
}

/// The groups of one host as values.
#[verifier::ext_equal]
pub struct HostView {
    pub host: Seq<char>,
    pub groups: Seq<GroupView>,
}

impl View for HostGroup {
    type V = HostView;

    open spec fn view(&self) -> HostView {
        HostView { host: self.host@, groups: group_views(self.groups@) }
    }
}

/// The hosts of sessions.
pub open spec fn hosts_of(s: Seq<SessionInfo>) -> Seq<Seq<char>> {
    Seq::new(s.len(), |k: int| s[k].host@)
}

/// The numbers below `n`.
pub open spec fn all_indices(n: nat) -> Seq<usize> {
    Seq::new(n, |k: int| k as usize)
}

/// The sessions of a host.
pub open spec fn host_members(s: Seq<SessionInfo>, host: Seq<char>) -> Seq<usize> {
    members(hosts_of(s), all_indices(s.len()), host)
}

/// The sessions of all hosts as they are listed, hosts in the order of their
/// first sessions.
pub open spec fn host_groups(s: Seq<SessionInfo>, expanded: Set<Seq<char>>) -> Seq<HostView> {
    let names = firsts(hosts_of(s));
    Seq::new(
        names.len(),
        |h: int|
            HostView {
                host: names[h],
                groups: cwd_groups(s, host_members(s, names[h]), expanded),
            },
    )
}

/// The views of the groups of hosts.
pub open spec fn host_views(hosts: Seq<HostGroup>) -> Seq<HostView> {
    Seq::new(hosts.len(), |h: int| hosts[h]@)
}

/// The parts of a list one after the other.
pub open spec fn flat(parts: Seq<Seq<usize>>) -> Seq<usize>
    decreases parts.len(),
{
    if parts.len() == 0 {
        Seq::empty()
    } else {
        flat(parts.drop_last()) + parts.last()
    }
}

/// The sessions of rows.
pub open spec fn row_indices(rows: Seq<SessionRow>) -> Seq<usize> {
    Seq::new(rows.len(), |k: int| rows[k].session_index)
}

/// The sessions of each group.
pub open spec fn group_parts(groups: Seq<GroupView>) -> Seq<Seq<usize>> {
    Seq::new(groups.len(), |g: int| row_indices(groups[g].rows))
}

/// The sessions of each host.
pub open spec fn host_parts(hosts: Seq<HostView>) -> Seq<Seq<usize>> {
    Seq::new(hosts.len(), |h: int| flat(group_parts(hosts[h].groups)))
}

/// The listed sessions from top to bottom.
pub open spec fn ordered(s: Seq<SessionInfo>, expanded: Set<Seq<char>>) -> Seq<usize> {
    flat(host_parts(host_groups(s, expanded)))
}

/// Lists the sessions of all hosts.
pub fn grouped_session_rows_by_host(sessions: &[SessionInfo], expanded: &KeySet) -> (r: Vec<
    HostGroup,
>)
    ensures
        host_views(r@) == host_groups(sessions@, expanded@),
{
    let ghost s = sessions@;
    let mut keys: Vec<String> = Vec::new();
    let mut all: Vec<usize> = Vec::new();
    for k in 0..sessions.len()
        invariant
            s == sessions@,
            keys@.len() == k,
            all@.len() == k,
            forall|j: int| 0 <= j < k ==> (#[trigger] keys@[j])@ == s[j].host@,
            forall|j: int| 0 <= j < k ==> #[trigger] all@[j] == j,
    {
        keys.push(sessions[k].host.clone());
        all.push(k);
    }
    assert(strings(keys@) =~= hosts_of(s));
    assert(all@ =~= all_indices(s.len()));
    let buckets = fill_buckets(&keys, &all);
    let ghost names = firsts(hosts_of(s));
    let mut out: Vec<HostGroup> = Vec::new();
    for h in 0..buckets.len()
        invariant
            s == sessions@,
            s.len() <= usize::MAX,
            buckets_of(buckets@, hosts_of(s), all_indices(s.len())),
            names == firsts(hosts_of(s)),
            out@.len() == h,
            forall|j: int|
                0 <= j < h ==> (#[trigger] out@[j])@ == host_groups(s, expanded@)[j],
    {
        proof {
            lemma_host_members(s, names[h as int]);
        }
        let groups = build_host_cwd_groups(sessions, &buckets[h].items, expanded);
        assert(buckets@[h as int].key@ == names[h as int]);
        out.push(HostGroup { host: buckets[h].key.clone(), groups });
        assert(out@[h as int]@ == host_groups(s, expanded@)[h as int]);
    }
    assert(host_views(out@) =~= host_groups(s, expanded@));
    out
}

/// The listed sessions from top to bottom.
pub fn ordered_session_indices(
    sessions: &[SessionInfo],
    expanded_session_keys: &KeySet,
) -> (r: Vec<usize>)
    ensures
        r@ == ordered(sessions@, expanded_session_keys@),
{
    let hosts = grouped_session_rows_by_host(sessions, expanded_session_keys);
    let ghost hv = host_groups(sessions@, expanded_session_keys@);
    let ghost parts = host_parts(hv);
    let mut out: Vec<usize> = Vec::new();
    for h in 0..hosts.len()
        invariant
            host_views(hosts@) == hv,
            parts == host_parts(hv),
            out@ == flat(parts.take(h as int)),
    {
        let ghost start = out@;
        let groups = &hosts[h].groups;
        assert(host_views(hosts@)[h as int] == hosts@[h as int]@);
        let ghost gp = group_parts(group_views(groups@));
        assert(parts[h as int] == flat(gp));
        assert(start + flat(gp.take(0)) =~= start);
        for g in 0..groups.len()
            invariant
                gp == group_parts(group_views(groups@)),
                out@ == start + flat(gp.take(g as int)),
        {
            let ghost here = out@;
            let rows = &groups[g].session_rows;
            assert(gp[g as int] == row_indices(rows@));
            for k in 0..rows.len()
                invariant
                    out@ == here + row_indices(rows@).take(k as int),
            {
                out.push(rows[k].session_index);
                assert(out@ =~= here + row_indices(rows@).take(k + 1));
            }
            assert(row_indices(rows@).take(rows@.len() as int) =~= row_indices(rows@));
            assert(gp.take(g + 1).drop_last() =~= gp.take(g as int));
            assert(out@ =~= start + flat(gp.take(g + 1)));
        }
        assert(gp.take(gp.len() as int) =~= gp);
        assert(parts.take(h + 1).drop_last() =~= parts.take(h as int));
    }
    assert(parts.take(parts.len() as int) =~= parts);
    out
}

// ---------------------------------------------------------------------------
// What is listed
// ---------------------------------------------------------------------------

/// What a list of parts holds is what one of the parts holds.
proof fn lemma_flat_contains(parts: Seq<Seq<usize>>, x: usize)
    ensures
        flat(parts).contains(x) <==> exists|p: int|
            0 <= p < parts.len() && (#[trigger] parts[p]).contains(x),
    decreases parts.len(),
{
    if parts.len() > 0 {
        lemma_flat_contains(parts.drop_last(), x);
        let before = flat(parts.drop_last());
        let all = flat(parts);
        if all.contains(x) {
            let i = choose|i: int| 0 <= i < all.len() && all[i] == x;
            if i < before.len() {
                assert(before[i] == x);
                let p = choose|p: int|
                    0 <= p < parts.drop_last().len() && (
                    #[trigger] parts.drop_last()[p]).contains(x);
                assert(parts[p].contains(x));
            } else {
                assert(parts.last()[i - before.len()] == x);
                assert(parts[parts.len() - 1].contains(x));
            }
        }
        if exists|p: int| 0 <= p < parts.len() && (#[trigger] parts[p]).contains(x) {
            let p = choose|p: int| 0 <= p < parts.len() && (#[trigger] parts[p]).contains(x);
            if p < parts.len() - 1 {
                assert(parts.drop_last()[p].contains(x));
                let i = choose|i: int| 0 <= i < before.len() && before[i] == x;
                assert(all[i] == x);
            } else {
                let i = choose|i: int| 0 <= i < parts.last().len() && parts.last()[i] == x;
                assert(all[before.len() + i] == x);
            }
        }
    }
}

/// Whether parts hold nothing twice, each by itself and all together.
spec fn parts_apart(parts: Seq<Seq<usize>>) -> bool {
    &&& forall|p: int| 0 <= p < parts.len() ==> (#[trigger] parts[p]).no_duplicates()
    &&& forall|p: int, q: int, x: usize|
        0 <= p < q < parts.len() && #[trigger] parts[p].contains(x) ==> !
        #[trigger] parts[q].contains(x)
}

proof fn lemma_flat_distinct(parts: Seq<Seq<usize>>)
    requires
        parts_apart(parts),
    ensures
        flat(parts).no_duplicates(),
    decreases parts.len(),
{
    if parts.len() > 0 {
        let rest = parts.drop_last();
        assert(parts_apart(rest)) by {
            assert forall|p: int, q: int, x: usize|
                0 <= p < q < rest.len() && #[trigger] rest[p].contains(x) implies !
            #[trigger] rest[q].contains(x) by {
                assert(parts[p].contains(x));
                assert(!parts[q].contains(x));
            }
            assert forall|p: int| 0 <= p < rest.len() implies (
            #[trigger] rest[p]).no_duplicates() by {
                assert(parts[p].no_duplicates());
            }
        }
        lemma_flat_distinct(rest);
        let before = flat(rest);
        let last = parts.last();
        assert(parts[parts.len() - 1].no_duplicates());
        assert forall|i: int, j: int| 0 <= i < j < flat(parts).len() implies flat(parts)[i] != flat(
            parts,
        )[j] by {
            if i < before.len() && j >= before.len() {
                let x = before[i];
                assert(before.contains(x));
                lemma_flat_contains(rest, x);
                let p = choose|p: int| 0 <= p < rest.len() && (#[trigger] rest[p]).contains(x);
                assert(parts[p].contains(x));
                assert(!parts[parts.len() - 1].contains(x));
                assert(last[j - before.len()] != x);
            }
        }
    }
}

/// The items of a key, where the items are different: they are different, their
/// key is that key, and every item with that key is among them.
proof fn lemma_members(keys: Seq<Seq<char>>, items: Seq<usize>, k: Seq<char>)
    requires
        keys.len() == items.len(),
        items.no_duplicates(),
    ensures
        members(keys, items, k).no_duplicates(),
        forall|n: int|
            0 <= n < items.len() ==> (members(keys, items, k).contains(#[trigger] items[n])
                <==> keys[n] == k),
    decreases keys.len(),
{
    if keys.len() > 0 {
        let ks = keys.drop_last();
        let its = items.drop_last();
        lemma_members(ks, its, k);
        lemma_members_in(ks, its, k);
        let before = members(ks, its, k);
        let now = members(keys, items, k);
        let last = items.last();
        assert(!its.contains(last)) by {
            if its.contains(last) {
                let n = choose|n: int| 0 <= n < its.len() && its[n] == last;
                assert(items[n] == items[items.len() - 1]);
            }
        }
        assert(!before.contains(last)) by {
            if before.contains(last) {
                let j = choose|j: int| 0 <= j < before.len() && before[j] == last;
                assert(its.contains(before[j]));
            }
        }
        assert forall|n: int| 0 <= n < items.len() implies (now.contains(#[trigger] items[n]) <==> keys[n]
            == k) by {
            if n < its.len() {
                assert(items[n] == its[n]);
                assert(its[n] != last) by {
                    assert(its.contains(its[n]));
                }
                if before.contains(its[n]) {
                    let j = choose|j: int| 0 <= j < before.len() && before[j] == its[n];
                    assert(now[j] == its[n]);
                }
                if now.contains(its[n]) {
                    let j = choose|j: int| 0 <= j < now.len() && now[j] == its[n];
                    assert(j < before.len());
                    assert(before[j] == its[n]);
                }
            } else if keys.last() == k {
                assert(now[now.len() - 1] == last);
            }
        }
    }
}

/// The sessions of a host are different, and they are the sessions on it.
pub proof fn lemma_host_members(s: Seq<SessionInfo>, host: Seq<char>)
    requires
        s.len() <= usize::MAX,
    ensures
        valid_group(s, host_members(s, host)),
        host_members(s, host).no_duplicates(),
        forall|i: usize|
            host_members(s, host).contains(i) <==> i < s.len() && (
            #[trigger] s[i as int]).host@ == host,
{
    let all = all_indices(s.len());
    let m = host_members(s, host);
    lemma_members(hosts_of(s), all, host);
    lemma_members_in(hosts_of(s), all, host);
    assert forall|i: usize|
        host_members(s, host).contains(i) <==> i < s.len() && (
        #[trigger] s[i as int]).host@ == host by {
        if m.contains(i) {
            let j = choose|j: int| 0 <= j < m.len() && m[j] == i;
            assert(all.contains(m[j]));
            let n = choose|n: int| 0 <= n < all.len() && all[n] == i;
            assert(all[n] == n);
        }
        if i < s.len() {
            assert(all[i as int] == i);
        }
    }
    assert forall|k: int| 0 <= k < m.len() implies #[trigger] m[k] < s.len() by {
        assert(m.contains(m[k]));
        assert(s[m[k] as int] == s[m[k] as int]);
    }
}

/// The sessions of a group that work in one directory.
proof fn lemma_cwd_members(s: Seq<SessionInfo>, idx: Seq<usize>, cwd: Seq<char>)
    requires
        idx.no_duplicates(),
    ensures
        members(cwds(s, idx), idx, cwd).no_duplicates(),
        forall|i: usize|
            #![trigger members(cwds(s, idx), idx, cwd).contains(i)]
            members(cwds(s, idx), idx, cwd).contains(i) <==> idx.contains(i)
                && s[i as int].working_dir@ == cwd,
{
    let keys = cwds(s, idx);
    let m = members(keys, idx, cwd);
    lemma_members(keys, idx, cwd);
    lemma_members_in(keys, idx, cwd);
    assert forall|i: usize|
        #![trigger m.contains(i)]
        m.contains(i) <==> idx.contains(i) && s[i as int].working_dir@ == cwd by {
        if m.contains(i) {
            let j = choose|j: int| 0 <= j < m.len() && m[j] == i;
            assert(idx.contains(m[j]));
        }
        if idx.contains(i) {
            let n = choose|n: int| 0 <= n < idx.len() && idx[n] == i;
            assert(keys[n] == s[i as int].working_dir@);
            assert(m.contains(idx[n]) <==> keys[n] == cwd);
        }
    }
}

/// Sorting keeps the groups of a list.
proof fn lemma_sort_placed(list: Seq<(usize, GroupView)>)
    ensures
        sort_placed(list).len() == list.len(),
        forall|g: (usize, GroupView)|
            #![trigger list.contains(g)]
            #![trigger sort_placed(list).contains(g)]
            sort_placed(list).contains(g) <==> list.contains(g),
    decreases list.len(),
{
    if list.len() > 0 {
        let rest = sort_placed(list.drop_last());
        let it = list.last();
        lemma_sort_placed(list.drop_last());
        lemma_placed_slot(rest, it);
        let at = placed_slot(rest, it) as int;
        let now = sort_placed(list);
        assert(now == rest.insert(at, it));
        assert forall|g: (usize, GroupView)|
            #![trigger list.contains(g)]
            now.contains(g) <==> list.contains(g) by {
            if now.contains(g) {
                let i = choose|i: int| 0 <= i < now.len() && now[i] == g;
                if i == at {
                    assert(list[list.len() - 1] == g);
                } else {
                    if i < at {
                        assert(rest[i] == g);
                    } else {
                        assert(rest[i - 1] == g);
                    }
                    assert(rest.contains(g));
                    assert(list.drop_last().contains(g));
                    let n = choose|n: int|
                        0 <= n < list.drop_last().len() && list.drop_last()[n] == g;
                    assert(list[n] == g);
                }
            }
            if list.contains(g) {
                let n = choose|n: int| 0 <= n < list.len() && list[n] == g;
                if n == list.len() - 1 {
                    assert(now[at] == g);
                } else {
                    assert(list.drop_last()[n] == g);
                    assert(list.drop_last().contains(g));
                    let i = choose|i: int| 0 <= i < rest.len() && rest[i] == g;
                    if i < at {
                        assert(now[i] == g);
                    } else {
                        assert(now[i + 1] == g);
                    }
                }
            }
        }
    }
}

proof fn lemma_placed_slot(list: Seq<(usize, GroupView)>, g: (usize, GroupView))
    ensures
        placed_slot(list, g) <= list.len(),
    decreases list.len(),
{
    if list.len() > 0 && placed_lt(g, list.last()) {
        lemma_placed_slot(list.drop_last(), g);
    }
}

/// As many rows as a group has sessions leave none out.
pub proof fn lemma_full_rows(rows: Seq<SessionRow>, group: Seq<usize>, i: usize)
    requires
        rows_of_group(rows, group),
        rows.len() >= group.len(),
        group.contains(i),
    ensures
        has_row(rows, i),
{
    let shown = row_indices(rows);
    assert(shown.no_duplicates());
    shown.unique_seq_to_set();
    group.lemma_cardinality_of_set();
    vstd::seq_lib::seq_to_set_is_finite(shown);
    vstd::seq_lib::seq_to_set_is_finite(group);
    assert(shown.to_set().subset_of(group.to_set())) by {
        assert forall|x: usize| shown.to_set().contains(x) implies group.to_set().contains(x) by {
            let k = choose|k: int| 0 <= k < shown.len() && shown[k] == x;
            assert(group.contains(rows[k].session_index));
        }
    }
    vstd::set_lib::lemma_len_subset(shown.to_set(), group.to_set());
    vstd::set_lib::lemma_subset_equality(shown.to_set(), group.to_set());
    assert(group.to_set().contains(i));
    assert(shown.contains(i));
    let k = choose|k: int| 0 <= k < shown.len() && shown[k] == i;
    assert(rows[k].session_index == i);
}

/// A session that has a row, or waits for one, has one in the end.
proof fn lemma_walk_covers(
    sessions: Seq<SessionInfo>,
    group: Seq<usize>,
    expanded: Set<Seq<char>>,
    rows: Seq<SessionRow>,
    waiting: Seq<(usize, usize)>,
    i: usize,
)
    requires
        rows_of_group(rows, group),
        waits_in_group(waiting, group),
        has_row(rows, i) || exists|k: int| 0 <= k < waiting.len() && (#[trigger] waiting[k]).0 == i,
    ensures
        has_row(walk(sessions, group, expanded, rows, waiting), i),
    decreases group.len() - rows.len(), waiting.len(),
{
    if waiting.len() == 0 {
    } else if rows.len() >= group.len() {
        if !has_row(rows, i) {
            let k = choose|k: int| 0 <= k < waiting.len() && (#[trigger] waiting[k]).0 == i;
            assert(group.contains(waiting[k].0));
            lemma_full_rows(rows, group, i);
        }
    } else {
        let (j, depth) = waiting.last();
        let rest = waiting.drop_last();
        assert(group.contains(waiting[waiting.len() - 1].0));
        assert(waits_in_group(rest, group));
        let waits = exists|k: int| 0 <= k < waiting.len() && (#[trigger] waiting[k]).0 == i;
        if waits && j != i {
            let k = choose|k: int| 0 <= k < waiting.len() && (#[trigger] waiting[k]).0 == i;
            assert(rest[k].0 == i);
        }
        if has_row(rows, j) {
            lemma_walk_covers(sessions, group, expanded, rows, rest, i);
        } else {
            let row = row_of(sessions, group, expanded, j, depth);
            let grown = rows.push(row);
            assert(rows_of_group(grown, group)) by {
                assert forall|a: int, b: int| 0 <= a < b < grown.len() implies (
                #[trigger] grown[a]).session_index != (#[trigger] grown[b]).session_index by {
                    assert(rows[a] == grown[a]);
                }
            }
            if has_row(rows, i) {
                let k = choose|k: int| 0 <= k < rows.len() && (#[trigger] rows[k]).session_index == i;
                assert(grown[k].session_index == i);
            }
            if j == i {
                assert(grown[grown.len() - 1].session_index == i);
            }
            if row.is_expanded {
                let id = sessions[j as int].id@;
                let deeper = (depth + 1) as usize;
                lemma_pile_in_group(
                    sessions,
                    group,
                    |i: usize| is_under(sessions, group, i, id),
                    deeper,
                );
                let more = pile(under(sessions, group, id), deeper);
                assert forall|k: int| 0 <= k < (rest + more).len() implies group.contains(
                    (#[trigger] (rest + more)[k]).0,
                ) by {
                    if k < rest.len() {
                        assert((rest + more)[k] == rest[k]);
                    } else {
                        assert((rest + more)[k] == more[k - rest.len()]);
                    }
                }
                if waits && j != i {
                    let k = choose|k: int| 0 <= k < rest.len() && (#[trigger] rest[k]).0 == i;
                    assert((rest + more)[k].0 == i);
                }
                lemma_walk_covers(sessions, group, expanded, grown, rest + more, i);
            } else {
                lemma_walk_covers(sessions, group, expanded, grown, rest, i);
            }
        }
    }
}

/// A session of a group whose parent is not in the group has a row.
pub proof fn law_tops_have_rows(
    sessions: Seq<SessionInfo>,
    group: Seq<usize>,
    expanded: Set<Seq<char>>,
    i: usize,
)
    requires
        group.contains(i),
        is_top(sessions, group, i),
    ensures
        has_row(group_rows(sessions, group, expanded), i),
{
    let selected = |i: usize| is_top(sessions, group, i);
    let chosen = group.filter(selected);
    let sorted = tops(sessions, group);
    let at = choose|n: int| 0 <= n < group.len() && group[n] == i;
    group.lemma_filter_contains(selected, at);
    lemma_sort_siblings_contains(sessions, chosen, i);
    let n = choose|n: int| 0 <= n < sorted.len() && sorted[n] == i;
    let waiting = pile(sorted, 0);
    assert(waiting[sorted.len() - 1 - n].0 == i);
    lemma_pile_in_group(sessions, group, selected, 0);
    lemma_walk_covers(sessions, group, expanded, Seq::empty(), waiting, i);
}

/// The sessions listed for a host.
proof fn lemma_host_part(
    s: Seq<SessionInfo>,
    idx: Seq<usize>,
    expanded: Set<Seq<char>>,
)
    requires
        idx.no_duplicates(),
    ensures
        flat(group_parts(cwd_groups(s, idx, expanded))).no_duplicates(),
        forall|i: usize|
            #![trigger idx.contains(i)]
            flat(group_parts(cwd_groups(s, idx, expanded))).contains(i) ==> idx.contains(i),
        forall|i: usize|
            #![trigger idx.contains(i)]
            idx.contains(i) && s[i as int].parent_id is None ==> flat(
                group_parts(cwd_groups(s, idx, expanded)),
            ).contains(i),
{
    let keys = cwds(s, idx);
    let paths = firsts(keys);
    let placed = placed_groups(s, idx, expanded);
    let groups = cwd_groups(s, idx, expanded);
    let sorted = sort_placed(placed);
    let parts = group_parts(groups);
    lemma_firsts(keys);
    lemma_placed_apart(s, idx, expanded);
    lemma_sort_placed_apart(placed);
    lemma_sort_placed(placed);
    assert(parts =~= placed_parts(sorted));
    lemma_flat_distinct(parts);
    assert forall|i: usize|
        #![trigger idx.contains(i)]
        flat(parts).contains(i) implies idx.contains(i) by {
        lemma_flat_contains(parts, i);
        let p = choose|p: int| 0 <= p < parts.len() && (#[trigger] parts[p]).contains(i);
        assert(sorted.contains(sorted[p]));
        assert(placed.contains(sorted[p]));
        let g = choose|g: int| 0 <= g < placed.len() && placed[g] == sorted[p];
        lemma_placed_row(s, idx, expanded, g, i);
    }
    assert forall|i: usize|
        #![trigger idx.contains(i)]
        idx.contains(i) && s[i as int].parent_id is None implies flat(parts).contains(i) by {
        let n = choose|n: int| 0 <= n < idx.len() && idx[n] == i;
        assert(keys[n] == s[i as int].working_dir@);
        assert(keys.contains(keys[n]));
        let g = choose|g: int| 0 <= g < paths.len() && paths[g] == keys[n];
        let group = members(keys, idx, paths[g]);
        lemma_cwd_members(s, idx, paths[g]);
        assert(group.contains(i));
        law_tops_have_rows(s, group, expanded, i);
        let rows = placed[g].1.rows;
        let k = choose|k: int| 0 <= k < rows.len() && (#[trigger] rows[k]).session_index == i;
        assert(row_indices(rows)[k] == i);
        assert(placed.contains(placed[g]));
        assert(sorted.contains(placed[g]));
        let p = choose|p: int| 0 <= p < sorted.len() && sorted[p] == placed[g];
        assert(parts[p] == row_indices(rows));
        assert(parts[p].contains(i));
        lemma_flat_contains(parts, i);
    }
}

/// The sessions of each placed group.
spec fn placed_parts(list: Seq<(usize, GroupView)>) -> Seq<Seq<usize>> {
    Seq::new(list.len(), |g: int| row_indices(list[g].1.rows))
}

/// A session in a row of a placed group works in the directory of the group.
proof fn lemma_placed_row(
    s: Seq<SessionInfo>,
    idx: Seq<usize>,
    expanded: Set<Seq<char>>,
    g: int,
    i: usize,
)
    requires
        idx.no_duplicates(),
        0 <= g < placed_groups(s, idx, expanded).len(),
        row_indices(placed_groups(s, idx, expanded)[g].1.rows).contains(i),
    ensures
        idx.contains(i),
        s[i as int].working_dir@ == firsts(cwds(s, idx))[g],
{
    let cwd = firsts(cwds(s, idx))[g];
    let group = members(cwds(s, idx), idx, cwd);
    let rows = group_rows(s, group, expanded);
    law_rows_are_members(s, group, expanded);
    lemma_cwd_members(s, idx, cwd);
    let k = choose|k: int| 0 <= k < row_indices(rows).len() && row_indices(rows)[k] == i;
    assert(group.contains(rows[k].session_index));
}

proof fn lemma_placed_apart(s: Seq<SessionInfo>, idx: Seq<usize>, expanded: Set<Seq<char>>)
    requires
        idx.no_duplicates(),
    ensures
        parts_apart(placed_parts(placed_groups(s, idx, expanded))),
{
    let placed = placed_groups(s, idx, expanded);
    let parts = placed_parts(placed);
    let paths = firsts(cwds(s, idx));
    lemma_firsts(cwds(s, idx));
    assert forall|p: int| 0 <= p < parts.len() implies (#[trigger] parts[p]).no_duplicates() by {
        law_rows_are_members(s, members(cwds(s, idx), idx, paths[p]), expanded);
    }
    assert forall|p: int, q: int, x: usize|
        0 <= p < q < parts.len() && #[trigger] parts[p].contains(x) implies !
    #[trigger] parts[q].contains(x) by {
        lemma_placed_row(s, idx, expanded, p, x);
        if parts[q].contains(x) {
            lemma_placed_row(s, idx, expanded, q, x);
        }
    }
}

/// Sorting keeps groups apart.
proof fn lemma_sort_placed_apart(list: Seq<(usize, GroupView)>)
    requires
        parts_apart(placed_parts(list)),
    ensures
        parts_apart(placed_parts(sort_placed(list))),
    decreases list.len(),
{
    if list.len() > 0 {
        let head = list.drop_last();
        let it = list.last();
        let hp = placed_parts(head);
        let lp = placed_parts(list);
        assert(parts_apart(hp)) by {
            assert forall|p: int| 0 <= p < hp.len() implies (#[trigger] hp[p]).no_duplicates() by {
                assert(hp[p] == lp[p]);
            }
            assert forall|p: int, q: int, x: usize|
                0 <= p < q < hp.len() && #[trigger] hp[p].contains(x) implies !
            #[trigger] hp[q].contains(x) by {
                assert(lp[p].contains(x));
                assert(!lp[q].contains(x));
            }
        }
        lemma_sort_placed_apart(head);
        lemma_sort_placed(head);
        let rest = sort_placed(head);
        let at = placed_slot(rest, it) as int;
        lemma_placed_slot(rest, it);
        let now = sort_placed(list);
        assert(now == rest.insert(at, it));
        let np = placed_parts(now);
        let rp = placed_parts(rest);
        let mine = row_indices(it.1.rows);
        assert(np =~= rp.insert(at, mine));
        assert(lp[lp.len() - 1] == mine);
        assert forall|p: int, x: usize| 0 <= p < rp.len() && #[trigger] rp[p].contains(x) implies !mine.contains(x) by {
            assert(rest.contains(rest[p]));
            assert(head.contains(rest[p]));
            let n = choose|n: int| 0 <= n < head.len() && head[n] == rest[p];
            assert(lp[n].contains(x));
            assert(!lp[lp.len() - 1].contains(x));
        }
        assert forall|p: int| 0 <= p < np.len() implies (#[trigger] np[p]).no_duplicates() by {
            if p < at {
                assert(np[p] == rp[p]);
            } else if p > at {
                assert(np[p] == rp[p - 1]);
            }
        }
        assert forall|p: int, q: int, x: usize|
            0 <= p < q < np.len() && #[trigger] np[p].contains(x) implies !
        #[trigger] np[q].contains(x) by {
            let a = if p < at {
                p
            } else {
                p - 1
            };
            let b = if q < at {
                q
            } else {
                q - 1
            };
            if p != at {
                assert(np[p] == rp[a]);
                assert(rp[a].contains(x));
            }
            if q != at {
                assert(np[q] == rp[b]);
            }
            if np[q].contains(x) {
                if p == at {
                    assert(rp[b].contains(x));
                } else if q != at {
                    assert(!rp[b].contains(x));
                }
            }
        }
    }
}

/// No session is listed twice, and what is listed are sessions.
pub proof fn law_listed_once(s: Seq<SessionInfo>, expanded: Set<Seq<char>>)
    requires
        s.len() <= usize::MAX,
    ensures
        ordered(s, expanded).no_duplicates(),
        forall|k: int|
            0 <= k < ordered(s, expanded).len() ==> #[trigger] ordered(s, expanded)[k] < s.len(),
{
    let names = firsts(hosts_of(s));
    let parts = host_parts(host_groups(s, expanded));
    lemma_firsts(hosts_of(s));
    assert forall|p: int| 0 <= p < parts.len() implies (#[trigger] parts[p]).no_duplicates() by {
        lemma_host_members(s, names[p]);
        lemma_host_part(s, host_members(s, names[p]), expanded);
    }
    assert forall|p: int, q: int, x: usize|
        0 <= p < q < parts.len() && #[trigger] parts[p].contains(x) implies !
    #[trigger] parts[q].contains(x) by {
        lemma_listed_on(s, expanded, p, x);
        if parts[q].contains(x) {
            lemma_listed_on(s, expanded, q, x);
        }
    }
    lemma_flat_distinct(parts);
    assert forall|k: int| 0 <= k < ordered(s, expanded).len() implies #[trigger] ordered(
        s,
        expanded,
    )[k] < s.len() by {
        let x = ordered(s, expanded)[k];
        assert(flat(parts).contains(x));
        lemma_flat_contains(parts, x);
        let p = choose|p: int| 0 <= p < parts.len() && (#[trigger] parts[p]).contains(x);
        lemma_listed_on(s, expanded, p, x);
    }
}

/// A session listed for a host is on that host.
proof fn lemma_listed_on(s: Seq<SessionInfo>, expanded: Set<Seq<char>>, h: int, i: usize)
    requires
        s.len() <= usize::MAX,
        0 <= h < host_groups(s, expanded).len(),
        host_parts(host_groups(s, expanded))[h].contains(i),
    ensures
        i < s.len(),
        s[i as int].host@ == firsts(hosts_of(s))[h],
{
    let host = firsts(hosts_of(s))[h];
    let idx = host_members(s, host);
    lemma_host_members(s, host);
    lemma_host_part(s, idx, expanded);
    assert(idx.contains(i));
    assert(s[i as int] == s[i as int]);
}

/// A session without a parent is listed, whatever is expanded.
pub proof fn law_parentless_is_listed(s: Seq<SessionInfo>, expanded: Set<Seq<char>>, i: usize)
    requires
        s.len() <= usize::MAX,
        i < s.len(),
        s[i as int].parent_id is None,
    ensures
        ordered(s, expanded).contains(i),
{
    let names = firsts(hosts_of(s));
    let parts = host_parts(host_groups(s, expanded));
    lemma_firsts(hosts_of(s));
    assert(hosts_of(s)[i as int] == s[i as int].host@);
    assert(hosts_of(s).contains(s[i as int].host@));
    let h = choose|h: int| 0 <= h < names.len() && names[h] == s[i as int].host@;
    let idx = host_members(s, names[h]);
    lemma_host_members(s, names[h]);
    assert(idx.contains(i));
    lemma_host_part(s, idx, expanded);
    assert(parts[h].contains(i));
    lemma_flat_contains(parts, i);
}

// ---------------------------------------------------------------------------
// Lines
// ---------------------------------------------------------------------------

/// A line of the list and the session that it stands for, if any.
pub struct ListLine {
    pub spans: Vec<Span>,
    pub session: Option<usize>,
}

/// A line of the list as values.
#[verifier::ext_equal]
pub struct ListLineView {
    pub spans: Seq<SpanView>,
    pub session: Option<usize>,
}

impl View for ListLine {
    type V = ListLineView;

    open spec fn view(&self) -> ListLineView {
        ListLineView { spans: spans_of(self.spans@), session: self.session }
    }
}

/// The views of lines.
pub open spec fn list_lines(lines: Seq<ListLine>) -> Seq<ListLineView> {
    Seq::new(lines.len(), |k: int| lines[k]@)
}

/// Two blanks for each level.
pub open spec fn indent(depth: nat) -> Seq<char>
    decreases depth,
{
    if depth == 0 {
        Seq::empty()
    } else {
        indent((depth - 1) as nat) + "  "@
    }
}

/// What stands before the icon of a session: a triangle where it has children,
/// an arrow where it is one.
pub open spec fn row_prefix(depth: nat, has_children: bool, is_expanded: bool) -> Seq<char> {
    if has_children {
        indent(depth) + (if is_expanded {
            "▾"@
        } else {
            "▸"@
        }) + " "@
    } else if depth == 0 {
        "  "@
    } else {
        indent(depth) + "↳ "@
    }
}

/// The look of what stands before the icon.
pub open spec fn prefix_style(depth: nat, has_children: bool) -> Style {
    if depth == 0 && !has_children {
        plain()
    } else {
        colored(Color::DarkGray)
    }
}

/// The line of a host.
pub open spec fn host_line(host: Seq<char>, count: nat) -> ListLineView {
    ListLineView {
        spans: seq![styled("▼ "@ + host + " ("@ + decimal(count) + ")"@, bold(Color::Cyan))],
        session: None,
    }
}

/// The line of a group.
pub open spec fn group_line(label: Seq<char>) -> ListLineView {
    ListLineView {
        spans: seq![
            styled("  "@, plain()),
            styled("▾ "@ + label, colored(Color::DarkGray)),
        ],
        session: None,
    }
}

/// A number less ten, at least none.
pub open spec fn title_width(width: u16) -> nat {
    if width > 10 {
        (width - 10) as nat
    } else {
        0
    }
}

/// The line of a session in an area of a width.
pub open spec fn session_line(
    session: SessionInfo,
    row: SessionRow,
    marked: bool,
    width: u16,
) -> ListLineView {
    let prefix = "  "@ + row_prefix(row.depth as nat, row.has_children, row.is_expanded);
    let room = if title_width(width) > prefix.len() {
        (title_width(width) - prefix.len()) as nat
    } else {
        0
    };
    ListLineView {
        spans: seq![
            styled(prefix, prefix_style(row.depth as nat, row.has_children)),
            styled(icon_text(session.state), colored(state_color(session.state))),
            styled(" "@, plain()),
            if marked {
                styled("⚠ "@, colored(Color::Yellow))
            } else {
                styled("  "@, plain())
            },
            styled(shortened(session.title@, room), plain()),
        ],
        session: Some(row.session_index),
    }
}

/// The lines of the sessions of a group.
pub open spec fn row_lines(v: AppView, rows: Seq<SessionRow>, width: u16) -> Seq<ListLineView> {
    Seq::new(
        rows.len(),
        |k: int|
            {
                let session = v.sessions[rows[k].session_index as int];
                session_line(
                    session,
                    rows[k],
                    v.attention.contains(session.spec_key()),
                    width,
                )
            },
    )
}

/// The lines of groups.
pub open spec fn groups_lines(v: AppView, groups: Seq<GroupView>, width: u16) -> Seq<ListLineView>
    decreases groups.len(),
{
    if groups.len() == 0 {
        Seq::empty()
    } else {
        groups_lines(v, groups.drop_last(), width) + seq![group_line(groups.last().label)]
            + row_lines(v, groups.last().rows, width)
    }
}

/// The lines of hosts.
pub open spec fn hosts_lines(v: AppView, hosts: Seq<HostView>, width: u16) -> Seq<ListLineView>
    decreases hosts.len(),
{
    if hosts.len() == 0 {
        Seq::empty()
    } else {
        let h = hosts.last();
        hosts_lines(v, hosts.drop_last(), width) + seq![
            host_line(h.host, host_members(v.sessions, h.host).len()),
        ] + groups_lines(v, h.groups, width)
    }
}

/// The lines of the list.
pub open spec fn panel_lines(v: AppView, width: u16) -> Seq<ListLineView> {
    hosts_lines(v, host_groups(v.sessions, v.expanded), width)
}

/// Writes two blanks for each level.
fn indent_text(depth: usize) -> (r: String)
    ensures
        r@ == indent(depth as nat),
{
    let mut r = String::new();
    for k in 0..depth
        invariant
            r@ == indent(k as nat),
    {
        r.append("  ");
    }
    r
}

/// What stands before the icon of a session.
pub fn session_row_prefix(depth: usize, has_children: bool, is_expanded: bool) -> (r: String)
    ensures
        r@ == row_prefix(depth as nat, has_children, is_expanded),
{
    if has_children {
        let icon = if is_expanded {
            "▾"
        } else {
            "▸"
        };
        crate::text::concat3(indent_text(depth).as_str(), icon, " ")
    } else if depth == 0 {
        "  ".to_string()
    } else {
        concat2(indent_text(depth).as_str(), "↳ ")
    }
}

/// The look of what stands before the icon.
fn session_row_prefix_style(depth: usize, has_children: bool) -> (r: Style)
    ensures
        r == prefix_style(depth as nat, has_children),
{
    if depth == 0 && !has_children {
        Style { fg: None, bold: false }
    } else {
        Style { fg: Some(Color::DarkGray), bold: false }
    }
}

/// The icon and the colour of a state.
pub fn state_icon_color(state: &crate::types::SessionState) -> (r: (&'static str, Color))
    ensures
        r.0@ == icon_text(*state),
        r.1 == state_color(*state),
{
    (state.icon(), color_of_state(state))
}

/// The number of sessions on a host.
fn count_on_host(sessions: &Vec<SessionInfo>, host: &str) -> (r: usize)
    ensures
        r == host_members(sessions@, host@).len(),
{
    let mut count: usize = 0;
    let ghost keys = hosts_of(sessions@);
    let ghost all = all_indices(sessions@.len());
    for i in 0..sessions.len()
        invariant
            keys == hosts_of(sessions@),
            all == all_indices(sessions@.len()),
            count == members(keys.take(i as int), all.take(i as int), host@).len(),
            count <= i,
    {
        assert(keys.take(i + 1).drop_last() =~= keys.take(i as int));
        assert(all.take(i + 1).drop_last() =~= all.take(i as int));
        assert(keys.take(i + 1).last() == sessions@[i as int].host@);
        if str_eq(sessions[i].host.as_str(), host) {
            count = count + 1;
        }
    }
    assert(keys.take(keys.len() as int) =~= keys);
    assert(all.take(all.len() as int) =~= all);
    count
}

/// Adds a line to a list.
fn push_line(lines: &mut Vec<ListLine>, line: ListLine)
    ensures
        list_lines(final(lines)@) == list_lines(old(lines)@).push(line@),
{
    let ghost before = lines@;
    lines.push(line);
    assert(list_lines(lines@) =~= list_lines(before).push(line@));
}

/// The line of a session.
fn build_session_line(app: &App, row: SessionRow, area_width: u16) -> (r: ListLine)
    requires
        row.session_index < app.sessions@.len(),
    ensures
        r@ == session_line(
            app.sessions@[row.session_index as int],
            row,
            app@.attention.contains(app.sessions@[row.session_index as int].spec_key()),
            area_width,
        ),
{
    let session = &app.sessions[row.session_index];
    let (icon, color) = state_icon_color(&session.state);
    let marked = app.session_has_attention(session);
    let marker = if marked {
        colored_span("⚠ ".to_string(), Color::Yellow)
    } else {
        plain_span("  ".to_string())
    };
    let own = session_row_prefix(row.depth, row.has_children, row.is_expanded);
    let prefix = concat2("  ", own.as_str());
    let width: usize = if area_width > 10 {
        (area_width - 10) as usize
    } else {
        0
    };
    let used: usize = chars_of(prefix.as_str()).len();
    let room: usize = if width > used {
        width - used
    } else {
        0
    };
    let title = truncate(session.title.as_str(), room);
    let mut spans: Vec<Span> = Vec::new();
    spans.push(
        Span { text: prefix, style: session_row_prefix_style(row.depth, row.has_children) },
    );
    spans.push(colored_span(icon.to_string(), color));
    spans.push(plain_span(" ".to_string()));
    spans.push(marker);
    spans.push(plain_span(title));
    let r = ListLine { spans, session: Some(row.session_index) };
    assert(r@.spans =~= session_line(*session, row, marked, area_width).spans);
    r
}

/// The lines of the list, each with the session that it stands for.
pub fn build_session_items(app: &App, area_width: u16) -> (r: Vec<ListLine>)
    ensures
        list_lines(r@) == panel_lines(app@, area_width),
{
    let hosts = grouped_session_rows_by_host(
        app.sessions.as_slice(),
        &app.expanded_session_keys,
    );
    let ghost v = app@;
    let ghost hv = host_groups(v.sessions, v.expanded);
    let total: usize = app.sessions.len();
    proof {
        assert(total == v.sessions.len());
        law_rows_exist(v.sessions, v.expanded);
    }
    let mut lines: Vec<ListLine> = Vec::new();
    assert(list_lines(lines@) =~= hosts_lines(v, hv.take(0), area_width));
    for h in 0..hosts.len()
        invariant
            v == app@,
            hv == host_groups(v.sessions, v.expanded),
            host_views(hosts@) == hv,
            rows_exist(hv, v.sessions.len()),
            list_lines(lines@) == hosts_lines(v, hv.take(h as int), area_width),
    {
        assert(host_views(hosts@)[h as int] == hosts@[h as int]@);
        let count = count_on_host(&app.sessions, hosts[h].host.as_str());
        let text = concat5(
            "▼ ",
            hosts[h].host.as_str(),
            " (",
            number_text(count as u64).as_str(),
            ")",
        );
        let mut spans: Vec<Span> = Vec::new();
        spans.push(bold_span(text, Color::Cyan));
        let head = ListLine { spans, session: None };
        assert(head@ =~= host_line(hosts@[h as int].host@, count as nat)) by {
            assert(head@.spans =~= host_line(hosts@[h as int].host@, count as nat).spans);
        }
        push_line(&mut lines, head);
        let ghost start = list_lines(lines@);
        let groups = &hosts[h].groups;
        let ghost gv = group_views(groups@);
        assert(gv == hv[h as int].groups);
        assert(start + groups_lines(v, gv.take(0), area_width) =~= start);
        for g in 0..groups.len()
            invariant
                v == app@,
                gv == group_views(groups@),
                groups_exist(gv, v.sessions.len()),
                list_lines(lines@) == start + groups_lines(v, gv.take(g as int), area_width),
        {
            let ghost here = list_lines(lines@);
            assert(gv[g as int] == groups@[g as int]@);
            let mut spans: Vec<Span> = Vec::new();
            spans.push(plain_span("  ".to_string()));
            spans.push(
                colored_span(concat2("▾ ", groups[g].label.as_str()), Color::DarkGray),
            );
            let head = ListLine { spans, session: None };
            assert(head@ =~= group_line(groups@[g as int].label@)) by {
                assert(head@.spans =~= group_line(groups@[g as int].label@).spans);
            }
            push_line(&mut lines, head);
            let rows = &groups[g].session_rows;
            let ghost rl = row_lines(v, rows@, area_width);
            assert forall|k: int| 0 <= k < rows@.len() implies (#[trigger] rows@[k]).session_index
                < v.sessions.len() by {
                assert(gv[g as int].rows[k] == rows@[k]);
            }
            assert(list_lines(lines@) =~= here.push(head@) + rl.take(0));
            for k in 0..rows.len()
                invariant
                    v == app@,
                    forall|k: int|
                        0 <= k < rows@.len() ==> (#[trigger] rows@[k]).session_index
                            < v.sessions.len(),
                    rl == row_lines(v, rows@, area_width),
                    list_lines(lines@) == here.push(head@) + rl.take(k as int),
            {
                let line = build_session_line(app, rows[k], area_width);
                assert(line@ == rl[k as int]);
                push_line(&mut lines, line);
                assert(list_lines(lines@) =~= here.push(head@) + rl.take(k + 1));
            }
            assert(rl.take(rl.len() as int) =~= rl);
            assert(gv.take(g + 1).drop_last() =~= gv.take(g as int));
            assert(list_lines(lines@) =~= start + groups_lines(v, gv.take(g + 1), area_width));
        }
        assert(gv.take(gv.len() as int) =~= gv);
        assert(hv.take(h + 1).drop_last() =~= hv.take(h as int));
        assert(list_lines(lines@) =~= hosts_lines(v, hv.take(h + 1), area_width));
    }
    assert(hv.take(hv.len() as int) =~= hv);
    lines
}

/// Whether the rows of groups stand for existing sessions.
pub open spec fn groups_exist(groups: Seq<GroupView>, n: nat) -> bool {
    forall|g: int, k: int|
        0 <= g < groups.len() && 0 <= k < groups[g].rows.len() ==> (
        #[trigger] groups[g].rows[k]).session_index < n
}

/// Whether the rows of hosts stand for existing sessions.
pub open spec fn rows_exist(hosts: Seq<HostView>, n: nat) -> bool {
    forall|h: int| 0 <= h < hosts.len() ==> groups_exist((#[trigger] hosts[h]).groups, n)
}

/// Every row stands for an existing session.
pub proof fn law_rows_exist(s: Seq<SessionInfo>, expanded: Set<Seq<char>>)
    requires
        s.len() <= usize::MAX,
    ensures
        rows_exist(host_groups(s, expanded), s.len()),
{
    let hosts = host_groups(s, expanded);
    let parts = host_parts(hosts);
    assert forall|h: int| 0 <= h < hosts.len() implies groups_exist(
        (#[trigger] hosts[h]).groups,
        s.len(),
    ) by {
        let groups = hosts[h].groups;
        let gp = group_parts(groups);
        assert forall|g: int, k: int|
            0 <= g < groups.len() && 0 <= k < groups[g].rows.len() implies (
        #[trigger] groups[g].rows[k]).session_index < s.len() by {
            let i = groups[g].rows[k].session_index;
            assert(gp[g][k] == i);
            assert(gp[g].contains(i));
            lemma_flat_contains(gp, i);
            assert(parts[h].contains(i));
            lemma_listed_on(s, expanded, h, i);
        }
    }
}

// ---------------------------------------------------------------------------
// The panel
// ---------------------------------------------------------------------------

/// What the list panel shows.
pub enum ListPanel {
    /// A text in a colour.
    Note { text: String, color: Color },
    /// Lines, one of which may be highlighted.
    Lines { lines: Vec<ListLine>, highlighted: Option<usize> },
}

/// What the list panel shows as values.
#[verifier::ext_equal]
pub enum ListPanelView {
    Note { text: Seq<char>, color: Color },
    Lines { lines: Seq<ListLineView>, highlighted: Option<usize> },
}

impl View for ListPanel {
    type V = ListPanelView;

    open spec fn view(&self) -> ListPanelView {
        match *self {
            ListPanel::Note { text, color } => ListPanelView::Note { text: text@, color },
            ListPanel::Lines { lines, highlighted } => ListPanelView::Lines {
                lines: list_lines(lines@),
                highlighted,
            },
        }
    }
}

/// The first line from `from` on that stands for a session.
pub open spec fn line_of_session(lines: Seq<ListLineView>, i: usize, from: nat) -> Option<usize>
    decreases lines.len() - from,
{
    if from >= lines.len() {
        None
    } else if lines[from as int].session == Some(i) {
        Some(from as usize)
    } else {
        line_of_session(lines, i, from + 1)
    }
}

/// Whether a host was not polled with success yet.
pub open spec fn still_scanning(hosts: Seq<HostStatus>) -> bool {
    hosts.len() == 0 || exists|k: int|
        0 <= k < hosts.len() && (#[trigger] hosts[k]).last_poll_unix_ms is None
}

/// What the list panel shows in an area of a width.
pub open spec fn list_panel(v: AppView, width: u16) -> ListPanelView {
    if !v.connected {
        ListPanelView::Note { text: "⚠ Daemon disconnected"@, color: Color::Red }
    } else if v.sessions.len() == 0 {
        ListPanelView::Note {
            text: if still_scanning(v.hosts) {
                "Scanning hosts…\n\nSessions will appear as each host responds."@
            } else {
                "No sessions found\n\nStart OpenCode:\n  opencode --port 0"@
            },
            color: Color::DarkGray,
        }
    } else {
        let lines = panel_lines(v, width);
        ListPanelView::Lines { lines, highlighted: line_of_session(lines, v.selected, 0) }
    }
}

/// What the list panel shows in an area of a width.
pub fn render(app: &App, area_width: u16) -> (r: ListPanel)
    ensures
        r@ == list_panel(app@, area_width),
{
    if !app.daemon_connected {
        return ListPanel::Note { text: "⚠ Daemon disconnected".to_string(), color: Color::Red };
    }
    if app.sessions.len() == 0 {
        let mut scanning: bool = app.hosts.len() == 0;
        for k in 0..app.hosts.len()
            invariant
                scanning <==> app.hosts@.len() == 0 || exists|j: int|
                    0 <= j < k && (#[trigger] app.hosts@[j]).last_poll_unix_ms is None,
        {
            if app.hosts[k].last_poll_unix_ms.is_none() {
                assert(app.hosts@[k as int].last_poll_unix_ms is None);
                scanning = true;
            }
        }
        let text = if scanning {
            "Scanning hosts…\n\nSessions will appear as each host responds."
        } else {
            "No sessions found\n\nStart OpenCode:\n  opencode --port 0"
        };
        return ListPanel::Note { text: text.to_string(), color: Color::DarkGray };
    }
    let lines = build_session_items(app, area_width);
    let ghost lv = list_lines(lines@);
    let mut k: usize = 0;
    while k < lines.len()
        invariant
            k <= lines@.len(),
            lv == list_lines(lines@),
            line_of_session(lv, app.selected_index, 0) == line_of_session(
                lv,
                app.selected_index,
                k as nat,
            ),
            app@.connected,
            app@.sessions.len() > 0,
            lv == panel_lines(app@, area_width),
        decreases lines@.len() - k,
    {
        assert(lv[k as int].session == lines@[k as int].session);
        if lines[k].session == Some(app.selected_index) {
            return ListPanel::Lines { lines, highlighted: Some(k) };
        }
        k = k + 1;
    }
    ListPanel::Lines { lines, highlighted: None }
}

/// The sessions that lines stand for, from top to bottom.
pub open spec fn line_sessions(lines: Seq<ListLineView>) -> Seq<usize>
    decreases lines.len(),
{
    if lines.len() == 0 {
        Seq::empty()
    } else {
        match lines.last().session {
            Some(i) => line_sessions(lines.drop_last()).push(i),
            None => line_sessions(lines.drop_last()),
        }
    }
}

proof fn lemma_line_sessions_concat(a: Seq<ListLineView>, b: Seq<ListLineView>)
    ensures
        line_sessions(a + b) == line_sessions(a) + line_sessions(b),
    decreases b.len(),
{
    if b.len() == 0 {
        assert(a + b =~= a);
        assert(line_sessions(a) + line_sessions(b) =~= line_sessions(a));
    } else {
        lemma_line_sessions_concat(a, b.drop_last());
        assert((a + b).drop_last() =~= a + b.drop_last());
        assert((a + b).last() == b.last());
        assert(line_sessions(a + b) =~= line_sessions(a) + line_sessions(b));
    }
}

proof fn lemma_row_lines(v: AppView, rows: Seq<SessionRow>, width: u16)
    ensures
        line_sessions(row_lines(v, rows, width)) == row_indices(rows),
    decreases rows.len(),
{
    let l = row_lines(v, rows, width);
    if rows.len() > 0 {
        lemma_row_lines(v, rows.drop_last(), width);
        assert(l.drop_last() =~= row_lines(v, rows.drop_last(), width));
        assert(row_indices(rows) =~= row_indices(rows.drop_last()).push(rows.last().session_index));
    } else {
        assert(row_indices(rows) =~= Seq::<usize>::empty());
    }
}

proof fn lemma_groups_lines(v: AppView, groups: Seq<GroupView>, width: u16)
    ensures
        line_sessions(groups_lines(v, groups, width)) == flat(group_parts(groups)),
    decreases groups.len(),
{
    if groups.len() > 0 {
        let before = groups_lines(v, groups.drop_last(), width);
        let head = seq![group_line(groups.last().label)];
        let rows = row_lines(v, groups.last().rows, width);
        lemma_groups_lines(v, groups.drop_last(), width);
        lemma_line_sessions_concat(before, head);
        lemma_line_sessions_concat(before + head, rows);
        lemma_row_lines(v, groups.last().rows, width);
        assert(head.drop_last() =~= Seq::<ListLineView>::empty());
        assert(line_sessions(head) =~= Seq::<usize>::empty()) by {
            reveal_with_fuel(line_sessions, 2);
        }
        let parts = group_parts(groups);
        assert(parts.drop_last() =~= group_parts(groups.drop_last()));
        assert(line_sessions(before) + line_sessions(head) =~= line_sessions(before));
    }
}

proof fn lemma_hosts_lines(v: AppView, hosts: Seq<HostView>, width: u16)
    ensures
        line_sessions(hosts_lines(v, hosts, width)) == flat(host_parts(hosts)),
    decreases hosts.len(),
{
    if hosts.len() > 0 {
        let h = hosts.last();
        let before = hosts_lines(v, hosts.drop_last(), width);
        let head = seq![host_line(h.host, host_members(v.sessions, h.host).len())];
        let groups = groups_lines(v, h.groups, width);
        lemma_hosts_lines(v, hosts.drop_last(), width);
        lemma_line_sessions_concat(before, head);
        lemma_line_sessions_concat(before + head, groups);
        lemma_groups_lines(v, h.groups, width);
        assert(head.drop_last() =~= Seq::<ListLineView>::empty());
        assert(line_sessions(head) =~= Seq::<usize>::empty()) by {
            reveal_with_fuel(line_sessions, 2);
        }
        let parts = host_parts(hosts);
        assert(parts.drop_last() =~= host_parts(hosts.drop_last()));
        assert(line_sessions(before) + line_sessions(head) =~= line_sessions(before));
    }
}

/// The lines stand for the listed sessions, each once and in their order.
pub proof fn law_lines_follow_order(v: AppView, width: u16)
    ensures
        line_sessions(panel_lines(v, width)) == ordered(v.sessions, v.expanded),
{
    lemma_hosts_lines(v, host_groups(v.sessions, v.expanded), width);
}

proof fn lemma_session_has_line(lines: Seq<ListLineView>, i: usize)
    requires
        line_sessions(lines).contains(i),
    ensures
        exists|k: int| 0 <= k < lines.len() && (#[trigger] lines[k]).session == Some(i),
    decreases lines.len(),
{
    if lines.len() > 0 {
        let before = line_sessions(lines.drop_last());
        if lines.last().session == Some(i) {
            assert(lines[lines.len() - 1].session == Some(i));
        } else {
            let all = line_sessions(lines);
            let n = choose|n: int| 0 <= n < all.len() && all[n] == i;
            assert(before[n] == i);
            lemma_session_has_line(lines.drop_last(), i);
            let k = choose|k: int|
                0 <= k < lines.drop_last().len() && (
                #[trigger] lines.drop_last()[k]).session == Some(i);
            assert(lines[k].session == Some(i));
        }
    }
}

proof fn lemma_line_of_session(lines: Seq<ListLineView>, i: usize, from: nat)
    requires
        exists|k: int| from <= k < lines.len() && (#[trigger] lines[k]).session == Some(i),
        lines.len() <= usize::MAX,
    ensures
        line_of_session(lines, i, from) matches Some(k) && k < lines.len()
            && lines[k as int].session == Some(i),
    decreases lines.len() - from,
{
    let k = choose|k: int| from <= k < lines.len() && (#[trigger] lines[k]).session == Some(i);
    if lines[from as int].session != Some(i) {
        assert(from + 1 <= k);
        lemma_line_of_session(lines, i, from + 1);
    }
}

/// While a session is listed and the selection stands where it belongs, the
/// line of the selected session is the highlighted one.
pub proof fn law_selected_is_highlighted(v: AppView, width: u16)
    requires
        v.connected,
        v.listed().len() > 0,
        v.selection_shown(),
        v.sessions.len() > 0,
        panel_lines(v, width).len() <= usize::MAX,
    ensures
        list_panel(v, width) matches ListPanelView::Lines { lines, highlighted } && (
        highlighted matches Some(k) && k < lines.len() && lines[k as int].session == Some(
            v.selected,
        )),
{
    law_lines_follow_order(v, width);
    lemma_session_has_line(panel_lines(v, width), v.selected);
    lemma_line_of_session(panel_lines(v, width), v.selected, 0);
}

// ---------------------------------------------------------------------------
// Laws of order
// ---------------------------------------------------------------------------

/// The parent of a session is the first session on its host that has the ID which
/// the session names as its parent, and no parent itself; there is none only
/// where no session is like that, or the session names no parent.
pub proof fn law_parent_is_named(sessions: Seq<SessionInfo>, index: int)
    requires
        sessions.len() <= usize::MAX,
        0 <= index < sessions.len(),
    ensures
        match sessions[index].parent_id {
            None => parent_index(sessions, index) is None,
            Some(id) => match parent_index(sessions, index) {
                Some(p) => p < sessions.len() && sessions[p as int].id@ == id@
                    && sessions[p as int].host@ == sessions[index].host@
                    && sessions[p as int].parent_id is None && forall|j: int|
                    0 <= j < p && (#[trigger] sessions[j]).id@ == id@ && sessions[j].host@
                        == sessions[index].host@ ==> sessions[j].parent_id is Some,
                None => forall|j: int|
                    0 <= j < sessions.len() && (#[trigger] sessions[j]).id@ == id@
                        && sessions[j].host@ == sessions[index].host@ ==> sessions[j].parent_id
                        is Some,
            },
        },
{
    lemma_first_parent(sessions, sessions[index], 0);
    lemma_first_parent_is_first(sessions, sessions[index], 0);
}

proof fn lemma_first_parent_is_first(sessions: Seq<SessionInfo>, session: SessionInfo, from: nat)
    requires
        sessions.len() <= usize::MAX,
    ensures
        first_parent(sessions, session, from) matches Some(p) ==> forall|j: int|
            from <= j < p ==> !is_parent_of(#[trigger] sessions[j], session),
    decreases sessions.len() - from,
{
    if from < sessions.len() && !is_parent_of(sessions[from as int], session) {
        lemma_first_parent_is_first(sessions, session, from + 1);
    }
}

/// A session has children if and only if it has no parent and some session on its
/// host names it as its parent.
pub proof fn law_children_name_their_parent(sessions: Seq<SessionInfo>, index: int)
    requires
        0 <= index < sessions.len(),
    ensures
        has_children(sessions, index) <==> sessions[index].parent_id is None && exists|j: int|
            0 <= j < sessions.len() && (#[trigger] sessions[j]).parent_id is Some
                && sessions[j].parent_id->0@ == sessions[index].id@ && sessions[j].host@
                == sessions[index].host@,
{
    if exists|j: int|
        0 <= j < sessions.len() && (#[trigger] sessions[j]).parent_id is Some
            && sessions[j].parent_id->0@ == sessions[index].id@ && sessions[j].host@
            == sessions[index].host@ {
        let j = choose|j: int|
            0 <= j < sessions.len() && (#[trigger] sessions[j]).parent_id is Some
                && sessions[j].parent_id->0@ == sessions[index].id@ && sessions[j].host@
                == sessions[index].host@;
        assert(is_child_of(sessions[j], sessions[index]));
    }
}

/// Whether a session may stand above another: it was not updated earlier; of two
/// that were updated at the same time its title does not come later, and of two
/// with the same title its ID.
pub open spec fn may_stand_above(a: SessionInfo, b: SessionInfo) -> bool {
    &&& a.activity_age_secs <= b.activity_age_secs
    &&& a.activity_age_secs == b.activity_age_secs ==> a.title@ == b.title@ || text_lt(
        a.title@,
        b.title@,
    )
    &&& a.activity_age_secs == b.activity_age_secs && a.title@ == b.title@ ==> a.id@ == b.id@
        || text_lt(a.id@, b.id@)
}

proof fn lemma_may_stand_above(a: SessionInfo, b: SessionInfo)
    requires
        !sibling_lt(b, a),
    ensures
        may_stand_above(a, b),
{
    lemma_sibling_lt_pair(a, b, a);
}

/// Whether those sessions that `pick` picks out are in order: in rows from the
/// top, then among those that wait, the last of which is next.
spec fn picked_in_order(
    sessions: Seq<SessionInfo>,
    rows: Seq<SessionRow>,
    waiting: Seq<(usize, usize)>,
    pick: spec_fn(usize) -> bool,
) -> bool {
    &&& forall|a: int, b: int|
        0 <= a < b < rows.len() && pick((#[trigger] rows[a]).session_index) && pick(
            (#[trigger] rows[b]).session_index,
        ) ==> may_stand_above(
            sessions[rows[a].session_index as int],
            sessions[rows[b].session_index as int],
        )
    &&& forall|a: int, k: int|
        0 <= a < rows.len() && 0 <= k < waiting.len() && pick((#[trigger] rows[a]).session_index)
            && pick((#[trigger] waiting[k]).0) ==> may_stand_above(
            sessions[rows[a].session_index as int],
            sessions[waiting[k].0 as int],
        )
    &&& forall|k: int, l: int|
        0 <= k < l < waiting.len() && pick((#[trigger] waiting[k]).0) && pick(
            (#[trigger] waiting[l]).0,
        ) ==> may_stand_above(sessions[waiting[l].0 as int], sessions[waiting[k].0 as int])
}

proof fn lemma_walk_keeps_order(
    sessions: Seq<SessionInfo>,
    group: Seq<usize>,
    expanded: Set<Seq<char>>,
    rows: Seq<SessionRow>,
    waiting: Seq<(usize, usize)>,
)
    requires
        picked_in_order(sessions, rows, waiting, |i: usize| is_top(sessions, group, i)),
    ensures
        picked_in_order(
            sessions,
            walk(sessions, group, expanded, rows, waiting),
            Seq::empty(),
            |i: usize| is_top(sessions, group, i),
        ),
    decreases group.len() - rows.len(), waiting.len(),
{
    let pick = |i: usize| is_top(sessions, group, i);
    if waiting.len() == 0 || rows.len() >= group.len() {
    } else {
        let (i, depth) = waiting.last();
        let rest = waiting.drop_last();
        let end = waiting.len() - 1;
        assert(waiting[end].0 == i);
        assert(forall|k: int| 0 <= k < rest.len() ==> #[trigger] rest[k] == waiting[k]);
        if has_row(rows, i) {
            assert(picked_in_order(sessions, rows, rest, pick));
            lemma_walk_keeps_order(sessions, group, expanded, rows, rest);
        } else {
            let row = row_of(sessions, group, expanded, i, depth);
            let grown = rows.push(row);
            assert(forall|a: int| 0 <= a < rows.len() ==> #[trigger] grown[a] == rows[a]);
            assert(grown[rows.len() as int] == row);
            assert(picked_in_order(sessions, grown, rest, pick)) by {
                assert forall|a: int, b: int|
                    0 <= a < b < grown.len() && pick((#[trigger] grown[a]).session_index) && pick(
                        (#[trigger] grown[b]).session_index,
                    ) implies may_stand_above(
                    sessions[grown[a].session_index as int],
                    sessions[grown[b].session_index as int],
                ) by {
                    assert(grown[a] == rows[a]);
                    if b == rows.len() {
                        assert(pick(waiting[end].0));
                    }
                }
                assert forall|a: int, k: int|
                    0 <= a < grown.len() && 0 <= k < rest.len() && pick(
                        (#[trigger] grown[a]).session_index,
                    ) && pick((#[trigger] rest[k]).0) implies may_stand_above(
                    sessions[grown[a].session_index as int],
                    sessions[rest[k].0 as int],
                ) by {
                    assert(rest[k] == waiting[k]);
                    if a == rows.len() {
                        assert(pick(waiting[end].0));
                    }
                }
            }
            if row.is_expanded {
                let id = sessions[i as int].id@;
                let chosen = |i: usize| is_under(sessions, group, i, id);
                let deeper = (depth + 1) as usize;
                let children = under(sessions, group, id);
                let more = pile(children, deeper);
                assert forall|k: int| 0 <= k < more.len() implies !pick((#[trigger] more[k]).0) by {
                    let c = more[k].0;
                    assert(children.contains(c));
                    lemma_sort_siblings_contains(sessions, group.filter(chosen), c);
                    group.lemma_filter_contains_rev(chosen, c);
                    assert(is_under(sessions, group, c, id));
                    let n = choose|n: int|
                        0 <= n < group.len() && sessions[(#[trigger] group[n]) as int].id@ == id
                            && sessions[group[n] as int].parent_id is None;
                    assert(group_has_id(sessions, group, id));
                }
                let both = rest + more;
                assert(forall|k: int| 0 <= k < rest.len() ==> #[trigger] both[k] == rest[k]);
                assert(forall|k: int|
                    rest.len() <= k < both.len() ==> #[trigger] both[k] == more[k - rest.len()]);
                assert(picked_in_order(sessions, grown, both, pick)) by {
                    assert forall|k: int| rest.len() <= k < both.len() implies !pick(
                        (#[trigger] both[k]).0,
                    ) by {
                        assert(both[k] == more[k - rest.len()]);
                    }
                }
                lemma_walk_keeps_order(sessions, group, expanded, grown, both);
            } else {
                lemma_walk_keeps_order(sessions, group, expanded, grown, rest);
            }
        }
    }
}

/// Of two rows of a group whose sessions stand at its top, the upper one is that
/// of the session that was updated later; of sessions updated at the same time,
/// titles decide, then IDs.
pub proof fn law_tops_by_activity(
    sessions: Seq<SessionInfo>,
    group: Seq<usize>,
    expanded: Set<Seq<char>>,
    a: int,
    b: int,
)
    requires
        0 <= a < b < group_rows(sessions, group, expanded).len(),
        is_top(sessions, group, group_rows(sessions, group, expanded)[a].session_index),
        is_top(sessions, group, group_rows(sessions, group, expanded)[b].session_index),
    ensures
        ({
            let rows = group_rows(sessions, group, expanded);
            let x = sessions[rows[a].session_index as int];
            let y = sessions[rows[b].session_index as int];
            &&& x.activity_age_secs <= y.activity_age_secs
            &&& x.activity_age_secs == y.activity_age_secs ==> x.title@ == y.title@ || text_lt(
                x.title@,
                y.title@,
            )
            &&& x.activity_age_secs == y.activity_age_secs && x.title@ == y.title@ ==> x.id@
                == y.id@ || text_lt(x.id@, y.id@)
        }),
{
    let pick = |i: usize| is_top(sessions, group, i);
    let sorted = tops(sessions, group);
    let waiting = pile(sorted, 0);
    law_sort_siblings(sessions, group.filter(pick));
    assert(picked_in_order(sessions, Seq::empty(), waiting, pick)) by {
        assert forall|k: int, l: int|
            0 <= k < l < waiting.len() && pick((#[trigger] waiting[k]).0) && pick(
                (#[trigger] waiting[l]).0,
            ) implies may_stand_above(
            sessions[waiting[l].0 as int],
            sessions[waiting[k].0 as int],
        ) by {
            let n = sorted.len();
            assert(waiting[k].0 == sorted[n - 1 - k]);
            assert(waiting[l].0 == sorted[n - 1 - l]);
            lemma_may_stand_above(
                sessions[sorted[n - 1 - l] as int],
                sessions[sorted[n - 1 - k] as int],
            );
        }
    }
    lemma_walk_keeps_order(sessions, group, expanded, Seq::empty(), waiting);
    let rows = group_rows(sessions, group, expanded);
    assert(pick(rows[a].session_index) && pick(rows[b].session_index));
}

/// Sessions without parents are listed in the order in which they were last
/// updated, the latest first.
pub proof fn law_parentless_by_activity(
    sessions: Seq<SessionInfo>,
    group: Seq<usize>,
    expanded: Set<Seq<char>>,
    a: int,
    b: int,
)
    requires
        0 <= a < b < group_rows(sessions, group, expanded).len(),
        sessions[group_rows(sessions, group, expanded)[a].session_index as int].parent_id is None,
        sessions[group_rows(sessions, group, expanded)[b].session_index as int].parent_id is None,
    ensures
        sessions[group_rows(sessions, group, expanded)[a].session_index as int].activity_age_secs
            <= sessions[group_rows(
            sessions,
            group,
            expanded,
        )[b].session_index as int].activity_age_secs,
{
    law_tops_by_activity(sessions, group, expanded, a, b);
}

/// The position of a directory among rows is that of the first row whose session
/// works there; it is the greatest number if and only if there is none.
pub proof fn law_position_is_of_first_row(s: Seq<SessionInfo>, rows: Seq<SessionRow>, cwd: Seq<char>)
    requires
        rows.len() <= usize::MAX,
    ensures
        ({
            let p = cwd_position(s, rows, cwd);
            &&& p < usize::MAX ==> p < rows.len() && s[rows[p as int].session_index as int].working_dir@
                == cwd
            &&& forall|k: int|
                0 <= k < rows.len() && s[(
                #[trigger] rows[k]).session_index as int].working_dir@ == cwd ==> p <= k
        }),
    decreases rows.len(),
{
    if rows.len() > 0 {
        let head = rows.drop_last();
        law_position_is_of_first_row(s, head, cwd);
        let p = cwd_position(s, rows, cwd);
        if p < head.len() {
            assert(head[p as int] == rows[p as int]);
        }
        assert forall|k: int|
            0 <= k < rows.len() && s[(#[trigger] rows[k]).session_index as int].working_dir@
                == cwd implies p <= k by {
            if k < head.len() {
                assert(head[k] == rows[k]);
            }
        }
    }
}

proof fn lemma_placed_lt_order(
    a: (usize, GroupView),
    b: (usize, GroupView),
    c: (usize, GroupView),
)
    ensures
        placed_lt(a, b) ==> !placed_lt(b, a),
        !placed_lt(b, a) && !placed_lt(c, b) ==> !placed_lt(c, a),
{
    crate::text::lemma_text_lt_irreflexive(a.1.label);
    crate::text::lemma_text_lt_total(a.1.label, b.1.label);
    crate::text::lemma_text_lt_total(b.1.label, c.1.label);
    if text_lt(a.1.label, b.1.label) && text_lt(b.1.label, a.1.label) {
        crate::text::lemma_text_lt_transitive(a.1.label, b.1.label, a.1.label);
    }
    if text_lt(c.1.label, a.1.label) {
        if text_lt(a.1.label, b.1.label) {
            crate::text::lemma_text_lt_transitive(c.1.label, a.1.label, b.1.label);
        }
        if text_lt(b.1.label, c.1.label) {
            crate::text::lemma_text_lt_transitive(b.1.label, c.1.label, a.1.label);
        }
    }
}

spec fn placed_in_order(list: Seq<(usize, GroupView)>) -> bool {
    forall|a: int, b: int| 0 <= a < b < list.len() ==> !placed_lt(#[trigger] list[b], #[trigger] list[a])
}

proof fn lemma_placed_slot_splits(list: Seq<(usize, GroupView)>, g: (usize, GroupView))
    requires
        placed_in_order(list),
    ensures
        placed_slot(list, g) <= list.len(),
        forall|a: int| 0 <= a < placed_slot(list, g) ==> !placed_lt(g, #[trigger] list[a]),
        forall|a: int| placed_slot(list, g) <= a < list.len() ==> placed_lt(g, #[trigger] list[a]),
    decreases list.len(),
{
    if list.len() > 0 {
        let head = list.drop_last();
        let end = list.len() - 1;
        assert(forall|a: int| 0 <= a < end ==> #[trigger] head[a] == list[a]);
        if placed_lt(g, list.last()) {
            lemma_placed_slot_splits(head, g);
            assert forall|a: int| 0 <= a < placed_slot(list, g) implies !placed_lt(
                g,
                #[trigger] list[a],
            ) by {
                assert(head[a] == list[a]);
            }
            assert forall|a: int| placed_slot(list, g) <= a < list.len() implies placed_lt(
                g,
                #[trigger] list[a],
            ) by {
                if a < end {
                    assert(head[a] == list[a]);
                }
            }
        } else {
            assert forall|a: int| 0 <= a < list.len() implies !placed_lt(g, #[trigger] list[a]) by {
                if a < end {
                    assert(!placed_lt(list[end], list[a]));
                    lemma_placed_lt_order(list[a], list[end], g);
                }
            }
        }
    }
}

proof fn lemma_sort_placed_order(list: Seq<(usize, GroupView)>)
    ensures
        placed_in_order(sort_placed(list)),
    decreases list.len(),
{
    if list.len() > 0 {
        let rest = sort_placed(list.drop_last());
        let it = list.last();
        lemma_sort_placed_order(list.drop_last());
        lemma_placed_slot_splits(rest, it);
        let at = placed_slot(rest, it) as int;
        let now = sort_placed(list);
        assert forall|a: int, b: int| 0 <= a < b < now.len() implies !placed_lt(
            #[trigger] now[b],
            #[trigger] now[a],
        ) by {
            let a0 = if a < at {
                a
            } else {
                a - 1
            };
            let b0 = if b < at {
                b
            } else {
                b - 1
            };
            if a != at {
                assert(now[a] == rest[a0]);
            }
            if b != at {
                assert(now[b] == rest[b0]);
            }
            if a == at {
                assert(placed_lt(it, rest[b0]));
                lemma_placed_lt_order(it, rest[b0], it);
            }
        }
    }
}

/// The groups of a host are listed by their positions, the lesser one first, and
/// those at the same position by their labels.
pub proof fn law_groups_by_position_and_label(list: Seq<(usize, GroupView)>, a: int, b: int)
    requires
        0 <= a < b < sort_placed(list).len(),
    ensures
        sort_placed(list)[a].0 <= sort_placed(list)[b].0,
        sort_placed(list)[a].0 == sort_placed(list)[b].0 ==> !text_lt(
            sort_placed(list)[b].1.label,
            sort_placed(list)[a].1.label,
        ),
        sort_placed(list).len() == list.len(),
        list.contains(sort_placed(list)[a]),
{
    lemma_sort_placed_order(list);
    lemma_sort_placed(list);
    assert(sort_placed(list).contains(sort_placed(list)[a]));
    assert(!placed_lt(sort_placed(list)[b], sort_placed(list)[a]));
}

proof fn lemma_walk_is_short(
    sessions: Seq<SessionInfo>,
    group: Seq<usize>,
    expanded: Set<Seq<char>>,
    rows: Seq<SessionRow>,
    waiting: Seq<(usize, usize)>,
)
    requires
        rows.len() <= group.len(),
    ensures
        walk(sessions, group, expanded, rows, waiting).len() <= group.len(),
    decreases group.len() - rows.len(), waiting.len(),
{
    if waiting.len() > 0 && rows.len() < group.len() {
        let (i, depth) = waiting.last();
        let rest = waiting.drop_last();
        if has_row(rows, i) {
            lemma_walk_is_short(sessions, group, expanded, rows, rest);
        } else {
            let row = row_of(sessions, group, expanded, i, depth);
            let children = under(sessions, group, sessions[i as int].id@);
            if row.is_expanded {
                lemma_walk_is_short(
                    sessions,
                    group,
                    expanded,
                    rows.push(row),
                    rest + pile(children, (depth + 1) as usize),
                );
            } else {
                lemma_walk_is_short(sessions, group, expanded, rows.push(row), rest);
            }
        }
    }
}

/// The directory groups of a host are listed in the order of the host's own rows:
/// before each row of the host whose session works in the directory of a group,
/// there is one whose session works in the directory of any group listed above.
pub proof fn law_groups_follow_host_rows(
    s: Seq<SessionInfo>,
    idx: Seq<usize>,
    expanded: Set<Seq<char>>,
    a: int,
    b: int,
    q: int,
)
    requires
        idx.no_duplicates(),
        idx.len() <= usize::MAX,
        0 <= a < b < cwd_groups(s, idx, expanded).len(),
        cwd_groups(s, idx, expanded)[a].rows.len() > 0,
        cwd_groups(s, idx, expanded)[b].rows.len() > 0,
        0 <= q < group_rows(s, idx, expanded).len(),
        s[group_rows(s, idx, expanded)[q].session_index as int].working_dir@ == s[cwd_groups(
            s,
            idx,
            expanded,
        )[b].rows[0].session_index as int].working_dir@,
    ensures
        exists|p: int|
            0 <= p < q && s[(#[trigger] group_rows(s, idx, expanded)[p]).session_index as int].working_dir@
                == s[cwd_groups(s, idx, expanded)[a].rows[0].session_index as int].working_dir@,
{
    let keys = cwds(s, idx);
    let paths = firsts(keys);
    let placed = placed_groups(s, idx, expanded);
    let sorted = sort_placed(placed);
    let groups = cwd_groups(s, idx, expanded);
    let host_rows = group_rows(s, idx, expanded);
    lemma_walk_is_short(s, idx, expanded, Seq::empty(), pile(tops(s, idx), 0));
    lemma_firsts(keys);
    lemma_placed_apart(s, idx, expanded);
    lemma_sort_placed_apart(placed);
    lemma_sort_placed(placed);
    law_groups_by_position_and_label(placed, a, b);
    assert(groups[a] == sorted[a].1 && groups[b] == sorted[b].1);
    assert(sorted.contains(sorted[a]) && sorted.contains(sorted[b]));
    let ga = choose|g: int| 0 <= g < placed.len() && placed[g] == sorted[a];
    let gb = choose|g: int| 0 <= g < placed.len() && placed[g] == sorted[b];
    let fa = groups[a].rows[0].session_index;
    let fb = groups[b].rows[0].session_index;
    assert(row_indices(groups[a].rows)[0] == fa);
    assert(row_indices(groups[b].rows)[0] == fb);
    lemma_placed_row(s, idx, expanded, ga, fa);
    lemma_placed_row(s, idx, expanded, gb, fb);
    let parts = placed_parts(sorted);
    assert(parts[a] == row_indices(groups[a].rows) && parts[a].contains(fa));
    assert(parts[b] == row_indices(groups[b].rows));
    assert(!parts[b].contains(fa));
    assert(paths[ga] != paths[gb]) by {
        if paths[ga] == paths[gb] {
            assert(ga == gb);
        }
    }
    law_position_is_of_first_row(s, host_rows, paths[ga]);
    law_position_is_of_first_row(s, host_rows, paths[gb]);
    let p = sorted[a].0 as int;
    assert(sorted[b].0 <= q);
    assert(p <= q);
    assert(s[host_rows[p].session_index as int].working_dir@ == paths[ga]);
    assert(p != q);
}

proof fn lemma_walk_without_expansion(
    sessions: Seq<SessionInfo>,
    group: Seq<usize>,
    expanded: Set<Seq<char>>,
    rows: Seq<SessionRow>,
    waiting: Seq<(usize, usize)>,
)
    requires
        waits_in_group(waiting, group),
        forall|i: usize| #[trigger]
            group.contains(i) ==> !expanded.contains(sessions[i as int].spec_key()),
        forall|k: int|
            0 <= k < rows.len() ==> is_top(sessions, group, (#[trigger] rows[k]).session_index),
        forall|k: int| 0 <= k < waiting.len() ==> is_top(sessions, group, (#[trigger] waiting[k]).0),
    ensures
        forall|k: int|
            0 <= k < walk(sessions, group, expanded, rows, waiting).len() ==> is_top(
                sessions,
                group,
                (#[trigger] walk(sessions, group, expanded, rows, waiting)[k]).session_index,
            ),
    decreases group.len() - rows.len(), waiting.len(),
{
    let out = walk(sessions, group, expanded, rows, waiting);
    if waiting.len() == 0 || rows.len() >= group.len() {
        assert(out == rows);
    } else {
        let (i, depth) = waiting.last();
        let rest = waiting.drop_last();
        assert(waiting[waiting.len() - 1].0 == i);
        assert(group.contains(waiting[waiting.len() - 1].0));
        assert(forall|k: int| 0 <= k < rest.len() ==> #[trigger] rest[k] == waiting[k]);
        if has_row(rows, i) {
            lemma_walk_without_expansion(sessions, group, expanded, rows, rest);
            assert(out == walk(sessions, group, expanded, rows, rest));
        } else {
            let row = row_of(sessions, group, expanded, i, depth);
            assert(forall|k: int| 0 <= k < rows.len() ==> #[trigger] rows.push(row)[k] == rows[k]);
            assert(group.contains(i));
            assert(!row.is_expanded);
            lemma_walk_without_expansion(sessions, group, expanded, rows.push(row), rest);
            assert(out == walk(sessions, group, expanded, rows.push(row), rest));
        }
    }
}

/// Where no session of a host is expanded, of two of its directory groups whose
/// first sessions have no parents, the one whose first session was updated later
/// is listed above.
pub proof fn law_groups_by_activity(
    s: Seq<SessionInfo>,
    idx: Seq<usize>,
    expanded: Set<Seq<char>>,
    a: int,
    b: int,
)
    requires
        idx.no_duplicates(),
        idx.len() <= usize::MAX,
        forall|i: usize| #[trigger]
            idx.contains(i) ==> !expanded.contains(s[i as int].spec_key()),
        0 <= a < b < cwd_groups(s, idx, expanded).len(),
        cwd_groups(s, idx, expanded)[a].rows.len() > 0,
        cwd_groups(s, idx, expanded)[b].rows.len() > 0,
        s[cwd_groups(s, idx, expanded)[a].rows[0].session_index as int].parent_id is None,
        s[cwd_groups(s, idx, expanded)[b].rows[0].session_index as int].parent_id is None,
    ensures
        s[cwd_groups(s, idx, expanded)[a].rows[0].session_index as int].activity_age_secs
            <= s[cwd_groups(s, idx, expanded)[b].rows[0].session_index as int].activity_age_secs,
{
    let keys = cwds(s, idx);
    let paths = firsts(keys);
    let placed = placed_groups(s, idx, expanded);
    let sorted = sort_placed(placed);
    let groups = cwd_groups(s, idx, expanded);
    let host_rows = group_rows(s, idx, expanded);
    let pick = |i: usize| is_top(s, idx, i);
    let fa = groups[a].rows[0].session_index;
    let fb = groups[b].rows[0].session_index;
    lemma_sort_placed(placed);
    assert(groups[a] == sorted[a].1 && groups[b] == sorted[b].1);
    assert(sorted.contains(sorted[a]) && sorted.contains(sorted[b]));
    let ga = choose|g: int| 0 <= g < placed.len() && placed[g] == sorted[a];
    let gb = choose|g: int| 0 <= g < placed.len() && placed[g] == sorted[b];
    assert(row_indices(groups[a].rows)[0] == fa);
    assert(row_indices(groups[b].rows)[0] == fb);
    lemma_placed_row(s, idx, expanded, ga, fa);
    lemma_placed_row(s, idx, expanded, gb, fb);
    law_tops_have_rows(s, idx, expanded, fb);
    let q = choose|k: int|
        0 <= k < host_rows.len() && (#[trigger] host_rows[k]).session_index == fb;
    law_groups_follow_host_rows(s, idx, expanded, a, b, q);
    let p = choose|p: int|
        0 <= p < q && s[(#[trigger] host_rows[p]).session_index as int].working_dir@
            == s[fa as int].working_dir@;
    let x = host_rows[p].session_index;
    lemma_pile_in_group(s, idx, pick, 0);
    let sorted_tops = tops(s, idx);
    let waiting = pile(sorted_tops, 0);
    assert forall|k: int| 0 <= k < waiting.len() implies is_top(s, idx, (#[trigger] waiting[k]).0) by {
        let i = waiting[k].0;
        assert(sorted_tops.contains(i));
        lemma_sort_siblings_contains(s, idx.filter(pick), i);
        idx.lemma_filter_contains_rev(pick, i);
    }
    lemma_walk_without_expansion(s, idx, expanded, Seq::empty(), waiting);
    assert(is_top(s, idx, x));
    law_tops_by_activity(s, idx, expanded, p, q);
    let group = members(keys, idx, paths[ga]);
    lemma_cwd_members(s, idx, paths[ga]);
    law_rows_are_members(s, idx, expanded);
    assert(idx.contains(host_rows[p].session_index));
    assert(group.contains(x));
    assert(is_top(s, group, x)) by {
        if let Some(id) = s[x as int].parent_id {
            if group_has_id(s, group, id@) {
                let n = choose|n: int|
                    0 <= n < group.len() && s[(#[trigger] group[n]) as int].id@ == id@;
                assert(group.contains(group[n]));
                assert(idx.contains(group[n]));
                let m = choose|m: int| 0 <= m < idx.len() && idx[m] == group[n];
                assert(s[idx[m] as int].id@ == id@);
            }
        }
    }
    law_tops_have_rows(s, group, expanded, x);
    let rows = groups[a].rows;
    assert(rows == group_rows(s, group, expanded));
    let k = choose|k: int| 0 <= k < rows.len() && (#[trigger] rows[k]).session_index == x;
    if k > 0 {
        law_tops_by_activity(s, group, expanded, 0, k);
    }
}

/// Different texts are listed in the order in which they first occur: before each
/// occurrence of one there is one of any that is listed before.
pub proof fn law_firsts_in_order(keys: Seq<Seq<char>>, a: int, b: int, j: int)
    requires
        0 <= a < b < firsts(keys).len(),
        0 <= j < keys.len(),
        keys[j] == firsts(keys)[b],
    ensures
        exists|i: int| 0 <= i < j && #[trigger] keys[i] == firsts(keys)[a],
    decreases keys.len(),
{
    let head = keys.drop_last();
    let before = firsts(head);
    let now = firsts(keys);
    let end = keys.len() - 1;
    lemma_firsts(head);
    if before.contains(keys.last()) {
        let at = if j < end {
            j
        } else {
            assert(head.contains(keys.last()));
            choose|i: int| 0 <= i < head.len() && head[i] == keys.last()
        };
        assert(head[at] == now[b]);
        law_firsts_in_order(head, a, b, at);
        let i = choose|i: int| 0 <= i < at && #[trigger] head[i] == before[a];
        assert(keys[i] == now[a]);
    } else if b < before.len() {
        if j == end {
            assert(before[b] == keys.last());
            assert(before.contains(keys.last()));
        }
        assert(head[j] == before[b]);
        law_firsts_in_order(head, a, b, j);
        let i = choose|i: int| 0 <= i < j && #[trigger] head[i] == before[a];
        assert(keys[i] == now[a]);
    } else {
        if j < end {
            assert(head[j] == keys.last());
            assert(head.contains(keys.last()));
        }
        assert(before.contains(before[a]));
        assert(head.contains(before[a]));
        let i = choose|i: int| 0 <= i < head.len() && head[i] == before[a];
        assert(keys[i] == now[a]);
    }
}

/// Hosts are listed in the order of their first sessions, under their names, and
/// every host with a session is listed.
pub proof fn law_hosts_in_order(s: Seq<SessionInfo>, expanded: Set<Seq<char>>, a: int, b: int, j: int)
    requires
        0 <= a < b < host_groups(s, expanded).len(),
        0 <= j < s.len(),
        s[j].host@ == host_groups(s, expanded)[b].host,
    ensures
        exists|i: int| 0 <= i < j && (#[trigger] s[i]).host@ == host_groups(s, expanded)[a].host,
        forall|k: int|
            0 <= k < s.len() ==> exists|h: int|
                0 <= h < host_groups(s, expanded).len() && (#[trigger] host_groups(
                    s,
                    expanded,
                )[h]).host == (#[trigger] s[k]).host@,
{
    let keys = hosts_of(s);
    law_firsts_in_order(keys, a, b, j);
    let i = choose|i: int| 0 <= i < j && #[trigger] keys[i] == firsts(keys)[a];
    assert(s[i].host@ == keys[i]);
    lemma_firsts(keys);
    assert forall|k: int| 0 <= k < s.len() implies exists|h: int|
        0 <= h < host_groups(s, expanded).len() && (#[trigger] host_groups(s, expanded)[h]).host
            == (#[trigger] s[k]).host@ by {
        assert(keys[k] == s[k].host@);
        assert(keys.contains(keys[k]));
        let h = choose|h: int| 0 <= h < firsts(keys).len() && firsts(keys)[h] == keys[k];
        assert(host_groups(s, expanded)[h].host == s[k].host@);
    }
}

/// The parts of a list follow each other in their order.
pub proof fn law_parts_follow_each_other(parts: Seq<Seq<usize>>, k: int)
    requires
        0 <= k < parts.len(),
    ensures
        flat(parts) == flat(parts.take(k)) + parts[k] + flat(parts.skip(k + 1)),
    decreases parts.len(),
{
    if k == parts.len() - 1 {
        assert(parts.drop_last() =~= parts.take(k));
        assert(flat(parts.skip(k + 1)) =~= Seq::<usize>::empty());
        assert(flat(parts) =~= flat(parts.take(k)) + parts[k] + flat(parts.skip(k + 1)));
    } else {
        let head = parts.drop_last();
        law_parts_follow_each_other(head, k);
        assert(head.take(k) =~= parts.take(k));
        let tail = parts.skip(k + 1);
        assert(tail.drop_last() =~= head.skip(k + 1));
        assert(tail.last() == parts.last());
        assert(flat(parts) =~= flat(parts.take(k)) + parts[k] + flat(tail));
    }
}

proof fn lemma_least_depth(paths: Seq<Seq<char>>, from: nat, d: nat, max: nat)
    requires
        from <= d <= max,
        labels_differ(paths, d),
        forall|e: nat| from <= e < d ==> !#[trigger] labels_differ(paths, e),
    ensures
        label_depth(paths, from, max) == Some(d),
    decreases d - from,
{
    if from < d {
        assert(!labels_differ(paths, from));
        lemma_least_depth(paths, from + 1, d, max);
    }
}

/// The label of a path has as many of its last segments as it takes to tell the
/// paths apart and no more, with slashes between them; a path without segments
/// has the label of the root.
pub proof fn law_label_is_shortest(paths: Seq<Seq<char>>, path: Seq<char>, d: nat)
    requires
        1 <= d <= longest(paths),
        labels_differ(paths, d),
        forall|e: nat| 1 <= e < d ==> !#[trigger] labels_differ(paths, e),
    ensures
        ({
            let parts = path_parts(path);
            let label = label_among(paths, path);
            &&& parts.len() == 0 ==> label == "/"@
            &&& 0 < parts.len() <= d ==> label == join(parts, "/"@)
            &&& parts.len() > d ==> label == join(
                parts.subrange(parts.len() - d, parts.len() as int),
                "/"@,
            )
        }),
{
    lemma_least_depth(paths, 1, d, longest(paths));
    let parts = path_parts(path);
    if parts.len() > d {
        assert(parts.skip(parts.len() - d) =~= parts.subrange(
            parts.len() - d,
            parts.len() as int,
        ));
    } else {
        assert(parts.skip(0) =~= parts);
    }
}

// ---------------------------------------------------------------------------
// Laws of rows and lines
// ---------------------------------------------------------------------------

/// A session without a parent stands at the top of its group, and one with a
/// parent does if and only if no session of the group has the ID of the parent.
pub proof fn law_who_stands_at_the_top(sessions: Seq<SessionInfo>, group: Seq<usize>, i: usize)
    ensures
        sessions[i as int].parent_id is None ==> is_top(sessions, group, i),
        sessions[i as int].parent_id matches Some(p) ==> (is_top(sessions, group, i) <==> forall|
            k: int,
        |
            0 <= k < group.len() ==> sessions[(#[trigger] group[k]) as int].id@ != p@),
{
}

/// Under a session of a group stand those of the group that name its ID as their
/// parent, provided that a session with that ID has no parent itself.
pub proof fn law_who_stands_under(
    sessions: Seq<SessionInfo>,
    group: Seq<usize>,
    id: Seq<char>,
    i: usize,
)
    ensures
        under(sessions, group, id).contains(i) <==> group.contains(i) && (match sessions[i as int].parent_id {
            Some(p) => p@ == id,
            None => false,
        }) && exists|k: int|
            0 <= k < group.len() && sessions[(#[trigger] group[k]) as int].id@ == id
                && sessions[group[k] as int].parent_id is None,
{
    let chosen = |i: usize| is_under(sessions, group, i, id);
    lemma_sort_siblings_contains(sessions, group.filter(chosen), i);
    if group.contains(i) && is_under(sessions, group, i, id) {
        let at = choose|n: int| 0 <= n < group.len() && group[n] == i;
        group.lemma_filter_contains(chosen, at);
    }
    if group.filter(chosen).contains(i) {
        group.lemma_filter_contains_rev(chosen, i);
    }
}

/// A row tells whether some session stands under its own, and is expanded if and
/// only if one does and the user expanded the session.
pub proof fn law_row_tells_of_children(
    sessions: Seq<SessionInfo>,
    group: Seq<usize>,
    expanded: Set<Seq<char>>,
    i: usize,
    depth: usize,
)
    ensures
        ({
            let row = row_of(sessions, group, expanded, i, depth);
            &&& row.session_index == i
            &&& row.depth == depth
            &&& row.has_children <==> exists|c: usize| #[trigger]
                under(sessions, group, sessions[i as int].id@).contains(c)
            &&& row.is_expanded <==> row.has_children && expanded.contains(
                session_key(sessions[i as int].host@, sessions[i as int].id@),
            )
        }),
{
    let children = under(sessions, group, sessions[i as int].id@);
    if children.len() > 0 {
        assert(children.contains(children[0]));
    }
}

/// The lines of groups are those of each group in turn: its heading and then its
/// sessions.
pub proof fn law_group_lines_in_turn(
    v: AppView,
    g: GroupView,
    rest: Seq<GroupView>,
    width: u16,
)
    ensures
        groups_lines(v, Seq::empty(), width).len() == 0,
        groups_lines(v, seq![g] + rest, width) == seq![group_line(g.label)] + row_lines(
            v,
            g.rows,
            width,
        ) + groups_lines(v, rest, width),
    decreases rest.len(),
{
    let all = seq![g] + rest;
    if rest.len() == 0 {
        assert(all.drop_last() =~= Seq::<GroupView>::empty());
        assert(all.last() == g);
        assert(groups_lines(v, all.drop_last(), width) =~= Seq::<ListLineView>::empty());
        assert(groups_lines(v, all, width) =~= seq![group_line(g.label)] + row_lines(
            v,
            g.rows,
            width,
        ) + groups_lines(v, rest, width));
    } else {
        law_group_lines_in_turn(v, g, rest.drop_last(), width);
        assert(all.drop_last() =~= seq![g] + rest.drop_last());
        assert(all.last() == rest.last());
        assert(groups_lines(v, all, width) =~= seq![group_line(g.label)] + row_lines(
            v,
            g.rows,
            width,
        ) + groups_lines(v, rest, width));
    }
}

/// The lines of hosts are those of each host in turn: its heading, with the number
/// of its sessions, and then its groups.
pub proof fn law_host_lines_in_turn(v: AppView, h: HostView, rest: Seq<HostView>, width: u16)
    ensures
        hosts_lines(v, Seq::empty(), width).len() == 0,
        hosts_lines(v, seq![h] + rest, width) == seq![
            host_line(h.host, host_members(v.sessions, h.host).len()),
        ] + groups_lines(v, h.groups, width) + hosts_lines(v, rest, width),
    decreases rest.len(),
{
    let all = seq![h] + rest;
    let own = seq![host_line(h.host, host_members(v.sessions, h.host).len())] + groups_lines(
        v,
        h.groups,
        width,
    );
    if rest.len() == 0 {
        assert(all.drop_last() =~= Seq::<HostView>::empty());
        assert(all.last() == h);
        assert(hosts_lines(v, all.drop_last(), width) =~= Seq::<ListLineView>::empty());
        assert(hosts_lines(v, all, width) =~= own + hosts_lines(v, rest, width));
    } else {
        law_host_lines_in_turn(v, h, rest.drop_last(), width);
        assert(all.drop_last() =~= seq![h] + rest.drop_last());
        assert(all.last() == rest.last());
        assert(hosts_lines(v, all, width) =~= own + hosts_lines(v, rest, width));
    }
}

/// Each level is indented by two blanks.
pub proof fn law_two_blanks_a_level(depth: nat)
    ensures
        indent(depth).len() == 2 * depth,
        forall|k: int| 0 <= k < indent(depth).len() ==> #[trigger] indent(depth)[k] == ' ',
    decreases depth,
{
    reveal_strlit("  ");
    if depth > 0 {
        law_two_blanks_a_level((depth - 1) as nat);
    }
}

/// Before a session stands a triangle where it has children, which points down
/// where they are shown; an arrow where it is listed under another; else blanks.
pub proof fn law_marks_before_sessions(depth: nat, open: bool)
    ensures
        row_prefix(depth, true, true) == indent(depth) + "▾"@ + " "@,
        row_prefix(depth, true, false) == indent(depth) + "▸"@ + " "@,
        row_prefix(0, false, open) == "  "@,
        depth > 0 ==> row_prefix(depth, false, open) == indent(depth) + "↳ "@,
{
}

/// The heading of a host tells its name and a number, that of a group its label;
/// neither stands for a session.
pub proof fn law_headings(host: Seq<char>, count: nat, label: Seq<char>)
    ensures
        host_line(host, count).session is None,
        host_line(host, count).spans.len() == 1 && host_line(host, count).spans[0].text == "▼ "@
            + host + " ("@ + decimal(count) + ")"@,
        group_line(label).session is None,
        group_line(label).spans.len() == 2 && group_line(label).spans[1].text == "▾ "@ + label,
{
}

/// The line of a session shows its icon in the colour of its state, a warning
/// where it calls, and its title as far as there is room for it beside ten columns
/// and what stands before.
pub proof fn law_line_of_a_session(
    session: SessionInfo,
    row: SessionRow,
    marked: bool,
    width: u16,
)
    ensures
        ({
            let line = session_line(session, row, marked, width);
            let before = "  "@ + row_prefix(row.depth as nat, row.has_children, row.is_expanded);
            &&& line.session == Some(row.session_index)
            &&& line.spans.len() == 5
            &&& line.spans[0].text == before
            &&& line.spans[1].text == icon_text(session.state)
            &&& line.spans[1].style.fg == Some(state_color(session.state))
            &&& line.spans[2].text == " "@
            &&& marked ==> line.spans[3].text == "⚠ "@ && line.spans[3].style.fg == Some(
                Color::Yellow,
            )
            &&& !marked ==> line.spans[3].text == "  "@
            &&& 10 + before.len() + session.title@.len() <= width ==> line.spans[4].text
                == session.title@
            &&& 10 + before.len() < width ==> line.spans[4].text == shortened(
                session.title@,
                (width - 10 - before.len()) as nat,
            )
            &&& 10 + before.len() >= width ==> line.spans[4].text.len() == 0
        }),
{
    let line = session_line(session, row, marked, width);
    let before = "  "@ + row_prefix(row.depth as nat, row.has_children, row.is_expanded);
    if 10 + before.len() + session.title@.len() <= width {
        if session.title@.len() == 0 {
            assert(line.spans[4].text =~= session.title@);
        }
    }
}

/// A session is marked in the list if and only if it calls.
pub proof fn law_rows_have_lines(v: AppView, rows: Seq<SessionRow>, width: u16, k: int)
    requires
        0 <= k < rows.len(),
    ensures
        row_lines(v, rows, width).len() == rows.len(),
        row_lines(v, rows, width)[k] == session_line(
            v.sessions[rows[k].session_index as int],
            rows[k],
            v.attention.contains(
                session_key(
                    v.sessions[rows[k].session_index as int].host@,
                    v.sessions[rows[k].session_index as int].id@,
                ),
            ),
            width,
        ),
{
}

/// What the panel shows: a warning without the daemon; without sessions a note,
/// which says that hosts are being scanned as long as one of them was not polled
/// with success yet; else the lines of the list.
pub proof fn law_what_the_panel_shows(v: AppView, width: u16)
    ensures
        !v.connected ==> list_panel(v, width) == (ListPanelView::Note {
            text: "⚠ Daemon disconnected"@,
            color: Color::Red,
        }),
        v.connected && v.sessions.len() == 0 && (v.hosts.len() == 0 || exists|k: int|
            0 <= k < v.hosts.len() && (#[trigger] v.hosts[k]).last_poll_unix_ms is None)
            ==> list_panel(v, width) == (ListPanelView::Note {
            text: "Scanning hosts…\n\nSessions will appear as each host responds."@,
            color: Color::DarkGray,
        }),
        v.connected && v.sessions.len() == 0 && v.hosts.len() > 0 && (forall|k: int|
            0 <= k < v.hosts.len() ==> (#[trigger] v.hosts[k]).last_poll_unix_ms is Some)
            ==> list_panel(v, width) == (ListPanelView::Note {
            text: "No sessions found\n\nStart OpenCode:\n  opencode --port 0"@,
            color: Color::DarkGray,
        }),
        v.connected && v.sessions.len() > 0 ==> (list_panel(v, width) matches ListPanelView::Lines {
            lines,
            highlighted,
        } && lines == panel_lines(v, width)),
{
}

/// The items of a key are its items in turn.
pub proof fn law_members_in_turn(
    key: Seq<char>,
    item: usize,
    keys: Seq<Seq<char>>,
    items: Seq<usize>,
    k: Seq<char>,
)
    requires
        keys.len() == items.len(),
    ensures
        members(Seq::empty(), Seq::empty(), k).len() == 0,
        key == k ==> members(seq![key] + keys, seq![item] + items, k) == seq![item] + members(
            keys,
            items,
            k,
        ),
        key != k ==> members(seq![key] + keys, seq![item] + items, k) == members(keys, items, k),
    decreases keys.len(),
{
    let all_keys = seq![key] + keys;
    let all_items = seq![item] + items;
    if keys.len() == 0 {
        assert(all_keys.drop_last() =~= Seq::<Seq<char>>::empty());
        assert(all_keys.last() == key && all_items.last() == item);
        assert(members(all_keys.drop_last(), all_items.drop_last(), k) =~= Seq::<usize>::empty());
        if key == k {
            assert(members(all_keys, all_items, k) =~= seq![item] + members(keys, items, k));
        }
    } else {
        law_members_in_turn(key, item, keys.drop_last(), items.drop_last(), k);
        assert(all_keys.drop_last() =~= seq![key] + keys.drop_last());
        assert(all_items.drop_last() =~= seq![item] + items.drop_last());
        assert(all_keys.last() == keys.last() && all_items.last() == items.last());
        if key == k {
            assert(members(all_keys, all_items, k) =~= seq![item] + members(keys, items, k));
        }
    }
}

/// The sessions of a host are those that name it, and no others.
pub proof fn law_sessions_of_a_host(s: Seq<SessionInfo>, host: Seq<char>, i: usize)
    requires
        s.len() <= usize::MAX,
    ensures
        host_members(s, host).contains(i) <==> i < s.len() && s[i as int].host@ == host,
        host_members(s, host).no_duplicates(),
{
    lemma_host_members(s, host);
    let m = host_members(s, host);
    let keys = hosts_of(s);
    let items = all_indices(s.len());
    assert(items.no_duplicates());
    lemma_members(keys, items, host);
    lemma_members_in(keys, items, host);
    if m.contains(i) {
        let n = choose|n: int| 0 <= n < m.len() && m[n] == i;
        assert(items.contains(m[n]));
        let k = choose|k: int| 0 <= k < items.len() && items[k] == i;
        assert(m.contains(items[k]) <==> keys[k] == host);
    }
    if i < s.len() {
        assert(items[i as int] == i);
        assert(m.contains(items[i as int]) <==> keys[i as int] == host);
    }
}

/// What stands before a session is dark, unless it is blank.
pub proof fn law_marks_are_dark(depth: nat, has_children: bool)
    ensures
        depth == 0 && !has_children ==> prefix_style(depth, has_children).fg is None,
        depth > 0 || has_children ==> prefix_style(depth, has_children).fg == Some(Color::DarkGray),
{
}

/// The sessions under one are listed in the order in which they were last updated,
/// the latest first; of sessions updated at the same time, titles decide, then IDs.
pub proof fn law_children_by_activity(
    sessions: Seq<SessionInfo>,
    group: Seq<usize>,
    id: Seq<char>,
    a: int,
    b: int,
)
    requires
        0 <= a < b < under(sessions, group, id).len(),
    ensures
        ({
            let x = sessions[under(sessions, group, id)[a] as int];
            let y = sessions[under(sessions, group, id)[b] as int];
            &&& x.activity_age_secs <= y.activity_age_secs
            &&& x.activity_age_secs == y.activity_age_secs ==> x.title@ == y.title@ || text_lt(
                x.title@,
                y.title@,
            )
            &&& x.activity_age_secs == y.activity_age_secs && x.title@ == y.title@ ==> x.id@
                == y.id@ || text_lt(x.id@, y.id@)
        }),
{
    let chosen = |i: usize| is_under(sessions, group, i, id);
    law_sort_siblings(sessions, group.filter(chosen));
    let sorted = under(sessions, group, id);
    assert(!sibling_lt(sessions[sorted[b] as int], sessions[sorted[a] as int]));
    lemma_may_stand_above(sessions[sorted[a] as int], sessions[sorted[b] as int]);
}

/// The longest path has as many segments as some path, and none has more.
pub proof fn law_longest_path(paths: Seq<Seq<char>>, i: int)
    ensures
        paths.len() == 0 ==> longest(paths) == 1,
        0 <= i < paths.len() ==> path_parts(paths[i]).len() <= longest(paths),
        paths.len() > 0 ==> exists|k: int|
            0 <= k < paths.len() && path_parts(#[trigger] paths[k]).len() == longest(paths),
    decreases paths.len(),
{
    if paths.len() > 0 {
        let head = paths.drop_last();
        let end = paths.len() - 1;
        law_longest_path(head, i);
        assert(paths[end] == paths.last());
        if 0 <= i < head.len() {
            assert(head[i] == paths[i]);
        }
        if head.len() > 0 && path_parts(paths.last()).len() <= longest(head) {
            let k = choose|k: int|
                0 <= k < head.len() && path_parts(#[trigger] head[k]).len() == longest(head);
            assert(paths[k] == head[k]);
        } else {
            assert(path_parts(paths[end]).len() == longest(paths));
        }
    }
}

/// Where no number of segments tells the paths apart, the label is the path.
pub proof fn law_label_may_be_the_path(paths: Seq<Seq<char>>, path: Seq<char>)
    requires
        forall|d: nat| 1 <= d <= longest(paths) ==> !#[trigger] labels_differ(paths, d),
    ensures
        label_among(paths, path) == path,
{
    lemma_no_depth(paths, 1, longest(paths));
}

proof fn lemma_no_depth(paths: Seq<Seq<char>>, from: nat, max: nat)
    requires
        forall|d: nat| from <= d <= max ==> !#[trigger] labels_differ(paths, d),
    ensures
        label_depth(paths, from, max) is None,
    decreases max + 1 - from,
{
    if from <= max {
        assert(!labels_differ(paths, from));
        lemma_no_depth(paths, from + 1, max);
    }
}

} // verus!
