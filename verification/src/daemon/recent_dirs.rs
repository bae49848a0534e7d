//! The directories in which sessions were seen last.

use vstd::prelude::*;

use crate::ipc::{clone_entries, RecentDirEntry};
use crate::text::{
    lemma_text_lt_irreflexive, lemma_text_lt_total, lemma_text_lt_transitive, str_eq, text_before,
    text_lt,
};

verus! {

/// How many directories are kept.
pub const MAX_RECENT_DIRS: usize = 100;

// ---------------------------------------------------------------------------
// The order of entries
// ---------------------------------------------------------------------------

/// Whether an entry stands before another: the one seen last first, then by host
/// and by directory.
pub open spec fn entry_lt(a: RecentDirEntry, b: RecentDirEntry) -> bool {
    ||| a.last_seen_unix_ms > b.last_seen_unix_ms
    ||| a.last_seen_unix_ms == b.last_seen_unix_ms && text_lt(a.host@, b.host@)
    ||| a.last_seen_unix_ms == b.last_seen_unix_ms && a.host@ == b.host@ && text_lt(
        a.directory@,
        b.directory@,
    )
}

/// Whether an entry stands before another.
fn entry_before(a: &RecentDirEntry, b: &RecentDirEntry) -> (r: bool)
    ensures
        r == entry_lt(*a, *b),
{
    if a.last_seen_unix_ms != b.last_seen_unix_ms {
        return a.last_seen_unix_ms > b.last_seen_unix_ms;
    }
    if !str_eq(a.host.as_str(), b.host.as_str()) {
        return text_before(a.host.as_str(), b.host.as_str());
    }
    proof {
        lemma_text_lt_irreflexive(a.host@);
    }
    text_before(a.directory.as_str(), b.directory.as_str())
}

/// Where an entry goes in a list in order: behind every entry that it does not
/// stand before.
pub open spec fn entry_slot(sorted: Seq<RecentDirEntry>, e: RecentDirEntry) -> int
    decreases sorted.len(),
{
    if sorted.len() == 0 {
        0
    } else if entry_lt(e, sorted.last()) {
        entry_slot(sorted.drop_last(), e)
    } else {
        sorted.len() as int
    }
}

/// Entries in order; those that tie keep their order.
pub open spec fn sort_entries(list: Seq<RecentDirEntry>) -> Seq<RecentDirEntry>
    decreases list.len(),
{
    if list.len() == 0 {
        Seq::empty()
    } else {
        let sorted = sort_entries(list.drop_last());
        sorted.insert(entry_slot(sorted, list.last()), list.last())
    }
}

/// Whether no entry stands before one that it should stand behind.
pub open spec fn in_entry_order(s: Seq<RecentDirEntry>) -> bool {
    forall|a: int, b: int| 0 <= a < b < s.len() ==> !entry_lt(#[trigger] s[b], #[trigger] s[a])
}

/// Entries in order, as many as are kept.
pub open spec fn normalized(list: Seq<RecentDirEntry>) -> Seq<RecentDirEntry> {
    let sorted = sort_entries(list);
    if sorted.len() > MAX_RECENT_DIRS {
        sorted.take(MAX_RECENT_DIRS as int)
    } else {
        sorted
    }
}

/// Whether entries are about one directory of one host.
pub open spec fn same_place(a: RecentDirEntry, b: RecentDirEntry) -> bool {
    a.host@ == b.host@ && a.directory@ == b.directory@
}

/// Entries without those about the place of another.
pub open spec fn without_place(list: Seq<RecentDirEntry>, e: RecentDirEntry) -> Seq<RecentDirEntry>
    decreases list.len(),
{
    if list.len() == 0 {
        Seq::empty()
    } else if same_place(list.last(), e) {
        without_place(list.drop_last(), e)
    } else {
        without_place(list.drop_last(), e).push(list.last())
    }
}

/// Entries after one was seen.
pub open spec fn upserted(list: Seq<RecentDirEntry>, e: RecentDirEntry) -> Seq<RecentDirEntry> {
    normalized(without_place(list, e).push(e))
}

/// Entries after several were seen, one after the other.
pub open spec fn upserted_all(list: Seq<RecentDirEntry>, es: Seq<RecentDirEntry>) -> Seq<
    RecentDirEntry,
>
    decreases es.len(),
{
    if es.len() == 0 {
        list
    } else {
        upserted(upserted_all(list, es.drop_last()), es.last())
    }
}

/// Whether an entry is about a host.
pub open spec fn has_host(list: Seq<RecentDirEntry>, host: Seq<char>) -> bool {
    exists|k: int| 0 <= k < list.len() && (#[trigger] list[k]).host@ == host
}

// ---------------------------------------------------------------------------
// The store
// ---------------------------------------------------------------------------

/// The directories in which sessions were seen last.
pub struct RecentDirStore {
    pub entries: Vec<RecentDirEntry>,
}

/// Puts an entry into a list in order.
fn insert_entry(sorted: &mut Vec<RecentDirEntry>, entry: RecentDirEntry)
    ensures
        final(sorted)@ == old(sorted)@.insert(entry_slot(old(sorted)@, entry), entry),
        final(sorted)@.len() == old(sorted)@.len() + 1,
{
    let mut slot: usize = sorted.len();
    let ghost before = sorted@;
    assert(before.take(slot as int) =~= before);
    while slot > 0 && entry_before(&entry, &sorted[slot - 1])
        invariant
            slot <= sorted@.len(),
            sorted@ == before,
            entry_slot(before, entry) == entry_slot(before.take(slot as int), entry),
        decreases slot,
    {
        assert(before.take(slot as int).drop_last() =~= before.take(slot - 1));
        slot = slot - 1;
    }
    assert(entry_slot(before, entry) == slot);
    sorted.insert(slot, entry);
}

impl RecentDirStore {
    /// The store of entries that were read, in order and as many as are kept.
    pub fn load(entries: Vec<RecentDirEntry>) -> (r: RecentDirStore)
        ensures
            r.entries@ == normalized(entries@),
    {
        let mut store = RecentDirStore { entries };
        store.normalize();
        store
    }

    /// Takes in a directory that was seen, in place of what was known of it.
    pub fn upsert(&mut self, entry: RecentDirEntry)
        ensures
            final(self).entries@ == upserted(old(self).entries@, entry),
    {
        let mut kept: Vec<RecentDirEntry> = Vec::new();
        let ghost all = self.entries@;
        for k in 0..self.entries.len()
            invariant
                all == self.entries@,
                kept@ == without_place(all.take(k as int), entry),
        {
            assert(all.take(k + 1).drop_last() =~= all.take(k as int));
            let existing = &self.entries[k];
            if !(str_eq(existing.host.as_str(), entry.host.as_str()) && str_eq(
                existing.directory.as_str(),
                entry.directory.as_str(),
            )) {
                kept.push(existing.clone());
            }
        }
        assert(all.take(all.len() as int) =~= all);
        kept.push(entry);
        self.entries = kept;
        self.normalize();
    }

    /// Takes in directories that were seen.
    pub fn upsert_many(&mut self, entries: Vec<RecentDirEntry>)
        ensures
            final(self).entries@ == upserted_all(old(self).entries@, entries@),
    {
        let ghost start = self.entries@;
        for k in 0..entries.len()
            invariant
                self.entries@ == upserted_all(start, entries@.take(k as int)),
        {
            assert(entries@.take(k + 1).drop_last() =~= entries@.take(k as int));
            self.upsert(entries[k].clone());
        }
        assert(entries@.take(entries@.len() as int) =~= entries@);
    }

    /// The first entries.
    pub fn entries(&self, limit: usize) -> (r: Vec<RecentDirEntry>)
        ensures
            r@ == self.entries@.take(
                if limit < self.entries@.len() {
                    limit as int
                } else {
                    self.entries@.len() as int
                },
            ),
    {
        clone_entries(&self.entries, limit)
    }

    /// Whether an entry is about a host.
    pub fn has_host_entries(&self, host: &str) -> (r: bool)
        ensures
            r == has_host(self.entries@, host@),
    {
        for k in 0..self.entries.len()
            invariant
                forall|j: int| 0 <= j < k ==> (#[trigger] self.entries@[j]).host@ != host@,
        {
            if str_eq(self.entries[k].host.as_str(), host) {
                return true;
            }
        }
        false
    }

    /// Puts the entries in order and drops those that are too many.
    fn normalize(&mut self)
        ensures
            final(self).entries@ == normalized(old(self).entries@),
    {
        let mut sorted: Vec<RecentDirEntry> = Vec::new();
        let ghost all = self.entries@;
        for k in 0..self.entries.len()
            invariant
                all == self.entries@,
                sorted@.len() == k,
                sorted@ == sort_entries(all.take(k as int)),
        {
            assert(all.take(k + 1).drop_last() =~= all.take(k as int));
            insert_entry(&mut sorted, self.entries[k].clone());
        }
        assert(all.take(all.len() as int) =~= all);
        if sorted.len() > MAX_RECENT_DIRS {
            sorted.truncate(MAX_RECENT_DIRS);
            assert(sorted@ =~= normalized(all));
        }
        self.entries = sorted;
    }
}

impl Default for RecentDirStore {
    fn default() -> (r: RecentDirStore)
        ensures
            r.entries@.len() == 0,
    {
        RecentDirStore { entries: Vec::new() }
    }
}

// ---------------------------------------------------------------------------
// Laws
// ---------------------------------------------------------------------------

proof fn lemma_entry_texts(a: RecentDirEntry, b: RecentDirEntry, c: RecentDirEntry)
    ensures
        !text_lt(a.host@, a.host@),
        !text_lt(a.directory@, a.directory@),
        a.host@ == b.host@ || text_lt(a.host@, b.host@) || text_lt(b.host@, a.host@),
        a.directory@ == b.directory@ || text_lt(a.directory@, b.directory@) || text_lt(
            b.directory@,
            a.directory@,
        ),
        text_lt(a.host@, b.host@) && text_lt(b.host@, c.host@) ==> text_lt(a.host@, c.host@),
        text_lt(a.directory@, b.directory@) && text_lt(b.directory@, c.directory@) ==> text_lt(
            a.directory@,
            c.directory@,
        ),
{
    lemma_text_lt_irreflexive(a.host@);
    lemma_text_lt_irreflexive(a.directory@);
    lemma_text_lt_total(a.host@, b.host@);
    lemma_text_lt_total(a.directory@, b.directory@);
    if text_lt(a.host@, b.host@) && text_lt(b.host@, c.host@) {
        lemma_text_lt_transitive(a.host@, b.host@, c.host@);
    }
    if text_lt(a.directory@, b.directory@) && text_lt(b.directory@, c.directory@) {
        lemma_text_lt_transitive(a.directory@, b.directory@, c.directory@);
    }
}

proof fn lemma_entry_order(a: RecentDirEntry, b: RecentDirEntry, c: RecentDirEntry)
    ensures
        !entry_lt(a, a),
        entry_lt(a, b) ==> !entry_lt(b, a),
        !entry_lt(a, b) && !entry_lt(b, c) ==> !entry_lt(a, c),
{
    lemma_entry_texts(a, b, c);
    lemma_entry_texts(b, a, b);
    lemma_entry_texts(a, b, a);
    lemma_entry_texts(a, a, a);
    lemma_entry_texts(c, b, a);
    lemma_entry_texts(a, c, b);
    lemma_entry_texts(b, a, c);
    lemma_entry_texts(b, c, a);
    lemma_entry_texts(c, a, b);
}

proof fn lemma_entry_slot(sorted: Seq<RecentDirEntry>, e: RecentDirEntry)
    requires
        in_entry_order(sorted),
    ensures
        0 <= entry_slot(sorted, e) <= sorted.len(),
        forall|a: int| 0 <= a < entry_slot(sorted, e) ==> !entry_lt(e, #[trigger] sorted[a]),
        forall|a: int| entry_slot(sorted, e) <= a < sorted.len() ==> entry_lt(e, #[trigger] sorted[a]),
    decreases sorted.len(),
{
    if sorted.len() > 0 {
        let last = sorted.last();
        let head = sorted.drop_last();
        assert forall|a: int, b: int| 0 <= a < b < head.len() implies !entry_lt(
            #[trigger] head[b],
            #[trigger] head[a],
        ) by {
            assert(head[a] == sorted[a]);
            assert(head[b] == sorted[b]);
        }
        lemma_entry_slot(head, e);
        let slot = entry_slot(sorted, e);
        if entry_lt(e, last) {
            assert forall|a: int| 0 <= a < slot implies !entry_lt(e, #[trigger] sorted[a]) by {
                assert(head[a] == sorted[a]);
            }
            assert forall|a: int| slot <= a < sorted.len() implies entry_lt(
                e,
                #[trigger] sorted[a],
            ) by {
                if a < head.len() {
                    assert(head[a] == sorted[a]);
                }
            }
        } else {
            assert forall|a: int| 0 <= a < sorted.len() implies !entry_lt(
                e,
                #[trigger] sorted[a],
            ) by {
                lemma_entry_order(e, last, sorted[a]);
                if a < sorted.len() - 1 {
                    assert(!entry_lt(sorted[sorted.len() - 1], sorted[a]));
                }
            }
        }
    }
}

/// Sorting keeps the entries and puts them in order.
pub proof fn law_sort_entries(list: Seq<RecentDirEntry>)
    ensures
        in_entry_order(sort_entries(list)),
        sort_entries(list).len() == list.len(),
        sort_entries(list).to_multiset() == list.to_multiset(),
    decreases list.len(),
{
    broadcast use vstd::seq_lib::group_to_multiset_ensures;

    if list.len() > 0 {
        let sorted = sort_entries(list.drop_last());
        let e = list.last();
        law_sort_entries(list.drop_last());
        lemma_entry_slot(sorted, e);
        let slot = entry_slot(sorted, e);
        let out = sort_entries(list);
        assert(list =~= list.drop_last().push(e));
        assert(out.to_multiset() =~= sorted.to_multiset().insert(e));
        assert forall|a: int, b: int| 0 <= a < b < out.len() implies !entry_lt(
            #[trigger] out[b],
            #[trigger] out[a],
        ) by {
            let a0 = if a < slot {
                a
            } else {
                a - 1
            };
            let b0 = if b < slot {
                b
            } else {
                b - 1
            };
            if a != slot {
                assert(out[a] == sorted[a0]);
            }
            if b != slot {
                assert(out[b] == sorted[b0]);
            }
            if a == slot {
                lemma_entry_order(e, sorted[b0], e);
            }
        }
    }
}

/// Whether no place stands twice in a list.
pub open spec fn places_once(s: Seq<RecentDirEntry>) -> bool {
    forall|a: int, b: int|
        0 <= a < s.len() && 0 <= b < s.len() && a != b ==> !same_place(
            #[trigger] s[a],
            #[trigger] s[b],
        )
}

proof fn lemma_insert_place(s: Seq<RecentDirEntry>, at: int, e: RecentDirEntry)
    requires
        places_once(s),
        0 <= at <= s.len(),
        forall|k: int| 0 <= k < s.len() ==> !same_place(#[trigger] s[k], e),
    ensures
        places_once(s.insert(at, e)),
{
    let t = s.insert(at, e);
    assert forall|a: int, b: int|
        0 <= a < t.len() && 0 <= b < t.len() && a != b implies !same_place(
        #[trigger] t[a],
        #[trigger] t[b],
    ) by {
        let a0 = if a < at {
            a
        } else {
            a - 1
        };
        let b0 = if b < at {
            b
        } else {
            b - 1
        };
        if a != at {
            assert(t[a] == s[a0]);
        }
        if b != at {
            assert(t[b] == s[b0]);
        }
        if a != at && b != at {
            assert(!same_place(s[a0], s[b0]));
        }
    }
}

proof fn lemma_sort_contains(list: Seq<RecentDirEntry>, e: RecentDirEntry)
    ensures
        sort_entries(list).contains(e) <==> list.contains(e),
{
    broadcast use vstd::seq_lib::group_to_multiset_ensures;

    law_sort_entries(list);
    assert(sort_entries(list).contains(e) <==> sort_entries(list).to_multiset().count(e) > 0);
    assert(list.contains(e) <==> list.to_multiset().count(e) > 0);
}

proof fn lemma_sort_places_once(list: Seq<RecentDirEntry>)
    requires
        places_once(list),
    ensures
        places_once(sort_entries(list)),
    decreases list.len(),
{
    if list.len() > 0 {
        let head = list.drop_last();
        let e = list.last();
        assert forall|a: int, b: int|
            0 <= a < head.len() && 0 <= b < head.len() && a != b implies !same_place(
            #[trigger] head[a],
            #[trigger] head[b],
        ) by {
            assert(head[a] == list[a]);
            assert(head[b] == list[b]);
        }
        lemma_sort_places_once(head);
        let sorted = sort_entries(head);
        law_sort_entries(head);
        lemma_entry_slot(sorted, e);
        assert forall|k: int| 0 <= k < sorted.len() implies !same_place(#[trigger] sorted[k], e) by {
            assert(sorted.contains(sorted[k]));
            lemma_sort_contains(head, sorted[k]);
            let n = choose|n: int| 0 <= n < head.len() && head[n] == sorted[k];
            assert(list[n] == sorted[k]);
            assert(list[list.len() - 1] == e);
        }
        lemma_insert_place(sorted, entry_slot(sorted, e), e);
    }
}

proof fn lemma_without_place(list: Seq<RecentDirEntry>, e: RecentDirEntry)
    requires
        places_once(list),
    ensures
        places_once(without_place(list, e)),
        forall|k: int|
            0 <= k < without_place(list, e).len() ==> {
                &&& !same_place(#[trigger] without_place(list, e)[k], e)
                &&& list.contains(without_place(list, e)[k])
            },
    decreases list.len(),
{
    if list.len() > 0 {
        let head = list.drop_last();
        let last = list.last();
        assert forall|a: int, b: int|
            0 <= a < head.len() && 0 <= b < head.len() && a != b implies !same_place(
            #[trigger] head[a],
            #[trigger] head[b],
        ) by {
            assert(head[a] == list[a]);
            assert(head[b] == list[b]);
        }
        lemma_without_place(head, e);
        let before = without_place(head, e);
        let now = without_place(list, e);
        assert forall|k: int| 0 <= k < before.len() implies list.contains(#[trigger] before[k])
            && (same_place(before[k], last) ==> false) by {
            assert(head.contains(before[k]));
            let n = choose|n: int| 0 <= n < head.len() && head[n] == before[k];
            assert(list[n] == before[k]);
            assert(list[list.len() - 1] == last);
        }
        if !same_place(last, e) {
            assert(now =~= before.insert(before.len() as int, last));
            lemma_insert_place(before, before.len() as int, last);
            assert(list[list.len() - 1] == last);
        }
        assert forall|k: int| 0 <= k < now.len() implies !same_place(#[trigger] now[k], e)
            && list.contains(now[k]) by {
            if k < before.len() {
                assert(now[k] == before[k]);
            } else {
                assert(list[list.len() - 1] == last);
            }
        }
    }
}

/// The store stays in order, never grows beyond what is kept, and no place
/// stands in it twice.
pub proof fn law_store_stays_normal(list: Seq<RecentDirEntry>, e: RecentDirEntry)
    ensures
        in_entry_order(upserted(list, e)),
        upserted(list, e).len() <= MAX_RECENT_DIRS,
        places_once(list) ==> places_once(upserted(list, e)),
{
    let grown = without_place(list, e).push(e);
    law_sort_entries(grown);
    let sorted = sort_entries(grown);
    let kept = upserted(list, e);
    assert forall|k: int| 0 <= k < kept.len() implies #[trigger] kept[k] == sorted[k] by {}
    assert forall|a: int, b: int| 0 <= a < b < kept.len() implies !entry_lt(
        #[trigger] kept[b],
        #[trigger] kept[a],
    ) by {
        assert(!entry_lt(sorted[b], sorted[a]));
    }
    if places_once(list) {
        lemma_without_place(list, e);
        let w = without_place(list, e);
        assert(grown =~= w.insert(w.len() as int, e));
        lemma_insert_place(w, w.len() as int, e);
        lemma_sort_places_once(grown);
        assert forall|a: int, b: int|
            0 <= a < kept.len() && 0 <= b < kept.len() && a != b implies !same_place(
            #[trigger] kept[a],
            #[trigger] kept[b],
        ) by {
            assert(!same_place(sorted[a], sorted[b]));
        }
    }
}

/// A store that was read is in order and holds no more than is kept.
pub proof fn law_loaded_store_is_normal(list: Seq<RecentDirEntry>)
    ensures
        in_entry_order(normalized(list)),
        normalized(list).len() <= MAX_RECENT_DIRS,
{
    law_sort_entries(list);
    let sorted = sort_entries(list);
    let kept = normalized(list);
    assert forall|a: int, b: int| 0 <= a < b < kept.len() implies !entry_lt(
        #[trigger] kept[b],
        #[trigger] kept[a],
    ) by {
        assert(!entry_lt(sorted[b], sorted[a]));
    }
}

/// A directory that was seen later than every other one stands first.
pub proof fn law_latest_stands_first(list: Seq<RecentDirEntry>, e: RecentDirEntry)
    requires
        forall|k: int|
            0 <= k < list.len() ==> (#[trigger] list[k]).last_seen_unix_ms < e.last_seen_unix_ms,
        places_once(list),
    ensures
        upserted(list, e).len() > 0,
        upserted(list, e)[0] == e,
{
    let w = without_place(list, e);
    let grown = w.push(e);
    lemma_without_place(list, e);
    law_sort_entries(grown);
    let sorted = sort_entries(grown);
    assert(grown[w.len() as int] == e);
    lemma_sort_contains(grown, e);
    let p = choose|p: int| 0 <= p < sorted.len() && sorted[p] == e;
    let first = sorted[0];
    lemma_sort_contains(grown, first);
    let n = choose|n: int| 0 <= n < grown.len() && grown[n] == first;
    if n < w.len() {
        assert(w[n] == first);
        assert(list.contains(w[n]));
        let m = choose|m: int| 0 <= m < list.len() && list[m] == first;
        assert(list[m].last_seen_unix_ms < e.last_seen_unix_ms);
        assert(entry_lt(e, first));
        if p > 0 {
            assert(!entry_lt(sorted[p], sorted[0]));
        }
    }
}

// ---------------------------------------------------------------------------
// Several directories
// ---------------------------------------------------------------------------

/// A list with an entry at its place in order.
spec fn with_entry(s: Seq<RecentDirEntry>, e: RecentDirEntry) -> Seq<RecentDirEntry> {
    s.insert(entry_slot(s, e), e)
}

proof fn lemma_slot_in_range(s: Seq<RecentDirEntry>, e: RecentDirEntry)
    ensures
        0 <= entry_slot(s, e) <= s.len(),
    decreases s.len(),
{
    if s.len() > 0 {
        lemma_slot_in_range(s.drop_last(), e);
    }
}

/// An entry goes to the end of a list, or below its last entry.
proof fn lemma_with_entry(s: Seq<RecentDirEntry>, e: RecentDirEntry)
    ensures
        with_entry(s, e) == if s.len() > 0 && entry_lt(e, s.last()) {
            with_entry(s.drop_last(), e).push(s.last())
        } else {
            s.push(e)
        },
{
    lemma_slot_in_range(s, e);
    if s.len() > 0 && entry_lt(e, s.last()) {
        lemma_slot_in_range(s.drop_last(), e);
        assert(with_entry(s, e) =~= with_entry(s.drop_last(), e).push(s.last()));
    } else {
        assert(with_entry(s, e) =~= s.push(e));
    }
}

/// Of two entries of which one stands before the other, either can be put into a
/// list first.
proof fn lemma_entries_commute(s: Seq<RecentDirEntry>, a: RecentDirEntry, b: RecentDirEntry)
    requires
        entry_lt(a, b),
    ensures
        with_entry(with_entry(s, a), b) == with_entry(with_entry(s, b), a),
    decreases s.len(),
{
    lemma_entry_order(a, b, a);
    lemma_with_entry(s, a);
    lemma_with_entry(s, b);
    let sa = with_entry(s, a);
    let sb = with_entry(s, b);
    lemma_with_entry(sa, b);
    lemma_with_entry(sb, a);
    if s.len() > 0 {
        let z = s.last();
        let head = s.drop_last();
        lemma_entry_order(b, z, b);
        lemma_entry_order(a, z, b);
        if entry_lt(a, z) {
            assert(sa.drop_last() =~= with_entry(head, a));
        } else {
            assert(sa.drop_last() =~= s);
        }
        if entry_lt(b, z) {
            assert(sb.drop_last() =~= with_entry(head, b));
            lemma_entries_commute(head, a, b);
        } else {
            assert(sb.drop_last() =~= s);
        }
    } else {
        assert(sb.drop_last() =~= s);
    }
}

proof fn lemma_without_push(list: Seq<RecentDirEntry>, x: RecentDirEntry, e: RecentDirEntry)
    ensures
        without_place(list.push(x), e) == if same_place(x, e) {
            without_place(list, e)
        } else {
            without_place(list, e).push(x)
        },
{
    assert(list.push(x).drop_last() =~= list);
}

proof fn lemma_without_members(list: Seq<RecentDirEntry>, e: RecentDirEntry)
    ensures
        without_place(list, e).len() <= list.len(),
        forall|k: int|
            0 <= k < without_place(list, e).len() ==> list.contains(
                #[trigger] without_place(list, e)[k],
            ),
    decreases list.len(),
{
    if list.len() > 0 {
        let head = list.drop_last();
        lemma_without_members(head, e);
        let before = without_place(head, e);
        let now = without_place(list, e);
        assert forall|k: int| 0 <= k < now.len() implies list.contains(#[trigger] now[k]) by {
            if k < before.len() {
                assert(now[k] == before[k]);
                let n = choose|n: int| 0 <= n < head.len() && head[n] == before[k];
                assert(list[n] == now[k]);
            } else {
                assert(list[list.len() - 1] == now[k]);
            }
        }
    }
}

/// Places can be left out in either order.
proof fn lemma_without_commutes(
    list: Seq<RecentDirEntry>,
    a: RecentDirEntry,
    b: RecentDirEntry,
)
    ensures
        without_place(without_place(list, a), b) == without_place(without_place(list, b), a),
    decreases list.len(),
{
    if list.len() > 0 {
        let head = list.drop_last();
        lemma_without_commutes(head, a, b);
        lemma_without_push(without_place(head, a), list.last(), b);
        lemma_without_push(without_place(head, b), list.last(), a);
    }
}

/// A place can be left out before or after an entry is put into a list in order.
proof fn lemma_without_with(s: Seq<RecentDirEntry>, a: RecentDirEntry, b: RecentDirEntry)
    requires
        in_entry_order(s),
    ensures
        without_place(with_entry(s, a), b) == if same_place(a, b) {
            without_place(s, b)
        } else {
            with_entry(without_place(s, b), a)
        },
    decreases s.len(),
{
    let kept = without_place(s, b);
    lemma_with_entry(s, a);
    if s.len() > 0 && entry_lt(a, s.last()) {
        let head = s.drop_last();
        assert forall|i: int, j: int| 0 <= i < j < head.len() implies !entry_lt(
            #[trigger] head[j],
            #[trigger] head[i],
        ) by {
            assert(head[i] == s[i]);
            assert(head[j] == s[j]);
        }
        lemma_without_with(head, a, b);
        lemma_without_push(with_entry(head, a), s.last(), b);
        if !same_place(s.last(), b) {
            lemma_with_entry(kept, a);
            assert(kept.drop_last() =~= without_place(head, b));
        }
    } else {
        lemma_without_push(s, a, b);
        lemma_without_members(s, b);
        lemma_with_entry(kept, a);
        if kept.len() > 0 {
            let z = kept.last();
            assert(s.contains(kept[kept.len() - 1]));
            let n = choose|n: int| 0 <= n < s.len() && s[n] == z;
            lemma_entry_slot(s, a);
            assert(!entry_lt(a, s[n]));
        }
    }
}

/// A place can be left out before or after sorting.
proof fn lemma_without_sort(list: Seq<RecentDirEntry>, b: RecentDirEntry)
    ensures
        without_place(sort_entries(list), b) == sort_entries(without_place(list, b)),
    decreases list.len(),
{
    if list.len() > 0 {
        let head = list.drop_last();
        let a = list.last();
        lemma_without_sort(head, b);
        law_sort_entries(head);
        lemma_without_with(sort_entries(head), a, b);
        if !same_place(a, b) {
            lemma_sort_push(without_place(head, b), a);
        }
    }
}

proof fn lemma_sort_push(list: Seq<RecentDirEntry>, e: RecentDirEntry)
    ensures
        sort_entries(list.push(e)) == with_entry(sort_entries(list), e),
{
    assert(list.push(e).drop_last() =~= list);
}

/// Sorting leaves a list in order as it is.
proof fn lemma_sort_sorted(s: Seq<RecentDirEntry>)
    requires
        in_entry_order(s),
    ensures
        sort_entries(s) == s,
    decreases s.len(),
{
    if s.len() > 0 {
        let head = s.drop_last();
        let e = s.last();
        assert forall|i: int, j: int| 0 <= i < j < head.len() implies !entry_lt(
            #[trigger] head[j],
            #[trigger] head[i],
        ) by {
            assert(head[i] == s[i]);
            assert(head[j] == s[j]);
        }
        lemma_sort_sorted(head);
        lemma_with_entry(head, e);
        if head.len() > 0 {
            assert(!entry_lt(s[s.len() - 1], s[s.len() - 2]));
        }
        assert(head.push(e) =~= s);
    }
}

/// What the store holds after a directory was seen, while there is room.
proof fn lemma_upserted_room(list: Seq<RecentDirEntry>, e: RecentDirEntry)
    requires
        list.len() < MAX_RECENT_DIRS,
    ensures
        upserted(list, e) == with_entry(sort_entries(without_place(list, e)), e),
        upserted(list, e) == sort_entries(without_place(list, e).push(e)),
        upserted(list, e).len() <= list.len() + 1,
        upserted(list, e).contains(e),
{
    let w = without_place(list, e);
    lemma_without_members(list, e);
    law_sort_entries(w.push(e));
    lemma_sort_push(w, e);
    assert(w.push(e)[w.len() as int] == e);
    lemma_sort_contains(w.push(e), e);
}

/// Of two directories at different places, either can be seen first, while there
/// is room for both.
proof fn lemma_upserts_commute(
    list: Seq<RecentDirEntry>,
    a: RecentDirEntry,
    b: RecentDirEntry,
)
    requires
        !same_place(a, b),
        list.len() + 2 <= MAX_RECENT_DIRS,
    ensures
        upserted(upserted(list, a), b) == upserted(upserted(list, b), a),
{
    let x = without_place(without_place(list, a), b);
    lemma_without_commutes(list, a, b);
    lemma_two_upserts(list, a, b);
    lemma_two_upserts(list, b, a);
    lemma_entry_texts(a, b, a);
    if entry_lt(a, b) {
        lemma_entries_commute(sort_entries(x), a, b);
    } else {
        lemma_entries_commute(sort_entries(x), b, a);
    }
}

proof fn lemma_two_upserts(list: Seq<RecentDirEntry>, a: RecentDirEntry, b: RecentDirEntry)
    requires
        !same_place(a, b),
        list.len() + 2 <= MAX_RECENT_DIRS,
    ensures
        upserted(upserted(list, a), b) == with_entry(
            with_entry(sort_entries(without_place(without_place(list, a), b)), a),
            b,
        ),
{
    let w = without_place(list, a);
    let once = upserted(list, a);
    lemma_upserted_room(list, a);
    lemma_upserted_room(once, b);
    lemma_without_sort(w.push(a), b);
    lemma_without_push(w, a, b);
    let both = without_place(w, b).push(a);
    law_sort_entries(both);
    lemma_sort_sorted(sort_entries(both));
    lemma_sort_push(without_place(w, b), a);
}

proof fn lemma_upserted_all_len(list: Seq<RecentDirEntry>, es: Seq<RecentDirEntry>)
    requires
        list.len() + es.len() <= MAX_RECENT_DIRS,
    ensures
        upserted_all(list, es).len() <= list.len() + es.len(),
    decreases es.len(),
{
    if es.len() > 0 {
        lemma_upserted_all_len(list, es.drop_last());
        lemma_upserted_room(upserted_all(list, es.drop_last()), es.last());
    }
}

/// Any of several directories at different places can be seen last.
proof fn lemma_any_can_be_last(
    list: Seq<RecentDirEntry>,
    es: Seq<RecentDirEntry>,
    i: int,
)
    requires
        places_once(es),
        list.len() + es.len() <= MAX_RECENT_DIRS,
        0 <= i < es.len(),
    ensures
        upserted_all(list, es) == upserted(upserted_all(list, es.remove(i)), es[i]),
    decreases es.len(),
{
    let head = es.drop_last();
    if i == es.len() - 1 {
        assert(es.remove(i) =~= head);
    } else {
        assert(places_once(head)) by {
            assert forall|a: int, b: int|
                0 <= a < head.len() && 0 <= b < head.len() && a != b implies !same_place(
                #[trigger] head[a],
                #[trigger] head[b],
            ) by {
                assert(head[a] == es[a]);
                assert(head[b] == es[b]);
            }
        }
        lemma_any_can_be_last(list, head, i);
        assert(head[i] == es[i]);
        let rest = upserted_all(list, head.remove(i));
        lemma_upserted_all_len(list, head.remove(i));
        assert(!same_place(es[i], es[es.len() - 1]));
        lemma_upserts_commute(rest, es[i], es.last());
        assert(es.remove(i).drop_last() =~= head.remove(i));
        assert(es.remove(i).last() == es.last());
    }
}

/// Lists of the same entries name each place as often.
proof fn lemma_same_entries_places_once(es: Seq<RecentDirEntry>, fs: Seq<RecentDirEntry>)
    requires
        places_once(es),
        es.to_multiset() == fs.to_multiset(),
    ensures
        places_once(fs),
{
    broadcast use vstd::seq_lib::group_to_multiset_ensures;

    assert(es.no_duplicates()) by {
        assert forall|i: int, j: int|
            0 <= i < es.len() && 0 <= j < es.len() && i != j implies es[i] != es[j] by {
            assert(!same_place(es[i], es[j]));
        }
    }
    es.lemma_multiset_has_no_duplicates();
    fs.lemma_multiset_has_no_duplicates_conv();
    assert forall|a: int, b: int|
        0 <= a < fs.len() && 0 <= b < fs.len() && a != b implies !same_place(
        #[trigger] fs[a],
        #[trigger] fs[b],
    ) by {
        assert(fs.to_multiset().count(fs[a]) > 0);
        assert(fs.to_multiset().count(fs[b]) > 0);
        assert(es.contains(fs[a]));
        assert(es.contains(fs[b]));
        let i = choose|i: int| 0 <= i < es.len() && es[i] == fs[a];
        let j = choose|j: int| 0 <= j < es.len() && es[j] == fs[b];
        assert(fs[a] != fs[b]);
        assert(!same_place(es[i], es[j]));
    }
}

/// While there is room for all, directories at different places all come into
/// the store, and it is the same in whatever order they were seen.
pub proof fn law_order_of_arrival_is_forgotten(
    list: Seq<RecentDirEntry>,
    es: Seq<RecentDirEntry>,
    fs: Seq<RecentDirEntry>,
)
    requires
        places_once(es),
        list.len() + es.len() <= MAX_RECENT_DIRS,
        es.to_multiset() == fs.to_multiset(),
    ensures
        upserted_all(list, es) == upserted_all(list, fs),
        forall|k: int| 0 <= k < es.len() ==> upserted_all(list, es).contains(#[trigger] es[k]),
    decreases es.len(),
{
    broadcast use vstd::seq_lib::group_to_multiset_ensures;

    assert forall|k: int| 0 <= k < es.len() implies upserted_all(list, es).contains(
        #[trigger] es[k],
    ) by {
        lemma_any_can_be_last(list, es, k);
        lemma_upserted_all_len(list, es.remove(k));
        lemma_upserted_room(upserted_all(list, es.remove(k)), es[k]);
    }
    assert(es.to_multiset().len() == es.len());
    assert(fs.to_multiset().len() == fs.len());
    if es.len() > 0 {
        let e = es.last();
        let head = es.drop_last();
        assert(es.to_multiset().count(es[es.len() - 1]) > 0);
        assert(fs.contains(e));
        let i = choose|i: int| 0 <= i < fs.len() && fs[i] == e;
        lemma_same_entries_places_once(es, fs);
        lemma_any_can_be_last(list, fs, i);
        assert(head =~= es.remove(es.len() - 1));
        assert(places_once(head)) by {
            assert forall|a: int, b: int|
                0 <= a < head.len() && 0 <= b < head.len() && a != b implies !same_place(
                #[trigger] head[a],
                #[trigger] head[b],
            ) by {
                assert(head[a] == es[a]);
                assert(head[b] == es[b]);
            }
        }
        law_order_of_arrival_is_forgotten(list, head, fs.remove(i));
    }
}

/// Directories that were seen in two turns are as good as seen in one.
pub proof fn law_turns_add_up(
    list: Seq<RecentDirEntry>,
    es: Seq<RecentDirEntry>,
    fs: Seq<RecentDirEntry>,
)
    ensures
        upserted_all(upserted_all(list, es), fs) == upserted_all(list, es + fs),
    decreases fs.len(),
{
    if fs.len() == 0 {
        assert(es + fs =~= es);
    } else {
        law_turns_add_up(list, es, fs.drop_last());
        assert((es + fs).drop_last() =~= es + fs.drop_last());
        assert((es + fs).last() == fs.last());
    }
}

/// Whether every entry stands before those behind it.
pub open spec fn strictly_ordered(s: Seq<RecentDirEntry>) -> bool {
    forall|a: int, b: int| 0 <= a < b < s.len() ==> entry_lt(#[trigger] s[a], #[trigger] s[b])
}

/// Whatever was seen since the store was empty, it holds no more than is kept, no
/// place twice, and each entry before those that were seen earlier; those that
/// were seen at the same time stand by host and by directory.
pub proof fn law_history_leaves_order(es: Seq<RecentDirEntry>)
    ensures
        ({
            let s = upserted_all(Seq::empty(), es);
            &&& s.len() <= MAX_RECENT_DIRS
            &&& places_once(s)
            &&& strictly_ordered(s)
        }),
    decreases es.len(),
{
    if es.len() > 0 {
        let before = upserted_all(Seq::empty(), es.drop_last());
        let s = upserted_all(Seq::empty(), es);
        law_history_leaves_order(es.drop_last());
        law_store_stays_normal(before, es.last());
        assert forall|a: int, b: int| 0 <= a < b < s.len() implies entry_lt(
            #[trigger] s[a],
            #[trigger] s[b],
        ) by {
            assert(!entry_lt(s[b], s[a]));
            assert(!same_place(s[a], s[b]));
            lemma_entry_texts(s[a], s[b], s[a]);
        }
    }
}

/// Loading what a store holds gives that store, whatever was seen since it was
/// empty.
pub proof fn law_saved_store_loads(es: Seq<RecentDirEntry>)
    ensures
        normalized(upserted_all(Seq::empty(), es)) == upserted_all(Seq::empty(), es),
{
    let s = upserted_all(Seq::empty(), es);
    if es.len() > 0 {
        law_store_stays_normal(upserted_all(Seq::empty(), es.drop_last()), es.last());
    }
    lemma_sort_sorted(s);
}

/// Whether an entry may stand above another: it was not seen earlier; of two seen
/// at the same time its host does not come later, and of two on the same host its
/// directory.
pub open spec fn entry_above(a: RecentDirEntry, b: RecentDirEntry) -> bool {
    &&& a.last_seen_unix_ms >= b.last_seen_unix_ms
    &&& a.last_seen_unix_ms == b.last_seen_unix_ms ==> a.host@ == b.host@ || text_lt(
        a.host@,
        b.host@,
    )
    &&& a.last_seen_unix_ms == b.last_seen_unix_ms && a.host@ == b.host@ ==> a.directory@
        == b.directory@ || text_lt(a.directory@, b.directory@)
}

/// Entries are kept with those seen latest first; of entries seen at the same
/// time, hosts decide, then directories.
pub proof fn law_latest_entries_first(list: Seq<RecentDirEntry>, a: int, b: int)
    requires
        0 <= a < b < normalized(list).len(),
    ensures
        normalized(list)[a].last_seen_unix_ms >= normalized(list)[b].last_seen_unix_ms,
        entry_above(normalized(list)[a], normalized(list)[b]),
{
    law_sort_entries(list);
    let sorted = sort_entries(list);
    assert(normalized(list)[a] == sorted[a] && normalized(list)[b] == sorted[b]);
    assert(!entry_lt(sorted[b], sorted[a]));
    lemma_entry_texts(sorted[a], sorted[b], sorted[a]);
}

/// A store holds at most a hundred entries, all of them up to that many, and no
/// entry that was dropped was seen later than one that was kept.
pub proof fn law_only_the_oldest_are_dropped(
    list: Seq<RecentDirEntry>,
    x: RecentDirEntry,
    k: int,
)
    requires
        list.contains(x),
    ensures
        normalized(list).len() == if list.len() < 100 {
            list.len()
        } else {
            100
        },
        list.len() <= 100 ==> normalized(list).contains(x),
        !normalized(list).contains(x) && 0 <= k < normalized(list).len() ==> normalized(
            list,
        )[k].last_seen_unix_ms >= x.last_seen_unix_ms,
        0 <= k < normalized(list).len() ==> list.contains(normalized(list)[k]),
{
    law_sort_entries(list);
    let sorted = sort_entries(list);
    let kept = normalized(list);
    lemma_sort_contains(list, x);
    let p = choose|p: int| 0 <= p < sorted.len() && sorted[p] == x;
    if p < kept.len() {
        assert(kept[p] == x);
    }
    if 0 <= k < kept.len() {
        assert(kept[k] == sorted[k]);
        lemma_sort_contains(list, sorted[k]);
        if p > k {
            assert(!entry_lt(sorted[p], sorted[k]));
        }
    }
}

/// An entry takes the place of those for the same directory of the same host, and
/// of no others.
pub proof fn law_entry_replaces_its_place(
    list: Seq<RecentDirEntry>,
    e: RecentDirEntry,
    x: RecentDirEntry,
)
    ensures
        without_place(list, e).contains(x) <==> list.contains(x) && !(x.host@ == e.host@
            && x.directory@ == e.directory@),
    decreases list.len(),
{
    if list.len() > 0 {
        let head = list.drop_last();
        let last = list.last();
        law_entry_replaces_its_place(head, e, x);
        let w = without_place(list, e);
        let v = without_place(head, e);
        assert(list =~= head.push(last));
        if head.contains(x) {
            let i = choose|i: int| 0 <= i < head.len() && head[i] == x;
            assert(list[i] == x);
        }
        if list.contains(x) && x != last {
            let i = choose|i: int| 0 <= i < list.len() && list[i] == x;
            assert(head[i] == x);
        }
        assert(list[list.len() - 1] == last);
        if v.contains(x) && !same_place(last, e) {
            let i = choose|i: int| 0 <= i < v.len() && v[i] == x;
            assert(w[i] == x);
        }
        if !same_place(last, e) {
            assert(w[w.len() - 1] == last);
            if w.contains(x) && x != last {
                let i = choose|i: int| 0 <= i < w.len() && w[i] == x;
                assert(v[i] == x);
            }
        }
    }
}

/// What was seen is remembered with its time, and what was known of other places
/// stays, as long as there is room.
pub proof fn law_seen_is_remembered(
    list: Seq<RecentDirEntry>,
    e: RecentDirEntry,
    x: RecentDirEntry,
)
    requires
        list.len() < 100,
    ensures
        upserted(list, e).contains(e),
        list.contains(x) && !(x.host@ == e.host@ && x.directory@ == e.directory@) ==> upserted(
            list,
            e,
        ).contains(x),
{
    let w = without_place(list, e);
    let grown = w.push(e);
    lemma_without_place_len(list, e);
    assert(grown[w.len() as int] == e);
    law_only_the_oldest_are_dropped(grown, e, 0);
    law_entry_replaces_its_place(list, e, x);
    if w.contains(x) {
        let i = choose|i: int| 0 <= i < w.len() && w[i] == x;
        assert(grown[i] == x);
        law_only_the_oldest_are_dropped(grown, x, 0);
    }
}

proof fn lemma_without_place_len(list: Seq<RecentDirEntry>, e: RecentDirEntry)
    ensures
        without_place(list, e).len() <= list.len(),
    decreases list.len(),
{
    if list.len() > 0 {
        lemma_without_place_len(list.drop_last(), e);
    }
}

/// A host has entries if and only if some entry names it.
pub proof fn law_host_has_entries(list: Seq<RecentDirEntry>, host: Seq<char>, k: int)
    ensures
        0 <= k < list.len() && list[k].host@ == host ==> has_host(list, host),
        (forall|n: int| 0 <= n < list.len() ==> (#[trigger] list[n]).host@ != host) ==> !has_host(
            list,
            host,
        ),
{
}

} // verus!
