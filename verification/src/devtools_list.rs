use vstd::prelude::*;

use crate::cache_observer::QueryCacheKey;
use crate::devtools::{entry_keys_distinct, entry_map, has_entry, DevtoolsEntry, DevtoolsState};
use crate::instant::Instant;

verus! {

/// The code of a character with ASCII capitals folded to small letters, as
/// `to_ascii_lowercase` does.
pub open spec fn folded(c: char) -> u32 {
    if 65 <= (c as u32) && (c as u32) <= 90 {
        (c as u32 + 32) as u32
    } else {
        c as u32
    }
}

/// A text with ASCII capitals folded to small letters.
pub open spec fn folded_text(s: Seq<char>) -> Seq<u32> {
    s.map_values(|c: char| folded(c))
}

/// Whether `pattern` occurs in `text` at position `i`.
pub open spec fn occurs_at(text: Seq<u32>, pattern: Seq<u32>, i: int) -> bool {
    0 <= i && i + pattern.len() <= text.len() && forall|j: int|
        0 <= j < pattern.len() ==> #[trigger] text[i + j] == pattern[j]
}

/// Whether a key matches the filter text of the devtools: it contains the
/// filter, ASCII letters compared without regard to case.
pub open spec fn matches_filter(key: Seq<char>, filter: Seq<char>) -> bool {
    exists|i: int| occurs_at(folded_text(key), folded_text(filter), i)
}

/// The folded codes of `s`.
fn fold_chars(s: &str) -> (r: Vec<u32>)
    ensures
        r@ == folded_text(s@),
{
    let n = s.unicode_len();
    let mut r: Vec<u32> = Vec::new();
    let mut i: usize = 0;
    while i < n
        invariant
            n == s@.len(),
            i <= n,
            r@ == folded_text(s@.subrange(0, i as int)),
        decreases n - i,
    {
        let c = s.get_char(i);
        let code = c as u32;
        let f = if 65 <= code && code <= 90 {
            code + 32
        } else {
            code
        };
        r.push(f);
        proof {
            assert(s@.subrange(0, i + 1) == s@.subrange(0, i as int).push(c));
            assert(folded_text(s@.subrange(0, i + 1)) =~= folded_text(s@.subrange(0, i as int)).push(
                folded(c),
            ));
        }
        i = i + 1;
    }
    proof {
        assert(s@.subrange(0, n as int) =~= s@);
    }
    r
}

/// Whether `pattern` occurs in `text`.
fn occurs(text: &Vec<u32>, pattern: &Vec<u32>) -> (r: bool)
    ensures
        r == exists|i: int| occurs_at(text@, pattern@, i),
{
    if pattern.len() > text.len() {
        return false;
    }
    let last = text.len() - pattern.len();
    let mut i: usize = 0;
    loop
        invariant
            last == text@.len() - pattern@.len(),
            pattern@.len() <= text@.len(),
            i <= last,
            forall|k: int| 0 <= k < i ==> !occurs_at(text@, pattern@, k),
        decreases last - i,
    {
        let mut j: usize = 0;
        let mut same = true;
        while j < pattern.len()
            invariant
                i <= last,
                last == text@.len() - pattern@.len(),
                pattern@.len() <= text@.len(),
                j <= pattern@.len(),
                same == forall|m: int| 0 <= m < j ==> text@[i + m] == pattern@[m],
            decreases pattern@.len() - j,
        {
            let n = text.len();
            assert(i + j < n);
            if text[i + j] != pattern[j] {
                same = false;
            }
            j = j + 1;
        }
        if same {
            proof {
                assert(occurs_at(text@, pattern@, i as int));
            }
            return true;
        }
        proof {
            assert(!occurs_at(text@, pattern@, i as int)) by {
                let m = choose|m: int| 0 <= m < pattern@.len() && text@[i + m] != pattern@[m];
            }
        }
        if i == last {
            proof {
                assert forall|k: int| !occurs_at(text@, pattern@, k) by {
                    if 0 <= k && k + pattern@.len() <= text@.len() {
                        assert(k <= i);
                    }
                }
            }
            return false;
        }
        i = i + 1;
    }
}

/// Whether `key` matches the devtools filter `filter`.
pub fn key_matches_filter(key: &str, filter: &str) -> (r: bool)
    ensures
        r == matches_filter(key@, filter@),
{
    let text = fold_chars(key);
    let pattern = fold_chars(filter);
    occurs(&text, &pattern)
}

/// How the devtools order their list of queries.
#[derive(Clone, Copy, Debug, PartialEq, Eq, Structural)]
pub enum SortOption {
    /// By the time of the last update; a query without data counts as
    /// updated now.
    Time,
    /// By key, character by character.
    Ascii,
}

/// The character codes of a text.
pub open spec fn codes(s: Seq<char>) -> Seq<u32> {
    s.map_values(|c: char| c as u32)
}

/// Lexicographic order on character codes: a prefix comes first.
pub open spec fn codes_le(a: Seq<u32>, b: Seq<u32>) -> bool
    decreases a.len(),
{
    if a.len() == 0 {
        true
    } else if b.len() == 0 {
        false
    } else if a[0] != b[0] {
        a[0] < b[0]
    } else {
        codes_le(a.drop_first(), b.drop_first())
    }
}

/// The time by which an entry is ordered: its last update, or `now` without data.
pub open spec fn entry_time(e: DevtoolsEntry, now: Instant) -> u64 {
    match e.state.spec_query_data() {
        Some(d) => d.updated_at.0,
        None => now.0,
    }
}

/// Whether the entry for key `a` may come before the one for key `b` in an
/// ascending list.
pub open spec fn listed_before(
    sort: SortOption,
    m: Map<Seq<char>, DevtoolsEntry>,
    now: Instant,
    a: Seq<char>,
    b: Seq<char>,
) -> bool {
    match sort {
        SortOption::Time => entry_time(m[a], now) <= entry_time(m[b], now),
        SortOption::Ascii => codes_le(codes(a), codes(b)),
    }
}

/// Lexicographic order is total.
proof fn lemma_codes_le_total(a: Seq<u32>, b: Seq<u32>)
    ensures
        codes_le(a, b) || codes_le(b, a),
    decreases a.len(),
{
    if a.len() > 0 && b.len() > 0 && a[0] == b[0] {
        lemma_codes_le_total(a.drop_first(), b.drop_first());
    }
}

/// Lexicographic order is transitive.
proof fn lemma_codes_le_transitive(a: Seq<u32>, b: Seq<u32>, c: Seq<u32>)
    requires
        codes_le(a, b),
        codes_le(b, c),
    ensures
        codes_le(a, c),
    decreases a.len(),
{
    if a.len() > 0 && b.len() > 0 && c.len() > 0 && a[0] == b[0] && b[0] == c[0] {
        lemma_codes_le_transitive(a.drop_first(), b.drop_first(), c.drop_first());
    }
}

/// The listing order is total and transitive.
proof fn lemma_listed_before_order(
    sort: SortOption,
    m: Map<Seq<char>, DevtoolsEntry>,
    now: Instant,
    a: Seq<char>,
    b: Seq<char>,
    c: Seq<char>,
)
    ensures
        listed_before(sort, m, now, a, b) || listed_before(sort, m, now, b, a),
        listed_before(sort, m, now, a, b) && listed_before(sort, m, now, b, c) ==> listed_before(
            sort,
            m,
            now,
            a,
            c,
        ),
{
    lemma_codes_le_total(codes(a), codes(b));
    if listed_before(sort, m, now, a, b) && listed_before(sort, m, now, b, c) {
        if sort == SortOption::Ascii {
            lemma_codes_le_transitive(codes(a), codes(b), codes(c));
        }
    }
}

/// The character codes of `s`.
fn char_codes(s: &str) -> (r: Vec<u32>)
    ensures
        r@ == codes(s@),
{
    let n = s.unicode_len();
    let mut r: Vec<u32> = Vec::new();
    let mut i: usize = 0;
    while i < n
        invariant
            n == s@.len(),
            i <= n,
            r@ == codes(s@.subrange(0, i as int)),
        decreases n - i,
    {
        let c = s.get_char(i);
        r.push(c as u32);
        proof {
            assert(s@.subrange(0, i + 1) == s@.subrange(0, i as int).push(c));
            assert(codes(s@.subrange(0, i + 1)) =~= codes(s@.subrange(0, i as int)).push(c as u32));
        }
        i = i + 1;
    }
    proof {
        assert(s@.subrange(0, n as int) =~= s@);
    }
    r
}

/// Whether `a` comes before `b` in lexicographic order.
fn codes_in_order(a: &Vec<u32>, b: &Vec<u32>) -> (r: bool)
    ensures
        r == codes_le(a@, b@),
{
    let mut i: usize = 0;
    proof {
        assert(a@.skip(0) =~= a@);
        assert(b@.skip(0) =~= b@);
    }
    while i < a.len() && i < b.len()
        invariant
            i <= a@.len(),
            i <= b@.len(),
            codes_le(a@, b@) == codes_le(a@.skip(i as int), b@.skip(i as int)),
        decreases a@.len() - i,
    {
        if a[i] != b[i] {
            return a[i] < b[i];
        }
        proof {
            assert(a@.skip(i + 1) =~= a@.skip(i as int).drop_first());
            assert(b@.skip(i + 1) =~= b@.skip(i as int).drop_first());
        }
        i = i + 1;
    }
    i == a.len()
}

/// One entry of the list being built: its key, and what it is ordered by.
struct ListItem {
    key: QueryCacheKey,
    time: u64,
    codes: Vec<u32>,
}

/// Whether `item` stands for the entry under its key in `m`.
spec fn item_fits(item: ListItem, m: Map<Seq<char>, DevtoolsEntry>, now: Instant) -> bool {
    &&& m.contains_key(item.key.0@)
    &&& item.time == entry_time(m[item.key.0@], now)
    &&& item.codes@ == codes(item.key.0@)
}

/// Whether `a` may come before `b`.
fn item_in_order(sort: SortOption, a: &ListItem, b: &ListItem) -> (r: bool)
    ensures
        sort == SortOption::Time ==> r == (a.time <= b.time),
        sort == SortOption::Ascii ==> r == codes_le(a.codes@, b.codes@),
{
    match sort {
        SortOption::Time => a.time <= b.time,
        SortOption::Ascii => codes_in_order(&a.codes, &b.codes),
    }
}

/// Whether every item stands for its entry in `m`.
#[verifier::opaque]
spec fn all_fit(items: Seq<ListItem>, m: Map<Seq<char>, DevtoolsEntry>, now: Instant) -> bool {
    forall|j: int| 0 <= j < items.len() ==> item_fits(#[trigger] items[j], m, now)
}

/// Whether every item's key matches the filter.
#[verifier::opaque]
spec fn all_match(items: Seq<ListItem>, filter: Seq<char>) -> bool {
    forall|j: int| 0 <= j < items.len() ==> matches_filter((#[trigger] items[j]).key.0@, filter)
}

/// Whether every item comes from one of the first `n` entries.
#[verifier::opaque]
spec fn all_from(items: Seq<ListItem>, entries: Seq<DevtoolsEntry>, n: int) -> bool {
    forall|j: int|
        0 <= j < items.len() ==> exists|e: int|
            0 <= e < n && (#[trigger] items[j]).key.0@ == (#[trigger] entries[e]).key.0@
}

/// Whether each of the first `n` entries that matches the filter is among the items.
#[verifier::opaque]
spec fn all_covered(items: Seq<ListItem>, entries: Seq<DevtoolsEntry>, n: int, filter: Seq<char>) -> bool {
    forall|e: int|
        0 <= e < n && matches_filter((#[trigger] entries[e]).key.0@, filter) ==> exists|j: int|
            0 <= j < items.len() && (#[trigger] items[j]).key.0@ == entries[e].key.0@
}

/// Whether no two items share a key.
#[verifier::opaque]
spec fn items_distinct(items: Seq<ListItem>) -> bool {
    forall|i: int, j: int|
        0 <= i < j < items.len() ==> (#[trigger] items[i]).key.0@ != (#[trigger] items[j]).key.0@
}

/// Whether the items are in ascending order.
#[verifier::opaque]
spec fn items_sorted(
    items: Seq<ListItem>,
    sort: SortOption,
    m: Map<Seq<char>, DevtoolsEntry>,
    now: Instant,
) -> bool {
    forall|i: int, j: int|
        0 <= i < j < items.len() ==> listed_before(
            sort,
            m,
            now,
            (#[trigger] items[i]).key.0@,
            (#[trigger] items[j]).key.0@,
        )
}

/// Inserts `item` where the ascending order puts it.
fn insert_sorted(
    items: &mut Vec<ListItem>,
    item: ListItem,
    sort: SortOption,
    Ghost(m): Ghost<Map<Seq<char>, DevtoolsEntry>>,
    now: Instant,
)
    requires
        all_fit(old(items)@, m, now),
        item_fits(item, m, now),
        items_sorted(old(items)@, sort, m, now),
    ensures
        items_sorted(final(items)@, sort, m, now),
        exists|p: int| 0 <= p <= old(items)@.len() && final(items)@ == old(items)@.insert(p, item),
{
    proof {
        reveal(all_fit);
        reveal(items_sorted);
    }
    let mut p: usize = 0;
    while p < items.len() && item_in_order(sort, &items[p], &item)
        invariant
            p <= items@.len(),
            item_fits(item, m, now),
            forall|j: int| 0 <= j < items@.len() ==> item_fits(#[trigger] items@[j], m, now),
            forall|i: int, j: int|
                0 <= i < j < items@.len() ==> listed_before(
                    sort,
                    m,
                    now,
                    (#[trigger] items@[i]).key.0@,
                    (#[trigger] items@[j]).key.0@,
                ),
            forall|j: int|
                0 <= j < p ==> listed_before(sort, m, now, (#[trigger] items@[j]).key.0@, item.key.0@),
        decreases items@.len() - p,
    {
        proof {
            assert(item_fits(items@[p as int], m, now));
        }
        p = p + 1;
    }
    let ghost before = items@;
    proof {
        if p < before.len() {
            assert(item_fits(before[p as int], m, now));
            lemma_listed_before_order(sort, m, now, before[p as int].key.0@, item.key.0@, item.key.0@);
            assert(listed_before(sort, m, now, item.key.0@, before[p as int].key.0@));
        }
        assert forall|j: int| p <= j < before.len() implies listed_before(
            sort,
            m,
            now,
            item.key.0@,
            (#[trigger] before[j]).key.0@,
        ) by {
            if j > p {
                assert(listed_before(sort, m, now, before[p as int].key.0@, before[j].key.0@));
                lemma_listed_before_order(sort, m, now, item.key.0@, before[p as int].key.0@, before[j].key.0@);
            }
        }
    }
    items.insert(p, item);
    proof {
        let after = items@;
        assert forall|a: int, b: int| 0 <= a < b < after.len() implies listed_before(
            sort,
            m,
            now,
            (#[trigger] after[a]).key.0@,
            (#[trigger] after[b]).key.0@,
        ) by {
            if b < p {
                assert(after[a] == before[a] && after[b] == before[b]);
            } else if b == p {
                assert(after[a] == before[a]);
            } else if a < p {
                assert(after[a] == before[a] && after[b] == before[b - 1]);
                assert(listed_before(sort, m, now, before[a].key.0@, before[b - 1].key.0@));
            } else if a == p {
                assert(after[b] == before[b - 1]);
            } else {
                assert(after[a] == before[a - 1] && after[b] == before[b - 1]);
            }
        }
    }
}

/// Inserting the item of entry `idx` keeps the account of the listed entries.
proof fn lemma_list_step(
    before: Seq<ListItem>,
    after: Seq<ListItem>,
    p: int,
    item: ListItem,
    entries: Seq<DevtoolsEntry>,
    idx: int,
    filter: Seq<char>,
)
    requires
        entry_keys_distinct(entries),
        0 <= idx < entries.len(),
        0 <= p <= before.len(),
        after == before.insert(p, item),
        item.key.0@ == entries[idx].key.0@,
        matches_filter(item.key.0@, filter),
        all_match(before, filter),
        all_from(before, entries, idx),
        all_covered(before, entries, idx, filter),
        items_distinct(before),
    ensures
        all_match(after, filter),
        all_from(after, entries, idx + 1),
        all_covered(after, entries, idx + 1, filter),
        items_distinct(after),
{
    reveal(all_match);
    reveal(all_from);
    reveal(all_covered);
    reveal(items_distinct);
    assert forall|j: int| 0 <= j < after.len() implies after[j] == if j < p {
        before[j]
    } else if j == p {
        item
    } else {
        before[j - 1]
    } by {}
    assert forall|j: int| 0 <= j < before.len() implies (#[trigger] before[j]).key.0@ != item.key.0@ by {
        let e = choose|e: int| 0 <= e < idx && before[j].key.0@ == (#[trigger] entries[e]).key.0@;
        assert(entries[e].key.0@ != entries[idx].key.0@);
    }
    assert forall|j: int| 0 <= j < after.len() implies exists|e: int|
        0 <= e < idx + 1 && (#[trigger] after[j]).key.0@ == (#[trigger] entries[e]).key.0@ by {
        if j < p {
            let e = choose|e: int| 0 <= e < idx && before[j].key.0@ == (#[trigger] entries[e]).key.0@;
        } else if j == p {
            assert(after[j].key.0@ == entries[idx].key.0@);
        } else {
            let e = choose|e: int| 0 <= e < idx && before[j - 1].key.0@ == (#[trigger] entries[e]).key.0@;
        }
    }
    assert forall|e: int|
        0 <= e < idx + 1 && matches_filter((#[trigger] entries[e]).key.0@, filter) implies exists|j: int|
            0 <= j < after.len() && (#[trigger] after[j]).key.0@ == entries[e].key.0@ by {
        if e == idx {
            assert(after[p].key.0@ == entries[e].key.0@);
        } else {
            let j = choose|j: int| 0 <= j < before.len() && (#[trigger] before[j]).key.0@ == entries[e].key.0@;
            if j < p {
                assert(after[j] == before[j]);
            } else {
                assert(after[j + 1] == before[j]);
            }
        }
    }
    assert forall|a: int, b: int| 0 <= a < b < after.len() implies (#[trigger] after[a]).key.0@
        != (#[trigger] after[b]).key.0@ by {
        if b < p {
        } else if b == p {
        } else if a < p {
            assert(after[b] == before[b - 1]);
        } else if a == p {
            assert(after[b] == before[b - 1]);
        } else {
            assert(after[a] == before[a - 1] && after[b] == before[b - 1]);
        }
    }
}

impl DevtoolsState {
    /// The keys the devtools list: those whose key contains `filter`, ASCII
    /// letters compared without regard to case, each once, ordered by `sort`,
    /// ascending or, when `ascending` is false, descending. A query without
    /// data counts as updated at `now`.
    pub fn list(&self, filter: &str, sort: SortOption, ascending: bool, now: Instant) -> (r: Vec<
        QueryCacheKey,
    >)
        ensures
            forall|j: int|
                0 <= j < r@.len() ==> self@.contains_key((#[trigger] r@[j]).0@) && matches_filter(
                    r@[j].0@,
                    filter@,
                ),
            forall|k: Seq<char>|
                #![trigger self@.contains_key(k)]
                self@.contains_key(k) && matches_filter(k, filter@) ==> exists|j: int|
                    0 <= j < r@.len() && r@[j].0@ == k,
            forall|i: int, j: int| 0 <= i < j < r@.len() ==> (#[trigger] r@[i]).0@ != (#[trigger] r@[j]).0@,
            ascending ==> forall|i: int, j: int|
                0 <= i < j < r@.len() ==> listed_before(sort, self@, now, (#[trigger] r@[i]).0@, (#[trigger] r@[j]).0@),
            !ascending ==> forall|i: int, j: int|
                0 <= i < j < r@.len() ==> listed_before(sort, self@, now, (#[trigger] r@[j]).0@, (#[trigger] r@[i]).0@),
    {
        let entries = self.entries();
        let ghost m = self@;
        let pattern = fold_chars(filter);
        let mut items: Vec<ListItem> = Vec::new();
        let mut idx: usize = 0;
        proof {
            reveal(all_fit);
            reveal(all_match);
            reveal(all_from);
            reveal(all_covered);
            reveal(items_distinct);
            reveal(items_sorted);
        }
        while idx < entries.len()
            invariant
                entry_keys_distinct(entries@),
                entry_map(entries@) == m,
                pattern@ == folded_text(filter@),
                idx <= entries@.len(),
                all_fit(items@, m, now),
                all_match(items@, filter@),
                all_from(items@, entries@, idx as int),
                all_covered(items@, entries@, idx as int, filter@),
                items_distinct(items@),
                items_sorted(items@, sort, m, now),
            decreases entries@.len() - idx,
        {
            let entry = &entries[idx];
            let text = fold_chars(entry.key.0.as_str());
            if occurs(&text, &pattern) {
                proof {
                    assert(has_entry(entries@, entry.key.0@));
                    let ei = choose|ei: int|
                        0 <= ei < entries@.len() && (#[trigger] entries@[ei]).key.0@ == entry.key.0@;
                    assert(ei == idx as int) by {
                        if ei != idx as int {
                            assert(entries@[ei].key.0@ != entries@[idx as int].key.0@);
                        }
                    }
                    assert(m.contains_key(entry.key.0@) && m[entry.key.0@] == *entry);
                }
                let time = match entry.state.updated_at() {
                    Some(t) => t.0,
                    None => now.0,
                };
                let item = ListItem {
                    key: QueryCacheKey(entry.key.0.clone()),
                    time,
                    codes: char_codes(entry.key.0.as_str()),
                };
                let ghost before = items@;
                insert_sorted(&mut items, item, sort, Ghost(m), now);
                proof {
                    let p = choose|p: int| 0 <= p <= before.len() && items@ == before.insert(p, item);
                    lemma_list_step(before, items@, p, item, entries@, idx as int, filter@);
                    lemma_all_fit_insert(before, items@, p, item, m, now);
                }
            } else {
                proof {
                    lemma_list_skip(items@, entries@, idx as int, filter@);
                }
            }
            idx = idx + 1;
        }
        let mut r: Vec<QueryCacheKey> = Vec::new();
        let n = items.len();
        let mut i: usize = 0;
        while i < n
            invariant
                n == items@.len(),
                i <= n,
                r@.len() == i,
                forall|j: int|
                    0 <= j < i ==> (#[trigger] r@[j]).0@ == (if ascending {
                        items@[j]
                    } else {
                        items@[n - 1 - j]
                    }).key.0@,
            decreases n - i,
        {
            let k = if ascending {
                &items[i].key
            } else {
                &items[n - 1 - i].key
            };
            r.push(QueryCacheKey(k.0.clone()));
            i = i + 1;
        }
        proof {
            lemma_list_result(items@, r@, ascending, sort, m, now, entries@, filter@);
        }
        r
    }
}

/// Inserting an item that stands for its entry keeps every item standing for its entry.
proof fn lemma_all_fit_insert(
    before: Seq<ListItem>,
    after: Seq<ListItem>,
    p: int,
    item: ListItem,
    m: Map<Seq<char>, DevtoolsEntry>,
    now: Instant,
)
    requires
        0 <= p <= before.len(),
        after == before.insert(p, item),
        all_fit(before, m, now),
        item_fits(item, m, now),
    ensures
        all_fit(after, m, now),
{
    reveal(all_fit);
    assert forall|j: int| 0 <= j < after.len() implies item_fits(#[trigger] after[j], m, now) by {
        if j < p {
            assert(after[j] == before[j]);
        } else if j > p {
            assert(after[j] == before[j - 1]);
        }
    }
}

/// An entry that does not match the filter is rightly left out.
proof fn lemma_list_skip(items: Seq<ListItem>, entries: Seq<DevtoolsEntry>, idx: int, filter: Seq<char>)
    requires
        0 <= idx < entries.len(),
        !matches_filter(entries[idx].key.0@, filter),
        all_from(items, entries, idx),
        all_covered(items, entries, idx, filter),
    ensures
        all_from(items, entries, idx + 1),
        all_covered(items, entries, idx + 1, filter),
{
    reveal(all_from);
    reveal(all_covered);
    assert forall|e: int|
        0 <= e < idx + 1 && matches_filter((#[trigger] entries[e]).key.0@, filter) implies exists|j: int|
            0 <= j < items.len() && (#[trigger] items[j]).key.0@ == entries[e].key.0@ by {
        assert(e != idx);
    }
    assert forall|j: int| 0 <= j < items.len() implies exists|e: int|
        0 <= e < idx + 1 && (#[trigger] items[j]).key.0@ == (#[trigger] entries[e]).key.0@ by {
        let e = choose|e: int| 0 <= e < idx && items[j].key.0@ == (#[trigger] entries[e]).key.0@;
    }
}

/// The keys of the items, in order or reversed, are the list the devtools show.
proof fn lemma_list_result(
    items: Seq<ListItem>,
    r: Seq<QueryCacheKey>,
    ascending: bool,
    sort: SortOption,
    m: Map<Seq<char>, DevtoolsEntry>,
    now: Instant,
    entries: Seq<DevtoolsEntry>,
    filter: Seq<char>,
)
    requires
        entry_map(entries) == m,
        r.len() == items.len(),
        forall|j: int|
            0 <= j < r.len() ==> (#[trigger] r[j]).0@ == (if ascending {
                items[j]
            } else {
                items[items.len() - 1 - j]
            }).key.0@,
        all_fit(items, m, now),
        all_match(items, filter),
        all_covered(items, entries, entries.len() as int, filter),
        items_distinct(items),
        items_sorted(items, sort, m, now),
    ensures
        forall|j: int|
            0 <= j < r.len() ==> m.contains_key((#[trigger] r[j]).0@) && matches_filter(r[j].0@, filter),
        forall|k: Seq<char>|
            #![trigger m.contains_key(k)]
            m.contains_key(k) && matches_filter(k, filter) ==> exists|j: int| 0 <= j < r.len() && r[j].0@ == k,
        forall|i: int, j: int| 0 <= i < j < r.len() ==> (#[trigger] r[i]).0@ != (#[trigger] r[j]).0@,
        ascending ==> forall|i: int, j: int|
            0 <= i < j < r.len() ==> listed_before(sort, m, now, (#[trigger] r[i]).0@, (#[trigger] r[j]).0@),
        !ascending ==> forall|i: int, j: int|
            0 <= i < j < r.len() ==> listed_before(sort, m, now, (#[trigger] r[j]).0@, (#[trigger] r[i]).0@),
{
    reveal(all_fit);
    reveal(all_match);
    reveal(all_covered);
    reveal(items_distinct);
    reveal(items_sorted);
    let n = items.len();
    let src = |j: int| if ascending { j } else { n - 1 - j };
    assert forall|j: int| 0 <= j < r.len() implies r[j].0@ == items[src(j)].key.0@ by {}
    assert forall|j: int| 0 <= j < r.len() implies m.contains_key((#[trigger] r[j]).0@) && matches_filter(
        r[j].0@,
        filter,
    ) by {
        assert(item_fits(items[src(j)], m, now));
        assert(matches_filter(items[src(j)].key.0@, filter));
    }
    assert forall|k: Seq<char>| #![trigger m.contains_key(k)] m.contains_key(k) && matches_filter(k, filter) implies exists|j: int|
        0 <= j < r.len() && r[j].0@ == k by {
        let e = choose|e: int| 0 <= e < entries.len() && (#[trigger] entries[e]).key.0@ == k;
        let j = choose|j: int| 0 <= j < items.len() && (#[trigger] items[j]).key.0@ == entries[e].key.0@;
        let jr = src(j);
        assert(src(jr) == j);
        assert(r[jr].0@ == k);
    }
    assert forall|a: int, b: int| 0 <= a < b < r.len() implies (#[trigger] r[a]).0@ != (#[trigger] r[b]).0@ by {
        if ascending {
            assert(items[a].key.0@ != items[b].key.0@);
        } else {
            assert(items[n - 1 - b].key.0@ != items[n - 1 - a].key.0@);
        }
    }
    if ascending {
        assert forall|a: int, b: int| 0 <= a < b < r.len() implies listed_before(sort, m, now, (#[trigger] r[a]).0@, (#[trigger] r[b]).0@) by {
            assert(listed_before(sort, m, now, items[a].key.0@, items[b].key.0@));
        }
    } else {
        assert forall|a: int, b: int| 0 <= a < b < r.len() implies listed_before(sort, m, now, (#[trigger] r[b]).0@, (#[trigger] r[a]).0@) by {
            assert(listed_before(sort, m, now, items[n - 1 - b].key.0@, items[n - 1 - a].key.0@));
        }
    }
}

} // verus!
