//! Public API snapshots and the diff between two of them.
use vstd::prelude::*;

use crate::text::chars_of;

verus! {

/// One public item as plain character sequences.
pub struct ItemView {
    pub key: Seq<char>,
    pub text: Seq<char>,
}

/// One publicly visible declaration: its identity key (declared path and
/// kind), which matches it across revisions, and its full rendering.
#[derive(Debug)]
pub struct ApiItem {
    pub key: String,
    pub text: String,
}

impl View for ApiItem {
    type V = ItemView;

    open spec fn view(&self) -> ItemView {
        ItemView { key: self.key@, text: self.text@ }
    }
}

impl ApiItem {
    /// A copy of this item.
    pub fn duplicate(&self) -> (r: Self)
        ensures
            r@ == self@,
    {
        ApiItem { key: self.key.clone(), text: self.text.clone() }
    }
}

/// An item present in both snapshots whose rendering differs.
#[derive(Debug)]
pub struct ChangedItem {
    pub old: ApiItem,
    pub new: ApiItem,
}

/// The difference between two snapshots of one crate.
#[derive(Debug)]
pub struct PublicApiDiff {
    pub removed: Vec<ApiItem>,
    pub changed: Vec<ChangedItem>,
    pub added: Vec<ApiItem>,
}

/// The views of a list of items.
pub open spec fn item_views(v: Seq<ApiItem>) -> Seq<ItemView> {
    v.map_values(|a: ApiItem| a@)
}

/// The views of a list of changed items, as `(old, new)` pairs.
pub open spec fn pair_views(v: Seq<ChangedItem>) -> Seq<(ItemView, ItemView)> {
    v.map_values(|c: ChangedItem| (c.old@, c.new@))
}

/// No two items of `s` share an identity key.
pub open spec fn keys_unique(s: Seq<ItemView>) -> bool {
    forall|i: int, j: int| 0 <= i < s.len() && 0 <= j < s.len() && s[i].key == s[j].key ==> i == j
}

/// The first index at or after `i` of an item of `s` with key `k`, or `s.len()`.
pub open spec fn find_from(s: Seq<ItemView>, k: Seq<char>, i: int) -> int
    decreases s.len() - i,
{
    if i < 0 || i >= s.len() {
        s.len() as int
    } else if s[i].key == k {
        i
    } else {
        find_from(s, k, i + 1)
    }
}

/// The index of the first item of `s` with key `k`, or `s.len()`.
pub open spec fn find_key(s: Seq<ItemView>, k: Seq<char>) -> int {
    find_from(s, k, 0)
}

/// The items of `s`, in order, whose key occurs nowhere in `other`.
pub open spec fn unmatched(s: Seq<ItemView>, other: Seq<ItemView>) -> Seq<ItemView>
    decreases s.len(),
{
    if s.len() == 0 {
        Seq::empty()
    } else {
        let p = unmatched(s.drop_last(), other);
        if find_key(other, s.last().key) < other.len() {
            p
        } else {
            p.push(s.last())
        }
    }
}

/// For each item of `new`, in order, whose key matches an item of `old` with
/// another rendering: the pair of that old item and the new one.
pub open spec fn changed_pairs(old: Seq<ItemView>, new: Seq<ItemView>) -> Seq<(ItemView, ItemView)>
    decreases new.len(),
{
    if new.len() == 0 {
        Seq::empty()
    } else {
        let p = changed_pairs(old, new.drop_last());
        let n = new.last();
        let j = find_key(old, n.key);
        if j < old.len() && old[j].text != n.text {
            p.push((old[j], n))
        } else {
            p
        }
    }
}

/// The items of `s`, in order, that do not occur (same key and same
/// rendering) in `other`.
pub open spec fn without(s: Seq<ItemView>, other: Seq<ItemView>) -> Seq<ItemView>
    decreases s.len(),
{
    if s.len() == 0 {
        Seq::empty()
    } else {
        let p = without(s.drop_last(), other);
        if other.contains(s.last()) {
            p
        } else {
            p.push(s.last())
        }
    }
}

/// The items added in `new`, sorted by key: of the items that occur in
/// only one snapshot, those of `new` whose key is not in `old`.
pub open spec fn added_spec(old: Seq<ItemView>, new: Seq<ItemView>) -> Seq<ItemView> {
    sort_items(unmatched(without(new, old), without(old, new)))
}

/// The items removed from `old`, sorted by key: of the items that occur in
/// only one snapshot, those of `old` whose key is not in `new`.
pub open spec fn removed_spec(old: Seq<ItemView>, new: Seq<ItemView>) -> Seq<ItemView> {
    sort_items(unmatched(without(old, new), without(new, old)))
}

/// The changed pairs, sorted by key: of the items that occur in only one
/// snapshot, those that share a key.
pub open spec fn changed_spec(old: Seq<ItemView>, new: Seq<ItemView>) -> Seq<(ItemView, ItemView)> {
    sort_pairs(changed_pairs(without(old, new), without(new, old)))
}

/// The keys of the new items of `s` never decrease.
pub open spec fn pairs_sorted_by_key(s: Seq<(ItemView, ItemView)>) -> bool {
    forall|i: int, j: int| 0 <= i < j < s.len() ==> !key_lt(s[j].1.key, s[i].1.key)
}

/// The keys of `s` never decrease.
pub open spec fn sorted_by_key(s: Seq<ItemView>) -> bool {
    forall|i: int, j: int| 0 <= i < j < s.len() ==> !key_lt(s[j].key, s[i].key)
}

proof fn lemma_find_from(s: Seq<ItemView>, k: Seq<char>, i: int)
    requires
        0 <= i <= s.len(),
    ensures
        i <= find_from(s, k, i) <= s.len(),
        find_from(s, k, i) < s.len() ==> s[find_from(s, k, i)].key == k,
        forall|j: int| i <= j < find_from(s, k, i) ==> s[j].key != k,
    decreases s.len() - i,
{
    if i < s.len() && s[i].key != k {
        lemma_find_from(s, k, i + 1);
    }
}

/// With unique keys, the item found for the key of `s[i]` is `s[i]`.
proof fn lemma_find_unique(s: Seq<ItemView>, i: int)
    requires
        keys_unique(s),
        0 <= i < s.len(),
    ensures
        find_key(s, s[i].key) == i,
{
    lemma_find_from(s, s[i].key, 0);
}

fn find_item(s: &Vec<ApiItem>, k: &String) -> (r: usize)
    ensures
        r == find_key(item_views(s@), k@),
        r <= s@.len(),
{
    let ghost v = item_views(s@);
    let mut i: usize = 0;
    while i < s.len()
        invariant
            i <= s@.len(),
            v == item_views(s@),
            find_from(v, k@, i as int) == find_key(v, k@),
        decreases s@.len() - i,
    {
        if s[i].key == *k {
            return i;
        }
        i = i + 1;
    }
    i
}

fn occurs(s: &Vec<ApiItem>, x: &ApiItem) -> (r: bool)
    ensures
        r == item_views(s@).contains(x@),
{
    let ghost v = item_views(s@);
    let mut i: usize = 0;
    while i < s.len()
        invariant
            i <= s@.len(),
            v == item_views(s@),
            forall|k: int| 0 <= k < i ==> v[k] != x@,
        decreases s@.len() - i,
    {
        if s[i].key == x.key && s[i].text == x.text {
            proof {
                assert(v[i as int] == x@);
            }
            return true;
        }
        i = i + 1;
    }
    false
}

fn without_items(s: &Vec<ApiItem>, other: &Vec<ApiItem>) -> (r: Vec<ApiItem>)
    ensures
        item_views(r@) == without(item_views(s@), item_views(other@)),
{
    let ghost v = item_views(s@);
    let ghost o = item_views(other@);
    let mut r: Vec<ApiItem> = Vec::new();
    let mut i: usize = 0;
    while i < s.len()
        invariant
            i <= s@.len(),
            v == item_views(s@),
            o == item_views(other@),
            item_views(r@) == without(v.take(i as int), o),
        decreases s@.len() - i,
    {
        proof {
            assert(v.take(i + 1).drop_last() =~= v.take(i as int));
            assert(v.take(i + 1).last() == s@[i as int]@);
        }
        if !occurs(other, &s[i]) {
            let ghost pre = item_views(r@);
            r.push(s[i].duplicate());
            proof {
                assert(item_views(r@) =~= pre.push(s@[i as int]@));
            }
        }
        i = i + 1;
    }
    proof {
        assert(v.take(s@.len() as int) =~= v);
    }
    r
}

fn unmatched_items(s: &Vec<ApiItem>, other: &Vec<ApiItem>) -> (r: Vec<ApiItem>)
    ensures
        item_views(r@) == unmatched(item_views(s@), item_views(other@)),
{
    let ghost v = item_views(s@);
    let ghost o = item_views(other@);
    let mut r: Vec<ApiItem> = Vec::new();
    let mut i: usize = 0;
    while i < s.len()
        invariant
            i <= s@.len(),
            v == item_views(s@),
            o == item_views(other@),
            item_views(r@) == unmatched(v.take(i as int), o),
        decreases s@.len() - i,
    {
        proof {
            assert(v.take(i + 1).drop_last() =~= v.take(i as int));
            assert(v.take(i + 1).last() == s@[i as int]@);
        }
        let j = find_item(other, &s[i].key);
        if j == other.len() {
            let ghost pre = item_views(r@);
            r.push(s[i].duplicate());
            proof {
                assert(item_views(r@) =~= pre.push(s@[i as int]@));
            }
        }
        i = i + 1;
    }
    proof {
        assert(v.take(s@.len() as int) =~= v);
    }
    r
}

fn changed_items(old: &Vec<ApiItem>, new: &Vec<ApiItem>) -> (r: Vec<ChangedItem>)
    ensures
        pair_views(r@) == changed_pairs(item_views(old@), item_views(new@)),
{
    let ghost o = item_views(old@);
    let ghost v = item_views(new@);
    let mut r: Vec<ChangedItem> = Vec::new();
    let mut i: usize = 0;
    while i < new.len()
        invariant
            i <= new@.len(),
            v == item_views(new@),
            o == item_views(old@),
            pair_views(r@) == changed_pairs(o, v.take(i as int)),
        decreases new@.len() - i,
    {
        proof {
            assert(v.take(i + 1).drop_last() =~= v.take(i as int));
            assert(v.take(i + 1).last() == new@[i as int]@);
        }
        let j = find_item(old, &new[i].key);
        if j < old.len() && old[j].text != new[i].text {
            let ghost pre = pair_views(r@);
            r.push(ChangedItem { old: old[j].duplicate(), new: new[i].duplicate() });
            proof {
                assert(pair_views(r@) =~= pre.push((old@[j as int]@, new@[i as int]@)));
            }
        }
        i = i + 1;
    }
    proof {
        assert(v.take(new@.len() as int) =~= v);
    }
    r
}


/// `a` comes before `b`: the first character where they differ is smaller in
/// `a`, or `a` is a proper prefix of `b` (the order of `str`).
pub open spec fn key_lt(a: Seq<char>, b: Seq<char>) -> bool
    decreases a.len(),
{
    if a.len() == 0 {
        b.len() > 0
    } else if b.len() == 0 {
        false
    } else if a[0] != b[0] {
        a[0] < b[0]
    } else {
        key_lt(a.drop_first(), b.drop_first())
    }
}

/// Where key `k` goes in `keys`, searching from `i`: before the first key
/// greater than it, so that equal keys keep their order.
pub open spec fn insert_pos(keys: Seq<Seq<char>>, k: Seq<char>, i: int) -> int
    decreases keys.len() - i,
{
    if i < 0 || i >= keys.len() {
        keys.len() as int
    } else if key_lt(k, keys[i]) {
        i
    } else {
        insert_pos(keys, k, i + 1)
    }
}

/// The keys of a list of items.
pub open spec fn item_keys(s: Seq<ItemView>) -> Seq<Seq<char>> {
    s.map_values(|x: ItemView| x.key)
}

/// The keys of a list of changed pairs: those of the new items.
pub open spec fn pair_keys(s: Seq<(ItemView, ItemView)>) -> Seq<Seq<char>> {
    s.map_values(|p: (ItemView, ItemView)| p.1.key)
}

/// `s` sorted by key; items with equal keys keep their order.
pub open spec fn sort_items(s: Seq<ItemView>) -> Seq<ItemView>
    decreases s.len(),
{
    if s.len() == 0 {
        Seq::empty()
    } else {
        let t = sort_items(s.drop_last());
        t.insert(insert_pos(item_keys(t), s.last().key, 0), s.last())
    }
}

/// `s` sorted by the key of the new item; pairs with equal keys keep their
/// order.
pub open spec fn sort_pairs(s: Seq<(ItemView, ItemView)>) -> Seq<(ItemView, ItemView)>
    decreases s.len(),
{
    if s.len() == 0 {
        Seq::empty()
    } else {
        let t = sort_pairs(s.drop_last());
        t.insert(insert_pos(pair_keys(t), s.last().1.key, 0), s.last())
    }
}

/// Whether `a` comes before `b`.
pub fn key_less(a: &String, b: &String) -> (r: bool)
    ensures
        r == key_lt(a@, b@),
{
    let x = chars_of(a.as_str());
    let y = chars_of(b.as_str());
    proof {
        assert(x@.skip(0) =~= x@);
        assert(y@.skip(0) =~= y@);
    }
    let mut i: usize = 0;
    while i < x.len() && i < y.len() && x[i] == y[i]
        invariant
            i <= x@.len(),
            i <= y@.len(),
            key_lt(x@.skip(i as int), y@.skip(i as int)) == key_lt(a@, b@),
            x@ == a@,
            y@ == b@,
        decreases x@.len() - i,
    {
        proof {
            assert(x@.skip(i as int).drop_first() =~= x@.skip(i + 1));
            assert(y@.skip(i as int).drop_first() =~= y@.skip(i + 1));
        }
        i = i + 1;
    }
    if i == x.len() {
        i < y.len()
    } else if i == y.len() {
        false
    } else {
        x[i] < y[i]
    }
}

fn find_insert_pos(keys: Ghost<Seq<Seq<char>>>, out: &Vec<ApiItem>, k: &String) -> (r: usize)
    requires
        keys@ == item_keys(item_views(out@)),
    ensures
        r == insert_pos(keys@, k@, 0),
        r <= out@.len(),
{
    let mut i: usize = 0;
    while i < out.len()
        invariant
            i <= out@.len(),
            keys@ == item_keys(item_views(out@)),
            insert_pos(keys@, k@, i as int) == insert_pos(keys@, k@, 0),
        decreases out@.len() - i,
    {
        if key_less(k, &out[i].key) {
            return i;
        }
        i = i + 1;
    }
    i
}

fn find_pair_pos(keys: Ghost<Seq<Seq<char>>>, out: &Vec<ChangedItem>, k: &String) -> (r: usize)
    requires
        keys@ == pair_keys(pair_views(out@)),
    ensures
        r == insert_pos(keys@, k@, 0),
        r <= out@.len(),
{
    let mut i: usize = 0;
    while i < out.len()
        invariant
            i <= out@.len(),
            keys@ == pair_keys(pair_views(out@)),
            insert_pos(keys@, k@, i as int) == insert_pos(keys@, k@, 0),
        decreases out@.len() - i,
    {
        if key_less(k, &out[i].new.key) {
            return i;
        }
        i = i + 1;
    }
    i
}

/// The items sorted by key, equal keys in their order.
fn sorted_items(v: Vec<ApiItem>) -> (r: Vec<ApiItem>)
    ensures
        item_views(r@) == sort_items(item_views(v@)),
{
    let ghost s = item_views(v@);
    let mut out: Vec<ApiItem> = Vec::new();
    let mut i: usize = 0;
    while i < v.len()
        invariant
            i <= v@.len(),
            s == item_views(v@),
            item_views(out@) == sort_items(s.take(i as int)),
        decreases v@.len() - i,
    {
        proof {
            assert(s.take(i + 1).drop_last() =~= s.take(i as int));
            assert(s.take(i + 1).last() == v@[i as int]@);
        }
        let x = v[i].duplicate();
        let pos = find_insert_pos(Ghost(item_keys(item_views(out@))), &out, &x.key);
        let ghost pre = item_views(out@);
        out.insert(pos, x);
        proof {
            assert(item_views(out@) =~= pre.insert(pos as int, v@[i as int]@));
        }
        i = i + 1;
    }
    proof {
        assert(s.take(v@.len() as int) =~= s);
    }
    out
}

/// The changed pairs sorted by the key of the new item, equal keys in their
/// order.
fn sorted_pairs(v: Vec<ChangedItem>) -> (r: Vec<ChangedItem>)
    ensures
        pair_views(r@) == sort_pairs(pair_views(v@)),
{
    let ghost s = pair_views(v@);
    let mut out: Vec<ChangedItem> = Vec::new();
    let mut i: usize = 0;
    while i < v.len()
        invariant
            i <= v@.len(),
            s == pair_views(v@),
            pair_views(out@) == sort_pairs(s.take(i as int)),
        decreases v@.len() - i,
    {
        proof {
            assert(s.take(i + 1).drop_last() =~= s.take(i as int));
            assert(s.take(i + 1).last() == (v@[i as int].old@, v@[i as int].new@));
        }
        let x = ChangedItem { old: v[i].old.duplicate(), new: v[i].new.duplicate() };
        let pos = find_pair_pos(Ghost(pair_keys(pair_views(out@))), &out, &x.new.key);
        let ghost pre = pair_views(out@);
        out.insert(pos, x);
        proof {
            assert(pair_views(out@) =~= pre.insert(pos as int, (v@[i as int].old@, v@[i as int].new@)));
        }
        i = i + 1;
    }
    proof {
        assert(s.take(v@.len() as int) =~= s);
    }
    out
}

impl PublicApiDiff {
    /// Compares two snapshots: an item of `new` whose key is not in `old` is
    /// added; an item of `old` whose key is not in `new` is removed; an item
    /// of `new` whose key matches an item of `old` with another rendering is
    /// changed, paired with that old item. Items that occur in both
    /// snapshots with the same key and rendering are left out first. Each
    /// list is sorted by key, items with equal keys in snapshot order.
    pub fn between(old: &Vec<ApiItem>, new: &Vec<ApiItem>) -> (r: PublicApiDiff)
        ensures
            item_views(r.added@) == added_spec(item_views(old@), item_views(new@)),
            item_views(r.removed@) == removed_spec(item_views(old@), item_views(new@)),
            pair_views(r.changed@) == changed_spec(item_views(old@), item_views(new@)),
    {
        let old_only = without_items(old, new);
        let new_only = without_items(new, old);
        PublicApiDiff {
            removed: sorted_items(unmatched_items(&old_only, &new_only)),
            changed: sorted_pairs(changed_items(&old_only, &new_only)),
            added: sorted_items(unmatched_items(&new_only, &old_only)),
        }
    }

    /// Whether the diff reports nothing.
    pub fn is_empty(&self) -> (r: bool)
        ensures
            r == (self.removed@.len() == 0 && self.changed@.len() == 0 && self.added@.len() == 0),
    {
        self.removed.len() == 0 && self.changed.len() == 0 && self.added.len() == 0
    }
}

proof fn lemma_changed_none(old: Seq<ItemView>, a: Seq<ItemView>)
    requires
        forall|i: int|
            0 <= i < a.len() ==> {
                let j = find_key(old, #[trigger] a[i].key);
                j < old.len() ==> old[j].text == a[i].text
            },
    ensures
        changed_pairs(old, a) == Seq::<(ItemView, ItemView)>::empty(),
    decreases a.len(),
{
    if a.len() > 0 {
        assert(a.last() == a[a.len() - 1]);
        lemma_changed_none(old, a.drop_last());
    }
}

proof fn lemma_unmatched_of_empty(a: Seq<ItemView>)
    ensures
        unmatched(a, Seq::empty()) == a,
    decreases a.len(),
{
    if a.len() > 0 {
        lemma_unmatched_of_empty(a.drop_last());
        assert(a.drop_last().push(a.last()) =~= a);
    }
}

proof fn lemma_changed_member(old: Seq<ItemView>, new: Seq<ItemView>, x: (ItemView, ItemView))
    ensures
        changed_pairs(old, new).contains(x) <==> exists|i: int|
            0 <= i < new.len() && #[trigger] find_key(old, new[i].key) < old.len() && old[find_key(
                old,
                new[i].key,
            )].text != new[i].text && x == (old[find_key(old, new[i].key)], new[i]),
    decreases new.len(),
{
    if new.len() > 0 {
        let d = new.drop_last();
        lemma_changed_member(old, d, x);
        let p = changed_pairs(old, d);
        let n = new.last();
        let j = find_key(old, n.key);
        if exists|i: int|
            0 <= i < d.len() && #[trigger] find_key(old, d[i].key) < old.len() && old[find_key(
                old,
                d[i].key,
            )].text != d[i].text && x == (old[find_key(old, d[i].key)], d[i]) {
            let i = choose|i: int|
                0 <= i < d.len() && #[trigger] find_key(old, d[i].key) < old.len() && old[find_key(
                    old,
                    d[i].key,
                )].text != d[i].text && x == (old[find_key(old, d[i].key)], d[i]);
            assert(new[i] == d[i]);
        }
        if changed_pairs(old, new).contains(x) {
            if !p.contains(x) {
                let k = choose|k: int| 0 <= k < changed_pairs(old, new).len() && changed_pairs(old, new)[k] == x;
                assert(k == p.len());
                assert(new[new.len() - 1] == n);
            }
        } else {
            assert forall|i: int|
                0 <= i < new.len() && #[trigger] find_key(old, new[i].key) < old.len() && old[find_key(
                    old,
                    new[i].key,
                )].text != new[i].text implies x != (old[find_key(old, new[i].key)], new[i]) by {
                if i < d.len() {
                    assert(new[i] == d[i]);
                    if x == (old[find_key(old, new[i].key)], new[i]) {
                        assert(p.contains(x));
                        let k = choose|k: int| 0 <= k < p.len() && p[k] == x;
                        assert(changed_pairs(old, new)[k] == x);
                    }
                } else {
                    assert(new[i] == n);
                    if x == (old[j], n) {
                        assert(changed_pairs(old, new)[p.len() as int] == x);
                    }
                }
            }
        }
    }
}

proof fn lemma_without_all(a: Seq<ItemView>, b: Seq<ItemView>)
    requires
        forall|i: int| 0 <= i < a.len() ==> b.contains(#[trigger] a[i]),
    ensures
        without(a, b) == Seq::<ItemView>::empty(),
    decreases a.len(),
{
    if a.len() > 0 {
        assert(a.last() == a[a.len() - 1]);
        lemma_without_all(a.drop_last(), b);
    }
}

proof fn lemma_without_none(a: Seq<ItemView>)
    ensures
        without(a, Seq::empty()) == a,
    decreases a.len(),
{
    if a.len() > 0 {
        lemma_without_none(a.drop_last());
        assert(a.drop_last().push(a.last()) =~= a);
    }
}

proof fn lemma_without_sub(a: Seq<ItemView>, b: Seq<ItemView>)
    ensures
        forall|x: ItemView| #[trigger] without(a, b).contains(x) ==> a.contains(x),
        keys_unique(a) ==> keys_unique(without(a, b)),
    decreases a.len(),
{
    if a.len() > 0 {
        let d = a.drop_last();
        lemma_without_sub(d, b);
        let p = without(d, b);
        assert forall|x: ItemView| #[trigger] without(a, b).contains(x) implies a.contains(x) by {
            if p.contains(x) {
                let k = choose|k: int| 0 <= k < d.len() && d[k] == x;
                assert(a[k] == x);
            } else {
                assert(a[a.len() - 1] == a.last());
                if !b.contains(a.last()) {
                    let k = choose|k: int| 0 <= k < p.push(a.last()).len() && p.push(a.last())[k] == x;
                    if k < p.len() {
                        assert(p[k] == x);
                    }
                }
            }
        }
        if keys_unique(a) {
            assert(keys_unique(d));
            if !b.contains(a.last()) {
                let q = p.push(a.last());
                assert forall|i: int, j: int|
                    0 <= i < q.len() && 0 <= j < q.len() && q[i].key == q[j].key implies i == j by {
                    if i < p.len() && j == p.len() {
                        assert(p.contains(q[i]));
                        assert(d.contains(q[i]));
                        let k = choose|k: int| 0 <= k < d.len() && d[k] == q[i];
                        assert(a[k] == q[i] && a[a.len() - 1] == q[j]);
                    } else if j < p.len() && i == p.len() {
                        assert(p.contains(q[j]));
                        assert(d.contains(q[j]));
                        let k = choose|k: int| 0 <= k < d.len() && d[k] == q[j];
                        assert(a[k] == q[j] && a[a.len() - 1] == q[i]);
                    } else if i < p.len() && j < p.len() {
                        assert(q[i] == p[i] && q[j] == p[j]);
                    }
                }
            }
        }
    }
}

/// Diffing a snapshot against itself reports nothing.
pub proof fn lemma_diff_identity(s: Seq<ItemView>)
    ensures
        added_spec(s, s) == Seq::<ItemView>::empty(),
        removed_spec(s, s) == Seq::<ItemView>::empty(),
        changed_spec(s, s) == Seq::<(ItemView, ItemView)>::empty(),
{
    assert forall|i: int| 0 <= i < s.len() implies s.contains(#[trigger] s[i]) by {}
    lemma_without_all(s, s);
    let e = Seq::<ItemView>::empty();
    assert(unmatched(e, e) == e);
    assert(changed_pairs(e, e) == Seq::<(ItemView, ItemView)>::empty());
    assert(sort_items(e) == e);
    assert(sort_pairs(Seq::<(ItemView, ItemView)>::empty()) == Seq::<(ItemView, ItemView)>::empty());
}

proof fn lemma_insert_pos_bounds(keys: Seq<Seq<char>>, k: Seq<char>, i: int)
    requires
        0 <= i <= keys.len(),
    ensures
        i <= insert_pos(keys, k, i) <= keys.len(),
        (forall|j: int| i <= j < keys.len() ==> !key_lt(k, #[trigger] keys[j])) ==> insert_pos(
            keys,
            k,
            i,
        ) == keys.len(),
    decreases keys.len() - i,
{
    if i < keys.len() && !key_lt(k, keys[i]) {
        lemma_insert_pos_bounds(keys, k, i + 1);
    }
}

/// Sorting a list whose keys never decrease leaves it as it is.
pub proof fn lemma_sort_sorted(s: Seq<ItemView>)
    requires
        sorted_by_key(s),
    ensures
        sort_items(s) == s,
    decreases s.len(),
{
    if s.len() > 0 {
        let d = s.drop_last();
        assert(sorted_by_key(d));
        lemma_sort_sorted(d);
        let keys = item_keys(d);
        assert forall|j: int| 0 <= j < keys.len() implies !key_lt(s.last().key, #[trigger] keys[j]) by {
            assert(keys[j] == s[j].key);
        }
        lemma_insert_pos_bounds(keys, s.last().key, 0);
        assert(d.insert(d.len() as int, s.last()) =~= s);
    }
}

proof fn lemma_sort_pairs_contains(s: Seq<(ItemView, ItemView)>, x: (ItemView, ItemView))
    ensures
        sort_pairs(s).contains(x) <==> s.contains(x),
    decreases s.len(),
{
    if s.len() > 0 {
        let d = s.drop_last();
        lemma_sort_pairs_contains(d, x);
        let t = sort_pairs(d);
        lemma_sort_pairs_len(d);
        let p = insert_pos(pair_keys(t), s.last().1.key, 0);
        lemma_insert_pos_bounds(pair_keys(t), s.last().1.key, 0);
        let u = t.insert(p, s.last());
        if u.contains(x) {
            let k = choose|k: int| 0 <= k < u.len() && u[k] == x;
            if k < p {
                assert(t[k] == x);
            } else if k > p {
                assert(t[k - 1] == x);
            }
        }
        if t.contains(x) {
            let k = choose|k: int| 0 <= k < t.len() && t[k] == x;
            if k < p {
                assert(u[k] == x);
            } else {
                assert(u[k + 1] == x);
            }
        }
        if x == s.last() {
            assert(u[p] == x);
        }
        if d.contains(x) {
            let k = choose|k: int| 0 <= k < d.len() && d[k] == x;
            assert(s[k] == x);
        }
        if s.contains(x) && x != s.last() {
            let k = choose|k: int| 0 <= k < s.len() && s[k] == x;
            assert(k < d.len());
            assert(d[k] == x);
        }
        if x == s.last() {
            assert(s[s.len() - 1] == x);
        }
    }
}

proof fn lemma_sort_pairs_len(s: Seq<(ItemView, ItemView)>)
    ensures
        sort_pairs(s).len() == s.len(),
    decreases s.len(),
{
    if s.len() > 0 {
        lemma_sort_pairs_len(s.drop_last());
        let t = sort_pairs(s.drop_last());
        lemma_insert_pos_bounds(pair_keys(t), s.last().1.key, 0);
    }
}

/// Diffing an empty snapshot against any snapshot reports all of the
/// latter's items as added, sorted by key, and nothing removed or changed;
/// when its keys never decrease, the added items are that snapshot itself.
pub proof fn lemma_diff_from_empty(new: Seq<ItemView>)
    ensures
        added_spec(Seq::empty(), new) == sort_items(new),
        sorted_by_key(new) ==> added_spec(Seq::empty(), new) == new,
        removed_spec(Seq::empty(), new) == Seq::<ItemView>::empty(),
        changed_spec(Seq::empty(), new) == Seq::<(ItemView, ItemView)>::empty(),
{
    lemma_without_none(new);
    lemma_without_all(Seq::<ItemView>::empty(), new);
    lemma_unmatched_of_empty(new);
    lemma_changed_none(Seq::empty(), new);
    if sorted_by_key(new) {
        lemma_sort_sorted(new);
    }
    assert(unmatched(Seq::<ItemView>::empty(), new) == Seq::<ItemView>::empty());
    assert(sort_items(Seq::<ItemView>::empty()) == Seq::<ItemView>::empty());
    assert(sort_pairs(Seq::<(ItemView, ItemView)>::empty()) == Seq::<(ItemView, ItemView)>::empty());
}

proof fn lemma_changed_swap(old: Seq<ItemView>, new: Seq<ItemView>)
    requires
        keys_unique(old),
        keys_unique(new),
    ensures
        forall|x: (ItemView, ItemView)|
            #[trigger] sort_pairs(changed_pairs(old, new)).contains(x) <==> sort_pairs(changed_pairs(new, old)).contains(
                (x.1, x.0),
            ),
{
    assert forall|x: (ItemView, ItemView)|
        #[trigger] sort_pairs(changed_pairs(old, new)).contains(x) <==> sort_pairs(changed_pairs(new, old)).contains(
            (x.1, x.0),
        ) by {
        lemma_sort_pairs_contains(changed_pairs(old, new), x);
        lemma_sort_pairs_contains(changed_pairs(new, old), (x.1, x.0));
        lemma_changed_member(old, new, x);
        lemma_changed_member(new, old, (x.1, x.0));
        if changed_pairs(old, new).contains(x) {
            let i = choose|i: int|
                0 <= i < new.len() && #[trigger] find_key(old, new[i].key) < old.len() && old[find_key(
                    old,
                    new[i].key,
                )].text != new[i].text && x == (old[find_key(old, new[i].key)], new[i]);
            let j = find_key(old, new[i].key);
            lemma_find_from(old, new[i].key, 0);
            lemma_find_unique(new, i);
            assert(find_key(new, old[j].key) < new.len());
        }
        if changed_pairs(new, old).contains((x.1, x.0)) {
            let j = choose|j: int|
                0 <= j < old.len() && #[trigger] find_key(new, old[j].key) < new.len() && new[find_key(
                    new,
                    old[j].key,
                )].text != old[j].text && (x.1, x.0) == (new[find_key(new, old[j].key)], old[j]);
            let i = find_key(new, old[j].key);
            lemma_find_from(new, old[j].key, 0);
            lemma_find_unique(old, j);
            assert(find_key(old, new[i].key) < old.len());
        }
    }
}

/// Swapping the snapshots swaps added and removed items, and turns each
/// changed pair `(a, b)` into `(b, a)`.
pub proof fn lemma_diff_antisymmetric(old: Seq<ItemView>, new: Seq<ItemView>)
    requires
        keys_unique(old),
        keys_unique(new),
    ensures
        added_spec(old, new) == removed_spec(new, old),
        removed_spec(old, new) == added_spec(new, old),
        forall|x: (ItemView, ItemView)|
            #[trigger] changed_spec(old, new).contains(x) <==> changed_spec(new, old).contains(
                (x.1, x.0),
            ),
{
    lemma_without_sub(old, new);
    lemma_without_sub(new, old);
    lemma_changed_swap(without(old, new), without(new, old));
}

/// One bullet naming an item.
pub open spec fn item_line(a: ItemView) -> Seq<char> {
    "- `"@ + a.text + "`\n"@
}

/// One bullet naming a changed item's old and new rendering.
pub open spec fn changed_line(p: (ItemView, ItemView)) -> Seq<char> {
    "- `"@ + p.0.text + "` becomes `"@ + p.1.text + "`\n"@
}

/// The bullets of a list of items.
pub open spec fn item_lines(s: Seq<ItemView>) -> Seq<char>
    decreases s.len(),
{
    if s.len() == 0 {
        Seq::empty()
    } else {
        item_lines(s.drop_last()) + item_line(s.last())
    }
}

/// The bullets of a list of changed items.
pub open spec fn changed_lines(s: Seq<(ItemView, ItemView)>) -> Seq<char>
    decreases s.len(),
{
    if s.len() == 0 {
        Seq::empty()
    } else {
        changed_lines(s.drop_last()) + changed_line(s.last())
    }
}

/// A `###` section around `body`; nothing when it lists no entries.
pub open spec fn list_section(title: Seq<char>, body: Seq<char>, count: nat) -> Seq<char> {
    if count == 0 {
        Seq::empty()
    } else {
        "### "@ + title + "\n\n"@ + body + "\n"@
    }
}

/// The text of a diff: removed, changed and added items, each list under
/// its own heading, empty lists left out.
pub open spec fn diff_text(
    removed: Seq<ItemView>,
    changed: Seq<(ItemView, ItemView)>,
    added: Seq<ItemView>,
) -> Seq<char> {
    list_section("Removed"@, item_lines(removed), removed.len()) + list_section(
        "Changed"@,
        changed_lines(changed),
        changed.len(),
    ) + list_section("Added"@, item_lines(added), added.len())
}

fn render_items(title: &str, items: &Vec<ApiItem>) -> (r: String)
    ensures
        r@ == list_section(title@, item_lines(item_views(items@)), items@.len()),
{
    let mut out = String::new();
    if items.len() == 0 {
        return out;
    }
    out.append("### ");
    out.append(title);
    out.append("\n\n");
    let ghost head = out@;
    let ghost v = item_views(items@);
    let mut i: usize = 0;
    while i < items.len()
        invariant
            i <= items@.len(),
            v == item_views(items@),
            out@ == head + item_lines(v.take(i as int)),
        decreases items@.len() - i,
    {
        proof {
            assert(v.take(i + 1).drop_last() =~= v.take(i as int));
            assert(v.take(i + 1).last() == items@[i as int]@);
        }
        out.append("- `");
        out.append(items[i].text.as_str());
        out.append("`\n");
        proof {
            assert(out@ =~= head + item_lines(v.take(i + 1)));
        }
        i = i + 1;
    }
    out.append("\n");
    proof {
        assert(v.take(items@.len() as int) =~= v);
    }
    out
}

fn render_changed(title: &str, items: &Vec<ChangedItem>) -> (r: String)
    ensures
        r@ == list_section(title@, changed_lines(pair_views(items@)), items@.len()),
{
    let mut out = String::new();
    if items.len() == 0 {
        return out;
    }
    out.append("### ");
    out.append(title);
    out.append("\n\n");
    let ghost head = out@;
    let ghost v = pair_views(items@);
    let mut i: usize = 0;
    while i < items.len()
        invariant
            i <= items@.len(),
            v == pair_views(items@),
            out@ == head + changed_lines(v.take(i as int)),
        decreases items@.len() - i,
    {
        proof {
            assert(v.take(i + 1).drop_last() =~= v.take(i as int));
            assert(v.take(i + 1).last() == (items@[i as int].old@, items@[i as int].new@));
        }
        out.append("- `");
        out.append(items[i].old.text.as_str());
        out.append("` becomes `");
        out.append(items[i].new.text.as_str());
        out.append("`\n");
        proof {
            assert(out@ =~= head + changed_lines(v.take(i + 1)));
        }
        i = i + 1;
    }
    out.append("\n");
    proof {
        assert(v.take(items@.len() as int) =~= v);
    }
    out
}

impl PublicApiDiff {
    /// Renders the diff: `### Removed`, `### Changed` and `### Added`
    /// sections, each a blank line, one bullet per entry and a blank line;
    /// sections without entries are left out, so an empty diff renders as
    /// the empty string.
    pub fn render_changelog(&self) -> (r: String)
        ensures
            r@ == diff_text(
                item_views(self.removed@),
                pair_views(self.changed@),
                item_views(self.added@),
            ),
            r@.len() == 0 <==> (self.removed@.len() == 0 && self.changed@.len() == 0
                && self.added@.len() == 0),
    {
        let mut out = render_items("Removed", &self.removed);
        let changed = render_changed("Changed", &self.changed);
        let added = render_items("Added", &self.added);
        out.append(changed.as_str());
        out.append(added.as_str());
        proof {
            reveal_strlit("### ");
            assert("### "@.len() == 4);
        }
        out
    }
}

proof fn lemma_key_lt_asym(a: Seq<char>, b: Seq<char>)
    ensures
        key_lt(a, b) ==> !key_lt(b, a),
    decreases a.len(),
{
    if a.len() > 0 && b.len() > 0 && a[0] == b[0] {
        lemma_key_lt_asym(a.drop_first(), b.drop_first());
    }
}

proof fn lemma_key_lt_trans(a: Seq<char>, b: Seq<char>, c: Seq<char>)
    ensures
        key_lt(a, b) && key_lt(b, c) ==> key_lt(a, c),
    decreases a.len(),
{
    if a.len() > 0 && b.len() > 0 && c.len() > 0 && a[0] == b[0] && b[0] == c[0] {
        lemma_key_lt_trans(a.drop_first(), b.drop_first(), c.drop_first());
    }
}

proof fn lemma_insert_pos_before(keys: Seq<Seq<char>>, k: Seq<char>, i: int)
    requires
        0 <= i <= keys.len(),
    ensures
        forall|j: int| i <= j < insert_pos(keys, k, i) ==> !key_lt(k, #[trigger] keys[j]),
        insert_pos(keys, k, i) < keys.len() ==> key_lt(k, keys[insert_pos(keys, k, i)]),
    decreases keys.len() - i,
{
    if i < keys.len() && !key_lt(k, keys[i]) {
        lemma_insert_pos_before(keys, k, i + 1);
    }
}

/// The keys of `sort_items(s)` never decrease.
pub proof fn lemma_sort_items_sorted(s: Seq<ItemView>)
    ensures
        sorted_by_key(sort_items(s)),
        sort_items(s).len() == s.len(),
    decreases s.len(),
{
    if s.len() > 0 {
        let d = s.drop_last();
        lemma_sort_items_sorted(d);
        let t = sort_items(d);
        let x = s.last();
        let keys = item_keys(t);
        let p = insert_pos(keys, x.key, 0);
        lemma_insert_pos_bounds(keys, x.key, 0);
        lemma_insert_pos_before(keys, x.key, 0);
        let u = t.insert(p, x);
        assert forall|i: int, j: int| 0 <= i < j < u.len() implies !key_lt(u[j].key, u[i].key) by {
            if j < p {
                assert(u[i] == t[i] && u[j] == t[j]);
            } else if i > p {
                assert(u[i] == t[i - 1] && u[j] == t[j - 1]);
            } else if i < p && j > p {
                assert(u[i] == t[i] && u[j] == t[j - 1]);
                assert(!key_lt(t[j - 1].key, t[i].key));
            } else if i == p {
                assert(u[j] == t[j - 1]);
                assert(key_lt(x.key, keys[p]));
                assert(keys[p] == t[p].key);
                if j - 1 > p {
                    assert(!key_lt(t[j - 1].key, t[p].key));
                    lemma_key_lt_trans(t[j - 1].key, x.key, t[p].key);
                }
                lemma_key_lt_asym(x.key, t[p].key);
            } else {
                assert(j == p && u[i] == t[i]);
                assert(keys[i] == t[i].key);
                assert(!key_lt(x.key, keys[i]));
            }
        }
    }
}

/// The keys of `sort_pairs(s)` never decrease.
pub proof fn lemma_sort_pairs_sorted(s: Seq<(ItemView, ItemView)>)
    ensures
        pairs_sorted_by_key(sort_pairs(s)),
        sort_pairs(s).len() == s.len(),
    decreases s.len(),
{
    if s.len() > 0 {
        let d = s.drop_last();
        lemma_sort_pairs_sorted(d);
        let t = sort_pairs(d);
        let x = s.last();
        let keys = pair_keys(t);
        let p = insert_pos(keys, x.1.key, 0);
        lemma_insert_pos_bounds(keys, x.1.key, 0);
        lemma_insert_pos_before(keys, x.1.key, 0);
        let u = t.insert(p, x);
        assert forall|i: int, j: int| 0 <= i < j < u.len() implies !key_lt(u[j].1.key, u[i].1.key) by {
            if j < p {
                assert(u[i] == t[i] && u[j] == t[j]);
            } else if i > p {
                assert(u[i] == t[i - 1] && u[j] == t[j - 1]);
            } else if i < p && j > p {
                assert(u[i] == t[i] && u[j] == t[j - 1]);
                assert(!key_lt(t[j - 1].1.key, t[i].1.key));
            } else if i == p {
                assert(u[j] == t[j - 1]);
                assert(key_lt(x.1.key, keys[p]));
                assert(keys[p] == t[p].1.key);
                if j - 1 > p {
                    assert(!key_lt(t[j - 1].1.key, t[p].1.key));
                    lemma_key_lt_trans(t[j - 1].1.key, x.1.key, t[p].1.key);
                }
                lemma_key_lt_asym(x.1.key, t[p].1.key);
            } else {
                assert(j == p && u[i] == t[i]);
                assert(keys[i] == t[i].1.key);
                assert(!key_lt(x.1.key, keys[i]));
            }
        }
    }
}

/// The part a rendered token plays, as far as the identity key is concerned.
#[derive(Debug, Clone, Copy, PartialEq, Eq, Structural)]
pub enum TokenClass {
    /// A qualifier such as `pub`, `unsafe` or `const`.
    Qualifier,
    /// The item kind, such as `fn`, `struct` or `impl`.
    Kind,
    /// Punctuation.
    Symbol,
    /// Any other token: a name, a type, whitespace and the like.
    Other,
}

/// One token of an item's rendering.
#[derive(Debug)]
pub struct ApiToken {
    pub class: TokenClass,
    pub text: String,
}

/// The tokens as plain values.
pub open spec fn token_views(v: Seq<ApiToken>) -> Seq<(TokenClass, Seq<char>)> {
    v.map_values(|t: ApiToken| (t.class, t.text@))
}

/// A symbol that ends the declared path: `(`, `:` or ` = `.
pub open spec fn ends_path(c: TokenClass, t: Seq<char>) -> bool {
    c == TokenClass::Symbol && (t == "("@ || t == ":"@ || t == " = "@)
}

/// The identity key of the tokens from `i` on: qualifiers are skipped; from
/// the kind on, every token counts, up to the first symbol that ends the path.
pub open spec fn key_from(toks: Seq<(TokenClass, Seq<char>)>, i: int, started: bool) -> Seq<char>
    decreases toks.len() - i,
{
    if i < 0 || i >= toks.len() {
        Seq::empty()
    } else if toks[i].0 == TokenClass::Qualifier {
        key_from(toks, i + 1, started)
    } else if ends_path(toks[i].0, toks[i].1) {
        Seq::empty()
    } else {
        let st = started || toks[i].0 == TokenClass::Kind;
        (if st {
            toks[i].1
        } else {
            Seq::empty()
        }) + key_from(toks, i + 1, st)
    }
}

/// The identity key of a rendered item: its kind and declared path, that is,
/// the tokens from the kind on, qualifiers left out, up to the first `(`,
/// `:` or ` = ` symbol.
pub fn identity_key(tokens: &Vec<ApiToken>) -> (r: String)
    ensures
        r@ == key_from(token_views(tokens@), 0, false),
{
    let ghost tv = token_views(tokens@);
    let open_paren = String::from_str("(");
    let colon = String::from_str(":");
    let assign = String::from_str(" = ");
    let mut out = String::new();
    let mut started = false;
    let mut i: usize = 0;
    while i < tokens.len()
        invariant
            i <= tokens@.len(),
            tv == token_views(tokens@),
            open_paren@ == "("@,
            colon@ == ":"@,
            assign@ == " = "@,
            key_from(tv, 0, false) == out@ + key_from(tv, i as int, started),
        decreases tokens@.len() - i,
    {
        let tok = &tokens[i];
        proof {
            assert(tv[i as int] == (tok.class, tok.text@));
        }
        if tok.class == TokenClass::Qualifier {
        } else if tok.class == TokenClass::Symbol && (tok.text == open_paren || tok.text == colon
            || tok.text == assign) {
            proof {
                assert(out@ + Seq::<char>::empty() =~= out@);
            }
            return out;
        } else {
            let ghost pre = out@;
            if tok.class == TokenClass::Kind {
                started = true;
            }
            if started {
                out.append(tok.text.as_str());
            } else {
                proof {
                    assert(out@ =~= pre + Seq::<char>::empty());
                }
            }
            proof {
                assert(pre + ((if started { tv[i as int].1 } else { Seq::<char>::empty() }) + key_from(tv, i + 1, started))
                    =~= out@ + key_from(tv, i + 1, started));
            }
        }
        i = i + 1;
    }
    proof {
        assert(out@ + Seq::<char>::empty() =~= out@);
    }
    out
}

/// Items `[a, b]` at base and `[a2, b, c]` at dev, where `a2` is `a` with
/// another rendering and `c` is new: `c` is added, nothing is removed, and
/// `(a, a2)` is changed.
pub proof fn lemma_diff_changed_and_added(a: ItemView, b: ItemView, a2: ItemView, c: ItemView)
    requires
        a2.key == a.key,
        a2.text != a.text,
        a.key != b.key,
        c.key != a.key,
        c.key != b.key,
    ensures
        added_spec(seq![a, b], seq![a2, b, c]) == seq![c],
        removed_spec(seq![a, b], seq![a2, b, c]) == Seq::<ItemView>::empty(),
        changed_spec(seq![a, b], seq![a2, b, c]) == seq![(a, a2)],
{
    let old = seq![a, b];
    let new = seq![a2, b, c];
    assert(old.drop_last() =~= seq![a]);
    assert(seq![a].drop_last() =~= Seq::<ItemView>::empty());
    assert(new.drop_last() =~= seq![a2, b]);
    assert(seq![a2, b].drop_last() =~= seq![a2]);
    assert(seq![a2].drop_last() =~= Seq::<ItemView>::empty());
    assert(new.contains(b)) by {
        assert(new[1] == b);
    }
    assert(!new.contains(a)) by {
        if new.contains(a) {
            let k = choose|k: int| 0 <= k < new.len() && new[k] == a;
            assert(k == 0 || k == 1 || k == 2);
        }
    }
    assert(!old.contains(a2)) by {
        if old.contains(a2) {
            let k = choose|k: int| 0 <= k < old.len() && old[k] == a2;
            assert(k == 0 || k == 1);
        }
    }
    assert(old.contains(b)) by {
        assert(old[1] == b);
    }
    assert(!old.contains(c)) by {
        if old.contains(c) {
            let k = choose|k: int| 0 <= k < old.len() && old[k] == c;
            assert(k == 0 || k == 1);
        }
    }
    let e = Seq::<ItemView>::empty();
    assert(without(e, new) == e);
    assert(without(seq![a], new) =~= seq![a]);
    assert(without(old, new) =~= seq![a]);
    assert(without(e, old) == e);
    assert(without(seq![a2], old) =~= seq![a2]);
    assert(without(seq![a2, b], old) =~= seq![a2]);
    assert(without(new, old) =~= seq![a2, c]);
    let o = seq![a];
    let n = seq![a2, c];
    assert(n.drop_last() =~= seq![a2]);
    assert(find_from(o, a2.key, 0) == 0);
    assert(find_from(o, c.key, 1) == 1);
    assert(find_from(o, c.key, 0) == 1);
    assert(find_from(n, a.key, 0) == 0);
    assert(seq![a2].last() == a2);
    assert(o.last() == a && o.drop_last() =~= e);
    assert(unmatched(e, o) == e);
    assert(unmatched(e, n) == e);
    assert(unmatched(seq![a2], o) =~= e);
    assert(unmatched(n, o) =~= seq![c]);
    assert(unmatched(o, n) =~= e);
    let pe0 = Seq::<(ItemView, ItemView)>::empty();
    assert(changed_pairs(o, e) == pe0);
    assert(o[0] == a);
    assert(find_key(o, a2.key) == 0);
    assert(changed_pairs(o, seq![a2]) == pe0.push((a, a2)));
    assert(changed_pairs(o, seq![a2]) =~= seq![(a, a2)]);
    assert(n.last() == c);
    assert(find_key(o, c.key) == 1);
    assert(changed_pairs(o, n) =~= seq![(a, a2)]);
    assert(seq![c].drop_last() =~= e);
    assert(sort_items(e) == e);
    assert(insert_pos(item_keys(e), c.key, 0) == 0);
    assert(sort_items(seq![c]) =~= seq![c]);
    let pe = Seq::<(ItemView, ItemView)>::empty();
    assert(seq![(a, a2)].drop_last() =~= pe);
    assert(sort_pairs(pe) == pe);
    assert(insert_pos(pair_keys(pe), a2.key, 0) == 0);
    assert(sort_pairs(seq![(a, a2)]) =~= seq![(a, a2)]);
}

} // verus!
