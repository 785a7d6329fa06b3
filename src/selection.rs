//! Multi-selections with an anchor, and how clicks change them.

use vstd::prelude::*;

verus! {

/// A key by which an entity can be selected: a frame path, an animation or
/// hitbox name, a keyframe index.
pub trait SelectionKey: Sized + View {
    fn same_key(&self, other: &Self) -> (r: bool)
        ensures
            r == (self@ == other@),
    ;

    fn copy_key(&self) -> (r: Self)
        ensures
            r@ == self@,
    ;
}

impl SelectionKey for String {
    fn same_key(&self, other: &Self) -> (r: bool) {
        *self == *other
    }

    fn copy_key(&self) -> (r: Self) {
        self.clone()
    }
}

impl SelectionKey for usize {
    fn same_key(&self, other: &Self) -> (r: bool) {
        *self == *other
    }

    fn copy_key(&self) -> (r: Self) {
        *self
    }
}

/// A set of selected keys and the key touched last, which anchors range
/// selection and is the subject shown in detail panels.
#[derive(Debug)]
pub struct MultiSelection<K> {
    pub items: Vec<K>,
    pub last_touched_in_range: K,
}

pub open spec fn key_views<K: View>(v: Seq<K>) -> Seq<K::V> {
    v.map_values(|k: K| k@)
}

/// Position of the first occurrence of `k` in `s`.
pub open spec fn position_of<V>(s: Seq<V>, k: V) -> int {
    choose|i: int| 0 <= i < s.len() && s[i] == k && forall|j: int| 0 <= j < i ==> s[j] != k
}

/// The keys of `all` from position `a` to position `b`, both included, in order.
pub open spec fn range_between<V>(all: Seq<V>, a: int, b: int) -> Seq<V> {
    if a <= b {
        all.subrange(a, b + 1)
    } else {
        all.subrange(b, a + 1)
    }
}

/// Keeps the keys other than `clicked`.
pub open spec fn other_key<V>(clicked: V) -> spec_fn(V) -> bool {
    |k: V| k != clicked
}

/// The keys and the anchor that a click yields (see `MultiSelection::process`).
pub open spec fn clicked_selection<V>(
    clicked: V,
    shift: bool,
    ctrl: bool,
    all: Seq<V>,
    current: Option<(Seq<V>, V)>,
) -> (Seq<V>, V) {
    match current {
        Some((items, last)) => if shift && all.contains(last) && all.contains(clicked) {
            (range_between(all, position_of(all, last), position_of(all, clicked)), clicked)
        } else if !shift && ctrl {
            if items.contains(clicked) {
                (items.filter(|k: V| k != clicked), clicked)
            } else {
                (items.push(clicked), clicked)
            }
        } else {
            (seq![clicked], clicked)
        },
        None => (seq![clicked], clicked),
    }
}

pub open spec fn selection_view<K: SelectionKey>(s: Option<&MultiSelection<K>>) -> Option<
    (Seq<K::V>, K::V),
> {
    match s {
        Some(m) => Some((m.keys(), m.last())),
        None => None,
    }
}

/// Position of `k` in `all`, if it is there.
fn find_key<K: SelectionKey>(all: &Vec<K>, k: &K) -> (r: Option<usize>)
    ensures
        match r {
            Some(i) => i < all@.len() && i == position_of(key_views(all@), k@) && key_views(
                all@,
            )[i as int] == k@,
            None => !key_views(all@).contains(k@),
        },
{
    let ghost v = key_views(all@);
    let mut i: usize = 0;
    while i < all.len()
        invariant
            i <= all@.len(),
            v == key_views(all@),
            forall|j: int| 0 <= j < i ==> v[j] != k@,
        decreases all.len() - i,
    {
        if all[i].same_key(k) {
            proof {
                let p = position_of(v, k@);
                assert(v[i as int] == k@);
                assert(0 <= p < v.len() && v[p] == k@ && forall|j: int| 0 <= j < p ==> v[j] != k@);
                if p < i {
                } else if i < p {
                    assert(v[i as int] != k@);
                }
            }
            return Some(i);
        }
        i += 1;
    }
    proof {
        if v.contains(k@) {
            let j = choose|j: int| 0 <= j < v.len() && v[j] == k@;
            assert(j < i);
        }
    }
    None
}

/// Copies the keys of `all` from position `a` to position `b`, both included.
fn copy_range<K: SelectionKey>(all: &Vec<K>, a: usize, b: usize) -> (r: Vec<K>)
    requires
        a <= b < all@.len(),
    ensures
        key_views(r@) == key_views(all@).subrange(a as int, b + 1),
{
    let mut r: Vec<K> = Vec::new();
    let mut i: usize = a;
    while i <= b
        invariant
            a <= i <= b + 1,
            b < all.len(),
            key_views(r@) == key_views(all@).subrange(a as int, i as int),
        decreases b + 1 - i,
    {
        let ghost before = r@;
        r.push(all[i].copy_key());
        assert(key_views(r@) =~= key_views(before).push(all@[i as int]@));
        assert(key_views(all@).subrange(a as int, i + 1) =~= key_views(all@).subrange(
            a as int,
            i as int,
        ).push(all@[i as int]@));
        i += 1;
    }
    r
}

/// The keys of `items` other than `k`, in order.
pub fn keys_without<K: SelectionKey>(items: &Vec<K>, k: &K) -> (r: Vec<K>)
    ensures
        key_views(r@) == key_views(items@).filter(other_key(k@)),
{
    let ghost all = key_views(items@);
    let mut r: Vec<K> = Vec::new();
    let mut i: usize = 0;
    assert(all.take(0) =~= seq![]);
    while i < items.len()
        invariant
            i <= items@.len(),
            all == key_views(items@),
            key_views(r@) == all.take(i as int).filter(other_key(k@)),
        decreases items.len() - i,
    {
        let ghost before = r@;
        proof {
            assert(all.take(i + 1) =~= all.take(i as int).push(all[i as int]));
            all.take(i as int).lemma_filter_push(all[i as int], other_key(k@));
        }
        if !items[i].same_key(k) {
            r.push(items[i].copy_key());
            assert(key_views(r@) =~= key_views(before).push(all[i as int]));
        }
        i += 1;
    }
    assert(all.take(i as int) =~= all);
    r
}

pub proof fn lemma_filter_no_duplicates<V>(s: Seq<V>, p: spec_fn(V) -> bool)
    requires
        s.no_duplicates(),
    ensures
        s.filter(p).no_duplicates(),
    decreases s.len(),
{
    reveal(Seq::filter);
    if s.len() > 0 {
        let init = s.drop_last();
        lemma_filter_no_duplicates(init, p);
        assert(s =~= init.push(s.last()));
        init.lemma_filter_push(s.last(), p);
        if p(s.last()) {
            let f = init.filter(p);
            assert forall|x: V| f.contains(x) implies x != s.last() by {
                init.lemma_filter_contains_rev(p, x);
                let j = choose|j: int| 0 <= j < init.len() && init[j] == x;
                assert(s[j] == x);
            }
            assert forall|a: int, b: int| 0 <= a < b < s.filter(p).len() implies s.filter(p)[a]
                != s.filter(p)[b] by {
                if b == f.len() {
                    assert(f.contains(f[a]));
                }
            }
        }
    }
}

impl<K: SelectionKey> MultiSelection<K> {
    pub open spec fn keys(&self) -> Seq<K::V> {
        key_views(self.items@)
    }

    pub open spec fn last(&self) -> K::V {
        self.last_touched_in_range@
    }

    /// No key is held twice.
    pub open spec fn wf(&self) -> bool {
        self.keys().no_duplicates()
    }

    pub open spec fn contains(&self, k: K::V) -> bool {
        self.keys().contains(k)
    }

    /// Whether `k` is selected.
    pub fn is_selected(&self, k: &K) -> (r: bool)
        ensures
            r == self.contains(k@),
    {
        let mut i: usize = 0;
        while i < self.items.len()
            invariant
                i <= self.items@.len(),
                forall|j: int| 0 <= j < i ==> self.keys()[j] != k@,
            decreases self.items.len() - i,
        {
            if self.items[i].same_key(k) {
                assert(self.keys()[i as int] == k@);
                return true;
            }
            i += 1;
        }
        proof {
            if self.contains(k@) {
                let j = choose|j: int| 0 <= j < self.keys().len() && self.keys()[j] == k@;
                assert(j < i);
            }
        }
        false
    }

    /// A selection of `items`, each once, in order of first appearance; the
    /// last of them is the one touched last.
    pub fn new(items: Vec<K>) -> (r: MultiSelection<K>)
        requires
            items@.len() > 0,
        ensures
            r.wf(),
            r.last() == items@.last()@,
            forall|k: K::V| r.contains(k) <==> key_views(items@).contains(k),
    {
        let n = items.len();
        let last = items[n - 1].copy_key();
        let mut kept: Vec<K> = Vec::new();
        let mut i: usize = 0;
        while i < n
            invariant
                n == items@.len(),
                i <= n,
                key_views(kept@).no_duplicates(),
                forall|k: K::V| key_views(kept@).contains(k) <==> key_views(items@.take(i as int)).contains(k),
            decreases n - i,
        {
            let probe = MultiSelection { items: kept, last_touched_in_range: items[i].copy_key() };
            let seen = probe.is_selected(&items[i]);
            kept = probe.items;
            let ghost before = kept@;
            assert(items@.take(i + 1) =~= items@.take(i as int).push(items@[i as int]));
            assert(key_views(items@.take(i + 1)) =~= key_views(items@.take(i as int)).push(items@[i as int]@));
            if !seen {
                kept.push(items[i].copy_key());
                assert(key_views(kept@) =~= key_views(before).push(items@[i as int]@));
            }
            let ghost pre = key_views(items@.take(i as int));
            let ghost post = key_views(items@.take(i + 1));
            let ghost kv = key_views(kept@);
            assert(post == pre.push(items@[i as int]@));
            assert forall|k: K::V| kv.contains(k) <==> post.contains(k) by {
                assert(post[post.len() - 1] == items@[i as int]@);
                if post.contains(k) {
                    let j = choose|j: int| 0 <= j < post.len() && post[j] == k;
                    if j < pre.len() {
                        assert(pre[j] == k);
                        assert(pre.contains(k));
                        assert(key_views(before).contains(k));
                    } else {
                        assert(k == items@[i as int]@);
                    }
                    if key_views(before).contains(k) {
                        let m = choose|m: int| 0 <= m < key_views(before).len() && key_views(before)[m] == k;
                        assert(kv[m] == k);
                    } else {
                        assert(!seen);
                        assert(kv[kv.len() - 1] == k);
                    }
                }
                if kv.contains(k) && k != items@[i as int]@ {
                    let j = choose|j: int| 0 <= j < kv.len() && kv[j] == k;
                    if !seen {
                        assert(j < before.len());
                        assert(key_views(before)[j] == k);
                    }
                    assert(key_views(before).contains(k));
                    let m = choose|m: int| 0 <= m < pre.len() && pre[m] == k;
                    assert(post[m] == k);
                }
            }
            i += 1;
        }
        assert(items@.take(n as int) =~= items@);
        MultiSelection { items: kept, last_touched_in_range: last }
    }

    /// The same selection with each key held once, in order of first
    /// appearance; a selection without repeated keys is kept as it is.
    pub fn normalized(&self) -> (r: MultiSelection<K>)
        ensures
            r.wf(),
            r.last() == self.last(),
            forall|k: K::V| r.contains(k) <==> self.contains(k),
            self.wf() ==> r.keys() == self.keys(),
    {
        let mut kept: Vec<K> = Vec::new();
        let mut i: usize = 0;
        let n = self.items.len();
        while i < n
            invariant
                n == self.items@.len(),
                i <= n,
                key_views(kept@).no_duplicates(),
                forall|k: K::V| key_views(kept@).contains(k) <==> self.keys().take(i as int).contains(k),
                self.wf() ==> key_views(kept@) == self.keys().take(i as int),
            decreases n - i,
        {
            let probe = MultiSelection { items: kept, last_touched_in_range: self.items[i].copy_key() };
            let seen = probe.is_selected(&self.items[i]);
            kept = probe.items;
            let ghost before = kept@;
            let ghost pre = self.keys().take(i as int);
            let ghost post = self.keys().take(i + 1);
            assert(post =~= pre.push(self.items@[i as int]@));
            if !seen {
                kept.push(self.items[i].copy_key());
                assert(key_views(kept@) =~= key_views(before).push(self.items@[i as int]@));
            }
            let ghost kv = key_views(kept@);
            assert forall|k: K::V| kv.contains(k) <==> post.contains(k) by {
                assert(post[post.len() - 1] == self.items@[i as int]@);
                if post.contains(k) {
                    let j = choose|j: int| 0 <= j < post.len() && post[j] == k;
                    if j < pre.len() {
                        assert(pre[j] == k);
                        assert(pre.contains(k));
                    }
                    if key_views(before).contains(k) {
                        let m = choose|m: int| 0 <= m < key_views(before).len() && key_views(before)[m] == k;
                        assert(kv[m] == k);
                    } else {
                        assert(kv[kv.len() - 1] == k);
                    }
                }
                if kv.contains(k) && k != self.items@[i as int]@ {
                    let j = choose|j: int| 0 <= j < kv.len() && kv[j] == k;
                    if !seen {
                        assert(j < before.len());
                        assert(key_views(before)[j] == k);
                    }
                    assert(key_views(before).contains(k));
                    let m = choose|m: int| 0 <= m < pre.len() && pre[m] == k;
                    assert(post[m] == k);
                }
            }
            proof {
                if self.wf() {
                    if seen {
                        let m = choose|m: int| 0 <= m < pre.len() && pre[m] == self.items@[i as int]@;
                        assert(self.keys()[m] == self.keys()[i as int]);
                    }
                    assert(key_views(kept@) =~= post);
                }
            }
            i += 1;
        }
        assert(self.keys().take(n as int) =~= self.keys());
        MultiSelection { items: kept, last_touched_in_range: self.last_touched_in_range.copy_key() }
    }

    /// The selection that a click on `clicked` yields, given the ordered list
    /// `all` of selectable keys and the current selection of this kind.
    /// Without modifier: `clicked` alone. With shift: the range of `all` from
    /// the current anchor to `clicked`. With ctrl: `clicked` toggled in the
    /// current set. The anchor becomes `clicked` in every case.
    pub fn process(
        clicked: K,
        shift: bool,
        ctrl: bool,
        all: &Vec<K>,
        current: Option<&MultiSelection<K>>,
    ) -> (r: MultiSelection<K>)
        requires
            key_views(all@).no_duplicates(),
            match current {
                Some(c) => c.wf(),
                None => true,
            },
        ensures
            r.wf(),
            (r.keys(), r.last()) == clicked_selection(
                clicked@,
                shift,
                ctrl,
                key_views(all@),
                selection_view(current),
            ),
    {
        let ghost cv = clicked@;
        match current {
            None => {
                let r = MultiSelection { items: vec![clicked.copy_key()], last_touched_in_range: clicked };
                assert(r.keys() =~= seq![cv]);
                r
            },
            Some(c) => {
                if shift {
                    let from = find_key(all, &c.last_touched_in_range);
                    let to = find_key(all, &clicked);
                    match (from, to) {
                        (Some(a), Some(b)) => {
                            proof {
                                assert(key_views(all@)[a as int] == c.last());
                                assert(key_views(all@)[b as int] == cv);
                            }
                            let items = if a <= b {
                                copy_range(all, a, b)
                            } else {
                                copy_range(all, b, a)
                            };
                            proof {
                                let v = key_views(all@);
                                let lo = if a <= b { a as int } else { b as int };
                                let hi = if a <= b { b as int } else { a as int };
                                assert forall|x: int, y: int| 0 <= x < y < key_views(items@).len()
                                    implies key_views(items@)[x] != key_views(items@)[y] by {
                                    assert(key_views(items@)[x] == v[lo + x]);
                                    assert(key_views(items@)[y] == v[lo + y]);
                                }
                            }
                            return MultiSelection { items, last_touched_in_range: clicked };
                        },
                        _ => {},
                    }
                } else if ctrl {
                    if c.is_selected(&clicked) {
                        let items = keys_without(&c.items, &clicked);
                        proof {
                            lemma_filter_no_duplicates(c.keys(), other_key(cv));
                        }
                        return MultiSelection { items, last_touched_in_range: clicked };
                    } else {
                        let mut items: Vec<K> = Vec::new();
                        let mut i: usize = 0;
                        while i < c.items.len()
                            invariant
                                i <= c.items@.len(),
                                key_views(items@) == c.keys().take(i as int),
                            decreases c.items.len() - i,
                        {
                            let ghost before = items@;
                            items.push(c.items[i].copy_key());
                            assert(key_views(items@) =~= key_views(before).push(c.items@[i as int]@));
                            assert(c.keys().take(i + 1) =~= c.keys().take(i as int).push(c.items@[i as int]@));
                            i += 1;
                        }
                        assert(c.keys().take(i as int) =~= c.keys());
                        let ghost before = items@;
                        items.push(clicked.copy_key());
                        assert(key_views(items@) =~= c.keys().push(cv));
                        proof {
                            assert forall|x: int, y: int| 0 <= x < y < key_views(items@).len()
                                implies key_views(items@)[x] != key_views(items@)[y] by {
                                if y == c.keys().len() {
                                    assert(c.keys()[x] == key_views(items@)[x]);
                                    assert(c.keys().contains(key_views(items@)[x]));
                                }
                            }
                        }
                        return MultiSelection { items, last_touched_in_range: clicked };
                    }
                }
                let r = MultiSelection { items: vec![clicked.copy_key()], last_touched_in_range: clicked };
                assert(r.keys() =~= seq![cv]);
                r
            },
        }
    }
}

} // verus!
