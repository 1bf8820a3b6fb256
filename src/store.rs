//! The entry store: every known inner path with its entry, kept in path order.
//!
//! A path is held as its stack of components; the root is the empty stack.
//! The store always holds the root as a directory, and the parent of every
//! other path it holds, as a directory.
//!
//! The paths are kept in a vector sorted by `path_lt`, with that order proved
//! here, rather than in a `BTreeMap`: vstd states what a `BTreeMap` holds only
//! for key types whose comparison it knows to follow `obeys_cmp_spec`, and a
//! path key (a `String`, or a vector of component strings) is not one of them.
use vstd::prelude::*;
use crate::entry::{bytes_of, Entry, EntryType, EntryView};
use crate::order::{
    has_prefix, is_prefix, lemma_path_asym, lemma_path_irrefl, lemma_path_total, lemma_path_trans,
    lemma_prefix_lt, path_less, path_lt, same_names,
};
use crate::path::{all_names, names_of, render, render_names};

verus! {

/// What a store must look like: the root is a directory, every path is made
/// of names, and the parent of every path but the root is a known directory.
pub open spec fn is_tree(m: Map<Seq<Seq<char>>, EntryView>) -> bool {
    &&& m.contains_key(Seq::empty())
    &&& m[Seq::empty()].kind == EntryType::Directory
    &&& forall|k: Seq<Seq<char>>| #[trigger] m.contains_key(k) ==> all_names(k)
    &&& forall|k: Seq<Seq<char>>|
        #[trigger] m.contains_key(k) && k.len() > 0 ==> m.contains_key(k.drop_last())
            && m[k.drop_last()].kind == EntryType::Directory
}

/// Strictly ascending in path order.
pub open spec fn sorted(ks: Seq<Seq<Seq<char>>>) -> bool {
    forall|i: int, j: int| 0 <= i < j < ks.len() ==> path_lt(#[trigger] ks[i], #[trigger] ks[j])
}

/// The paths that `ls` or `tree` of `t` yields: those below `t`, and only its
/// children when `only_children` holds.
pub open spec fn selected(t: Seq<Seq<char>>, only_children: bool, x: Seq<Seq<char>>) -> bool {
    &&& is_prefix(t, x)
    &&& x.len() > t.len()
    &&& only_children ==> x.len() == t.len() + 1
}

/// The absolute path of each stack of components.
pub open spec fn rendered(ks: Seq<Seq<Seq<char>>>) -> Seq<Seq<char>> {
    ks.map_values(|k: Seq<Seq<char>>| render(k))
}

/// The paths of `ks` that `selected` keeps, in the same order.
pub open spec fn select_spec(ks: Seq<Seq<Seq<char>>>, t: Seq<Seq<char>>, only_children: bool) -> Seq<
    Seq<Seq<char>>,
> {
    ks.filter(|x: Seq<Seq<char>>| selected(t, only_children, x))
}

/// The paths at `t` or below it.
pub open spec fn subtree(t: Seq<Seq<char>>) -> Set<Seq<Seq<char>>> {
    Set::new(|x: Seq<Seq<char>>| is_prefix(t, x))
}

/// A path listed later in ascending order is never an ancestor of one listed
/// earlier.
pub proof fn lemma_sorted_ancestors(ks: Seq<Seq<Seq<char>>>, i: int, j: int)
    requires
        sorted(ks),
        0 <= i < j < ks.len(),
    ensures
        !is_prefix(ks[j], ks[i]),
{
    if is_prefix(ks[j], ks[i]) {
        assert(path_lt(ks[i], ks[j]));
        lemma_path_irrefl(ks[i]);
        if ks[j].len() == ks[i].len() {
            assert(ks[i].take(ks[j].len() as int) =~= ks[i]);
        }
        lemma_prefix_lt(ks[j], ks[i]);
        lemma_path_asym(ks[i], ks[j]);
    }
}

pub open spec fn strings_of(v: Seq<String>) -> Seq<Seq<char>> {
    v.map_values(|s: String| s@)
}

struct Slot {
    names: Vec<String>,
    path: String,
    entry: Entry,
}

pub struct EntryStore {
    slots: Vec<Slot>,
}

impl View for EntryStore {
    type V = Map<Seq<Seq<char>>, EntryView>;

    closed spec fn view(&self) -> Map<Seq<Seq<char>>, EntryView> {
        Map::new(|k: Seq<Seq<char>>| self.has(k), |k: Seq<Seq<char>>| self.slots@[self.index_of(k)].entry@)
    }
}

impl EntryStore {
    spec fn key(&self, i: int) -> Seq<Seq<char>> {
        names_of(self.slots@[i].names@)
    }

    /// The known paths in ascending order.
    pub closed spec fn keys(&self) -> Seq<Seq<Seq<char>>> {
        Seq::new(self.slots@.len(), |i: int| self.key(i))
    }

    spec fn has(&self, k: Seq<Seq<char>>) -> bool {
        exists|i: int| 0 <= i < self.slots@.len() && self.key(i) == k
    }

    spec fn index_of(&self, k: Seq<Seq<char>>) -> int {
        choose|i: int| 0 <= i < self.slots@.len() && self.key(i) == k
    }

    pub closed spec fn wf(&self) -> bool {
        &&& sorted(self.keys())
        &&& forall|i: int| 0 <= i < self.slots@.len() ==> #[trigger] self.slots@[i].path@ == render(self.key(i))
        &&& is_tree(self@)
    }

    proof fn lemma_index(&self, i: int)
        requires
            sorted(self.keys()),
            0 <= i < self.slots@.len(),
        ensures
            self@.contains_key(self.key(i)),
            self@[self.key(i)] == self.slots@[i].entry@,
    {
        let k = self.key(i);
        assert(self.keys()[i] == k);
        assert(self.has(k));
        let j = self.index_of(k);
        if j != i {
            assert(self.keys()[j] == k);
            if i < j {
                assert(path_lt(self.keys()[i], self.keys()[j]));
            } else {
                assert(path_lt(self.keys()[j], self.keys()[i]));
            }
            lemma_path_irrefl(k);
        }
    }

    proof fn lemma_unique(&self, a: int, b: int)
        requires
            sorted(self.keys()),
            0 <= a < self.slots@.len(),
            0 <= b < self.slots@.len(),
            self.key(a) == self.key(b),
        ensures
            a == b,
    {
        assert(self.keys()[a] == self.key(a));
        assert(self.keys()[b] == self.key(b));
        lemma_path_irrefl(self.key(a));
    }

    /// What a well-formed store guarantees to its users.
    pub proof fn lemma_wf(&self)
        requires
            self.wf(),
        ensures
            is_tree(self@),
            sorted(self.keys()),
            forall|k: Seq<Seq<char>>| self@.contains_key(k) <==> self.keys().contains(k),
            self.keys().len() > 0,
            self.keys()[0] == Seq::<Seq<char>>::empty(),
    {
        let root = Seq::<Seq<char>>::empty();
        assert(self.has(root));
        let j = self.index_of(root);
        assert(self.keys()[j] == root);
        if j > 0 {
            assert(path_lt(self.keys()[0], self.keys()[j]));
        }
        assert forall|k: Seq<Seq<char>>| self@.contains_key(k) <==> self.keys().contains(k) by {
            if self@.contains_key(k) {
                let i = self.index_of(k);
                assert(self.keys()[i] == k);
            }
            if self.keys().contains(k) {
                let i = choose|i: int| 0 <= i < self.keys().len() && self.keys()[i] == k;
                assert(self.key(i) == k);
            }
        }
    }

    /// A store holding the root directory alone.
    pub fn new() -> (r: EntryStore)
        ensures
            r.wf(),
            r@ == map![Seq::<Seq<char>>::empty() => EntryView { kind: EntryType::Directory, content: None }],
    {
        let names: Vec<String> = Vec::new();
        let path = render_names(&names);
        let mut slots: Vec<Slot> = Vec::new();
        slots.push(Slot { names, path, entry: Entry::new(EntryType::Directory) });
        let r = EntryStore { slots };
        proof {
            let root = Seq::<Seq<char>>::empty();
            assert(names_of(Seq::<String>::empty()) =~= root);
            assert(r.key(0) == root);
            r.lemma_index(0);
            let m = map![root => EntryView { kind: EntryType::Directory, content: None }];
            assert forall|k: Seq<Seq<char>>| r@.contains_key(k) implies k == root by {
                let i = r.index_of(k);
                assert(i == 0);
            }
            assert(r@ =~= m);
            assert(all_names(root));
        }
        r
    }

    /// The position of `k`, if it is known.
    fn position(&self, k: &Vec<String>) -> (r: Option<usize>)
        requires
            self.wf(),
        ensures
            match r {
                Some(i) => i < self.slots@.len() && self.key(i as int) == names_of(k@),
                None => !self@.contains_key(names_of(k@)),
            },
    {
        let mut i: usize = 0;
        while i < self.slots.len()
            invariant
                i <= self.slots@.len(),
                forall|j: int| 0 <= j < i ==> self.key(j) != names_of(k@),
            decreases self.slots@.len() - i,
        {
            if same_names(&self.slots[i].names, k) {
                return Some(i);
            }
            i = i + 1;
        }
        None
    }

    /// The entry known under `k`.
    pub fn get(&self, k: &Vec<String>) -> (r: Option<&Entry>)
        requires
            self.wf(),
        ensures
            match r {
                Some(e) => self@.contains_key(names_of(k@)) && e@ == self@[names_of(k@)],
                None => !self@.contains_key(names_of(k@)),
            },
    {
        match self.position(k) {
            Some(i) => {
                proof {
                    self.lemma_index(i as int);
                }
                Some(&self.slots[i].entry)
            },
            None => None,
        }
    }

    /// Whether `k` is known.
    pub fn contains(&self, k: &Vec<String>) -> (r: bool)
        requires
            self.wf(),
        ensures
            r == self@.contains_key(names_of(k@)),
    {
        match self.position(k) {
            Some(i) => {
                proof {
                    self.lemma_index(i as int);
                }
                true
            },
            None => false,
        }
    }

    /// Tracks `k` with `entry`; its parent must be a known directory.
    pub fn insert(&mut self, k: Vec<String>, entry: Entry)
        requires
            old(self).wf(),
            all_names(names_of(k@)),
            names_of(k@).len() > 0,
            !old(self)@.contains_key(names_of(k@)),
            old(self)@.contains_key(names_of(k@).drop_last()),
            old(self)@[names_of(k@).drop_last()].kind == EntryType::Directory,
        ensures
            final(self).wf(),
            final(self)@ == old(self)@.insert(names_of(k@), entry@),
    {
        let ghost kv = names_of(k@);
        let ghost e = entry@;
        let mut i: usize = 0;
        while i < self.slots.len() && !path_less(&k, &self.slots[i].names)
            invariant
                kv == names_of(k@),
                i <= self.slots@.len(),
                forall|j: int| 0 <= j < i ==> !path_lt(kv, #[trigger] self.key(j)),
            decreases self.slots@.len() - i,
        {
            i = i + 1;
        }
        let path = render_names(&k);
        self.slots.insert(i, Slot { names: k, path, entry });
        proof {
            let prev = old(self);
            assert forall|j: int| 0 <= j < i implies path_lt(#[trigger] prev.key(j), kv) by {
                assert(prev.keys()[j] == prev.key(j));
                assert(prev.has(prev.key(j)));
                if prev.key(j) == kv {
                    prev.lemma_index(j);
                }
                lemma_path_total(prev.key(j), kv);
            }
            assert forall|j: int| i <= j < prev.slots@.len() implies path_lt(kv, #[trigger] prev.key(j)) by {
                if j > i {
                    assert(prev.keys()[i as int] == prev.key(i as int));
                    assert(prev.keys()[j] == prev.key(j));
                    lemma_path_trans(kv, prev.key(i as int), prev.key(j));
                }
            }
            assert forall|a: int| 0 <= a < self.slots@.len() implies #[trigger] self.key(a) == if a < i {
                prev.key(a)
            } else if a == i {
                kv
            } else {
                prev.key(a - 1)
            } by {}
            assert(sorted(self.keys())) by {
                assert forall|a: int, b: int| 0 <= a < b < self.keys().len() implies path_lt(
                    #[trigger] self.keys()[a],
                    #[trigger] self.keys()[b],
                ) by {
                    assert(self.keys()[a] == self.key(a));
                    assert(self.keys()[b] == self.key(b));
                    if a < i && b > i {
                        lemma_path_trans(prev.key(a), kv, prev.key(b - 1));
                    } else if a > i {
                        assert(prev.keys()[a - 1] == prev.key(a - 1));
                        assert(prev.keys()[b - 1] == prev.key(b - 1));
                    } else if b < i {
                        assert(prev.keys()[a] == prev.key(a));
                        assert(prev.keys()[b] == prev.key(b));
                    }
                }
            }
            assert forall|a: int| 0 <= a < self.slots@.len() implies #[trigger] self.slots@[a].path@ == render(
                self.key(a),
            ) by {
                if a < i {
                    assert(prev.slots@[a] == self.slots@[a]);
                } else if a > i {
                    assert(prev.slots@[a - 1] == self.slots@[a]);
                }
            }
            let target = prev@.insert(kv, e);
            assert forall|x: Seq<Seq<char>>| #[trigger] self@.contains_key(x) == target.contains_key(x) by {
                if self@.contains_key(x) {
                    let a = self.index_of(x);
                    if a < i {
                        assert(prev.has(x));
                    } else if a > i {
                        assert(prev.key(a - 1) == x);
                        assert(prev.has(x));
                    }
                }
                if prev.has(x) {
                    let a = prev.index_of(x);
                    if a < i {
                        assert(self.key(a) == x);
                    } else {
                        assert(self.key(a + 1) == x);
                    }
                    assert(self.has(x));
                }
                if x == kv {
                    assert(self.key(i as int) == x);
                    assert(self.has(x));
                }
            }
            assert forall|x: Seq<Seq<char>>| #[trigger] self@.contains_key(x) implies self@[x] == target[x] by {
                if x == kv {
                    self.lemma_index(i as int);
                } else {
                    let a = prev.index_of(x);
                    prev.lemma_index(a);
                    if a < i {
                        self.lemma_index(a);
                    } else {
                        self.lemma_index(a + 1);
                    }
                }
            }
            assert(self@ =~= target);
        }
    }

    /// The first position at or below `t`.
    fn first_under(&self, t: &Vec<String>) -> (r: Option<usize>)
        ensures
            match r {
                Some(i) => i < self.slots@.len() && is_prefix(names_of(t@), self.key(i as int)),
                None => forall|j: int| 0 <= j < self.slots@.len() ==> !is_prefix(names_of(t@), #[trigger] self.key(j)),
            },
    {
        let mut i: usize = 0;
        while i < self.slots.len()
            invariant
                i <= self.slots@.len(),
                forall|j: int| 0 <= j < i ==> !is_prefix(names_of(t@), #[trigger] self.key(j)),
            decreases self.slots@.len() - i,
        {
            if has_prefix(t, &self.slots[i].names) {
                return Some(i);
            }
            i = i + 1;
        }
        None
    }

    /// Stops tracking `t` and every path below it; `t` is not the root.
    pub fn remove_subtree(&mut self, t: &Vec<String>)
        requires
            old(self).wf(),
            names_of(t@).len() > 0,
        ensures
            final(self).wf(),
            final(self)@ == old(self)@.remove_keys(subtree(names_of(t@))),
    {
        let ghost tv = names_of(t@);
        let ghost orig = self@;
        let mut next = self.first_under(t);
        while next.is_some()
            invariant
                tv == names_of(t@),
                tv.len() > 0,
                is_tree(orig),
                sorted(self.keys()),
                forall|a: int| 0 <= a < self.slots@.len() ==> #[trigger] self.slots@[a].path@ == render(self.key(a)),
                forall|x: Seq<Seq<char>>| #[trigger] self@.contains_key(x) ==> orig.contains_key(x) && self@[x] == orig[x],
                forall|x: Seq<Seq<char>>| orig.contains_key(x) && !is_prefix(tv, x) ==> #[trigger] self@.contains_key(x),
                match next {
                    Some(i) => i < self.slots@.len() && is_prefix(tv, self.key(i as int)),
                    None => forall|j: int| 0 <= j < self.slots@.len() ==> !is_prefix(tv, #[trigger] self.key(j)),
                },
            decreases self.slots@.len(),
        {
            let i = match next {
                Some(i) => i,
                None => 0,
            };
            let ghost prev = *self;
            self.slots.remove(i);
            proof {
                assert forall|a: int| 0 <= a < self.slots@.len() implies #[trigger] self.key(a) == if a < i {
                    prev.key(a)
                } else {
                    prev.key(a + 1)
                } by {}
                assert(sorted(self.keys())) by {
                    assert forall|a: int, b: int| 0 <= a < b < self.keys().len() implies path_lt(
                        #[trigger] self.keys()[a],
                        #[trigger] self.keys()[b],
                    ) by {
                        let pa = if a < i { a } else { a + 1 };
                        let pb = if b < i { b } else { b + 1 };
                        assert(prev.keys()[pa] == self.keys()[a]);
                        assert(prev.keys()[pb] == self.keys()[b]);
                    }
                }
                assert forall|a: int| 0 <= a < self.slots@.len() implies #[trigger] self.slots@[a].path@
                    == render(self.key(a)) by {
                    if a >= i {
                        assert(prev.slots@[a + 1] == self.slots@[a]);
                    }
                }
                assert forall|x: Seq<Seq<char>>| #[trigger] self@.contains_key(x) implies orig.contains_key(x)
                    && self@[x] == orig[x] by {
                    let a = self.index_of(x);
                    let pa = if a < i { a } else { a + 1 };
                    assert(prev.key(pa) == x);
                    assert(prev.has(x));
                    prev.lemma_index(pa);
                    self.lemma_index(a);
                }
                assert forall|x: Seq<Seq<char>>| orig.contains_key(x) && !is_prefix(tv, x) implies #[trigger] self@.contains_key(x) by {
                    assert(prev@.contains_key(x));
                    let pa = prev.index_of(x);
                    assert(pa != i);
                    if pa < i {
                        assert(self.key(pa) == x);
                    } else {
                        assert(self.key(pa - 1) == x);
                    }
                }
            }
            next = self.first_under(t);
        }
        proof {
            let target = orig.remove_keys(subtree(tv));
            assert forall|x: Seq<Seq<char>>| #[trigger] self@.contains_key(x) == target.contains_key(x) by {
                if self@.contains_key(x) {
                    let a = self.index_of(x);
                    assert(!is_prefix(tv, self.key(a)));
                }
            }
            assert forall|x: Seq<Seq<char>>| #[trigger] self@.contains_key(x) implies self@[x] == target[x] by {}
            assert(self@ =~= target);
            assert(!is_prefix(tv, Seq::<Seq<char>>::empty()));
            assert forall|x: Seq<Seq<char>>| #[trigger] self@.contains_key(x) && x.len() > 0 implies self@.contains_key(
                x.drop_last(),
            ) && self@[x.drop_last()].kind == EntryType::Directory by {
                let p = x.drop_last();
                assert(orig.contains_key(x));
                if is_prefix(tv, p) {
                    assert(x.take(tv.len() as int) =~= p.take(tv.len() as int));
                    assert(is_prefix(tv, x));
                }
            }
        }
    }

    /// Position of a known `k`.
    fn position_of(&self, k: &Vec<String>) -> (r: usize)
        requires
            self.wf(),
            self@.contains_key(names_of(k@)),
        ensures
            r < self.slots@.len(),
            self.key(r as int) == names_of(k@),
    {
        match self.position(k) {
            Some(i) => i,
            None => 0,
        }
    }

    /// Replaces the slot at `i` by one with the same path and the entry changed.
    proof fn lemma_replace(prev: EntryStore, next: EntryStore, i: int)
        requires
            prev.wf(),
            0 <= i < prev.slots@.len(),
            next.slots@.len() == prev.slots@.len(),
            forall|a: int| 0 <= a < prev.slots@.len() && a != i ==> next.slots@[a] == prev.slots@[a],
            next.slots@[i].names == prev.slots@[i].names,
            next.slots@[i].path == prev.slots@[i].path,
            next.slots@[i].entry@.kind == prev.slots@[i].entry@.kind,
        ensures
            next.wf(),
            next@ == prev@.insert(prev.key(i), next.slots@[i].entry@),
    {
        assert(next.keys() =~= prev.keys());
        assert forall|a: int| 0 <= a < next.slots@.len() implies #[trigger] next.slots@[a].path@ == render(next.key(a)) by {
            assert(next.keys()[a] == prev.keys()[a]);
        }
        let target = prev@.insert(prev.key(i), next.slots@[i].entry@);
        assert forall|x: Seq<Seq<char>>| #[trigger] next@.contains_key(x) == target.contains_key(x) by {
            if next@.contains_key(x) {
                let a = next.index_of(x);
                assert(next.keys()[a] == prev.keys()[a]);
                assert(prev.has(x));
            }
            if prev.has(x) {
                let a = prev.index_of(x);
                assert(next.keys()[a] == prev.keys()[a]);
                assert(next.has(x));
            }
            if x == prev.key(i) {
                assert(next.keys()[i] == prev.keys()[i]);
                assert(next.has(x));
            }
        }
        assert forall|x: Seq<Seq<char>>| #[trigger] next@.contains_key(x) implies next@[x] == target[x] by {
            let a = prev.index_of(x);
            prev.lemma_index(a);
            assert(next.keys()[a] == prev.keys()[a]);
            next.lemma_index(a);
            if x == prev.key(i) {
                prev.lemma_unique(a, i);
            }
        }
        assert(next@ =~= target);
        prev.lemma_index(i);
        assert(is_tree(next@));
    }

    /// Replaces the content of the known `k`.
    pub fn set_content(&mut self, k: &Vec<String>, content: &[u8])
        requires
            old(self).wf(),
            old(self)@.contains_key(names_of(k@)),
        ensures
            final(self).wf(),
            final(self)@ == old(self)@.insert(
                names_of(k@),
                EntryView { kind: old(self)@[names_of(k@)].kind, content: Some(content@) },
            ),
    {
        let i = self.position_of(k);
        proof {
            self.lemma_index(i as int);
        }
        let mut slot = self.slots.remove(i);
        slot.entry.set_content(content);
        self.slots.insert(i, slot);
        proof {
            EntryStore::lemma_replace(*old(self), *self, i as int);
        }
    }

    /// Extends the content of the known `k`.
    pub fn append_content(&mut self, k: &Vec<String>, content: &[u8])
        requires
            old(self).wf(),
            old(self)@.contains_key(names_of(k@)),
        ensures
            final(self).wf(),
            final(self)@ == old(self)@.insert(
                names_of(k@),
                EntryView {
                    kind: old(self)@[names_of(k@)].kind,
                    content: Some(bytes_of(old(self)@[names_of(k@)]) + content@),
                },
            ),
    {
        let i = self.position_of(k);
        proof {
            self.lemma_index(i as int);
        }
        let mut slot = self.slots.remove(i);
        slot.entry.append_content(content);
        self.slots.insert(i, slot);
        proof {
            EntryStore::lemma_replace(*old(self), *self, i as int);
        }
    }

    /// The paths below `t` (only its children when `only_children` holds), in
    /// ascending order.
    pub fn select(&self, t: &Vec<String>, only_children: bool) -> (r: Vec<String>)
        requires
            self.wf(),
        ensures
            strings_of(r@) == rendered(select_spec(self.keys(), names_of(t@), only_children)),
    {
        let ghost tv = names_of(t@);
        let mut out: Vec<String> = Vec::new();
        let mut i: usize = 0;
        assert(self.keys().take(0) =~= Seq::<Seq<Seq<char>>>::empty());
        assert(strings_of(out@) =~= rendered(select_spec(self.keys().take(0), tv, only_children)));
        while i < self.slots.len()
            invariant
                self.wf(),
                tv == names_of(t@),
                i <= self.slots@.len(),
                strings_of(out@) == rendered(select_spec(self.keys().take(i as int), tv, only_children)),
            decreases self.slots@.len() - i,
        {
            let ghost before = self.keys().take(i as int);
            let ghost after = self.keys().take(i + 1);
            assert(after.drop_last() =~= before);
            assert(after.last() == self.key(i as int));
            let names = &self.slots[i].names;
            let hit = has_prefix(t, names) && names.len() > t.len() && (!only_children || names.len()
                == t.len() + 1);
            assert(hit == selected(tv, only_children, self.key(i as int)));
            proof {
                reveal(Seq::filter);
            }
            if hit {
                let ghost prev_out = out@;
                out.push(self.slots[i].path.clone());
                assert(strings_of(out@) =~= strings_of(prev_out).push(render(self.key(i as int))));
                assert(select_spec(after, tv, only_children) == select_spec(before, tv, only_children).push(
                    self.key(i as int),
                ));
                assert(rendered(select_spec(after, tv, only_children)) =~= rendered(
                    select_spec(before, tv, only_children),
                ).push(render(self.key(i as int))));
            } else {
                assert(select_spec(after, tv, only_children) == select_spec(before, tv, only_children));
            }
            i = i + 1;
        }
        assert(self.keys().take(self.slots@.len() as int) =~= self.keys());
        out
    }

    /// Every known path but the root, deepest first: the reverse of path
    /// order, so that no path comes before one below it.
    pub fn deepest_first(&self) -> (r: Vec<String>)
        requires
            self.wf(),
        ensures
            r@.len() + 1 == self.keys().len(),
            forall|a: int| 0 <= a < r@.len() ==> #[trigger] r@[a]@ == render(self.keys()[self.keys().len() - 1 - a]),
            forall|a: int, b: int| 0 <= a < b < r@.len() ==> !is_prefix(
                #[trigger] self.keys()[self.keys().len() - 1 - a],
                #[trigger] self.keys()[self.keys().len() - 1 - b],
            ),
    {
        proof {
            self.lemma_wf();
            let root = Seq::<Seq<char>>::empty();
            assert(self.keys().contains(root));
        }
        let n = self.slots.len();
        let mut out: Vec<String> = Vec::new();
        let mut i: usize = n;
        while i > 1
            invariant
                self.wf(),
                n == self.slots@.len(),
                n >= 1,
                1 <= i <= n,
                out@.len() == n - i,
                forall|a: int| 0 <= a < out@.len() ==> #[trigger] out@[a]@ == render(self.keys()[n - 1 - a]),
            decreases i,
        {
            i = i - 1;
            out.push(self.slots[i].path.clone());
            assert(self.keys()[i as int] == self.key(i as int));
        }
        proof {
            assert forall|a: int, b: int| 0 <= a < b < out@.len() implies !is_prefix(
                #[trigger] self.keys()[self.keys().len() - 1 - a],
                #[trigger] self.keys()[self.keys().len() - 1 - b],
            ) by {
                lemma_sorted_ancestors(self.keys(), n - 1 - b, n - 1 - a);
            }
        }
        out
    }
}

} // verus!
