//! The global namespace: each name maps to one declaration, or to the ordered
//! list of two or more declarations that collide on it.
use crate::linker::NamedUUID;
use crate::resolver::ids_view;
use vstd::prelude::*;

verus! {

pub enum NamespaceElement {
    Global(NamedUUID),
    Colission(Vec<NamedUUID>),
}

pub struct NamespaceEntry {
    pub name: String,
    pub element: NamespaceElement,
}

pub open spec fn element_ids(e: NamespaceElement) -> Seq<usize> {
    match e {
        NamespaceElement::Global(g) => seq![g.hidden_value],
        NamespaceElement::Colission(v) => ids_view(v@),
    }
}

pub open spec fn without(ids: Seq<usize>, removed: Set<usize>) -> Seq<usize> {
    ids.filter(|x: usize| !removed.contains(x))
}

pub open spec fn id_set(ids: Seq<NamedUUID>) -> Set<usize> {
    Set::new(|u: usize| ids_view(ids).contains(u))
}

pub fn contains_id(ids: &Vec<NamedUUID>, id: NamedUUID) -> (r: bool)
    ensures
        r == id_set(ids@).contains(id.hidden_value),
{
    let mut i: usize = 0;
    while i < ids.len()
        invariant
            i <= ids@.len(),
            forall|j: int| 0 <= j < i ==> ids@[j].hidden_value != id.hidden_value,
        decreases ids@.len() - i,
    {
        if ids[i].hidden_value == id.hidden_value {
            proof {
                assert(ids_view(ids@)[i as int] == id.hidden_value);
            }
            return true;
        }
        i = i + 1;
    }
    proof {
        if ids_view(ids@).contains(id.hidden_value) {
            let k = choose|k: int| 0 <= k < ids_view(ids@).len() && ids_view(ids@)[k] == id.hidden_value;
            assert(ids@[k].hidden_value == id.hidden_value);
        }
    }
    false
}

/// The ids of `ids` that are not in `removed`, in order.
fn ids_without(ids: &Vec<NamedUUID>, removed: &Vec<NamedUUID>) -> (r: Vec<NamedUUID>)
    requires
        ids_view(ids@).no_duplicates(),
    ensures
        ids_view(r@) == without(ids_view(ids@), id_set(removed@)),
        ids_view(r@).no_duplicates(),
{
    let ghost rs = id_set(removed@);
    let ghost src = ids_view(ids@);
    let mut kept: Vec<NamedUUID> = Vec::new();
    let mut j: usize = 0;
    while j < ids.len()
        invariant
            j <= ids@.len(),
            src == ids_view(ids@),
            rs == id_set(removed@),
            src.no_duplicates(),
            ids_view(kept@) == without(src.take(j as int), rs),
            ids_view(kept@).no_duplicates(),
            forall|k: int|
                0 <= k < ids_view(kept@).len() ==> exists|m: int|
                    0 <= m < j && src[m] == #[trigger] ids_view(kept@)[k],
        decreases ids@.len() - j,
    {
        let id = ids[j];
        let ghost before = kept@;
        proof {
            assert(src.take(j as int + 1) =~= src.take(j as int).push(src[j as int]));
            src.take(j as int).lemma_filter_push(src[j as int], |x: usize| !rs.contains(x));
        }
        if !contains_id(removed, id) {
            kept.push(id);
            proof {
                let kv = ids_view(kept@);
                assert(kv =~= ids_view(before).push(id.hidden_value));
                assert forall|a: int, b: int| 0 <= a < kv.len() && 0 <= b < kv.len() && a != b implies kv[a] != kv[b] by {
                    if b == kv.len() - 1 {
                        assert(kv[a] == ids_view(before)[a]);
                        let m = choose|m: int| 0 <= m < j && src[m] == #[trigger] ids_view(before)[a];
                    } else if a == kv.len() - 1 {
                        assert(kv[b] == ids_view(before)[b]);
                        let m = choose|m: int| 0 <= m < j && src[m] == #[trigger] ids_view(before)[b];
                    }
                }
                assert forall|k: int| 0 <= k < kv.len() implies exists|m: int|
                    0 <= m < j + 1 && src[m] == #[trigger] kv[k] by {
                    if k == kv.len() - 1 {
                        assert(src[j as int] == kv[k]);
                    } else {
                        assert(kv[k] == ids_view(before)[k]);
                    }
                }
            }
        }
        j = j + 1;
    }
    proof {
        assert(src.take(ids@.len() as int) =~= src);
    }
    kept
}

/// A well-formed element: a collision holds at least two ids, and no id twice.
pub open spec fn element_wf(e: NamespaceElement) -> bool {
    &&& e matches NamespaceElement::Colission(v) ==> v@.len() >= 2
    &&& element_ids(e).no_duplicates()
}

/// Names are unique and every element is well formed.
pub open spec fn entries_wf(entries: Seq<NamespaceEntry>) -> bool {
    &&& forall|i: int, j: int|
        0 <= i < entries.len() && 0 <= j < entries.len() && i != j ==> #[trigger] entries[i].name@
            != #[trigger] entries[j].name@
    &&& forall|i: int| 0 <= i < entries.len() ==> element_wf(#[trigger] entries[i].element)
}

/// `e` is the pruned form of one of the first `bound` entries of `src`.
spec fn kept_from(e: NamespaceEntry, src: Seq<NamespaceEntry>, rs: Set<usize>, bound: int) -> bool {
    exists|k: int| 0 <= k < bound && #[trigger] pruned_from(e, src[k], rs)
}

spec fn pruned_from(e: NamespaceEntry, s: NamespaceEntry, rs: Set<usize>) -> bool {
    &&& e.name@ == s.name@
    &&& element_ids(e.element) == without(element_ids(s.element), rs)
    &&& element_ids(e.element).len() > 0
}

/// If pruning `s` leaves something, `kept` has an entry of its name.
spec fn src_kept(s: NamespaceEntry, kept: Seq<NamespaceEntry>, rs: Set<usize>) -> bool {
    without(element_ids(s.element), rs).len() > 0 ==> exists|j: int| 0 <= j < kept.len() && #[trigger] kept[j].name@ == s.name@
}

proof fn lemma_kept_push(
    before: Seq<NamespaceEntry>,
    kept: Seq<NamespaceEntry>,
    src: Seq<NamespaceEntry>,
    rs: Set<usize>,
    i: int,
)
    requires
        0 <= i < src.len(),
        entries_wf(src),
        entries_wf(before),
        kept.len() == before.len() + 1,
        forall|j: int| 0 <= j < before.len() ==> kept[j] == before[j],
        pruned_from(kept[before.len() as int], src[i], rs),
        element_wf(kept[before.len() as int].element),
        forall|j: int| 0 <= j < before.len() ==> kept_from(#[trigger] before[j], src, rs, i),
        forall|k: int| 0 <= k < i ==> src_kept(#[trigger] src[k], before, rs),
    ensures
        entries_wf(kept),
        forall|j: int| 0 <= j < kept.len() ==> kept_from(#[trigger] kept[j], src, rs, i + 1),
        forall|k: int| 0 <= k < i + 1 ==> src_kept(#[trigger] src[k], kept, rs),
{
    let last = before.len() as int;
    assert forall|a: int, b: int|
        0 <= a < kept.len() && 0 <= b < kept.len() && a != b implies #[trigger] kept[a].name@
            != #[trigger] kept[b].name@ by {
        if b == last {
            assert(kept_from(before[a], src, rs, i));
            let k = choose|k: int| 0 <= k < i && #[trigger] pruned_from(before[a], src[k], rs);
            assert(kept[a] == before[a]);
        } else if a == last {
            assert(kept_from(before[b], src, rs, i));
            let k = choose|k: int| 0 <= k < i && #[trigger] pruned_from(before[b], src[k], rs);
            assert(kept[b] == before[b]);
        } else {
            assert(kept[a] == before[a] && kept[b] == before[b]);
        }
    }
    assert forall|a: int| 0 <= a < kept.len() implies element_wf(#[trigger] kept[a].element) by {
        if a < last {
            assert(kept[a] == before[a]);
        }
    }
    assert forall|j: int| 0 <= j < kept.len() implies kept_from(#[trigger] kept[j], src, rs, i + 1) by {
        if j == last {
            assert(pruned_from(kept[j], src[i], rs));
        } else {
            assert(kept[j] == before[j]);
            assert(kept_from(before[j], src, rs, i));
            let k = choose|k: int| 0 <= k < i && #[trigger] pruned_from(before[j], src[k], rs);
            assert(pruned_from(kept[j], src[k], rs));
        }
    }
    assert forall|k: int| 0 <= k < i + 1 implies src_kept(#[trigger] src[k], kept, rs) by {
        if k == i {
            assert(kept[last].name@ == src[k].name@);
        } else {
            assert(src_kept(src[k], before, rs));
            if without(element_ids(src[k].element), rs).len() > 0 {
                let j = choose|j: int| 0 <= j < before.len() && #[trigger] before[j].name@ == src[k].name@;
                assert(kept[j] == before[j]);
            }
        }
    }
}

pub struct Namespace {
    entries: Vec<NamespaceEntry>,
}

impl Namespace {
    spec fn has_at(&self, name: Seq<char>, i: int) -> bool {
        0 <= i < self.entries@.len() && self.entries@[i].name@ == name
    }

    spec fn has(&self, name: Seq<char>) -> bool {
        exists|i: int| #[trigger] self.has_at(name, i)
    }

    /// The declarations bound to `name`, oldest first; empty where the name is unbound.
    pub closed spec fn lookup(&self, name: Seq<char>) -> Seq<usize> {
        if self.has(name) {
            element_ids(self.entries@[choose|i: int| #[trigger] self.has_at(name, i)].element)
        } else {
            Seq::empty()
        }
    }

    pub closed spec fn wf(&self) -> bool {
        entries_wf(self.entries@)
    }

    proof fn lemma_lookup_at(&self, name: Seq<char>, i: int)
        requires
            self.wf(),
            self.has_at(name, i),
        ensures
            self.lookup(name) == element_ids(self.entries@[i].element),
    {
        let j = choose|j: int| #[trigger] self.has_at(name, j);
        assert(self.has_at(name, j));
    }

    proof fn lemma_lookup_absent(&self, name: Seq<char>)
        requires
            forall|i: int| 0 <= i < self.entries@.len() ==> self.entries@[i].name@ != name,
        ensures
            self.lookup(name) == Seq::<usize>::empty(),
    {
        assert(!self.has(name));
    }

    /// Every bound name has one declaration or a collision of several distinct ones.
    pub proof fn lemma_lookup_wf(&self, name: Seq<char>)
        requires
            self.wf(),
        ensures
            self.lookup(name).no_duplicates(),
    {
        if self.has(name) {
            let i = choose|i: int| #[trigger] self.has_at(name, i);
            self.lemma_lookup_at(name, i);
        }
    }

    pub fn new() -> (r: Namespace)
        ensures
            r.wf(),
            forall|n: Seq<char>| #[trigger] r.lookup(n) == Seq::<usize>::empty(),
    {
        let r = Namespace { entries: Vec::new() };
        proof {
            assert forall|n: Seq<char>| #[trigger] r.lookup(n) == Seq::<usize>::empty() by {
                r.lemma_lookup_absent(n);
            }
        }
        r
    }

    fn find(&self, name: &String) -> (r: Option<usize>)
        requires
            self.wf(),
        ensures
            match r {
                Some(i) => self.has_at(name@, i as int),
                None => forall|i: int| 0 <= i < self.entries@.len() ==> self.entries@[i].name@ != name@,
            },
    {
        let mut i: usize = 0;
        while i < self.entries.len()
            invariant
                i <= self.entries@.len(),
                forall|j: int| 0 <= j < i ==> self.entries@[j].name@ != name@,
            decreases self.entries@.len() - i,
        {
            if self.entries[i].name == *name {
                return Some(i);
            }
            i = i + 1;
        }
        None
    }

    /// The element bound to `name`, if any.
    pub fn get(&self, name: &String) -> (r: Option<&NamespaceElement>)
        requires
            self.wf(),
        ensures
            match r {
                Some(e) => element_ids(*e) == self.lookup(name@) && self.lookup(name@).len() > 0
                    && (e is Global <==> self.lookup(name@).len() == 1),
                None => self.lookup(name@).len() == 0,
            },
    {
        match self.find(name) {
            Some(i) => {
                proof {
                    self.lemma_lookup_at(name@, i as int);
                }
                Some(&self.entries[i].element)
            },
            None => {
                proof {
                    self.lemma_lookup_absent(name@);
                }
                None
            },
        }
    }

    /// Binds `name` to `id` as well: a free name gets `id` alone, a bound one becomes a collision.
    pub fn add(&mut self, name: String, id: NamedUUID)
        requires
            old(self).wf(),
            !old(self).lookup(name@).contains(id.hidden_value),
        ensures
            final(self).wf(),
            forall|n: Seq<char>|
                #[trigger] final(self).lookup(n) == if n == name@ {
                    old(self).lookup(n).push(id.hidden_value)
                } else {
                    old(self).lookup(n)
                },
    {
        match self.find(&name) {
            Some(i) => {
                proof {
                    self.lemma_lookup_at(name@, i as int);
                }
                let ghost old_ids = element_ids(self.entries@[i as int].element);
                let entry = &mut self.entries[i];
                match &mut entry.element {
                    NamespaceElement::Global(g) => {
                        let first = *g;
                        entry.element = NamespaceElement::Colission(vec![first, id]);
                    },
                    NamespaceElement::Colission(v) => {
                        v.push(id);
                    },
                }
                proof {
                    let new_ids = element_ids(self.entries@[i as int].element);
                    assert(new_ids =~= old_ids.push(id.hidden_value));
                    assert forall|n: Seq<char>|
                        #[trigger] self.lookup(n) == if n == name@ {
                            old(self).lookup(n).push(id.hidden_value)
                        } else {
                            old(self).lookup(n)
                        } by {
                        if n == name@ {
                            self.lemma_lookup_at(n, i as int);
                        } else if old(self).has(n) {
                            let j = choose|j: int| #[trigger] old(self).has_at(n, j);
                            old(self).lemma_lookup_at(n, j);
                            self.lemma_lookup_at(n, j);
                        } else {
                            assert forall|k: int| 0 <= k < self.entries@.len() implies self.entries@[k].name@ != n by {
                                if k < old(self).entries@.len() {
                                    assert(!old(self).has_at(n, k));
                                }
                            }
                            self.lemma_lookup_absent(n);
                        }
                    }
                }
            },
            None => {
                proof {
                    old(self).lemma_lookup_absent(name@);
                }
                let ghost name_v = name@;
                self.entries.push(NamespaceEntry { name, element: NamespaceElement::Global(id) });
                proof {
                    let last = self.entries@.len() - 1;
                    assert(element_ids(self.entries@[last].element) =~= seq![id.hidden_value]);
                    assert(seq![id.hidden_value] =~= Seq::<usize>::empty().push(id.hidden_value));
                    assert forall|n: Seq<char>|
                        #[trigger] self.lookup(n) == if n == name_v {
                            old(self).lookup(n).push(id.hidden_value)
                        } else {
                            old(self).lookup(n)
                        } by {
                        if n == name_v {
                            self.lemma_lookup_at(n, last);
                        } else if old(self).has(n) {
                            let j = choose|j: int| #[trigger] old(self).has_at(n, j);
                            old(self).lemma_lookup_at(n, j);
                            self.lemma_lookup_at(n, j);
                        } else {
                            assert forall|k: int| 0 <= k < self.entries@.len() implies self.entries@[k].name@ != n by {
                                if k < old(self).entries@.len() {
                                    assert(!old(self).has_at(n, k));
                                }
                            }
                            self.lemma_lookup_absent(n);
                        }
                    }
                }
            },
        }
    }

    /// Unbinds the declarations in `removed`: a collision that keeps one declaration
    /// binds it directly again, and a name that keeps none is dropped.
    pub fn remove(&mut self, removed: &Vec<NamedUUID>)
        requires
            old(self).wf(),
        ensures
            final(self).wf(),
            forall|n: Seq<char>|
                #[trigger] final(self).lookup(n) == without(old(self).lookup(n), id_set(removed@)),
    {
        let ghost rs = id_set(removed@);
        let ghost src = self.entries@;
        let mut old_entries: Vec<NamespaceEntry> = Vec::new();
        core::mem::swap(&mut old_entries, &mut self.entries);
        let mut kept: Vec<NamespaceEntry> = Vec::new();
        let mut i: usize = 0;
        while i < old_entries.len()
            invariant
                i <= old_entries@.len(),
                old_entries@ == src,
                rs == id_set(removed@),
                old(self).entries@ == src,
                old(self).wf(),
                entries_wf(kept@),
                forall|j: int| 0 <= j < kept@.len() ==> kept_from(#[trigger] kept@[j], src, rs, i as int),
                forall|k: int| 0 <= k < i ==> src_kept(#[trigger] src[k], kept@, rs),
            decreases old_entries@.len() - i,
        {
            let entry = &old_entries[i];
            let ghost before = kept@;

            let remaining: Vec<NamedUUID> = match &entry.element {
                NamespaceElement::Global(g) => {
                    let v = vec![*g];
                    proof {
                        assert(ids_view(v@) =~= element_ids(entry.element));
                    }
                    ids_without(&v, removed)
                },
                NamespaceElement::Colission(v) => ids_without(v, removed),
            };
            let n = remaining.len();
            if n > 0 {
                let element = if n == 1 {
                    let e = NamespaceElement::Global(remaining[0]);
                    proof {
                        assert(element_ids(e) =~= ids_view(remaining@));
                    }
                    e
                } else {
                    NamespaceElement::Colission(remaining)
                };
                kept.push(NamespaceEntry { name: entry.name.clone(), element });
                proof {
                    lemma_kept_push(before, kept@, src, rs, i as int);
                }
            }
            i = i + 1;
        }
        self.entries = kept;
        proof {
            assert forall|n: Seq<char>|
                #[trigger] self.lookup(n) == without(old(self).lookup(n), rs) by {
                self.lemma_remove_lookup(old(self), rs, n);
            }
        }
    }

    proof fn lemma_remove_lookup(&self, prev: &Namespace, rs: Set<usize>, n: Seq<char>)
        requires
            self.wf(),
            prev.wf(),
            forall|j: int| 0 <= j < self.entries@.len() ==> kept_from(#[trigger] self.entries@[j], prev.entries@, rs, prev.entries@.len() as int),
            forall|k: int| 0 <= k < prev.entries@.len() ==> src_kept(#[trigger] prev.entries@[k], self.entries@, rs),
        ensures
            self.lookup(n) == without(prev.lookup(n), rs),
    {
        let src = prev.entries@;
        let kept = self.entries@;
        if prev.has(n) {
            let k = choose|k: int| #[trigger] prev.has_at(n, k);
            prev.lemma_lookup_at(n, k);
            assert(src_kept(src[k], kept, rs));
            if without(element_ids(src[k].element), rs).len() > 0 {
                let j = choose|j: int| 0 <= j < kept.len() && #[trigger] kept[j].name@ == src[k].name@;
                self.lemma_lookup_at(n, j);
                assert(kept_from(kept[j], src, rs, src.len() as int));
                let k2 = choose|k2: int| 0 <= k2 < src.len() && #[trigger] pruned_from(kept[j], src[k2], rs);
                assert(k2 == k);
            } else {
                assert forall|j: int| 0 <= j < kept.len() implies kept[j].name@ != n by {
                    if kept[j].name@ == n {
                        assert(kept_from(kept[j], src, rs, src.len() as int));
                        let k2 = choose|k2: int| 0 <= k2 < src.len() && #[trigger] pruned_from(kept[j], src[k2], rs);
                        assert(k2 == k);
                    }
                }
                self.lemma_lookup_absent(n);
            }
        } else {
            assert forall|j: int| 0 <= j < kept.len() implies kept[j].name@ != n by {
                if kept[j].name@ == n {
                    assert(kept_from(kept[j], src, rs, src.len() as int));
                    let k2 = choose|k2: int| 0 <= k2 < src.len() && #[trigger] pruned_from(kept[j], src[k2], rs);
                    assert(prev.has_at(n, k2));
                }
            }
            self.lemma_lookup_absent(n);
            reveal(Seq::filter);
        }
    }
}

} // verus!
