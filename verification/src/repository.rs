//! The in-memory repository: memories by ID, indexes by kind, user, agent,
//! tag and creation time, relationships by source, and statistics.
use vstd::prelude::*;
use std::sync::Arc;
use crate::memory::{MemoryNode, MemoryRelationship, same_node};
use crate::error::Error;
use crate::text::{str_eq, string_views};
use crate::types::MemoryTypeEnum;
use crate::order::{stable_sorted, lemma_insertion_point_is};

verus! {

/// Calls `Arc::clone`, which gives another handle to the same value.
#[verifier::external_body]
fn arc_clone(a: &Arc<MemoryNode>) -> (r: Arc<MemoryNode>)
    ensures
        *r == **a,
{
    Arc::clone(a)
}

impl View for MemoryTypeEnum {
    type V = MemoryTypeEnum;

    open spec fn view(&self) -> MemoryTypeEnum {
        *self
    }
}

/// Keys by which memories are indexed.
pub trait IndexKey: View + Sized {
    /// Whether two keys are the same.
    fn same_key(&self, other: &Self) -> (r: bool)
        ensures
            r == (self@ == other@);

    /// A copy of the key.
    fn copy_key(&self) -> (r: Self)
        ensures
            r@ == self@;
}

impl IndexKey for String {
    fn same_key(&self, other: &Self) -> (r: bool) {
        str_eq(self.as_str(), other.as_str())
    }

    fn copy_key(&self) -> (r: Self) {
        String::from_str(self.as_str())
    }
}

impl IndexKey for i64 {
    fn same_key(&self, other: &Self) -> (r: bool) {
        *self == *other
    }

    fn copy_key(&self) -> (r: Self) {
        *self
    }
}

impl IndexKey for MemoryTypeEnum {
    fn same_key(&self, other: &Self) -> (r: bool) {
        *self == *other
    }

    fn copy_key(&self) -> (r: Self) {
        *self
    }
}

/// Whether the keys of an index view are distinct.
pub open spec fn distinct_keys<V>(s: Seq<(V, Set<Seq<char>>)>) -> bool {
    forall|i: int, j: int| 0 <= i < j < s.len() ==> #[trigger] s[i].0 != #[trigger] s[j].0
}

/// An index after adding `id` under `key`: the key's set gains `id`, or
/// the key is added at the end with only `id`.
pub open spec fn index_insert<V>(s: Seq<(V, Set<Seq<char>>)>, key: V, id: Seq<char>) -> Seq<(V, Set<Seq<char>>)> {
    if exists|i: int| 0 <= i < s.len() && #[trigger] s[i].0 == key {
        let i = choose|i: int| 0 <= i < s.len() && #[trigger] s[i].0 == key;
        s.update(i, (key, s[i].1.insert(id)))
    } else {
        s.push((key, set![id]))
    }
}

/// An index after removing `id` from under `key`: the key stays, with a
/// smaller set; an absent key changes nothing.
pub open spec fn index_remove<V>(s: Seq<(V, Set<Seq<char>>)>, key: V, id: Seq<char>) -> Seq<(V, Set<Seq<char>>)> {
    if exists|i: int| 0 <= i < s.len() && #[trigger] s[i].0 == key {
        let i = choose|i: int| 0 <= i < s.len() && #[trigger] s[i].0 == key;
        s.update(i, (key, s[i].1.remove(id)))
    } else {
        s
    }
}

/// An index after adding `id` under each of `keys`, in order.
pub open spec fn index_insert_all(s: Seq<(Seq<char>, Set<Seq<char>>)>, keys: Seq<Seq<char>>, id: Seq<char>) -> Seq<(Seq<char>, Set<Seq<char>>)>
    decreases keys.len(),
{
    if keys.len() == 0 {
        s
    } else {
        index_insert(index_insert_all(s, keys.drop_last(), id), keys.last(), id)
    }
}

/// An index after removing `id` from under each of `keys`, in order.
pub open spec fn index_remove_all(s: Seq<(Seq<char>, Set<Seq<char>>)>, keys: Seq<Seq<char>>, id: Seq<char>) -> Seq<(Seq<char>, Set<Seq<char>>)>
    decreases keys.len(),
{
    if keys.len() == 0 {
        s
    } else {
        index_remove(index_remove_all(s, keys.drop_last(), id), keys.last(), id)
    }
}

/// Memory IDs grouped under keys.
#[derive(Debug)]
pub struct IdIndex<K> {
    entries: Vec<(K, Vec<String>)>,
}

impl<K: IndexKey> IdIndex<K> {
    /// The keys with their sets of IDs, in the order the keys first came.
    pub closed spec fn entries_view(&self) -> Seq<(K::V, Set<Seq<char>>)> {
        self.entries@.map_values(|e: (K, Vec<String>)| (e.0@, string_views(e.1@).to_set()))
    }

    /// Keys are distinct and no key lists an ID twice.
    pub closed spec fn wf(&self) -> bool {
        &&& distinct_keys(self.entries_view())
        &&& forall|i: int| 0 <= i < self.entries@.len() ==> string_views(#[trigger] self.entries@[i].1@).no_duplicates()
    }

    /// An empty index.
    pub fn new() -> (r: IdIndex<K>)
        ensures
            r.wf(),
            r.entries_view().len() == 0,
    {
        let r = IdIndex { entries: Vec::new() };
        assert(r.entries_view() =~= Seq::<(K::V, Set<Seq<char>>)>::empty());
        r
    }

    /// The number of keys.
    pub fn key_count(&self) -> (r: usize)
        ensures
            r == self.entries_view().len(),
    {
        self.entries.len()
    }

    /// Whether `id` is filed under `key`.
    pub fn files(&self, key: &K, id: &str) -> (r: bool)
        requires
            self.wf(),
        ensures
            r == ids_under(self.entries_view(), key@).contains(id@),
    {
        let ghost s0 = self.entries_view();
        let n = self.entries.len();
        let mut i: usize = 0;
        while i < n
            invariant
                n == self.entries@.len(),
                i <= n,
                s0 == self.entries_view(),
                self.wf(),
                forall|j: int| 0 <= j < i ==> #[trigger] s0[j].0 != key@,
            decreases n - i,
        {
            proof {
                assert(s0[i as int] == (self.entries@[i as int].0@, string_views(self.entries@[i as int].1@).to_set()));
            }
            if self.entries[i].0.same_key(key) {
                let r = contains_str(&self.entries[i].1, id);
                proof {
                    assert(s0[i as int].0 == key@);
                    let c = choose|j: int| 0 <= j < s0.len() && #[trigger] s0[j].0 == key@;
                    assert(c == i);
                    assert(string_views(self.entries@[i as int].1@).to_set().contains(id@) == string_views(
                        self.entries@[i as int].1@,
                    ).contains(id@));
                }
                return r;
            }
            i = i + 1;
        }
        false
    }

    /// Adds `id` under `key`.
    pub fn insert(&mut self, key: &K, id: &str)
        requires
            old(self).wf(),
        ensures
            final(self).wf(),
            final(self).entries_view() == index_insert(old(self).entries_view(), key@, id@),
    {
        let ghost s0 = self.entries_view();
        let n = self.entries.len();
        let mut i: usize = 0;
        while i < n
            invariant
                n == self.entries@.len(),
                i <= n,
                self.entries_view() == s0,
                s0 == old(self).entries_view(),
                self.wf(),
                forall|j: int| 0 <= j < i ==> #[trigger] s0[j].0 != key@,
            decreases n - i,
        {
            proof {
                assert(s0[i as int] == (self.entries@[i as int].0@, string_views(self.entries@[i as int].1@).to_set()));
            }
            if self.entries[i].0.same_key(key) {
                assert(s0[i as int].0 == key@);
                let ghost old_ids = self.entries@[i as int].1@;
                let ghost e0 = self.entries@;
                let mut placeholder: (K, Vec<String>) = (key.copy_key(), Vec::new());
                std::mem::swap(&mut placeholder, &mut self.entries[i]);
                let (k0, mut list) = placeholder;
                if !contains_str(&list, id) {
                    list.push(String::from_str(id));
                    proof {
                        assert(string_views(list@) =~= string_views(old_ids).push(id@));
                        string_views(old_ids).lemma_push_to_set_commute(id@);
                        assert(string_views(list@).to_set() =~= string_views(old_ids).to_set().insert(id@));
                        assert(string_views(list@).no_duplicates());
                    }
                } else {
                    proof {
                        assert(string_views(old_ids).to_set().insert(id@) =~= string_views(old_ids).to_set());
                    }
                }
                self.entries.set(i, (k0, list));
                proof {
                    assert(exists|j: int| 0 <= j < s0.len() && #[trigger] s0[j].0 == key@);
                    let c = choose|j: int| 0 <= j < s0.len() && #[trigger] s0[j].0 == key@;
                    assert(c == i);
                    assert forall|a: int| 0 <= a < self.entries@.len() implies string_views(
                        #[trigger] self.entries@[a].1@,
                    ).no_duplicates() by {
                        if a != i {
                            assert(self.entries@[a] == e0[a]);
                        }
                    }
                    assert(index_insert(s0, key@, id@) == s0.update(i as int, (key@, s0[i as int].1.insert(id@))));
                    assert(self.entries_view() =~= s0.update(i as int, (key@, s0[i as int].1.insert(id@)))) by {
                        assert forall|a: int| 0 <= a < self.entries@.len() implies #[trigger] self.entries_view()[a]
                            == s0.update(i as int, (key@, s0[i as int].1.insert(id@)))[a] by {
                            if a != i {
                                assert(self.entries@[a] == e0[a]);
                            }
                        }
                    }
                }
                return;
            }
            i = i + 1;
        }
        let mut list: Vec<String> = Vec::new();
        list.push(String::from_str(id));
        proof {
            assert(string_views(list@) =~= seq![id@]);
            Seq::<Seq<char>>::empty().lemma_push_to_set_commute(id@);
            assert(Seq::<Seq<char>>::empty().to_set() =~= Set::<Seq<char>>::empty());
            assert(seq![id@] =~= Seq::<Seq<char>>::empty().push(id@));
            assert(seq![id@].to_set() =~= set![id@]);
        }
        self.entries.push((key.copy_key(), list));
        proof {
            assert(self.entries_view() =~= s0.push((key@, set![id@])));
        }
    }

    /// Removes `id` from under `key`; the key itself stays.
    pub fn remove(&mut self, key: &K, id: &str)
        requires
            old(self).wf(),
        ensures
            final(self).wf(),
            final(self).entries_view() == index_remove(old(self).entries_view(), key@, id@),
    {
        let ghost s0 = self.entries_view();
        let n = self.entries.len();
        let mut i: usize = 0;
        while i < n
            invariant
                n == self.entries@.len(),
                i <= n,
                self.entries_view() == s0,
                s0 == old(self).entries_view(),
                self.wf(),
                forall|j: int| 0 <= j < i ==> #[trigger] s0[j].0 != key@,
            decreases n - i,
        {
            proof {
                assert(s0[i as int] == (self.entries@[i as int].0@, string_views(self.entries@[i as int].1@).to_set()));
            }
            if self.entries[i].0.same_key(key) {
                assert(s0[i as int].0 == key@);
                let ghost old_ids = self.entries@[i as int].1@;
                let ghost e0 = self.entries@;
                let mut placeholder: (K, Vec<String>) = (key.copy_key(), Vec::new());
                std::mem::swap(&mut placeholder, &mut self.entries[i]);
                let (k0, mut list) = placeholder;
                remove_str(&mut list, id);
                self.entries.set(i, (k0, list));
                proof {
                    let c = choose|j: int| 0 <= j < s0.len() && #[trigger] s0[j].0 == key@;
                    assert(c == i);
                    assert forall|a: int| 0 <= a < self.entries@.len() implies string_views(
                        #[trigger] self.entries@[a].1@,
                    ).no_duplicates() by {
                        if a != i {
                            assert(self.entries@[a] == e0[a]);
                        }
                    }
                    assert(exists|j: int| 0 <= j < s0.len() && #[trigger] s0[j].0 == key@);
                    assert(c == i);
                    assert(index_remove(s0, key@, id@) == s0.update(i as int, (key@, s0[i as int].1.remove(id@))));
                    assert(self.entries_view() =~= s0.update(i as int, (key@, s0[i as int].1.remove(id@)))) by {
                        assert forall|a: int| 0 <= a < self.entries@.len() implies #[trigger] self.entries_view()[a]
                            == s0.update(i as int, (key@, s0[i as int].1.remove(id@)))[a] by {
                            if a != i {
                                assert(self.entries@[a] == e0[a]);
                            }
                        }
                    }
                }
                return;
            }
            i = i + 1;
        }
    }
}

impl IdIndex<MemoryTypeEnum> {
    /// The keys, in key order.
    fn kinds(&self) -> (r: Vec<MemoryTypeEnum>)
        requires
            self.wf(),
        ensures
            r@.len() == self.entries_view().len(),
            forall|i: int| 0 <= i < r@.len() ==> #[trigger] r@[i] == self.entries_view()[i].0,
            r@.no_duplicates(),
    {
        let n = self.entries.len();
        let mut out: Vec<MemoryTypeEnum> = Vec::new();
        let mut i: usize = 0;
        while i < n
            invariant
                n == self.entries@.len(),
                n == self.entries_view().len(),
                i <= n,
                out@.len() == i,
                forall|j: int| 0 <= j < i ==> #[trigger] out@[j] == self.entries_view()[j].0,
            decreases n - i,
        {
            assert(self.entries_view()[i as int].0 == self.entries@[i as int].0);
            out.push(self.entries[i].0);
            i = i + 1;
        }
        proof {
            let ev = self.entries_view();
            assert forall|a: int, b: int| 0 <= a < out@.len() && 0 <= b < out@.len() && a != b implies out@[a] != out@[b] by {
                if a < b {
                    assert(ev[a].0 != ev[b].0);
                } else {
                    assert(ev[b].0 != ev[a].0);
                }
            }
        }
        out
    }
}

impl IdIndex<String> {
    /// Adds `id` under each of `keys`, in order.
    pub fn insert_all(&mut self, keys: &Vec<String>, id: &str)
        requires
            old(self).wf(),
        ensures
            final(self).wf(),
            final(self).entries_view() == index_insert_all(old(self).entries_view(), string_views(keys@), id@),
    {
        let n = keys.len();
        let mut i: usize = 0;
        while i < n
            invariant
                n == keys@.len(),
                i <= n,
                self.wf(),
                self.entries_view() == index_insert_all(old(self).entries_view(), string_views(keys@).subrange(0, i as int), id@),
            decreases n - i,
        {
            self.insert(&keys[i], id);
            proof {
                let ks = string_views(keys@);
                assert(ks.subrange(0, i + 1).drop_last() =~= ks.subrange(0, i as int));
                assert(ks.subrange(0, i + 1).last() == keys@[i as int]@);
            }
            i = i + 1;
        }
        assert(string_views(keys@).subrange(0, n as int) =~= string_views(keys@));
    }

    /// Removes `id` from under each of `keys`, in order.
    pub fn remove_all(&mut self, keys: &Vec<String>, id: &str)
        requires
            old(self).wf(),
        ensures
            final(self).wf(),
            final(self).entries_view() == index_remove_all(old(self).entries_view(), string_views(keys@), id@),
    {
        let n = keys.len();
        let mut i: usize = 0;
        while i < n
            invariant
                n == keys@.len(),
                i <= n,
                self.wf(),
                self.entries_view() == index_remove_all(old(self).entries_view(), string_views(keys@).subrange(0, i as int), id@),
            decreases n - i,
        {
            self.remove(&keys[i], id);
            proof {
                let ks = string_views(keys@);
                assert(ks.subrange(0, i + 1).drop_last() =~= ks.subrange(0, i as int));
                assert(ks.subrange(0, i + 1).last() == keys@[i as int]@);
            }
            i = i + 1;
        }
        assert(string_views(keys@).subrange(0, n as int) =~= string_views(keys@));
    }
}

/// Whether `id` is in the list.
fn contains_str(list: &Vec<String>, id: &str) -> (r: bool)
    ensures
        r == string_views(list@).contains(id@),
{
    let n = list.len();
    let mut i: usize = 0;
    while i < n
        invariant
            n == list@.len(),
            i <= n,
            forall|j: int| 0 <= j < i ==> list@[j]@ != id@,
        decreases n - i,
    {
        if str_eq(list[i].as_str(), id) {
            assert(string_views(list@)[i as int] == id@);
            return true;
        }
        i = i + 1;
    }
    proof {
        if string_views(list@).contains(id@) {
            let j = choose|j: int| 0 <= j < string_views(list@).len() && string_views(list@)[j] == id@;
            assert(list@[j]@ == id@);
        }
    }
    false
}

/// Removes `id` from a duplicate-free list, if present.
fn remove_str(list: &mut Vec<String>, id: &str)
    requires
        string_views(old(list)@).no_duplicates(),
    ensures
        string_views(final(list)@).no_duplicates(),
        string_views(final(list)@).to_set() == string_views(old(list)@).to_set().remove(id@),
{
    let n = list.len();
    let mut i: usize = 0;
    while i < n
        invariant
            n == list@.len(),
            list@ == old(list)@,
            string_views(list@).no_duplicates(),
            i <= n,
            forall|j: int| 0 <= j < i ==> list@[j]@ != id@,
        decreases n - i,
    {
        if str_eq(list[i].as_str(), id) {
            let ghost before = string_views(list@);
            assert(before[i as int] == id@);
            list.remove(i);
            proof {
                assert(string_views(list@) =~= before.remove(i as int));
                assert forall|a: int, b: int| 0 <= a < string_views(list@).len() && 0 <= b < string_views(list@).len() && a != b implies string_views(list@)[a] != string_views(list@)[b] by {
                    let a0 = if a < i { a } else { a + 1 };
                    let b0 = if b < i { b } else { b + 1 };
                    assert(string_views(list@)[a] == before[a0]);
                    assert(string_views(list@)[b] == before[b0]);
                }
                assert forall|x: Seq<char>| string_views(list@).to_set().contains(x) <==> before.to_set().remove(id@).contains(x) by {
                    if x == id@ {
                        if string_views(list@).contains(x) {
                            let j = choose|j: int| 0 <= j < string_views(list@).len() && string_views(list@)[j] == x;
                            if j < i {
                                assert(before[j] == x);
                                assert(before[i as int] == x);
                            } else {
                                assert(before[j + 1] == x);
                                assert(before[i as int] == x);
                            }
                        }
                    } else {
                        if before.contains(x) {
                            let j = choose|j: int| 0 <= j < before.len() && before[j] == x;
                            if j < i {
                                assert(string_views(list@)[j] == x);
                            } else {
                                assert(string_views(list@)[j - 1] == x);
                            }
                        }
                        if string_views(list@).contains(x) {
                            let j = choose|j: int| 0 <= j < string_views(list@).len() && string_views(list@)[j] == x;
                            if j < i {
                                assert(before[j] == x);
                            } else {
                                assert(before[j + 1] == x);
                            }
                        }
                    }
                }
                assert(string_views(list@).to_set() =~= before.to_set().remove(id@));
            }
            return;
        }
        i = i + 1;
    }
    proof {
        assert(!string_views(list@).contains(id@)) by {
            if string_views(list@).contains(id@) {
                let j = choose|j: int| 0 <= j < string_views(list@).len() && string_views(list@)[j] == id@;
                assert(list@[j]@ == id@);
            }
        }
        assert(string_views(list@).to_set().remove(id@) =~= string_views(list@).to_set());
    }
}

/// What a repository holds: its memories, its indexes (each a list of keys
/// with the IDs filed under them) and its relationships grouped by source.
pub struct RepositoryView {
    pub nodes: Seq<MemoryNode>,
    pub by_type: Seq<(MemoryTypeEnum, Set<Seq<char>>)>,
    pub by_user: Seq<(Seq<char>, Set<Seq<char>>)>,
    pub by_agent: Seq<(Seq<char>, Set<Seq<char>>)>,
    pub by_tag: Seq<(Seq<char>, Set<Seq<char>>)>,
    pub by_time: Seq<(i64, Set<Seq<char>>)>,
    pub relationships: Seq<(Seq<char>, Seq<MemoryRelationship>)>,
}

/// The memory with ID `id`, if one is held.
pub open spec fn find_node(nodes: Seq<MemoryNode>, id: Seq<char>) -> Option<MemoryNode> {
    if exists|i: int| 0 <= i < nodes.len() && #[trigger] nodes[i].id@ == id {
        let i = choose|i: int| 0 <= i < nodes.len() && #[trigger] nodes[i].id@ == id;
        Some(nodes[i])
    } else {
        None
    }
}

/// The memories after storing `m`: it takes the place of the memory with
/// the same ID, or is added at the end.
pub open spec fn put_node(nodes: Seq<MemoryNode>, m: MemoryNode) -> Seq<MemoryNode> {
    if exists|i: int| 0 <= i < nodes.len() && #[trigger] nodes[i].id@ == m.id@ {
        let i = choose|i: int| 0 <= i < nodes.len() && #[trigger] nodes[i].id@ == m.id@;
        nodes.update(i, m)
    } else {
        nodes.push(m)
    }
}

/// The memories after dropping the one with ID `id`, if any.
pub open spec fn drop_node(nodes: Seq<MemoryNode>, id: Seq<char>) -> Seq<MemoryNode> {
    if exists|i: int| 0 <= i < nodes.len() && #[trigger] nodes[i].id@ == id {
        let i = choose|i: int| 0 <= i < nodes.len() && #[trigger] nodes[i].id@ == id;
        nodes.remove(i)
    } else {
        nodes
    }
}

/// The relationships filed under `source`, oldest first.
pub open spec fn relationships_of(s: Seq<(Seq<char>, Seq<MemoryRelationship>)>, source: Seq<char>) -> Seq<MemoryRelationship> {
    if exists|i: int| 0 <= i < s.len() && #[trigger] s[i].0 == source {
        let i = choose|i: int| 0 <= i < s.len() && #[trigger] s[i].0 == source;
        s[i].1
    } else {
        Seq::empty()
    }
}

/// The relationships after filing `rel` last under its source.
pub open spec fn file_relationship(s: Seq<(Seq<char>, Seq<MemoryRelationship>)>, rel: MemoryRelationship) -> Seq<(Seq<char>, Seq<MemoryRelationship>)> {
    if exists|i: int| 0 <= i < s.len() && #[trigger] s[i].0 == rel.source_id@ {
        let i = choose|i: int| 0 <= i < s.len() && #[trigger] s[i].0 == rel.source_id@;
        s.update(i, (s[i].0, s[i].1.push(rel)))
    } else {
        s.push((rel.source_id@, seq![rel]))
    }
}

/// The number of relationships held.
pub open spec fn relationship_total(s: Seq<(Seq<char>, Seq<MemoryRelationship>)>) -> nat
    decreases s.len(),
{
    if s.len() == 0 {
        0
    } else {
        relationship_total(s.drop_last()) + s.last().1.len()
    }
}

/// An optional key index after adding `id` under `key`, when there is one.
pub open spec fn index_insert_opt(s: Seq<(Seq<char>, Set<Seq<char>>)>, key: Option<String>, id: Seq<char>) -> Seq<(Seq<char>, Set<Seq<char>>)> {
    match key {
        Some(k) => index_insert(s, k@, id),
        None => s,
    }
}

/// An optional key index after removing `id` from under `key`, when there
/// is one.
pub open spec fn index_remove_opt(s: Seq<(Seq<char>, Set<Seq<char>>)>, key: Option<String>, id: Seq<char>) -> Seq<(Seq<char>, Set<Seq<char>>)> {
    match key {
        Some(k) => index_remove(s, k@, id),
        None => s,
    }
}

/// The repository after adding `m`: it is stored under its ID and filed in
/// every index under its kind, user, agent, tags and creation time.
pub open spec fn added(v: RepositoryView, m: MemoryNode) -> RepositoryView {
    RepositoryView {
        nodes: put_node(v.nodes, m),
        by_type: index_insert(v.by_type, m.memory_type, m.id@),
        by_user: index_insert_opt(v.by_user, m.metadata.user_id, m.id@),
        by_agent: index_insert_opt(v.by_agent, m.metadata.agent_id, m.id@),
        by_tag: index_insert_all(v.by_tag, string_views(m.metadata.tags@), m.id@),
        by_time: index_insert(v.by_time, m.created_at, m.id@),
        relationships: v.relationships,
    }
}

/// The indexes after taking `m`'s ID out from under each of its keys; the
/// keys themselves stay.
pub open spec fn unindexed(v: RepositoryView, m: MemoryNode) -> RepositoryView {
    RepositoryView {
        nodes: v.nodes,
        by_type: index_remove(v.by_type, m.memory_type, m.id@),
        by_user: index_remove_opt(v.by_user, m.metadata.user_id, m.id@),
        by_agent: index_remove_opt(v.by_agent, m.metadata.agent_id, m.id@),
        by_tag: index_remove_all(v.by_tag, string_views(m.metadata.tags@), m.id@),
        by_time: index_remove(v.by_time, m.created_at, m.id@),
        relationships: v.relationships,
    }
}

/// The repository after storing `m` in place of any memory with its ID:
/// the memory it replaces, if any, leaves the indexes first.
pub open spec fn readded(v: RepositoryView, m: MemoryNode) -> RepositoryView {
    match find_node(v.nodes, m.id@) {
        Some(o) => added(unindexed(v, o), m),
        None => added(v, m),
    }
}

/// Whether the key `k` is in the index `s`.
pub open spec fn key_filed<V>(s: Seq<(V, Set<Seq<char>>)>, k: V) -> bool {
    exists|j: int| 0 <= j < s.len() && #[trigger] s[j].0 == k
}

/// Whether the kind of every stored memory is a key of the kind index.
pub open spec fn kinds_filed(v: RepositoryView) -> bool {
    forall|i: int| 0 <= i < v.nodes.len() ==> key_filed(v.by_type, (#[trigger] v.nodes[i]).memory_type)
}

/// The number of memories of kind `t`.
pub open spec fn kind_count(nodes: Seq<MemoryNode>, t: MemoryTypeEnum) -> nat
    decreases nodes.len(),
{
    if nodes.len() == 0 {
        0
    } else {
        kind_count(nodes.drop_last(), t) + if nodes.last().memory_type == t {
            1nat
        } else {
            0nat
        }
    }
}

/// The numbers of memories of each of the kinds `keys`, added up.
pub open spec fn kinds_total(keys: Seq<MemoryTypeEnum>, nodes: Seq<MemoryNode>) -> nat
    decreases keys.len(),
{
    if keys.len() == 0 {
        0
    } else {
        kinds_total(keys.drop_last(), nodes) + kind_count(nodes, keys.last())
    }
}

/// The counts of a list of (kind, count) pairs, added up.
pub open spec fn counts_total(counts: Seq<(MemoryTypeEnum, usize)>) -> nat
    decreases counts.len(),
{
    if counts.len() == 0 {
        0
    } else {
        counts_total(counts.drop_last()) + counts.last().1 as nat
    }
}

/// Adding a memory adds one to the total over `keys` when its kind is
/// among them, and nothing otherwise.
proof fn lemma_kinds_total_push(keys: Seq<MemoryTypeEnum>, nodes: Seq<MemoryNode>, x: MemoryNode)
    requires
        keys.no_duplicates(),
    ensures
        kinds_total(keys, nodes.push(x)) == kinds_total(keys, nodes) + if keys.contains(x.memory_type) {
            1nat
        } else {
            0nat
        },
    decreases keys.len(),
{
    assert(nodes.push(x).drop_last() =~= nodes);
    if keys.len() > 0 {
        let rest = keys.drop_last();
        assert(rest.no_duplicates()) by {
            assert forall|a: int, b: int| 0 <= a < rest.len() && 0 <= b < rest.len() && a != b implies rest[a] != rest[b] by {
                assert(rest[a] == keys[a] && rest[b] == keys[b]);
            }
        }
        lemma_kinds_total_push(rest, nodes, x);
        if keys.contains(x.memory_type) {
            let w = choose|w: int| 0 <= w < keys.len() && keys[w] == x.memory_type;
            if w < keys.len() - 1 {
                assert(rest[w] == x.memory_type);
                assert(keys.last() != x.memory_type);
            } else {
                assert(!rest.contains(x.memory_type)) by {
                    if rest.contains(x.memory_type) {
                        let u = choose|u: int| 0 <= u < rest.len() && rest[u] == x.memory_type;
                        assert(keys[u] == keys[w]);
                    }
                }
            }
        } else {
            assert(keys.last() != x.memory_type) by {
                assert(keys[keys.len() - 1] == keys.last());
            }
            assert(!rest.contains(x.memory_type)) by {
                if rest.contains(x.memory_type) {
                    let u = choose|u: int| 0 <= u < rest.len() && rest[u] == x.memory_type;
                    assert(keys[u] == x.memory_type);
                }
            }
        }
    }
}

/// When the kind of every memory is among `keys`, which are distinct, the
/// numbers of memories of each of them add up to the number of memories.
proof fn lemma_kinds_total_all(keys: Seq<MemoryTypeEnum>, nodes: Seq<MemoryNode>)
    requires
        keys.no_duplicates(),
        forall|i: int| 0 <= i < nodes.len() ==> keys.contains(#[trigger] nodes[i].memory_type),
    ensures
        kinds_total(keys, nodes) == nodes.len(),
    decreases nodes.len(),
{
    if nodes.len() == 0 {
        lemma_kinds_total_empty(keys, nodes);
    } else {
        let rest = nodes.drop_last();
        assert forall|i: int| 0 <= i < rest.len() implies keys.contains(#[trigger] rest[i].memory_type) by {
            assert(rest[i] == nodes[i]);
        }
        lemma_kinds_total_all(keys, rest);
        lemma_kinds_total_push(keys, rest, nodes.last());
        assert(rest.push(nodes.last()) =~= nodes);
        assert(keys.contains(nodes[nodes.len() - 1].memory_type));
    }
}

/// With no memories, every kind counts none.
proof fn lemma_kinds_total_empty(keys: Seq<MemoryTypeEnum>, nodes: Seq<MemoryNode>)
    requires
        nodes.len() == 0,
    ensures
        kinds_total(keys, nodes) == 0,
    decreases keys.len(),
{
    if keys.len() > 0 {
        lemma_kinds_total_empty(keys.drop_last(), nodes);
    }
}

/// Inserting under a key keeps every key and adds that one.
proof fn lemma_insert_keeps_keys<V>(s: Seq<(V, Set<Seq<char>>)>, key: V, id: Seq<char>, k: V)
    ensures
        key_filed(s, k) || k == key ==> key_filed(index_insert(s, key, id), k),
{
    let t = index_insert(s, key, id);
    if exists|i: int| 0 <= i < s.len() && #[trigger] s[i].0 == key {
        let i = choose|i: int| 0 <= i < s.len() && #[trigger] s[i].0 == key;
        assert(t[i].0 == key);
        if key_filed(s, k) {
            let j = choose|j: int| 0 <= j < s.len() && #[trigger] s[j].0 == k;
            assert(t[j].0 == k);
        }
    } else {
        assert(t[s.len() as int].0 == key);
        if key_filed(s, k) {
            let j = choose|j: int| 0 <= j < s.len() && #[trigger] s[j].0 == k;
            assert(t[j].0 == k);
        }
    }
}

/// Removing from under a key keeps every key.
proof fn lemma_remove_keeps_keys<V>(s: Seq<(V, Set<Seq<char>>)>, key: V, id: Seq<char>, k: V)
    ensures
        key_filed(s, k) ==> key_filed(index_remove(s, key, id), k),
{
    let t = index_remove(s, key, id);
    if key_filed(s, k) {
        let j = choose|j: int| 0 <= j < s.len() && #[trigger] s[j].0 == k;
        if exists|i: int| 0 <= i < s.len() && #[trigger] s[i].0 == key {
            let i = choose|i: int| 0 <= i < s.len() && #[trigger] s[i].0 == key;
            assert(t[j].0 == k);
        }
    }
}

/// A repository that files every stored memory's kind still does after a
/// memory is stored and filed by `readded`.
proof fn lemma_readded_kinds_filed(v: RepositoryView, m: MemoryNode)
    requires
        kinds_filed(v),
    ensures
        kinds_filed(readded(v, m)),
{
    let w = readded(v, m);
    let u = match find_node(v.nodes, m.id@) {
        Some(o) => unindexed(v, o),
        None => v,
    };
    assert(w == added(u, m));
    assert(u.nodes == v.nodes);
    assert forall|k: MemoryTypeEnum| key_filed(v.by_type, k) implies #[trigger] key_filed(u.by_type, k) by {
        match find_node(v.nodes, m.id@) {
            Some(o) => lemma_remove_keeps_keys(v.by_type, o.memory_type, o.id@, k),
            None => {},
        }
    }
    assert forall|k: MemoryTypeEnum| key_filed(u.by_type, k) || k == m.memory_type implies #[trigger] key_filed(
        w.by_type,
        k,
    ) by {
        lemma_insert_keeps_keys(u.by_type, m.memory_type, m.id@, k);
    }
    let s = v.nodes;
    assert forall|i: int| 0 <= i < w.nodes.len() implies key_filed(w.by_type, (#[trigger] w.nodes[i]).memory_type) by {
        if exists|j: int| 0 <= j < s.len() && #[trigger] s[j].id@ == m.id@ {
            let j = choose|j: int| 0 <= j < s.len() && #[trigger] s[j].id@ == m.id@;
            if i != j {
                assert(w.nodes[i] == s[i]);
                assert(key_filed(v.by_type, s[i].memory_type));
            }
        } else {
            if i < s.len() {
                assert(w.nodes[i] == s[i]);
                assert(key_filed(v.by_type, s[i].memory_type));
            }
        }
    }
}

/// Counts over a repository.
#[derive(Debug)]
pub struct RepositoryStats {
    /// Total number of memories
    pub total_memories: usize,
    /// Number of memories of each kind: every kind that has held a memory,
    /// with the number of stored memories now of that kind
    pub memories_by_type: Vec<(MemoryTypeEnum, usize)>,
    /// Total number of relationships
    pub total_relationships: usize,
    /// Number of users that have been filed
    pub unique_users: usize,
    /// Number of agents that have been filed
    pub unique_agents: usize,
    /// Number of tags that have been filed
    pub unique_tags: usize,
}

/// An in-memory store of memory nodes with indexes for lookup by kind,
/// user, agent, tag and creation time, and a list of relationships per
/// source memory.
pub struct MemoryRepository {
    memories: Vec<Arc<MemoryNode>>,
    type_index: IdIndex<MemoryTypeEnum>,
    user_index: IdIndex<String>,
    agent_index: IdIndex<String>,
    tag_index: IdIndex<String>,
    time_index: IdIndex<i64>,
    relationships: Vec<(String, Vec<MemoryRelationship>)>,
}

impl View for MemoryRepository {
    type V = RepositoryView;

    closed spec fn view(&self) -> RepositoryView {
        RepositoryView {
            nodes: self.memories@.map_values(|a: Arc<MemoryNode>| *a),
            by_type: self.type_index.entries_view(),
            by_user: self.user_index.entries_view(),
            by_agent: self.agent_index.entries_view(),
            by_tag: self.tag_index.entries_view(),
            by_time: self.time_index.entries_view(),
            relationships: self.relationships@.map_values(|e: (String, Vec<MemoryRelationship>)| (e.0@, e.1@)),
        }
    }
}

/// The view of an optional text.
pub open spec fn opt_str(o: Option<&str>) -> Option<Seq<char>> {
    match o {
        Some(s) => Some(s@),
        None => None,
    }
}

/// Whether filtering by user (first) or else by agent draws the memory
/// with ID `id`: a user draws the IDs filed under it, an agent those filed
/// under it, and neither draws every memory.
pub open spec fn drawn(v: RepositoryView, user: Option<Seq<char>>, agent: Option<Seq<char>>, id: Seq<char>) -> bool {
    match user {
        Some(u) => ids_under(v.by_user, u).contains(id),
        None => match agent {
            Some(a) => ids_under(v.by_agent, a).contains(id),
            None => true,
        },
    }
}

/// The memories of `nodes` that filtering by `user` or else `agent` draws,
/// in the order they are held.
pub open spec fn drawn_nodes(v: RepositoryView, nodes: Seq<MemoryNode>, user: Option<Seq<char>>, agent: Option<Seq<char>>) -> Seq<
    MemoryNode,
>
    decreases nodes.len(),
{
    if nodes.len() == 0 {
        Seq::empty()
    } else {
        let rest = drawn_nodes(v, nodes.drop_last(), user, agent);
        if drawn(v, user, agent, nodes.last().id@) {
            rest.push(nodes.last())
        } else {
            rest
        }
    }
}

/// The key by which filtered memories are ordered.
#[derive(Debug, Clone, Copy, PartialEq, Eq, Structural)]
pub enum SortKey {
    /// By creation time
    CreatedAt,
    /// By last update time
    UpdatedAt,
    /// By importance; importance is a floating-point value, so the caller
    /// orders by it, and the order given is kept
    Importance,
    /// Not ordered: the order given is kept
    Unordered,
}

/// The sort key named `name`: "created_at", "updated_at", "importance";
/// any other name orders nothing.
pub open spec fn sort_key_named(name: Seq<char>) -> SortKey {
    if name == "created_at"@ {
        SortKey::CreatedAt
    } else if name == "updated_at"@ {
        SortKey::UpdatedAt
    } else if name == "importance"@ {
        SortKey::Importance
    } else {
        SortKey::Unordered
    }
}

/// The creation time of a memory, as a sort key.
pub open spec fn created_key() -> spec_fn(Arc<MemoryNode>) -> int {
    |a: Arc<MemoryNode>| a.created_at as int
}

/// The update time of a memory, as a sort key.
pub open spec fn updated_key() -> spec_fn(Arc<MemoryNode>) -> int {
    |a: Arc<MemoryNode>| a.updated_at as int
}

/// Filtered memories in the order asked for: a stable sort by creation or
/// update time (other keys keep the order given), reversed when
/// descending, then the first `limit` of them.
pub open spec fn ordered_results(s: Seq<Arc<MemoryNode>>, key: SortKey, descending: bool, limit: Option<usize>) -> Seq<
    Arc<MemoryNode>,
> {
    let sorted = match key {
        SortKey::CreatedAt => stable_sorted(s, created_key()),
        SortKey::UpdatedAt => stable_sorted(s, updated_key()),
        _ => s,
    };
    let turned = if descending {
        sorted.reverse()
    } else {
        sorted
    };
    match limit {
        Some(n) => if n < turned.len() {
            turned.take(n as int)
        } else {
            turned
        },
        None => turned,
    }
}

/// The sort key named `name` (see `sort_key_named`).
pub fn sort_key_of(name: &str) -> (r: SortKey)
    ensures
        r == sort_key_named(name@),
{
    if str_eq(name, "created_at") {
        SortKey::CreatedAt
    } else if str_eq(name, "updated_at") {
        SortKey::UpdatedAt
    } else if str_eq(name, "importance") {
        SortKey::Importance
    } else {
        SortKey::Unordered
    }
}

/// The creation time of a memory, or its update time when `by_update`.
fn time_of(a: &Arc<MemoryNode>, by_update: bool) -> (r: i64)
    ensures
        r as int == (if by_update { updated_key() } else { created_key() })(*a),
{
    if by_update {
        a.updated_at
    } else {
        a.created_at
    }
}

/// Insertion sort of memories by creation time (or update time when
/// `by_update`); equal times keep their order.
fn sort_by_time(items: Vec<Arc<MemoryNode>>, by_update: bool) -> (r: Vec<Arc<MemoryNode>>)
    ensures
        r@ == stable_sorted(items@, if by_update { updated_key() } else { created_key() }),
{
    let ghost key = if by_update { updated_key() } else { created_key() };
    let ghost all = items@;
    let mut rest = items;
    let mut out: Vec<Arc<MemoryNode>> = Vec::new();
    let mut k: usize = 0;
    assert(all.take(0) =~= Seq::<Arc<MemoryNode>>::empty());
    assert(all.len() == rest.len());
    while rest.len() > 0
        invariant
            all.len() <= usize::MAX,
            k <= all.len(),
            rest@ == all.skip(k as int),
            out@ == stable_sorted(all.take(k as int), key),
            key == if by_update { updated_key() } else { created_key() },
        decreases rest.len(),
    {
        let x = rest.remove(0);
        let t = time_of(&x, by_update);
        let n = out.len();
        let mut p: usize = 0;
        while p < n && time_of(&out[p], by_update) <= t
            invariant
                n == out@.len(),
                p <= n,
                key == if by_update { updated_key() } else { created_key() },
                key(x) == t as int,
                forall|j: int| 0 <= j < p ==> key(#[trigger] out@[j]) <= t as int,
            decreases n - p,
        {
            p = p + 1;
        }
        proof {
            if p < n {
                assert(key(out@[p as int]) > t as int);
            }
            lemma_insertion_point_is(out@, key, t as int, p as int);
            assert(all.take(k + 1).drop_last() =~= all.take(k as int));
            assert(all.take(k + 1).last() == x);
            assert(all.skip(k as int).drop_first() =~= all.skip(k + 1));
        }
        out.insert(p, x);
        k = k + 1;
    }
    assert(all.take(k as int) =~= all);
    out
}

/// Orders filtered memories as asked (see `ordered_results`): by creation
/// or update time with a stable sort, then reversed when descending, then
/// cut to `limit`.
pub fn order_filtered(results: Vec<Arc<MemoryNode>>, key: SortKey, descending: bool, limit: Option<usize>) -> (r: Vec<
    Arc<MemoryNode>,
>)
    ensures
        r@ == ordered_results(results@, key, descending, limit),
{
    let sorted = match key {
        SortKey::CreatedAt => sort_by_time(results, false),
        SortKey::UpdatedAt => sort_by_time(results, true),
        _ => results,
    };
    let ghost sv = sorted@;
    let n = sorted.len();
    let mut turned: Vec<Arc<MemoryNode>> = Vec::new();
    if descending {
        let mut src = sorted;
        while src.len() > 0
            invariant
                n == sv.len(),
                src@ == sv.take(src@.len() as int),
                turned@ == sv.reverse().take(n - src@.len()),
                src@.len() <= n,
            decreases src.len(),
        {
            let ghost m = src@.len();
            let x = src.pop().unwrap();
            proof {
                assert(x == sv[m - 1]);
                assert(sv.reverse()[n - m] == sv[m - 1]);
                assert(sv.reverse().take(n - m + 1) =~= sv.reverse().take(n - m).push(x));
                assert(src@ =~= sv.take(m - 1));
            }
            turned.push(x);
        }
        assert(turned@ =~= sv.reverse());
    } else {
        turned = sorted;
    }
    let ghost tv = turned@;
    match limit {
        Some(k) => {
            if k < turned.len() {
                turned.truncate(k);
                assert(turned@ =~= tv.take(k as int));
            }
        },
        None => {},
    }
    turned
}

/// Whether no two memories share an ID.
pub open spec fn ids_distinct(nodes: Seq<MemoryNode>) -> bool {
    forall|i: int, j: int| 0 <= i < j < nodes.len() ==> #[trigger] nodes[i].id@ != #[trigger] nodes[j].id@
}

/// Whether no two relationship lists share a source.
pub open spec fn sources_distinct(s: Seq<(Seq<char>, Seq<MemoryRelationship>)>) -> bool {
    forall|i: int, j: int| 0 <= i < j < s.len() ==> #[trigger] s[i].0 != #[trigger] s[j].0
}

impl MemoryRepository {
    /// Memory IDs are distinct, every index is well formed, relationship
    /// sources are distinct and the number of relationships fits a `usize`.
    pub closed spec fn wf(&self) -> bool {
        &&& ids_distinct(self@.nodes)
        &&& self.type_index.wf()
        &&& self.user_index.wf()
        &&& self.agent_index.wf()
        &&& self.tag_index.wf()
        &&& self.time_index.wf()
        &&& sources_distinct(self@.relationships)
        &&& relationship_total(self@.relationships) <= usize::MAX
        &&& kinds_filed(self@)
    }

    /// An empty repository.
    pub fn new() -> (r: MemoryRepository)
        ensures
            r.wf(),
            r@.nodes.len() == 0,
            r@.by_type.len() == 0,
            r@.by_user.len() == 0,
            r@.by_agent.len() == 0,
            r@.by_tag.len() == 0,
            r@.by_time.len() == 0,
            r@.relationships.len() == 0,
    {
        let r = MemoryRepository {
            memories: Vec::new(),
            type_index: IdIndex::new(),
            user_index: IdIndex::new(),
            agent_index: IdIndex::new(),
            tag_index: IdIndex::new(),
            time_index: IdIndex::new(),
            relationships: Vec::new(),
        };
        assert(r@.nodes =~= Seq::<MemoryNode>::empty());
        assert(r@.relationships =~= Seq::<(Seq<char>, Seq<MemoryRelationship>)>::empty());
        r
    }

    /// The position of the memory with ID `id`, if one is held.
    fn position(&self, id: &str) -> (r: Option<usize>)
        requires
            ids_distinct(self@.nodes),
        ensures
            match r {
                Some(i) => i < self@.nodes.len() && self@.nodes[i as int].id@ == id@
                    && find_node(self@.nodes, id@) == Some(self@.nodes[i as int]),
                None => find_node(self@.nodes, id@) is None,
            },
    {
        let n = self.memories.len();
        let mut i: usize = 0;
        while i < n
            invariant
                n == self.memories@.len(),
                n == self@.nodes.len(),
                ids_distinct(self@.nodes),
                i <= n,
                forall|j: int| 0 <= j < i ==> #[trigger] self@.nodes[j].id@ != id@,
            decreases n - i,
        {
            assert(self@.nodes[i as int] == *self.memories@[i as int]);
            if str_eq(self.memories[i].id.as_str(), id) {
                proof {
                    let nodes = self@.nodes;
                    assert(nodes[i as int].id@ == id@);
                    let c = choose|j: int| 0 <= j < nodes.len() && #[trigger] nodes[j].id@ == id@;
                    assert(c == i);
                }
                return Some(i);
            }
            i = i + 1;
        }
        None
    }

    /// Stores `a` under its ID, in place of a memory with the same ID.
    fn store(&mut self, a: Arc<MemoryNode>)
        requires
            ids_distinct(old(self)@.nodes),
        ensures
            ids_distinct(final(self)@.nodes),
            final(self)@ == (RepositoryView { nodes: put_node(old(self)@.nodes, *a), ..old(self)@ }),
            final(self).type_index == old(self).type_index,
            final(self).user_index == old(self).user_index,
            final(self).agent_index == old(self).agent_index,
            final(self).tag_index == old(self).tag_index,
            final(self).time_index == old(self).time_index,
            final(self).relationships == old(self).relationships,
    {
        let ghost nodes0 = self@.nodes;
        match self.position(a.id.as_str()) {
            Some(i) => {
                self.memories.set(i, a);
                proof {
                    let c = choose|j: int| 0 <= j < nodes0.len() && #[trigger] nodes0[j].id@ == a.id@;
                    assert(c == i);
                    assert(self@.nodes =~= nodes0.update(i as int, *a));
                    assert forall|x: int, y: int| 0 <= x < y < self@.nodes.len() implies #[trigger] self@.nodes[x].id@
                        != #[trigger] self@.nodes[y].id@ by {
                        if x != i && y != i {
                            assert(self@.nodes[x] == nodes0[x] && self@.nodes[y] == nodes0[y]);
                        } else if x == i {
                            assert(self@.nodes[y] == nodes0[y]);
                        } else {
                            assert(self@.nodes[x] == nodes0[x]);
                        }
                    }
                }
            },
            None => {
                self.memories.push(a);
                proof {
                    assert(!exists|j: int| 0 <= j < nodes0.len() && #[trigger] nodes0[j].id@ == a.id@);
                    assert(self@.nodes =~= nodes0.push(*a));
                    assert forall|x: int, y: int| 0 <= x < y < self@.nodes.len() implies #[trigger] self@.nodes[x].id@
                        != #[trigger] self@.nodes[y].id@ by {
                        assert(self@.nodes[x] == nodes0[x]);
                        if y < nodes0.len() {
                            assert(self@.nodes[y] == nodes0[y]);
                        }
                    }
                }
            },
        }
    }

    /// Files `m`'s ID in every index under `m`'s kind, user, agent, tags and
    /// creation time.
    fn index(&mut self, m: &MemoryNode)
        requires
            old(self).wf(),
        ensures
            final(self).wf(),
            final(self)@ == (RepositoryView { nodes: old(self)@.nodes, ..added(old(self)@, *m) }),
    {
        self.type_index.insert(&m.memory_type, m.id.as_str());
        match &m.metadata.user_id {
            Some(u) => self.user_index.insert(u, m.id.as_str()),
            None => {},
        }
        match &m.metadata.agent_id {
            Some(a) => self.agent_index.insert(a, m.id.as_str()),
            None => {},
        }
        self.tag_index.insert_all(&m.metadata.tags, m.id.as_str());
        self.time_index.insert(&m.created_at, m.id.as_str());
        proof {
            let v0 = old(self)@;
            assert forall|i: int| 0 <= i < self@.nodes.len() implies key_filed(
                self@.by_type,
                (#[trigger] self@.nodes[i]).memory_type,
            ) by {
                assert(key_filed(v0.by_type, v0.nodes[i].memory_type));
                lemma_insert_keeps_keys(v0.by_type, m.memory_type, m.id@, v0.nodes[i].memory_type);
            }
        }
    }

    /// Takes `m`'s ID out from under each of `m`'s keys in every index.
    fn remove_from_indexes(&mut self, m: &MemoryNode)
        requires
            old(self).wf(),
        ensures
            final(self).wf(),
            final(self)@ == unindexed(old(self)@, *m),
    {
        self.type_index.remove(&m.memory_type, m.id.as_str());
        match &m.metadata.user_id {
            Some(u) => self.user_index.remove(u, m.id.as_str()),
            None => {},
        }
        match &m.metadata.agent_id {
            Some(a) => self.agent_index.remove(a, m.id.as_str()),
            None => {},
        }
        self.tag_index.remove_all(&m.metadata.tags, m.id.as_str());
        self.time_index.remove(&m.created_at, m.id.as_str());
        proof {
            let v0 = old(self)@;
            assert forall|i: int| 0 <= i < self@.nodes.len() implies key_filed(
                self@.by_type,
                (#[trigger] self@.nodes[i]).memory_type,
            ) by {
                assert(key_filed(v0.by_type, v0.nodes[i].memory_type));
                lemma_remove_keeps_keys(v0.by_type, m.memory_type, m.id@, v0.nodes[i].memory_type);
            }
        }
    }

    /// Stores `memory` under its ID and files it in every index; a memory
    /// it replaces (one with the same ID) first leaves the indexes.
    pub fn add(&mut self, memory: MemoryNode)
        requires
            old(self).wf(),
        ensures
            final(self).wf(),
            final(self)@ == readded(old(self)@, memory),
            find_node(final(self)@.nodes, memory.id@) == Some(memory),
            forall|other: Seq<char>|
                other != memory.id@ ==> #[trigger] find_node(final(self)@.nodes, other) == find_node(old(self)@.nodes, other),
    {
        proof {
            assert forall|other: Seq<char>|
                other != memory.id@ implies #[trigger] find_node(readded(old(self)@, memory).nodes, other) == find_node(
                    old(self)@.nodes,
                    other,
                ) by {
                lemma_add_then_get(old(self)@, memory, other);
            }
            lemma_add_then_get(old(self)@, memory, memory.id@);
        }
        match self.position(memory.id.as_str()) {
            Some(i) => {
                let replaced = arc_clone(&self.memories[i]);
                assert(self@.nodes[i as int] == *self.memories@[i as int]);
                self.remove_from_indexes(&replaced);
            },
            None => {},
        }
        self.index(&memory);
        proof {
            lemma_readded_kinds_filed(old(self)@, memory);
        }
        self.store(Arc::new(memory));
    }

    /// The memories that filtering starts from, in the order they are
    /// held: those filed under `user_id` when one is given, else those
    /// filed under `agent_id` when one is given, else all of them.
    pub fn filter_candidates(&self, user_id: Option<&str>, agent_id: Option<&str>) -> (r: Vec<Arc<MemoryNode>>)
        requires
            self.wf(),
        ensures
            r@.map_values(|a: Arc<MemoryNode>| *a) == drawn_nodes(self@, self@.nodes, opt_str(user_id), opt_str(agent_id)),
    {
        let ghost v = self@;
        let ghost user = opt_str(user_id);
        let ghost agent = opt_str(agent_id);
        let n = self.memories.len();
        let mut r: Vec<Arc<MemoryNode>> = Vec::new();
        let mut i: usize = 0;
        assert(v.nodes.take(0) =~= Seq::<MemoryNode>::empty());
        while i < n
            invariant
                n == self.memories@.len(),
                i <= n,
                v == self@,
                self.wf(),
                user == opt_str(user_id),
                agent == opt_str(agent_id),
                r@.map_values(|a: Arc<MemoryNode>| *a) == drawn_nodes(v, v.nodes.take(i as int), user, agent),
            decreases n - i,
        {
            let id = self.memories[i].id.as_str();
            let take = match user_id {
                Some(u) => self.user_index.files(&String::from_str(u), id),
                None => match agent_id {
                    Some(a) => self.agent_index.files(&String::from_str(a), id),
                    None => true,
                },
            };
            proof {
                assert(v.nodes[i as int] == *self.memories@[i as int]);
                assert(v.nodes.take(i + 1).drop_last() =~= v.nodes.take(i as int));
                assert(v.nodes.take(i + 1).last() == v.nodes[i as int]);
                assert(take == drawn(v, user, agent, v.nodes[i as int].id@));
            }
            if take {
                let ghost before = r@;
                let a = arc_clone(&self.memories[i]);
                r.push(a);
                proof {
                    assert(r@ == before.push(a));
                    assert(r@.map_values(|a: Arc<MemoryNode>| *a) =~= before.map_values(|a: Arc<MemoryNode>| *a).push(
                        v.nodes[i as int],
                    ));
                }
            }
            i = i + 1;
        }
        assert(v.nodes.take(n as int) =~= v.nodes);
        r
    }

    /// The memory with ID `id`, if one is held.
    pub fn get(&self, id: &str) -> (r: Option<Arc<MemoryNode>>)
        requires
            self.wf(),
        ensures
            match r {
                Some(a) => find_node(self@.nodes, id@) == Some(*a),
                None => find_node(self@.nodes, id@) is None,
            },
    {
        match self.position(id) {
            Some(i) => {
                assert(self@.nodes[i as int] == *self.memories@[i as int]);
                Some(arc_clone(&self.memories[i]))
            },
            None => None,
        }
    }

    /// Drops the memory with ID `id` and takes its ID out of the indexes;
    /// the dropped memory is returned.
    pub fn delete(&mut self, id: &str) -> (r: Option<Arc<MemoryNode>>)
        requires
            old(self).wf(),
        ensures
            final(self).wf(),
            match r {
                Some(a) => find_node(old(self)@.nodes, id@) == Some(*a)
                    && final(self)@ == unindexed(RepositoryView { nodes: drop_node(old(self)@.nodes, id@), ..old(self)@ }, *a),
                None => find_node(old(self)@.nodes, id@) is None && final(self)@ == old(self)@,
            },
    {
        let ghost nodes0 = self@.nodes;
        match self.position(id) {
            Some(i) => {
                let removed = self.memories.remove(i);
                proof {
                    let c = choose|j: int| 0 <= j < nodes0.len() && #[trigger] nodes0[j].id@ == id@;
                    assert(c == i);
                    assert(self@.nodes =~= nodes0.remove(i as int));
                    assert forall|x: int, y: int| 0 <= x < y < self@.nodes.len() implies #[trigger] self@.nodes[x].id@
                        != #[trigger] self@.nodes[y].id@ by {
                        let x0 = if x < i { x } else { x + 1 };
                        let y0 = if y < i { y } else { y + 1 };
                        assert(self@.nodes[x] == nodes0[x0]);
                        assert(self@.nodes[y] == nodes0[y0]);
                    }
                }
                self.remove_from_indexes(&removed);
                Some(removed)
            },
            None => None,
        }
    }

    /// Replaces the memory with `memory`'s ID: the old one's ID leaves the
    /// indexes, and `memory` is stored and filed. Nothing changes, and
    /// `None` comes back, when no memory has that ID.
    pub fn update(&mut self, memory: MemoryNode) -> (r: Option<Arc<MemoryNode>>)
        requires
            old(self).wf(),
        ensures
            final(self).wf(),
            match find_node(old(self)@.nodes, memory.id@) {
                Some(o) => final(self)@ == added(unindexed(old(self)@, o), memory)
                    && (r matches Some(a) && *a == memory),
                None => r is None && final(self)@ == old(self)@,
            },
    {
        match self.position(memory.id.as_str()) {
            Some(i) => {
                let old_memory = arc_clone(&self.memories[i]);
                assert(self@.nodes[i as int] == *self.memories@[i as int]);
                self.remove_from_indexes(&old_memory);
                let ghost m = memory;
                let stored = Arc::new(memory);
                let result = arc_clone(&stored);
                self.index(&stored);
                proof {
                    lemma_readded_kinds_filed(old(self)@, m);
                }
                self.store(stored);
                Some(result)
            },
            None => None,
        }
    }

    /// Stores a copy of `memory` under the ID `id` and returns another copy.
    pub fn create(&mut self, id: &str, memory: &MemoryNode) -> (r: Result<MemoryNode, Error>)
        requires
            old(self).wf(),
        ensures
            final(self).wf(),
            r matches Ok(n) && n.id@ == id@ && same_node(MemoryNode { id: memory.id, ..n }, *memory)
                && exists|m: MemoryNode| #[trigger] same_node(m, n) && final(self)@ == readded(old(self)@, m),
    {
        let mut new_memory = memory.clone();
        new_memory.id = String::from_str(id);
        let stored = new_memory.clone();
        self.add(stored);
        assert(same_node(stored, new_memory));
        Ok(new_memory)
    }

    /// Files `relationship` last among those of its source.
    pub fn add_relationship(&mut self, relationship: MemoryRelationship)
        requires
            old(self).wf(),
            relationship_total(old(self)@.relationships) < usize::MAX,
        ensures
            final(self).wf(),
            final(self)@ == (RepositoryView { relationships: file_relationship(old(self)@.relationships, relationship), ..old(self)@ }),
    {
        let ghost s0 = self@.relationships;
        let ghost rel = relationship;
        let n = self.relationships.len();
        let mut i: usize = 0;
        while i < n
            invariant
                n == self.relationships@.len(),
                n == s0.len(),
                s0 == self@.relationships,
                s0 == old(self)@.relationships,
                *self == *old(self),
                old(self).wf(),
                relationship_total(s0) < usize::MAX,
                rel == relationship,
                i <= n,
                forall|j: int| 0 <= j < i ==> #[trigger] s0[j].0 != relationship.source_id@,
            decreases n - i,
        {
            assert(s0[i as int] == (self.relationships@[i as int].0@, self.relationships@[i as int].1@));
            if str_eq(self.relationships[i].0.as_str(), relationship.source_id.as_str()) {
                assert(s0[i as int].0 == rel.source_id@);
                let ghost e0 = self.relationships@;
                let mut entry: (String, Vec<MemoryRelationship>) = (String::new(), Vec::new());
                std::mem::swap(&mut entry, &mut self.relationships[i]);
                let (key, mut list) = entry;
                list.push(relationship);
                self.relationships.set(i, (key, list));
                proof {
                    let c = choose|j: int| 0 <= j < s0.len() && #[trigger] s0[j].0 == rel.source_id@;
                    assert(c == i);
                    let s1 = s0.update(i as int, (s0[i as int].0, s0[i as int].1.push(rel)));
                    assert forall|a: int| 0 <= a < s1.len() implies #[trigger] self@.relationships[a] == s1[a] by {
                        if a != i {
                            assert(self.relationships@[a] == e0[a]);
                        }
                    }
                    assert(self@.relationships =~= s1);
                    lemma_total_update(s0, i as int, s1[i as int]);
                    assert(sources_distinct(self@.relationships)) by {
                        assert forall|x: int, y: int| 0 <= x < y < s1.len() implies #[trigger] s1[x].0 != #[trigger] s1[y].0 by {
                            assert(s1[x].0 == s0[x].0 && s1[y].0 == s0[y].0);
                        }
                    }
                }
                return;
            }
            i = i + 1;
        }
        let mut list: Vec<MemoryRelationship> = Vec::new();
        let key = relationship.source_id.clone();
        list.push(relationship);
        self.relationships.push((key, list));
        proof {
            assert(!exists|j: int| 0 <= j < s0.len() && #[trigger] s0[j].0 == rel.source_id@);
            let s1 = s0.push((rel.source_id@, seq![rel]));
            assert(list@ =~= seq![rel]);
            assert(self@.relationships =~= s1);
            assert(s1.drop_last() =~= s0);
            assert forall|x: int, y: int| 0 <= x < y < s1.len() implies #[trigger] s1[x].0 != #[trigger] s1[y].0 by {
                if y < s0.len() {
                    assert(s1[x].0 == s0[x].0 && s1[y].0 == s0[y].0);
                } else {
                    assert(s1[x].0 == s0[x].0);
                }
            }
        }
    }

    /// The relationships filed under the memory `memory_id`, oldest first.
    pub fn get_relationships(&self, memory_id: &str) -> (r: Vec<MemoryRelationship>)
        requires
            self.wf(),
        ensures
            r@ == relationships_of(self@.relationships, memory_id@),
    {
        let s0 = Ghost(self@.relationships);
        let n = self.relationships.len();
        let mut i: usize = 0;
        while i < n
            invariant
                n == self.relationships@.len(),
                s0@ == self@.relationships,
                sources_distinct(s0@),
                i <= n,
                forall|j: int| 0 <= j < i ==> #[trigger] s0@[j].0 != memory_id@,
            decreases n - i,
        {
            assert(s0@[i as int] == (self.relationships@[i as int].0@, self.relationships@[i as int].1@));
            if str_eq(self.relationships[i].0.as_str(), memory_id) {
                assert(s0@[i as int].0 == memory_id@);
                let list = &self.relationships[i].1;
                let m = list.len();
                let mut out: Vec<MemoryRelationship> = Vec::new();
                let mut k: usize = 0;
                while k < m
                    invariant
                        m == list@.len(),
                        k <= m,
                        out@ == list@.subrange(0, k as int),
                    decreases m - k,
                {
                    out.push(list[k].clone());
                    k = k + 1;
                    assert(out@ =~= list@.subrange(0, k as int));
                }
                proof {
                    assert(list@.subrange(0, m as int) =~= list@);
                    let c = choose|j: int| 0 <= j < s0@.len() && #[trigger] s0@[j].0 == memory_id@;
                    assert(c == i);
                }
                return out;
            }
            i = i + 1;
        }
        Vec::new()
    }

    /// Counts of memories (in all and by kind), relationships, and the users,
    /// agents and tags that have been filed. Each stored memory is counted
    /// once, under its current kind, so the counts by kind add up to the
    /// number of memories.
    pub fn get_stats(&self) -> (r: RepositoryStats)
        requires
            self.wf(),
        ensures
            r.total_memories == self@.nodes.len(),
            r.memories_by_type@.len() == self@.by_type.len(),
            forall|i: int| 0 <= i < r.memories_by_type@.len() ==> (#[trigger] r.memories_by_type@[i]).0 == self@.by_type[i].0
                && r.memories_by_type@[i].1 == kind_count(self@.nodes, self@.by_type[i].0),
            counts_total(r.memories_by_type@) == r.total_memories,
            r.total_relationships == relationship_total(self@.relationships),
            r.unique_users == self@.by_user.len(),
            r.unique_agents == self@.by_agent.len(),
            r.unique_tags == self@.by_tag.len(),
    {
        let s0 = Ghost(self@.relationships);
        let n = self.relationships.len();
        let mut total: usize = 0;
        let mut i: usize = 0;
        while i < n
            invariant
                n == self.relationships@.len(),
                s0@ == self@.relationships,
                relationship_total(s0@) <= usize::MAX,
                i <= n,
                total == relationship_total(s0@.subrange(0, i as int)),
            decreases n - i,
        {
            proof {
                assert(s0@.subrange(0, i + 1).drop_last() =~= s0@.subrange(0, i as int));
                lemma_total_prefix(s0@, i + 1);
            }
            total = total + self.relationships[i].1.len();
            i = i + 1;
        }
        assert(s0@.subrange(0, n as int) =~= s0@);
        RepositoryStats {
            total_memories: self.memories.len(),
            memories_by_type: self.kind_counts(),
            total_relationships: total,
            unique_users: self.user_index.key_count(),
            unique_agents: self.agent_index.key_count(),
            unique_tags: self.tag_index.key_count(),
        }
    }

    /// The number of stored memories of `kind`.
    fn count_kind(&self, kind: MemoryTypeEnum) -> (r: usize)
        ensures
            r == kind_count(self@.nodes, kind),
    {
        let nodes = Ghost(self@.nodes);
        let n = self.memories.len();
        let mut count: usize = 0;
        let mut j: usize = 0;
        while j < n
            invariant
                n == self.memories@.len(),
                n == nodes@.len(),
                nodes@ == self@.nodes,
                j <= n,
                count <= j,
                count == kind_count(nodes@.subrange(0, j as int), kind),
            decreases n - j,
        {
            proof {
                assert(nodes@.subrange(0, j + 1).drop_last() =~= nodes@.subrange(0, j as int));
                assert(nodes@[j as int] == *self.memories@[j as int]);
            }
            if self.memories[j].memory_type == kind {
                count = count + 1;
            }
            j = j + 1;
        }
        assert(nodes@.subrange(0, n as int) =~= nodes@);
        count
    }

    /// Each kind of the kind index, in key order, with the number of stored
    /// memories of that kind; the numbers add up to the number of memories.
    fn kind_counts(&self) -> (r: Vec<(MemoryTypeEnum, usize)>)
        requires
            self.wf(),
        ensures
            r@.len() == self@.by_type.len(),
            forall|i: int| 0 <= i < r@.len() ==> (#[trigger] r@[i]).0 == self@.by_type[i].0
                && r@[i].1 == kind_count(self@.nodes, self@.by_type[i].0),
            counts_total(r@) == self@.nodes.len(),
    {
        let keys = self.type_index.kinds();
        let m = keys.len();
        let mut out: Vec<(MemoryTypeEnum, usize)> = Vec::new();
        let mut i: usize = 0;
        while i < m
            invariant
                m == keys@.len(),
                keys@.len() == self@.by_type.len(),
                forall|x: int| 0 <= x < m ==> #[trigger] keys@[x] == self@.by_type[x].0,
                i <= m,
                out@.len() == i,
                forall|x: int| 0 <= x < i ==> (#[trigger] out@[x]).0 == keys@[x] && out@[x].1 == kind_count(
                    self@.nodes,
                    keys@[x],
                ),
                counts_total(out@) == kinds_total(keys@.subrange(0, i as int), self@.nodes),
            decreases m - i,
        {
            let c = self.count_kind(keys[i]);
            let ghost before = out@;
            out.push((keys[i], c));
            proof {
                assert(out@.drop_last() =~= before);
                assert(keys@.subrange(0, i + 1).drop_last() =~= keys@.subrange(0, i as int));
            }
            i = i + 1;
        }
        proof {
            assert(keys@.subrange(0, m as int) =~= keys@);
            let v = self@;
            assert forall|x: int| 0 <= x < v.nodes.len() implies keys@.contains(#[trigger] v.nodes[x].memory_type) by {
                assert(key_filed(v.by_type, v.nodes[x].memory_type));
                let j = choose|j: int| 0 <= j < v.by_type.len() && #[trigger] v.by_type[j].0 == v.nodes[x].memory_type;
                assert(keys@[j] == v.nodes[x].memory_type);
            }
            lemma_kinds_total_all(keys@, v.nodes);
        }
        out
    }
}

impl Default for MemoryRepository {
    /// An empty repository.
    fn default() -> (r: MemoryRepository)
        ensures
            r.wf(),
            r@.nodes.len() == 0,
            r@.by_type.len() == 0,
            r@.by_user.len() == 0,
            r@.by_agent.len() == 0,
            r@.by_tag.len() == 0,
            r@.by_time.len() == 0,
            r@.relationships.len() == 0,
    {
        MemoryRepository::new()
    }
}

/// Replacing one list changes the total by the difference in lengths.
proof fn lemma_total_update(s: Seq<(Seq<char>, Seq<MemoryRelationship>)>, i: int, e: (Seq<char>, Seq<MemoryRelationship>))
    requires
        0 <= i < s.len(),
    ensures
        relationship_total(s.update(i, e)) == relationship_total(s) - s[i].1.len() + e.1.len(),
    decreases s.len(),
{
    if i == s.len() - 1 {
        assert(s.update(i, e).drop_last() =~= s.drop_last());
    } else {
        assert(s.update(i, e).drop_last() =~= s.drop_last().update(i, e));
        lemma_total_update(s.drop_last(), i, e);
    }
}

/// The total over a prefix is at most the total.
proof fn lemma_total_prefix(s: Seq<(Seq<char>, Seq<MemoryRelationship>)>, i: int)
    requires
        0 <= i <= s.len(),
    ensures
        relationship_total(s.subrange(0, i)) <= relationship_total(s),
    decreases s.len() - i,
{
    if i < s.len() {
        assert(s.subrange(0, i + 1).drop_last() =~= s.subrange(0, i));
        lemma_total_prefix(s, i + 1);
    } else {
        assert(s.subrange(0, i) =~= s);
    }
}


/// The IDs filed under `key` in an index (none when the key is absent).
pub open spec fn ids_under<V>(s: Seq<(V, Set<Seq<char>>)>, key: V) -> Set<Seq<char>> {
    if exists|i: int| 0 <= i < s.len() && #[trigger] s[i].0 == key {
        let i = choose|i: int| 0 <= i < s.len() && #[trigger] s[i].0 == key;
        s[i].1
    } else {
        Set::empty()
    }
}

/// Filing `id` under `key` adds it to the IDs under that key and leaves the
/// other keys as they were; the keys stay distinct.
pub proof fn lemma_index_insert_files<V>(s: Seq<(V, Set<Seq<char>>)>, key: V, id: Seq<char>, other: V)
    requires
        distinct_keys(s),
    ensures
        distinct_keys(index_insert(s, key, id)),
        ids_under(index_insert(s, key, id), key) == ids_under(s, key).insert(id),
        other != key ==> ids_under(index_insert(s, key, id), other) == ids_under(s, other),
{
    let t = index_insert(s, key, id);
    if exists|i: int| 0 <= i < s.len() && #[trigger] s[i].0 == key {
        let i = choose|i: int| 0 <= i < s.len() && #[trigger] s[i].0 == key;
        assert(t[i].0 == key);
        assert forall|a: int, b: int| 0 <= a < b < t.len() implies #[trigger] t[a].0 != #[trigger] t[b].0 by {
            assert(t[a].0 == s[a].0 && t[b].0 == s[b].0);
        }
        let c = choose|j: int| 0 <= j < t.len() && #[trigger] t[j].0 == key;
        assert(c == i);
        if other != key && exists|j: int| 0 <= j < s.len() && #[trigger] s[j].0 == other {
            let j = choose|j: int| 0 <= j < s.len() && #[trigger] s[j].0 == other;
            assert(t[j].0 == other);
            let d = choose|x: int| 0 <= x < t.len() && #[trigger] t[x].0 == other;
            assert(t[d].0 == s[d].0);
            assert(d == j);
        }
        if other != key && !exists|j: int| 0 <= j < s.len() && #[trigger] s[j].0 == other {
            assert forall|x: int| 0 <= x < t.len() implies #[trigger] t[x].0 != other by {
                assert(t[x].0 == s[x].0);
            }
        }
    } else {
        assert(t[s.len() as int].0 == key);
        assert forall|a: int, b: int| 0 <= a < b < t.len() implies #[trigger] t[a].0 != #[trigger] t[b].0 by {
            assert(t[a].0 == s[a].0);
            if b < s.len() {
                assert(t[b].0 == s[b].0);
            }
        }
        let c = choose|j: int| 0 <= j < t.len() && #[trigger] t[j].0 == key;
        assert(c == s.len());
        assert(set![id] =~= Set::<Seq<char>>::empty().insert(id));
        if other != key && exists|j: int| 0 <= j < s.len() && #[trigger] s[j].0 == other {
            let j = choose|j: int| 0 <= j < s.len() && #[trigger] s[j].0 == other;
            assert(t[j].0 == other);
            let d = choose|x: int| 0 <= x < t.len() && #[trigger] t[x].0 == other;
            assert(d == j);
        }
        if other != key && !exists|j: int| 0 <= j < s.len() && #[trigger] s[j].0 == other {
            assert forall|x: int| 0 <= x < t.len() implies #[trigger] t[x].0 != other by {
                if x < s.len() {
                    assert(t[x].0 == s[x].0);
                }
            }
        }
    }
}

/// Taking `id` out from under `key` removes it from the IDs under that key
/// and leaves the other keys as they were; the keys stay distinct.
pub proof fn lemma_index_remove_unfiles<V>(s: Seq<(V, Set<Seq<char>>)>, key: V, id: Seq<char>, other: V)
    requires
        distinct_keys(s),
    ensures
        distinct_keys(index_remove(s, key, id)),
        ids_under(index_remove(s, key, id), key) == ids_under(s, key).remove(id),
        other != key ==> ids_under(index_remove(s, key, id), other) == ids_under(s, other),
{
    let t = index_remove(s, key, id);
    if exists|i: int| 0 <= i < s.len() && #[trigger] s[i].0 == key {
        let i = choose|i: int| 0 <= i < s.len() && #[trigger] s[i].0 == key;
        assert(t[i].0 == key);
        assert forall|a: int, b: int| 0 <= a < b < t.len() implies #[trigger] t[a].0 != #[trigger] t[b].0 by {
            assert(t[a].0 == s[a].0 && t[b].0 == s[b].0);
        }
        let c = choose|j: int| 0 <= j < t.len() && #[trigger] t[j].0 == key;
        assert(c == i);
        if other != key && exists|j: int| 0 <= j < s.len() && #[trigger] s[j].0 == other {
            let j = choose|j: int| 0 <= j < s.len() && #[trigger] s[j].0 == other;
            assert(t[j].0 == other);
            let d = choose|x: int| 0 <= x < t.len() && #[trigger] t[x].0 == other;
            assert(t[d].0 == s[d].0);
            assert(d == j);
        }
        if other != key && !exists|j: int| 0 <= j < s.len() && #[trigger] s[j].0 == other {
            assert forall|x: int| 0 <= x < t.len() implies #[trigger] t[x].0 != other by {
                assert(t[x].0 == s[x].0);
            }
        }
    } else {
        assert(Set::<Seq<char>>::empty().remove(id) =~= Set::<Seq<char>>::empty());
    }
}

/// After adding a memory, looking up its ID gives it back, and every other
/// ID finds what it found before; IDs stay distinct.
pub proof fn lemma_add_then_get(v: RepositoryView, m: MemoryNode, other: Seq<char>)
    requires
        ids_distinct(v.nodes),
    ensures
        ids_distinct(added(v, m).nodes),
        find_node(added(v, m).nodes, m.id@) == Some(m),
        other != m.id@ ==> find_node(added(v, m).nodes, other) == find_node(v.nodes, other),
{
    let s = v.nodes;
    let t = added(v, m).nodes;
    if exists|i: int| 0 <= i < s.len() && #[trigger] s[i].id@ == m.id@ {
        let i = choose|i: int| 0 <= i < s.len() && #[trigger] s[i].id@ == m.id@;
        assert(t[i].id@ == m.id@);
        assert forall|a: int, b: int| 0 <= a < b < t.len() implies #[trigger] t[a].id@ != #[trigger] t[b].id@ by {
            assert(t[a].id@ == s[a].id@ && t[b].id@ == s[b].id@);
        }
        let c = choose|j: int| 0 <= j < t.len() && #[trigger] t[j].id@ == m.id@;
        assert(t[c].id@ == s[c].id@);
        assert(c == i);
        if other != m.id@ && exists|j: int| 0 <= j < s.len() && #[trigger] s[j].id@ == other {
            let j = choose|j: int| 0 <= j < s.len() && #[trigger] s[j].id@ == other;
            assert(t[j].id@ == other);
            let d = choose|x: int| 0 <= x < t.len() && #[trigger] t[x].id@ == other;
            assert(t[d].id@ == s[d].id@);
            assert(d == j);
        }
        if other != m.id@ && !exists|j: int| 0 <= j < s.len() && #[trigger] s[j].id@ == other {
            assert forall|x: int| 0 <= x < t.len() implies #[trigger] t[x].id@ != other by {
                assert(t[x].id@ == s[x].id@);
            }
        }
    } else {
        assert(t[s.len() as int].id@ == m.id@);
        assert forall|a: int, b: int| 0 <= a < b < t.len() implies #[trigger] t[a].id@ != #[trigger] t[b].id@ by {
            assert(t[a].id@ == s[a].id@);
            if b < s.len() {
                assert(t[b].id@ == s[b].id@);
            }
        }
        let c = choose|j: int| 0 <= j < t.len() && #[trigger] t[j].id@ == m.id@;
        assert(c == s.len());
        if other != m.id@ && exists|j: int| 0 <= j < s.len() && #[trigger] s[j].id@ == other {
            let j = choose|j: int| 0 <= j < s.len() && #[trigger] s[j].id@ == other;
            assert(t[j].id@ == other);
            let d = choose|x: int| 0 <= x < t.len() && #[trigger] t[x].id@ == other;
            assert(d == j);
        }
        if other != m.id@ && !exists|j: int| 0 <= j < s.len() && #[trigger] s[j].id@ == other {
            assert forall|x: int| 0 <= x < t.len() implies #[trigger] t[x].id@ != other by {
                if x < s.len() {
                    assert(t[x].id@ == s[x].id@);
                }
            }
        }
    }
}

/// After deleting an ID, looking it up finds nothing.
pub proof fn lemma_delete_then_get(nodes: Seq<MemoryNode>, id: Seq<char>)
    requires
        ids_distinct(nodes),
    ensures
        find_node(drop_node(nodes, id), id) is None,
{
    let t = drop_node(nodes, id);
    if exists|i: int| 0 <= i < nodes.len() && #[trigger] nodes[i].id@ == id {
        let i = choose|i: int| 0 <= i < nodes.len() && #[trigger] nodes[i].id@ == id;
        assert forall|x: int| 0 <= x < t.len() implies #[trigger] t[x].id@ != id by {
            if x < i {
                assert(t[x] == nodes[x]);
            } else {
                assert(t[x] == nodes[x + 1]);
            }
        }
    }
}

/// A relationship filed under its source comes last among that source's
/// relationships; the other sources keep theirs.
pub proof fn lemma_file_then_list(s: Seq<(Seq<char>, Seq<MemoryRelationship>)>, rel: MemoryRelationship, other: Seq<char>)
    requires
        sources_distinct(s),
    ensures
        relationships_of(file_relationship(s, rel), rel.source_id@) == relationships_of(s, rel.source_id@).push(rel),
        other != rel.source_id@ ==> relationships_of(file_relationship(s, rel), other) == relationships_of(s, other),
{
    let key = rel.source_id@;
    let t = file_relationship(s, rel);
    if exists|i: int| 0 <= i < s.len() && #[trigger] s[i].0 == key {
        let i = choose|i: int| 0 <= i < s.len() && #[trigger] s[i].0 == key;
        assert(t[i].0 == key);
        let c = choose|j: int| 0 <= j < t.len() && #[trigger] t[j].0 == key;
        assert(t[c].0 == s[c].0);
        assert(c == i);
        if other != key && exists|j: int| 0 <= j < s.len() && #[trigger] s[j].0 == other {
            let j = choose|j: int| 0 <= j < s.len() && #[trigger] s[j].0 == other;
            assert(t[j].0 == other);
            let d = choose|x: int| 0 <= x < t.len() && #[trigger] t[x].0 == other;
            assert(t[d].0 == s[d].0);
            assert(d == j);
        }
        if other != key && !exists|j: int| 0 <= j < s.len() && #[trigger] s[j].0 == other {
            assert forall|x: int| 0 <= x < t.len() implies #[trigger] t[x].0 != other by {
                assert(t[x].0 == s[x].0);
            }
        }
    } else {
        assert(t[s.len() as int].0 == key);
        let c = choose|j: int| 0 <= j < t.len() && #[trigger] t[j].0 == key;
        if c < s.len() {
            assert(t[c].0 == s[c].0);
        }
        assert(c == s.len());
        assert(seq![rel] =~= Seq::<MemoryRelationship>::empty().push(rel));
        if other != key && exists|j: int| 0 <= j < s.len() && #[trigger] s[j].0 == other {
            let j = choose|j: int| 0 <= j < s.len() && #[trigger] s[j].0 == other;
            assert(t[j].0 == other);
            let d = choose|x: int| 0 <= x < t.len() && #[trigger] t[x].0 == other;
            if d < s.len() {
                assert(t[d].0 == s[d].0);
            }
            assert(d == j);
        }
        if other != key && !exists|j: int| 0 <= j < s.len() && #[trigger] s[j].0 == other {
            assert forall|x: int| 0 <= x < t.len() implies #[trigger] t[x].0 != other by {
                if x < s.len() {
                    assert(t[x].0 == s[x].0);
                }
            }
        }
    }
}

} // verus!
