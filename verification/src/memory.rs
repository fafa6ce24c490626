//! The always-available in-memory storage engine.
//!
//! [`MemoryStore`] keeps its entries in one vector, strictly sorted by
//! (column, key bytes). The sorted order makes directional iteration direct,
//! and the strictness makes every (column, key) cell unique, so the vector
//! corresponds to exactly one contents map.

use vstd::prelude::*;

use crate::api::BatchOperations;
use crate::api::KeyValueStore;
use crate::api::TransactableStorage;
use crate::kinds::clone_bytes;
use crate::kinds::ColumnId;
use crate::kinds::DatabaseResult;
use crate::kinds::IterDirection;
use crate::kinds::WriteOperation;
use crate::model::apply_op;
use crate::model::apply_ops;
use crate::model::entry_views;
use crate::model::in_scan_range;
use crate::model::opt_bytes;
use crate::model::scan_result;
use crate::model::KvContents;
use crate::order::bytes_eq;
use crate::order::bytes_lt;
use crate::order::bytes_starts_with;
use crate::order::lemma_pair_irrefl;
use crate::order::lemma_pair_total;
use crate::order::lemma_pair_trans;
use crate::order::pair_lt;

verus! {

/// One stored entry: a key and its value within a column.
#[derive(Debug)]
struct Entry {
    column: u32,
    key: Vec<u8>,
    value: Vec<u8>,
}

/// The (column, key) cell an entry occupies.
spec fn entry_key(e: Entry) -> (u32, Seq<u8>) {
    (e.column, e.key@)
}

/// Strictly ascending by (column, key): sorted, and every cell unique.
spec fn entries_sorted(s: Seq<Entry>) -> bool {
    forall|i: int, j: int|
        #![trigger s[i], s[j]]
        0 <= i < j < s.len() ==> pair_lt(entry_key(s[i]), entry_key(s[j]))
}

/// The contents map an entry vector represents.
spec fn kv_of(s: Seq<Entry>) -> KvContents {
    Map::new(
        |p: (u32, Seq<u8>)| exists|i: int| 0 <= i < s.len() && #[trigger] entry_key(s[i]) == p,
        |p: (u32, Seq<u8>)|
            s[choose|i: int| 0 <= i < s.len() && #[trigger] entry_key(s[i]) == p].value@,
    )
}

/// In a strictly sorted vector no two indices occupy the same cell.
proof fn lemma_unique_index(s: Seq<Entry>, i: int, j: int)
    requires
        entries_sorted(s),
        0 <= i < s.len(),
        0 <= j < s.len(),
        entry_key(s[i]) == entry_key(s[j]),
    ensures
        i == j,
{
    if i != j {
        lemma_pair_irrefl(entry_key(s[i]));
    }
}

/// The entry at any index is what the contents map holds for its cell.
proof fn lemma_kv_at(s: Seq<Entry>, i: int)
    requires
        entries_sorted(s),
        0 <= i < s.len(),
    ensures
        kv_of(s).contains_key(entry_key(s[i])),
        kv_of(s)[entry_key(s[i])] == s[i].value@,
{
    let p = entry_key(s[i]);
    assert(kv_of(s).contains_key(p));
    let j = choose|j: int| 0 <= j < s.len() && #[trigger] entry_key(s[j]) == p;
    lemma_unique_index(s, i, j);
}

/// A cell no index occupies is absent from the contents map.
proof fn lemma_kv_absent(s: Seq<Entry>, p: (u32, Seq<u8>))
    requires
        forall|j: int| 0 <= j < s.len() ==> #[trigger] entry_key(s[j]) != p,
    ensures
        !kv_of(s).contains_key(p),
{
}

/// Inserting an entry at its sorted position adds exactly its cell.
proof fn lemma_kv_insert(s: Seq<Entry>, pos: int, e: Entry)
    requires
        entries_sorted(s),
        0 <= pos <= s.len(),
        forall|j: int| 0 <= j < s.len() ==> #[trigger] entry_key(s[j]) != entry_key(e),
        entries_sorted(s.insert(pos, e)),
    ensures
        kv_of(s.insert(pos, e)) == kv_of(s).insert(entry_key(e), e.value@),
{
    let s2 = s.insert(pos, e);
    s.insert_ensures(pos, e);
    let m2 = kv_of(s).insert(entry_key(e), e.value@);
    assert forall|p: (u32, Seq<u8>)| #[trigger]
        kv_of(s2).contains_key(p) implies m2.contains_key(p) && kv_of(s2)[p] == m2[p] by {
        let i = choose|i: int| 0 <= i < s2.len() && #[trigger] entry_key(s2[i]) == p;
        lemma_kv_at(s2, i);
        if i == pos {
            assert(s2[i] == e);
        } else if i < pos {
            assert(s2[i] == s[i]);
            lemma_kv_at(s, i);
        } else {
            assert(s2[i] == s[i - 1]);
            lemma_kv_at(s, i - 1);
        }
    }
    assert forall|p: (u32, Seq<u8>)| #[trigger] m2.contains_key(p) implies kv_of(
        s2,
    ).contains_key(p) by {
        if p == entry_key(e) {
            assert(entry_key(s2[pos]) == p);
        } else {
            let i = choose|i: int| 0 <= i < s.len() && #[trigger] entry_key(s[i]) == p;
            if i < pos {
                assert(entry_key(s2[i]) == p);
            } else {
                assert(entry_key(s2[i + 1]) == p);
            }
        }
    }
    assert(kv_of(s2) =~= m2);
}

/// Replacing the entry of a cell in place rewrites exactly that cell.
proof fn lemma_kv_update(s: Seq<Entry>, pos: int, e: Entry)
    requires
        entries_sorted(s),
        0 <= pos < s.len(),
        entry_key(s[pos]) == entry_key(e),
    ensures
        entries_sorted(s.update(pos, e)),
        kv_of(s.update(pos, e)) == kv_of(s).insert(entry_key(e), e.value@),
{
    let s2 = s.update(pos, e);
    assert(entries_sorted(s2));
    let m2 = kv_of(s).insert(entry_key(e), e.value@);
    assert forall|p: (u32, Seq<u8>)| #[trigger]
        kv_of(s2).contains_key(p) implies m2.contains_key(p) && kv_of(s2)[p] == m2[p] by {
        let i = choose|i: int| 0 <= i < s2.len() && #[trigger] entry_key(s2[i]) == p;
        lemma_kv_at(s2, i);
        if i == pos {
            assert(s2[i] == e);
            assert(m2[p] == e.value@);
        } else {
            assert(s2[i] == s[i]);
            lemma_kv_at(s, i);
            lemma_unique_index(s, i, i);
            if p == entry_key(e) {
                lemma_unique_index(s, i, pos);
            }
        }
    }
    assert forall|p: (u32, Seq<u8>)| #[trigger] m2.contains_key(p) implies kv_of(
        s2,
    ).contains_key(p) by {
        if p == entry_key(e) {
            assert(entry_key(s2[pos]) == p);
        } else {
            let i = choose|i: int| 0 <= i < s.len() && #[trigger] entry_key(s[i]) == p;
            assert(entry_key(s2[i]) == p);
        }
    }
    assert(kv_of(s2) =~= m2);
}

/// Removing the entry of a cell removes exactly that cell.
proof fn lemma_kv_remove(s: Seq<Entry>, pos: int)
    requires
        entries_sorted(s),
        0 <= pos < s.len(),
    ensures
        entries_sorted(s.remove(pos)),
        kv_of(s.remove(pos)) == kv_of(s).remove(entry_key(s[pos])),
{
    let s2 = s.remove(pos);
    s.remove_ensures(pos);
    assert forall|i: int, j: int|
        #![trigger s2[i], s2[j]]
        0 <= i < j < s2.len() implies pair_lt(entry_key(s2[i]), entry_key(s2[j])) by {
        if j < pos {
        } else if i < pos {
            assert(s2[j] == s[j + 1]);
        } else {
            assert(s2[i] == s[i + 1]);
            assert(s2[j] == s[j + 1]);
        }
    }
    let m2 = kv_of(s).remove(entry_key(s[pos]));
    assert forall|p: (u32, Seq<u8>)| #[trigger]
        kv_of(s2).contains_key(p) implies m2.contains_key(p) && kv_of(s2)[p] == m2[p] by {
        let i = choose|i: int| 0 <= i < s2.len() && #[trigger] entry_key(s2[i]) == p;
        lemma_kv_at(s2, i);
        let iorig: int = if i < pos {
            i
        } else {
            i + 1
        };
        assert(s2[i] == s[iorig]);
        lemma_kv_at(s, iorig);
        if entry_key(s[iorig]) == entry_key(s[pos]) {
            lemma_unique_index(s, iorig, pos);
        }
    }
    assert forall|p: (u32, Seq<u8>)| #[trigger] m2.contains_key(p) implies kv_of(
        s2,
    ).contains_key(p) by {
        let i = choose|i: int| 0 <= i < s.len() && #[trigger] entry_key(s[i]) == p;
        lemma_unique_index(s, i, i);
        assert(i != pos);
        if i < pos {
            assert(entry_key(s2[i]) == p);
        } else {
            assert(entry_key(s2[i - 1]) == p);
        }
    }
    assert(kv_of(s2) =~= m2);
}

/// Reads one entry of a vector.
fn entry_at(v: &Vec<Entry>, i: usize) -> (e: &Entry)
    requires
        i < v@.len(),
    ensures
        *e == v@[i as int],
{
    vstd::slice::slice_index_get(v.as_slice(), i)
}

/// Whether an entry belongs to the column and falls inside the restriction.
fn scan_match(
    e: &Entry,
    column: u32,
    prefix: &Option<Vec<u8>>,
    start: &Option<Vec<u8>>,
    direction: IterDirection,
) -> (r: bool)
    ensures
        r == (e.column == column && in_scan_range(
            e.key@,
            opt_bytes(*prefix),
            opt_bytes(*start),
            direction,
        )),
{
    if e.column != column {
        return false;
    }
    let pre_ok = match prefix {
        Some(p) => bytes_starts_with(e.key.as_slice(), p.as_slice()),
        None => true,
    };
    if !pre_ok {
        return false;
    }
    match start {
        Some(s) => match direction {
            IterDirection::Forward => !bytes_lt(e.key.as_slice(), s.as_slice()),
            IterDirection::Reverse => !bytes_lt(s.as_slice(), e.key.as_slice()),
        },
        None => true,
    }
}

/// The in-memory engine: a strictly sorted vector of entries. It commits in
/// memory, so none of its operations can fail.
#[derive(Debug)]
pub struct MemoryStore {
    entries: Vec<Entry>,
}

impl MemoryStore {
    /// Creates an empty store.
    pub fn new() -> (r: Self)
        ensures
            r.inv(),
            r.kv() == KvContents::empty(),
    {
        let r = MemoryStore { entries: Vec::new() };
        proof {
            assert(r.kv() =~= KvContents::empty());
        }
        r
    }

    /// Copies the store: an independent backend with the same contents.
    pub fn snapshot(&self) -> (r: Self)
        requires
            self.inv(),
        ensures
            r.inv(),
            r.kv() == self.kv(),
    {
        let n = self.entries.len();
        let mut out: Vec<Entry> = Vec::new();
        let mut i: usize = 0;
        while i < n
            invariant
                n == self.entries@.len(),
                i <= n,
                out@.len() == i,
                forall|j: int|
                    0 <= j < i ==> {
                        &&& (#[trigger] out@[j]).column == self.entries@[j].column
                        &&& out@[j].key@ == self.entries@[j].key@
                        &&& out@[j].value@ == self.entries@[j].value@
                    },
            decreases n - i,
        {
            let e = entry_at(&self.entries, i);
            out.push(Entry { column: e.column, key: clone_bytes(&e.key), value: clone_bytes(&e.value) });
            i += 1;
        }
        let r = MemoryStore { entries: out };
        proof {
            assert(forall|j: int|
                0 <= j < n ==> #[trigger] entry_key(r.entries@[j]) == entry_key(
                    self.entries@[j],
                ));
            assert forall|i: int, j: int|
                #![trigger r.entries@[i], r.entries@[j]]
                0 <= i < j < n implies pair_lt(
                entry_key(r.entries@[i]),
                entry_key(r.entries@[j]),
            ) by {
                assert(pair_lt(entry_key(self.entries@[i]), entry_key(self.entries@[j])));
            }
            assert forall|p: (u32, Seq<u8>)| #[trigger]
                kv_of(r.entries@).contains_key(p) implies kv_of(self.entries@).contains_key(p)
                && kv_of(r.entries@)[p] == kv_of(self.entries@)[p] by {
                let i = choose|i: int| 0 <= i < n && #[trigger] entry_key(r.entries@[i]) == p;
                assert(entry_key(self.entries@[i]) == p);
                lemma_kv_at(r.entries@, i);
                lemma_kv_at(self.entries@, i);
            }
            assert forall|p: (u32, Seq<u8>)| #[trigger]
                kv_of(self.entries@).contains_key(p) implies kv_of(r.entries@).contains_key(
                p,
            ) by {
                let i = choose|i: int|
                    0 <= i < n && #[trigger] entry_key(self.entries@[i]) == p;
                assert(entry_key(r.entries@[i]) == p);
            }
            assert(kv_of(r.entries@) =~= kv_of(self.entries@));
        }
        r
    }

    /// Index of the entry that occupies exactly (column, key), if any.
    fn find_exact(&self, key: &[u8], column: u32) -> (r: Option<usize>)
        ensures
            r matches Some(i) ==> i < self.entries@.len() && entry_key(self.entries@[i as int])
                == (column, key@),
            r is None ==> forall|j: int|
                0 <= j < self.entries@.len() ==> #[trigger] entry_key(self.entries@[j]) != (
                column,
                key@,
            ),
    {
        let n = self.entries.len();
        let mut i: usize = 0;
        while i < n
            invariant
                n == self.entries@.len(),
                i <= n,
                forall|j: int|
                    0 <= j < i ==> #[trigger] entry_key(self.entries@[j]) != (column, key@),
            decreases n - i,
        {
            let e = entry_at(&self.entries, i);
            if e.column == column && bytes_eq(e.key.as_slice(), key) {
                return Some(i);
            }
            i += 1;
        }
        None
    }

    /// First index whose cell is at or after (column, key) in sorted order.
    fn find_pos(&self, key: &[u8], column: u32) -> (pos: usize)
        requires
            self.inv(),
        ensures
            pos <= self.entries@.len(),
            forall|j: int|
                0 <= j < pos ==> pair_lt(#[trigger] entry_key(self.entries@[j]), (column, key@)),
            pos < self.entries@.len() ==> !pair_lt(
                entry_key(self.entries@[pos as int]),
                (column, key@),
            ),
    {
        let n = self.entries.len();
        let mut i: usize = 0;
        while i < n
            invariant
                n == self.entries@.len(),
                i <= n,
                forall|j: int|
                    0 <= j < i ==> pair_lt(
                        #[trigger] entry_key(self.entries@[j]),
                        (column, key@),
                    ),
            decreases n - i,
        {
            let e = entry_at(&self.entries, i);
            let lt = e.column < column || (e.column == column && bytes_lt(
                e.key.as_slice(),
                key,
            ));
            if !lt {
                return i;
            }
            i += 1;
        }
        n
    }
}

impl KeyValueStore for MemoryStore {
    /// The entries are strictly sorted by (column, key).
    closed spec fn inv(&self) -> bool {
        entries_sorted(self.entries@)
    }

    closed spec fn kv(&self) -> KvContents {
        kv_of(self.entries@)
    }

    fn get(&self, key: &[u8], column: ColumnId) -> (r: DatabaseResult<Option<Vec<u8>>>)
        ensures
            r is Ok,
    {
        match self.find_exact(key, column) {
            Some(i) => {
                proof {
                    lemma_kv_at(self.entries@, i as int);
                }
                let e = entry_at(&self.entries, i);
                Ok(Some(clone_bytes(&e.value)))
            },
            None => {
                proof {
                    lemma_kv_absent(self.entries@, (column, key@));
                }
                Ok(None)
            },
        }
    }

    fn put(&mut self, key: &[u8], column: ColumnId, value: Vec<u8>) -> (r: DatabaseResult<
        Option<Vec<u8>>,
    >)
        ensures
            r is Ok,
    {
        let ghost s0 = self.entries@;
        let ghost tkey: (u32, Seq<u8>) = (column, key@);
        let pos = self.find_pos(key, column);
        let mut exact = false;
        if pos < self.entries.len() {
            let e = entry_at(&self.entries, pos);
            exact = e.column == column && bytes_eq(e.key.as_slice(), key);
        }
        let newe = Entry { column, key: vstd::slice::slice_to_vec(key), value };
        proof {
            assert(entry_key(newe) == tkey);
        }
        if exact {
            let olde = self.entries.remove(pos);
            self.entries.insert(pos, newe);
            proof {
                assert(self.entries@ =~= s0.update(pos as int, newe));
                lemma_kv_update(s0, pos as int, newe);
                lemma_kv_at(s0, pos as int);
            }
            Ok(Some(olde.value))
        } else {
            proof {
                assert forall|j: int| 0 <= j < s0.len() implies #[trigger] entry_key(s0[j])
                    != tkey by {
                    if j < pos {
                        if entry_key(s0[j]) == tkey {
                            lemma_pair_irrefl(tkey);
                        }
                    } else {
                        assert(pos < s0.len());
                        assert(!pair_lt(entry_key(s0[pos as int]), tkey));
                        assert(entry_key(s0[pos as int]) != tkey);
                        lemma_pair_total(entry_key(s0[pos as int]), tkey);
                        assert(pair_lt(tkey, entry_key(s0[pos as int])));
                        if j > pos {
                            lemma_pair_trans(tkey, entry_key(s0[pos as int]), entry_key(s0[j]));
                        }
                        if entry_key(s0[j]) == tkey {
                            lemma_pair_irrefl(tkey);
                        }
                    }
                }
                lemma_kv_absent(s0, tkey);
            }
            self.entries.insert(pos, newe);
            proof {
                s0.insert_ensures(pos as int, newe);
                let s2 = s0.insert(pos as int, newe);
                assert forall|i: int, j: int|
                    #![trigger s2[i], s2[j]]
                    0 <= i < j < s2.len() implies pair_lt(
                    entry_key(s2[i]),
                    entry_key(s2[j]),
                ) by {
                    if i == pos {
                        assert(s2[i] == newe);
                        assert(s2[j] == s0[j - 1]);
                        assert(j - 1 >= pos);
                        if j - 1 == pos {
                            lemma_pair_total(entry_key(s0[pos as int]), tkey);
                        } else {
                            lemma_pair_total(entry_key(s0[pos as int]), tkey);
                            lemma_pair_trans(
                                tkey,
                                entry_key(s0[pos as int]),
                                entry_key(s0[j - 1]),
                            );
                        }
                    } else if j == pos {
                        assert(s2[i] == s0[i]);
                        assert(s2[j] == newe);
                    } else if i < pos && j > pos {
                        assert(s2[i] == s0[i]);
                        assert(s2[j] == s0[j - 1]);
                        assert(i < j - 1);
                        assert(pair_lt(entry_key(s0[i]), entry_key(s0[j - 1])));
                    } else if j < pos {
                        assert(s2[i] == s0[i]);
                        assert(s2[j] == s0[j]);
                    } else {
                        assert(s2[i] == s0[i - 1]);
                        assert(s2[j] == s0[j - 1]);
                    }
                }
                lemma_kv_insert(s0, pos as int, newe);
            }
            Ok(None)
        }
    }

    fn delete(&mut self, key: &[u8], column: ColumnId) -> (r: DatabaseResult<Option<Vec<u8>>>)
        ensures
            r is Ok,
    {
        let ghost s0 = self.entries@;
        match self.find_exact(key, column) {
            Some(i) => {
                proof {
                    lemma_kv_at(s0, i as int);
                    lemma_kv_remove(s0, i as int);
                }
                let olde = self.entries.remove(i);
                Ok(Some(olde.value))
            },
            None => {
                proof {
                    lemma_kv_absent(s0, (column, key@));
                    assert(kv_of(s0).remove((column, key@)) =~= kv_of(s0));
                }
                Ok(None)
            },
        }
    }

    fn exists_key(&self, key: &[u8], column: ColumnId) -> (r: DatabaseResult<bool>)
        ensures
            r is Ok,
    {
        match self.find_exact(key, column) {
            Some(i) => {
                proof {
                    lemma_kv_at(self.entries@, i as int);
                }
                Ok(true)
            },
            None => {
                proof {
                    lemma_kv_absent(self.entries@, (column, key@));
                }
                Ok(false)
            },
        }
    }

    #[verifier::rlimit(50)]
    fn iter_all(
        &self,
        column: ColumnId,
        prefix: Option<Vec<u8>>,
        start: Option<Vec<u8>>,
        direction: IterDirection,
    ) -> (r: DatabaseResult<Vec<(Vec<u8>, Vec<u8>)>>)
        ensures
            r is Ok,
    {
        let ghost pfx = opt_bytes(prefix);
        let ghost st = opt_bytes(start);
        let ghost s = self.entries@;
        let n = self.entries.len();
        let mut res: Vec<(Vec<u8>, Vec<u8>)> = Vec::new();
        let ghost mut w: Seq<int> = Seq::empty();
        match direction {
            IterDirection::Forward => {
                let mut i: usize = 0;
                while i < n
                    invariant
                        self.inv(),
                        n == s.len(),
                        s == self.entries@,
                        i <= n,
                        pfx == opt_bytes(prefix),
                        st == opt_bytes(start),
                        direction == IterDirection::Forward,
                        w.len() == res@.len(),
                        forall|a: int|
                            #![trigger w[a]]
                            0 <= a < w.len() ==> {
                                &&& 0 <= w[a] < i
                                &&& s[w[a]].column == column
                                &&& s[w[a]].key@ == res@[a].0@
                                &&& s[w[a]].value@ == res@[a].1@
                                &&& in_scan_range(res@[a].0@, pfx, st, direction)
                            },
                        forall|a: int, b: int|
                            #![trigger w[a], w[b]]
                            0 <= a < b < w.len() ==> w[a] < w[b],
                        forall|j: int|
                            0 <= j < i && (#[trigger] s[j]).column == column && in_scan_range(
                                s[j].key@,
                                pfx,
                                st,
                                direction,
                            ) ==> exists|a: int|
                                0 <= a < res@.len() && (#[trigger] res@[a]).0@ == s[j].key@,
                    decreases n - i,
                {
                    let e = entry_at(&self.entries, i);
                    if scan_match(e, column, &prefix, &start, direction) {
                        let ghost resv = res@;
                        let pair = (clone_bytes(&e.key), clone_bytes(&e.value));
                        let ghost gpair = pair;
                        res.push(pair);
                        proof {
                            w = w.push(i as int);
                            assert(res@ == resv.push(gpair));
                            assert(res@[resv.len() as int] == gpair);
                            assert(forall|a: int| 0 <= a < resv.len() ==> res@[a] == resv[a]);
                            assert(res@[resv.len() as int].0@ == s[i as int].key@);
                        }
                    }
                    i += 1;
                }
            },
            IterDirection::Reverse => {
                let mut i: usize = n;
                while i > 0
                    invariant
                        self.inv(),
                        n == s.len(),
                        s == self.entries@,
                        i <= n,
                        pfx == opt_bytes(prefix),
                        st == opt_bytes(start),
                        direction == IterDirection::Reverse,
                        w.len() == res@.len(),
                        forall|a: int|
                            #![trigger w[a]]
                            0 <= a < w.len() ==> {
                                &&& i <= w[a] < n
                                &&& s[w[a]].column == column
                                &&& s[w[a]].key@ == res@[a].0@
                                &&& s[w[a]].value@ == res@[a].1@
                                &&& in_scan_range(res@[a].0@, pfx, st, direction)
                            },
                        forall|a: int, b: int|
                            #![trigger w[a], w[b]]
                            0 <= a < b < w.len() ==> w[b] < w[a],
                        forall|j: int|
                            i <= j < n && (#[trigger] s[j]).column == column && in_scan_range(
                                s[j].key@,
                                pfx,
                                st,
                                direction,
                            ) ==> exists|a: int|
                                0 <= a < res@.len() && (#[trigger] res@[a]).0@ == s[j].key@,
                    decreases i,
                {
                    i -= 1;
                    let e = entry_at(&self.entries, i);
                    if scan_match(e, column, &prefix, &start, direction) {
                        let ghost resv = res@;
                        let pair = (clone_bytes(&e.key), clone_bytes(&e.value));
                        let ghost gpair = pair;
                        res.push(pair);
                        proof {
                            w = w.push(i as int);
                            assert(res@ == resv.push(gpair));
                            assert(res@[resv.len() as int] == gpair);
                            assert(forall|a: int| 0 <= a < resv.len() ==> res@[a] == resv[a]);
                            assert(res@[resv.len() as int].0@ == s[i as int].key@);
                        }
                    }
                }
            },
        }
        proof {
            let rv = entry_views(res@);
            assert forall|a: int| 0 <= a < rv.len() implies {
                &&& self.kv().contains_key((column, (#[trigger] rv[a]).0))
                &&& self.kv()[(column, rv[a].0)] == rv[a].1
                &&& in_scan_range(rv[a].0, pfx, st, direction)
            } by {
                assert(rv[a] == (res@[a].0@, res@[a].1@));
                assert(0 <= w[a] < n);
                assert(entry_key(s[w[a]]) == (column, res@[a].0@));
                lemma_kv_at(s, w[a]);
            }
            assert forall|k: Seq<u8>| #[trigger]
                self.kv().contains_key((column, k)) && in_scan_range(
                    k,
                    pfx,
                    st,
                    direction,
                ) implies exists|a: int| 0 <= a < rv.len() && (#[trigger] rv[a]).0 == k by {
                let j = choose|j: int| 0 <= j < s.len() && #[trigger] entry_key(s[j]) == (
                    column,
                    k,
                );
                assert(s[j].column == column && s[j].key@ == k);
                let a = choose|a: int| 0 <= a < res@.len() && (#[trigger] res@[a]).0@
                    == s[j].key@;
                assert(rv[a] == (res@[a].0@, res@[a].1@));
                assert(rv[a].0 == k);
            }
            assert forall|a: int, b: int|
                #![trigger rv[a], rv[b]]
                0 <= a < b < rv.len() implies match direction {
                IterDirection::Forward => crate::order::lex_lt(rv[a].0, rv[b].0),
                IterDirection::Reverse => crate::order::lex_lt(rv[b].0, rv[a].0),
            } by {
                assert(rv[a] == (res@[a].0@, res@[a].1@));
                assert(rv[b] == (res@[b].0@, res@[b].1@));
                if direction == IterDirection::Forward {
                    assert(w[a] < w[b]);
                    assert(pair_lt(entry_key(s[w[a]]), entry_key(s[w[b]])));
                } else {
                    assert(w[b] < w[a]);
                    assert(pair_lt(entry_key(s[w[b]]), entry_key(s[w[a]])));
                }
            }
            assert(scan_result(self.kv(), column, pfx, st, direction, rv));
        }
        Ok(res)
    }
}

impl BatchOperations for MemoryStore {
    /// Native batch commit of the in-memory engine: all entries take effect
    /// and the batch cannot fail, so the all-or-nothing requirement holds.
    fn batch_write(&mut self, entries: &Vec<WriteOperation>) -> (r: DatabaseResult<()>)
        ensures
            r is Ok,
    {
        let mut i: usize = 0;
        while i < entries.len()
            invariant
                old(self).inv(),
                self.inv(),
                i <= entries@.len(),
                self.kv() == apply_ops(old(self).kv(), entries@.take(i as int)),
            decreases entries@.len() - i,
        {
            let ghost pre = self.kv();
            match &entries[i] {
                WriteOperation::Insert(key, column, value) => {
                    let w = self.put(key.as_slice(), *column, clone_bytes(value));
                    match w {
                        Ok(_) => {},
                        Err(_) => {
                            proof {
                                assert(false);
                            }
                        },
                    }
                },
                WriteOperation::Remove(key, column) => {
                    let w = self.delete(key.as_slice(), *column);
                    match w {
                        Ok(_) => {},
                        Err(_) => {
                            proof {
                                assert(false);
                            }
                        },
                    }
                },
            }
            proof {
                assert(self.kv() == apply_op(pre, entries@[i as int]));
                assert(entries@.take(i + 1).drop_last() =~= entries@.take(i as int));
                assert(entries@.take(i + 1).last() == entries@[i as int]);
            }
            i += 1;
        }
        proof {
            assert(entries@.take(entries@.len() as int) =~= entries@);
        }
        Ok(())
    }
}

impl TransactableStorage for MemoryStore {

}

} // verus!
