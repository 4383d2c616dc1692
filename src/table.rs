use vstd::prelude::*;

verus! {

/// A key of a table row; two keys are the same row exactly when they are equal.
pub trait RowKey: Sized + Copy {
    fn same(&self, other: &Self) -> (r: bool)
        ensures
            r == (*self == *other),
    ;
}

/// A column value that a table can hand out as an independent copy.
pub trait RowValue: View + Sized {
    fn duplicate(&self) -> (r: Self)
        ensures
            r@ == self@,
    ;
}

/// The mapping that a sequence of rows stands for: a later row for a key
/// supersedes an earlier one.
pub open spec fn map_of<K, V: View>(rows: Seq<(K, V)>) -> Map<K, V::V>
    decreases rows.len(),
{
    if rows.len() == 0 {
        Map::empty()
    } else {
        map_of(rows.drop_last()).insert(rows.last().0, rows.last().1@)
    }
}

/// `m` with each entry of `s` written over it.
pub open spec fn upserted<K, V: View>(m: Map<K, V::V>, s: Seq<(K, V)>) -> Map<K, V::V> {
    m.union_prefer_right(map_of(s))
}

/// `m` with each entry of `s` added where its key is still absent.
pub open spec fn inserted_if_absent<K, V: View>(m: Map<K, V::V>, s: Seq<(K, V)>) -> Map<K, V::V>
    decreases s.len(),
{
    if s.len() == 0 {
        m
    } else {
        let p = inserted_if_absent(m, s.drop_last());
        if p.contains_key(s.last().0) {
            p
        } else {
            p.insert(s.last().0, s.last().1@)
        }
    }
}

/// The rows of `rows` whose key is not `k`, in their order.
pub open spec fn without_key<K, V>(rows: Seq<(K, V)>, k: K) -> Seq<(K, V)>
    decreases rows.len(),
{
    if rows.len() == 0 {
        rows
    } else if rows.last().0 == k {
        without_key(rows.drop_last(), k)
    } else {
        without_key(rows.drop_last(), k).push(rows.last())
    }
}

/// No two rows share a key.
pub open spec fn keys_distinct<K, V>(rows: Seq<(K, V)>) -> bool {
    forall|i: int, j: int| 0 <= i < j < rows.len() ==> rows[i].0 != rows[j].0
}

pub proof fn lemma_without_key<K, V: View>(rows: Seq<(K, V)>, k: K)
    ensures
        map_of(without_key(rows, k)) == map_of(rows).remove(k),
        forall|i: int|
            0 <= i < without_key(rows, k).len() ==> #[trigger] without_key(rows, k)[i].0 != k,
        forall|i: int|
            0 <= i < without_key(rows, k).len() ==> exists|j: int|
                0 <= j < rows.len() && rows[j] == #[trigger] without_key(rows, k)[i],
        keys_distinct(rows) ==> keys_distinct(without_key(rows, k)),
    decreases rows.len(),
{
    if rows.len() > 0 {
        let d = rows.drop_last();
        lemma_without_key(d, k);
        if rows.last().0 == k {
            assert(map_of(without_key(rows, k)) =~= map_of(rows).remove(k));
        } else {
            let w = without_key(d, k);
            assert(map_of(w.push(rows.last())).dom() =~= map_of(rows).remove(k).dom()) by {
                assert(w.push(rows.last()).drop_last() =~= w);
            }
            assert(w.push(rows.last()).drop_last() =~= w);
            assert(map_of(without_key(rows, k)) =~= map_of(rows).remove(k));
            assert forall|i: int| 0 <= i < w.push(rows.last()).len() implies exists|j: int|
                0 <= j < rows.len() && rows[j] == #[trigger] w.push(rows.last())[i] by {
                if i == w.len() {
                    assert(rows[rows.len() - 1] == w.push(rows.last())[i]);
                } else {
                    assert(w.push(rows.last())[i] == w[i]);
                    let j = choose|j: int| 0 <= j < d.len() && d[j] == w[i];
                    assert(rows[j] == d[j]);
                }
            }
            if keys_distinct(rows) {
                assert forall|i: int, j: int|
                    0 <= i < j < w.push(rows.last()).len() implies w.push(rows.last())[i].0
                    != w.push(rows.last())[j].0 by {
                    if j == w.len() {
                        let jj = choose|jj: int| 0 <= jj < d.len() && d[jj] == w[i];
                        assert(rows[jj] == d[jj]);
                        assert(rows[rows.len() - 1].0 != rows[jj].0);
                    }
                }
            }
        }
    }
}

pub proof fn lemma_map_of_contains<K, V: View>(rows: Seq<(K, V)>, k: K)
    ensures
        map_of(rows).contains_key(k) <==> exists|i: int| 0 <= i < rows.len() && rows[i].0 == k,
    decreases rows.len(),
{
    if rows.len() > 0 {
        let d = rows.drop_last();
        lemma_map_of_contains(d, k);
        if map_of(rows).contains_key(k) && rows.last().0 != k {
            let i = choose|i: int| 0 <= i < d.len() && d[i].0 == k;
            assert(rows[i] == d[i]);
        }
        if exists|i: int| 0 <= i < rows.len() && rows[i].0 == k {
            let i = choose|i: int| 0 <= i < rows.len() && rows[i].0 == k;
            if i < d.len() {
                assert(rows[i] == d[i]);
            }
        }
    }
}

/// Two row sequences that agree key by key and view by view stand for the same mapping.
pub proof fn lemma_map_of_same_views<K, V: View>(a: Seq<(K, V)>, b: Seq<(K, V)>)
    requires
        a.len() == b.len(),
        forall|i: int| 0 <= i < a.len() ==> a[i].0 == b[i].0 && a[i].1@ == b[i].1@,
    ensures
        map_of(a) == map_of(b),
    decreases a.len(),
{
    if a.len() > 0 {
        lemma_map_of_same_views(a.drop_last(), b.drop_last());
    }
}

/// With distinct keys, each row's value is the one its key maps to.
pub proof fn lemma_map_of_distinct_index<K, V: View>(rows: Seq<(K, V)>, i: int)
    requires
        keys_distinct(rows),
        0 <= i < rows.len(),
    ensures
        map_of(rows).contains_key(rows[i].0),
        map_of(rows)[rows[i].0] == rows[i].1@,
    decreases rows.len(),
{
    let d = rows.drop_last();
    if i < rows.len() - 1 {
        assert(rows[i] == d[i]);
        lemma_map_of_distinct_index(d, i);
    }
}

/// A relation of rows: at most one row per key.
pub struct Table<K, V> {
    rows: Vec<(K, V)>,
}

impl<K, V: View> View for Table<K, V> {
    type V = Map<K, V::V>;

    closed spec fn view(&self) -> Map<K, V::V> {
        map_of(self.rows@)
    }
}

impl<K: RowKey, V: RowValue> Table<K, V> {
    /// Every key stands in one row at most.
    pub closed spec fn wf(&self) -> bool {
        keys_distinct(self.rows@)
    }

    pub fn new() -> (t: Self)
        ensures
            t.wf(),
            t@ == Map::<K, V::V>::empty(),
    {
        Table { rows: Vec::new() }
    }

    /// Whether a row with key `k` is present.
    pub fn contains(&self, k: &K) -> (r: bool)
        ensures
            r == self@.contains_key(*k),
    {
        let mut i: usize = 0;
        while i < self.rows.len()
            invariant
                0 <= i <= self.rows@.len(),
                forall|j: int| 0 <= j < i ==> self.rows@[j].0 != *k,
            decreases self.rows@.len() - i,
        {
            if self.rows[i].0.same(k) {
                proof {
                    lemma_map_of_contains(self.rows@, *k);
                }
                return true;
            }
            i = i + 1;
        }
        proof {
            lemma_map_of_contains(self.rows@, *k);
        }
        false
    }

    /// The value of the row with key `k`, if there is one.
    pub fn get(&self, k: &K) -> (r: Option<&V>)
        requires
            self.wf(),
        ensures
            r is Some <==> self@.contains_key(*k),
            r is Some ==> r->Some_0@ == self@[*k],
    {
        let mut i: usize = 0;
        while i < self.rows.len()
            invariant
                0 <= i <= self.rows@.len(),
                keys_distinct(self.rows@),
                forall|j: int| 0 <= j < i ==> self.rows@[j].0 != *k,
            decreases self.rows@.len() - i,
        {
            if self.rows[i].0.same(k) {
                proof {
                    lemma_map_of_distinct_index(self.rows@, i as int);
                }
                return Some(&self.rows[i].1);
            }
            i = i + 1;
        }
        proof {
            lemma_map_of_contains(self.rows@, *k);
        }
        None
    }

    /// Drops the row with key `k`, if there is one.
    pub fn delete(&mut self, k: &K)
        requires
            old(self).wf(),
        ensures
            final(self).wf(),
            final(self)@ == old(self)@.remove(*k),
    {
        let ghost orig = self.rows@;
        let mut rest: Vec<(K, V)> = Vec::new();
        std::mem::swap(&mut rest, &mut self.rows);
        let mut kept: Vec<(K, V)> = Vec::new();
        let ghost mut taken: int = 0;
        while rest.len() > 0
            invariant
                0 <= taken <= orig.len(),
                rest@ == orig.subrange(taken, orig.len() as int),
                kept@ == without_key(orig.take(taken), *k),
            decreases rest@.len(),
        {
            let row = rest.remove(0);
            proof {
                assert(orig.take(taken + 1).drop_last() =~= orig.take(taken));
                assert(orig.take(taken + 1).last() == row);
            }
            if !row.0.same(k) {
                kept.push(row);
            }
            proof {
                taken = taken + 1;
            }
        }
        proof {
            assert(orig.take(taken) =~= orig);
            lemma_without_key(orig, *k);
        }
        self.rows = kept;
    }

    /// Insert a row, replacing the row with the same key if there is one.
    pub fn upsert(&mut self, k: K, v: V)
        requires
            old(self).wf(),
        ensures
            final(self).wf(),
            final(self)@ == old(self)@.insert(k, v@),
    {
        self.delete(&k);
        let ghost before = self.rows@;
        proof {
            lemma_map_of_contains(before, k);
        }
        self.rows.push((k, v));
        proof {
            assert(self.rows@.drop_last() =~= before);
            assert(self@ =~= old(self)@.insert(k, v@));
        }
    }

    /// Insert a row only if no row with its key is present; else change nothing.
    pub fn insert_ignore(&mut self, k: K, v: V)
        requires
            old(self).wf(),
        ensures
            final(self).wf(),
            final(self)@ == if old(self)@.contains_key(k) {
                old(self)@
            } else {
                old(self)@.insert(k, v@)
            },
    {
        if !self.contains(&k) {
            self.upsert(k, v);
        }
    }

    /// Upsert each entry of `s`, in order.
    pub fn upsert_all(&mut self, s: &Vec<(K, V)>)
        requires
            old(self).wf(),
        ensures
            final(self).wf(),
            final(self)@ == upserted(old(self)@, s@),
    {
        let mut i: usize = 0;
        while i < s.len()
            invariant
                0 <= i <= s@.len(),
                self.wf(),
                self@ == upserted(old(self)@, s@.take(i as int)),
            decreases s@.len() - i,
        {
            let v = s[i].1.duplicate();
            self.upsert(s[i].0, v);
            proof {
                let t = s@.take(i as int + 1);
                assert(t.drop_last() =~= s@.take(i as int));
                assert(self@ =~= upserted(old(self)@, t));
            }
            i = i + 1;
        }
        proof {
            assert(s@.take(s@.len() as int) =~= s@);
        }
    }

    /// Insert each entry of `s` whose key is still absent, in order.
    pub fn insert_all_if_absent(&mut self, s: &Vec<(K, V)>)
        requires
            old(self).wf(),
        ensures
            final(self).wf(),
            final(self)@ == inserted_if_absent(old(self)@, s@),
    {
        let mut i: usize = 0;
        while i < s.len()
            invariant
                0 <= i <= s@.len(),
                self.wf(),
                self@ == inserted_if_absent(old(self)@, s@.take(i as int)),
            decreases s@.len() - i,
        {
            let v = s[i].1.duplicate();
            self.insert_ignore(s[i].0, v);
            proof {
                let t = s@.take(i as int + 1);
                assert(t.drop_last() =~= s@.take(i as int));
            }
            i = i + 1;
        }
        proof {
            assert(s@.take(s@.len() as int) =~= s@);
        }
    }

    /// A copy of every row.
    pub fn rows(&self) -> (r: Vec<(K, V)>)
        requires
            self.wf(),
        ensures
            map_of(r@) == self@,
            keys_distinct(r@),
    {
        let mut out: Vec<(K, V)> = Vec::new();
        let mut i: usize = 0;
        while i < self.rows.len()
            invariant
                0 <= i <= self.rows@.len(),
                out@.len() == i,
                forall|j: int|
                    0 <= j < i ==> out@[j].0 == self.rows@[j].0 && out@[j].1@ == self.rows@[j].1@,
            decreases self.rows@.len() - i,
        {
            let v = self.rows[i].1.duplicate();
            out.push((self.rows[i].0, v));
            i = i + 1;
        }
        proof {
            lemma_map_of_same_views(out@, self.rows@);
        }
        out
    }
}

} // verus!
