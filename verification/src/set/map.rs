//! A persistent finite map from names to numbers, backed by a vector of
//! bindings with no name bound twice.  Binding an existing name leaves the
//! map unchanged rather than overwriting it.
use vstd::prelude::*;

verus! {

/// A persistent finite map from strings to numbers.
#[derive(Debug, PartialEq)]
pub struct FiniteMapImpl {
    table: Vec<(String, i32)>,
}

/// The map a table of bindings denotes, later entries taking precedence;
/// with distinct keys the order never matters.
pub(crate) open spec fn table_view(s: Seq<(String, i32)>) -> Map<Seq<char>, i32>
    decreases s.len(),
{
    if s.len() == 0 {
        Map::empty()
    } else {
        table_view(s.drop_last()).insert(s.last().0@, s.last().1)
    }
}

/// No key occurs twice in the table.
pub(crate) open spec fn keys_distinct(s: Seq<(String, i32)>) -> bool {
    forall|i: int, j: int| 0 <= i < j < s.len() ==> s[i].0@ != s[j].0@
}

/// With distinct keys, the denoted map holds exactly the table's bindings.
proof fn lemma_table_view(s: Seq<(String, i32)>)
    requires
        keys_distinct(s),
    ensures
        forall|i: int| 0 <= i < s.len() ==> #[trigger] table_view(s).dom().contains(s[i].0@),
        forall|k: Seq<char>|
            #[trigger] table_view(s).dom().contains(k) ==> exists|i: int|
                0 <= i < s.len() && #[trigger] s[i].0@ == k,
        forall|i: int| 0 <= i < s.len() ==> table_view(s)[#[trigger] s[i].0@] == s[i].1,
    decreases s.len(),
{
    if s.len() > 0 {
        let s0 = s.drop_last();
        assert(keys_distinct(s0));
        lemma_table_view(s0);
        assert forall|i: int| 0 <= i < s.len() implies table_view(s)[#[trigger] s[i].0@]
            == s[i].1 by {
            if i < s.len() - 1 {
                assert(s0[i] == s[i]);
                assert(s[i].0@ != s.last().0@);
            }
        }
        assert forall|k: Seq<char>| #[trigger] table_view(s).dom().contains(k) implies exists|
            i: int,
        | 0 <= i < s.len() && #[trigger] s[i].0@ == k by {
            if k != s.last().0@ {
                assert(table_view(s0).dom().contains(k));
                let i = choose|i: int| 0 <= i < s0.len() && #[trigger] s0[i].0@ == k;
                assert(s[i].0@ == k);
            } else {
                assert(s[s.len() - 1].0@ == k);
            }
        }
        assert forall|i: int| 0 <= i < s.len() implies #[trigger] table_view(s).dom().contains(
            s[i].0@,
        ) by {
            if i < s.len() - 1 {
                assert(s0[i].0@ == s[i].0@);
                assert(table_view(s0).dom().contains(s0[i].0@));
            }
        }
    }
}

impl FiniteMapImpl {
    /// Every key is bound at most once.
    #[verifier::type_invariant]
    spec fn wf(self) -> bool {
        keys_distinct(self.table@)
    }

    /// The map this table denotes, keyed by the names' characters.
    pub closed spec fn view(self) -> Map<Seq<char>, i32> {
        table_view(self.table@)
    }

    /// The map with no bindings.
    pub fn empty() -> (r: Self)
        ensures
            r.view() == Map::<Seq<char>, i32>::empty(),
    {
        FiniteMapImpl { table: Vec::new() }
    }

    /// Bind `key` to `value`; a key already bound leaves the map unchanged.
    pub fn bind(&self, key: String, value: i32) -> (r: Self)
        ensures
            self.view().dom().contains(key@) ==> r.view() == self.view(),
            !self.view().dom().contains(key@) ==> r.view() == self.view().insert(key@, value),
    {
        proof {
            use_type_invariant(self);
            lemma_table_view(self.table@);
        }
        let mut fresh: Vec<(String, i32)> = Vec::new();
        let mut i: usize = 0;
        let n = self.table.len();
        let mut seen = false;
        while i < n
            invariant
                n == self.table@.len(),
                i <= n,
                fresh@ == self.table@.take(i as int),
                seen == exists|j: int| 0 <= j < i && #[trigger] self.table@[j].0@ == key@,
            decreases n - i,
        {
            let entry = &self.table[i];
            let same = entry.0 == key;
            let copied = (entry.0.clone(), entry.1);
            fresh.push(copied);
            proof {
                assert(fresh@ =~= self.table@.take(i + 1));
                if same {
                    assert(self.table@[i as int].0@ == key@);
                }
            }
            seen = seen || same;
            i = i + 1;
        }
        proof {
            use_type_invariant(self);
            lemma_table_view(self.table@);
            assert(self.table@.take(n as int) =~= self.table@);
        }
        if seen {
            let r = FiniteMapImpl { table: fresh };
            proof {
                assert(r.table@ == self.table@);
                assert(table_view(self.table@).dom().contains(key@));
            }
            r
        } else {
            let ghost before = fresh@;
            fresh.push((key, value));
            let r = FiniteMapImpl { table: fresh };
            proof {
                assert(r.table@.drop_last() =~= before);
                assert(r.table@.last().0@ == key@);
                assert(table_view(r.table@) == table_view(self.table@).insert(key@, value));
                if table_view(self.table@).dom().contains(key@) {
                    let j = choose|j: int|
                        0 <= j < self.table@.len() && #[trigger] self.table@[j].0@ == key@;
                    assert(false);
                }
            }
            r
        }
    }

    /// The value bound to `key`, if any.
    pub fn lookup(&self, key: String) -> (r: Option<i32>)
        ensures
            self.view().dom().contains(key@) ==> r == Some(self.view()[key@]),
            !self.view().dom().contains(key@) ==> r is None,
    {
        proof {
            use_type_invariant(self);
            lemma_table_view(self.table@);
        }
        let mut i: usize = 0;
        let n = self.table.len();
        while i < n
            invariant
                n == self.table@.len(),
                i <= n,
                forall|j: int| 0 <= j < i ==> #[trigger] self.table@[j].0@ != key@,
            decreases n - i,
        {
            let entry = &self.table[i];
            if entry.0 == key {
                proof {
                    use_type_invariant(self);
                    lemma_table_view(self.table@);
                    assert(self.table@[i as int].0@ == key@);
                    assert(table_view(self.table@).dom().contains(self.table@[i as int].0@));
                    let ghost e = self.table@[i as int];
                    assert(table_view(self.table@)[e.0@] == e.1);
                }
                return Some(entry.1);
            }
            i = i + 1;
        }
        proof {
            use_type_invariant(self);
            lemma_table_view(self.table@);
            if table_view(self.table@).dom().contains(key@) {
                let j = choose|j: int|
                    0 <= j < self.table@.len() && #[trigger] self.table@[j].0@ == key@;
                assert(false);
            }
        }
        None
    }
}

} // verus!
