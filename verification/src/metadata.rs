//! Shared metadata value types: column descriptors, table schemas, option
//! maps, and the shared table handle.
use vstd::prelude::*;
use crate::text::{str_eq, view_seq};

verus! {

/// One column of a table: its name, its logical data type (kept as the
/// type's SQL spelling), nullability, whether it is a tag (dimension)
/// column, and a free-text comment (possibly empty).
pub struct Column {
    pub name: String,
    pub data_type: String,
    pub is_nullable: bool,
    pub is_tag: bool,
    pub comment: String,
}

/// A table's schema: its columns in declared order, the names of its
/// primary-key columns in key order, and its designated timestamp column.
pub struct TableSchema {
    pub columns: Vec<Column>,
    pub key_columns: Vec<String>,
    pub timestamp_name: String,
}

/// Unordered table options, keyed by option name. Represented as an
/// association list with pairwise-distinct keys; viewed as a map from key
/// to value.
pub struct Options {
    entries: Vec<(String, String)>,
}

/// Whether the keys of an association list are pairwise distinct.
pub open spec fn distinct_keys(s: Seq<(String, String)>) -> bool {
    forall|i: int, j: int| 0 <= i < j < s.len() ==> s[i].0@ != s[j].0@
}

/// The key views of an association list, in entry order.
pub open spec fn key_seq(s: Seq<(String, String)>) -> Seq<Seq<char>> {
    s.map_values(|p: (String, String)| p.0@)
}

/// The map an association list stands for; a later entry overrides an
/// earlier one under the same key.
pub open spec fn entries_map(s: Seq<(String, String)>) -> Map<Seq<char>, Seq<char>>
    decreases s.len(),
{
    if s.len() == 0 {
        Map::empty()
    } else {
        entries_map(s.drop_last()).insert(s.last().0@, s.last().1@)
    }
}

/// A key is in the map exactly when some entry carries it.
pub proof fn lemma_entries_map_dom(s: Seq<(String, String)>)
    ensures
        forall|k: Seq<char>|
            #[trigger] entries_map(s).dom().contains(k) <==> key_seq(s).contains(k),
    decreases s.len(),
{
    if s.len() == 0 {
        assert(forall|k: Seq<char>| !key_seq(s).contains(k)) by {
            assert(key_seq(s).len() == 0);
        }
    } else {
        lemma_entries_map_dom(s.drop_last());
        assert forall|k: Seq<char>|
            #[trigger] entries_map(s).dom().contains(k) <==> key_seq(s).contains(k) by {
            assert(entries_map(s) == entries_map(s.drop_last()).insert(s.last().0@, s.last().1@));
            assert(key_seq(s).len() == s.len());
            if entries_map(s).dom().contains(k) {
                if k == s.last().0@ {
                    assert(key_seq(s)[s.len() - 1] == k);
                    assert(key_seq(s).contains(k));
                } else {
                    assert(entries_map(s.drop_last()).dom().contains(k));
                    assert(key_seq(s.drop_last()).contains(k));
                    let i = choose|i: int|
                        0 <= i < key_seq(s.drop_last()).len() && key_seq(s.drop_last())[i] == k;
                    assert(key_seq(s)[i] == k);
                    assert(key_seq(s).contains(k));
                }
            }
            if key_seq(s).contains(k) {
                let i = choose|i: int| 0 <= i < key_seq(s).len() && key_seq(s)[i] == k;
                if i == s.len() - 1 {
                    assert(entries_map(s).dom().contains(k));
                } else {
                    assert(key_seq(s.drop_last())[i] == k);
                    assert(key_seq(s.drop_last()).contains(k));
                    assert(entries_map(s.drop_last()).dom().contains(k));
                }
            }
        }
    }
}

/// Under distinct keys, the map sends each entry's key to that entry's value.
pub proof fn lemma_entries_map_at(s: Seq<(String, String)>, i: int)
    requires
        distinct_keys(s),
        0 <= i < s.len(),
    ensures
        entries_map(s).dom().contains(s[i].0@),
        entries_map(s)[s[i].0@] == s[i].1@,
    decreases s.len(),
{
    if i == s.len() - 1 {
    } else {
        assert(s[i].0@ != s.last().0@);
        assert(s.drop_last()[i] == s[i]);
        assert(distinct_keys(s.drop_last())) by {
            assert(forall|a: int, b: int|
                0 <= a < b < s.drop_last().len() ==> s.drop_last()[a] == s[a] && s.drop_last()[b]
                    == s[b]);
        }
        lemma_entries_map_at(s.drop_last(), i);
    }
}

/// Under distinct keys, the map has exactly one entry per list entry.
pub proof fn lemma_entries_map_len(s: Seq<(String, String)>)
    requires
        distinct_keys(s),
    ensures
        entries_map(s).len() == s.len(),
        entries_map(s).dom().finite(),
    decreases s.len(),
{
    broadcast use vstd::set::axiom_set_insert_len;

    if s.len() > 0 {
        assert(distinct_keys(s.drop_last())) by {
            assert(forall|a: int, b: int|
                0 <= a < b < s.drop_last().len() ==> s.drop_last()[a] == s[a] && s.drop_last()[b]
                    == s[b]);
        }
        lemma_entries_map_len(s.drop_last());
        lemma_entries_map_dom(s.drop_last());
        assert(!key_seq(s.drop_last()).contains(s.last().0@)) by {
            if key_seq(s.drop_last()).contains(s.last().0@) {
                let i = choose|i: int|
                    0 <= i < key_seq(s.drop_last()).len() && key_seq(s.drop_last())[i] == s.last().0@;
                assert(s[i].0@ == s[s.len() - 1].0@);
            }
        }
        assert(!entries_map(s.drop_last()).dom().contains(s.last().0@));
        assert(entries_map(s).dom() =~= entries_map(s.drop_last()).dom().insert(s.last().0@));
    }
}

/// Removing the entry at an index removes its key from the map, provided
/// the keys are distinct.
pub proof fn lemma_entries_map_remove(s: Seq<(String, String)>, j: int)
    requires
        distinct_keys(s),
        0 <= j < s.len(),
    ensures
        entries_map(s.remove(j)) == entries_map(s).remove(s[j].0@),
    decreases s.len(),
{
    if j == s.len() - 1 {
        assert(s.remove(j) =~= s.drop_last());
        lemma_entries_map_dom(s.drop_last());
        assert(!key_seq(s.drop_last()).contains(s.last().0@)) by {
            if key_seq(s.drop_last()).contains(s.last().0@) {
                let i = choose|i: int|
                    0 <= i < key_seq(s.drop_last()).len() && key_seq(s.drop_last())[i] == s.last().0@;
                assert(s[i].0@ == s[s.len() - 1].0@);
            }
        }
        assert(entries_map(s.drop_last()).insert(s.last().0@, s.last().1@).remove(s.last().0@)
            =~= entries_map(s.drop_last()));
    } else {
        let dl = s.drop_last();
        assert(distinct_keys(dl)) by {
            assert(forall|a: int, b: int| 0 <= a < b < dl.len() ==> dl[a] == s[a] && dl[b] == s[b]);
        }
        assert(dl[j] == s[j]);
        lemma_entries_map_remove(dl, j);
        assert(s.remove(j).drop_last() =~= dl.remove(j));
        assert(s.remove(j).last() == s.last());
        assert(s.remove(j).len() == s.len() - 1);
        assert(entries_map(s.remove(j)) == entries_map(dl.remove(j)).insert(
            s.last().0@,
            s.last().1@,
        ));
        assert(s[j].0@ != s.last().0@);
        assert(entries_map(dl).remove(s[j].0@).insert(s.last().0@, s.last().1@) =~= entries_map(
            dl,
        ).insert(s.last().0@, s.last().1@).remove(s[j].0@));
    }
}

impl View for Options {
    type V = Map<Seq<char>, Seq<char>>;

    closed spec fn view(&self) -> Map<Seq<char>, Seq<char>> {
        entries_map(self.entries@)
    }
}

impl Options {
    /// Validity: the stored keys are pairwise distinct. Established by the
    /// constructor and preserved by every method.
    pub closed spec fn wf(&self) -> bool {
        distinct_keys(self.entries@)
    }

    /// The stored key views, in entry order.
    pub closed spec fn key_views(&self) -> Seq<Seq<char>> {
        key_seq(self.entries@)
    }

    /// An empty option map.
    pub fn new() -> (r: Options)
        ensures
            r@ == Map::<Seq<char>, Seq<char>>::empty(),
            r.wf(),
    {
        Options { entries: Vec::new() }
    }

    fn find_key(entries: &Vec<(String, String)>, key: &String) -> (r: Option<usize>)
        ensures
            match r {
                Some(i) => i < entries@.len() && entries@[i as int].0@ == key@,
                None => forall|j: int| 0 <= j < entries@.len() ==> entries@[j].0@ != key@,
            },
    {
        let n = entries.len();
        let mut i: usize = 0;
        while i < n
            invariant
                i <= n,
                n == entries@.len(),
                forall|j: int| 0 <= j < i ==> entries@[j].0@ != key@,
            decreases n - i,
        {
            if str_eq(entries[i].0.as_str(), key.as_str()) {
                return Some(i);
            }
            i += 1;
        }
        None
    }

    /// Binds `key` to `value`; a binding under the same key is overwritten.
    pub fn insert(&mut self, key: String, value: String)
        requires
            old(self).wf(),
        ensures
            final(self)@ == old(self)@.insert(key@, value@),
            final(self).wf(),
    {
        let ghost kview = key@;
        let ghost vview = value@;
        let ghost s0 = self.entries@;
        match Self::find_key(&self.entries, &key) {
            Some(i) => {
                let _replaced = self.entries.remove(i);
                let ghost s1 = self.entries@;
                self.entries.push((key, value));
                proof {
                    lemma_entries_map_remove(s0, i as int);
                    assert(distinct_keys(s1)) by {
                        assert(forall|a: int|
                            0 <= a < s1.len() ==> s1[a] == (if a < i as int {
                                s0[a]
                            } else {
                                s0[a + 1]
                            }));
                    }
                    assert(forall|j: int| 0 <= j < s1.len() ==> s1[j].0@ != kview) by {
                        assert(forall|a: int, b: int|
                            0 <= a < s0.len() && 0 <= b < s0.len() && a != b ==> (s0[a].0@
                                == kview && s0[b].0@ == kview ==> false));
                    }
                    assert(self.entries@.drop_last() =~= s1);
                    assert(self.entries@.last().0@ == kview);
                    assert(self.entries@.last().1@ == vview);
                    assert(self@ == entries_map(s1).insert(kview, vview));
                    assert(entries_map(s0).remove(kview).insert(kview, vview) =~= entries_map(
                        s0,
                    ).insert(kview, vview));
                    assert(distinct_keys(self.entries@));
                }
            },
            None => {
                self.entries.push((key, value));
                proof {
                    assert(self.entries@.drop_last() =~= s0);
                    assert(self.entries@.last().0@ == kview);
                    assert(self.entries@.last().1@ == vview);
                    assert(distinct_keys(self.entries@));
                }
            },
        }
    }

    /// How many options are set.
    pub fn len(&self) -> (r: usize)
        requires
            self.wf(),
        ensures
            r == self@.len(),
    {
        proof {
            lemma_entries_map_len(self.entries@);
        }
        self.entries.len()
    }

    /// Fresh copies of all option keys, in entry order.
    pub fn keys_vec(&self) -> (r: Vec<String>)
        ensures
            view_seq(r@) == self.key_views(),
    {
        let n = self.entries.len();
        let mut r: Vec<String> = Vec::new();
        let mut i: usize = 0;
        proof {
            assert(view_seq(r@) =~= key_seq(self.entries@.take(0)));
        }
        while i < n
            invariant
                i <= n,
                n == self.entries@.len(),
                view_seq(r@) == key_seq(self.entries@.take(i as int)),
            decreases n - i,
        {
            let ghost r0 = r@;
            let k = self.entries[i].0.clone();
            r.push(k);
            proof {
                let t1 = self.entries@.take(i as int + 1);
                assert(k@ == self.entries@[i as int].0@);
                assert(view_seq(r0).len() == r0.len());
                assert(r0.len() == i as int);
                assert forall|j: int| 0 <= j < r@.len() implies view_seq(r@)[j] == key_seq(t1)[j] by {
                    if j < i as int {
                        assert(r@[j] == r0[j]);
                        assert(view_seq(r@)[j] == r0[j]@);
                        assert(view_seq(r0)[j] == r0[j]@);
                        assert(key_seq(self.entries@.take(i as int))[j] == self.entries@[j].0@);
                        assert(key_seq(t1)[j] == self.entries@[j].0@);
                    } else {
                        assert(r@[j] == k);
                        assert(key_seq(t1)[j] == self.entries@[i as int].0@);
                    }
                }
                assert(view_seq(r@).len() == key_seq(t1).len());
                assert(view_seq(r@) =~= key_seq(t1));
            }
            i += 1;
        }
        proof {
            assert(self.entries@.take(n as int) =~= self.entries@);
        }
        r
    }

    /// The value bound to a key that is known to be present.
    pub fn value_of(&self, key: &String) -> (r: &String)
        requires
            self.wf(),
            self@.dom().contains(key@),
        ensures
            r@ == self@[key@],
    {
        let n = self.entries.len();
        let mut i: usize = 0;
        while i < n
            invariant
                self.wf(),
                i <= n,
                n == self.entries@.len(),
                forall|j: int| 0 <= j < i ==> self.entries@[j].0@ != key@,
            decreases n - i,
        {
            if str_eq(self.entries[i].0.as_str(), key.as_str()) {
                proof {
                    lemma_entries_map_at(self.entries@, i as int);
                }
                return &self.entries[i].1;
            }
            i += 1;
        }
        proof {
            lemma_entries_map_dom(self.entries@);
            let w = choose|w: int|
                0 <= w < key_seq(self.entries@).len() && key_seq(self.entries@)[w] == key@;
            assert(self.entries@[w].0@ == key@);
            assert(false);
        }
        vstd::pervasive::unreached()
    }

    /// For a well-formed option map, the stored keys are exactly the map's
    /// keys, without duplicates, one per binding.
    pub proof fn lemma_key_views_exact(&self)
        requires
            self.wf(),
        ensures
            self.key_views().no_duplicates(),
            forall|k: Seq<char>| #[trigger] self.key_views().contains(k) <==> self@.dom().contains(
                k,
            ),
            self.key_views().len() == self@.len(),
            forall|j: int|
                0 <= j < self.key_views().len() ==> self@.dom().contains(
                    #[trigger] self.key_views()[j],
                ),
    {
        lemma_entries_map_dom(self.entries@);
        lemma_entries_map_len(self.entries@);
        assert(self.key_views().no_duplicates()) by {
            assert(forall|i: int, j: int|
                0 <= i < j < self.entries@.len() ==> key_seq(self.entries@)[i] != key_seq(
                    self.entries@,
                )[j]);
        }
        assert forall|j: int| 0 <= j < self.key_views().len() implies self@.dom().contains(
            self.key_views()[j],
        ) by {
            assert(key_seq(self.entries@).contains(key_seq(self.entries@)[j]));
        }
    }

    /// Distinct well-formed option maps with the same bindings carry the
    /// same multiset of keys.
    pub proof fn lemma_same_map_same_key_multiset(o1: &Options, o2: &Options)
        requires
            o1.wf(),
            o2.wf(),
            o1@ == o2@,
        ensures
            o1.key_views().to_multiset() == o2.key_views().to_multiset(),
    {
        broadcast use vstd::seq_lib::group_to_multiset_ensures;

        lemma_entries_map_dom(o1.entries@);
        lemma_entries_map_dom(o2.entries@);
        let k1 = o1.key_views();
        let k2 = o2.key_views();
        assert(k1.no_duplicates());
        assert(k2.no_duplicates());
        k1.lemma_multiset_has_no_duplicates();
        k2.lemma_multiset_has_no_duplicates();
        assert forall|x: Seq<char>| #[trigger] k1.to_multiset().count(x) == k2.to_multiset().count(
            x,
        ) by {
            assert(k1.contains(x) <==> o1@.dom().contains(x));
            assert(k2.contains(x) <==> o2@.dom().contains(x));
            assert(k1.contains(x) <==> k1.to_multiset().count(x) > 0);
            assert(k2.contains(x) <==> k2.to_multiset().count(x) > 0);
            if k1.contains(x) {
                assert(k1.to_multiset().count(x) == 1);
                assert(k2.to_multiset().count(x) == 1);
            }
        }
        assert(k1.to_multiset() =~= k2.to_multiset());
    }
}

/// A table: its name, schema, storage-engine identifier, and options.
pub struct Table {
    pub name: String,
    pub schema: TableSchema,
    pub engine_type: String,
    pub options: Options,
}

impl Table {
    /// Validity of a table's metadata.
    pub open spec fn wf(&self) -> bool {
        self.options.wf()
    }
}

impl Table {
    /// The table's name.
    pub fn name(&self) -> (r: &String)
        ensures
            r == self.name,
    {
        &self.name
    }

    /// The table's schema.
    pub fn schema(&self) -> (r: &TableSchema)
        ensures
            r == self.schema,
    {
        &self.schema
    }

    /// The identifier of the storage engine serving the table.
    pub fn engine_type(&self) -> (r: &String)
        ensures
            r == self.engine_type,
    {
        &self.engine_type
    }

    /// The table's options.
    pub fn options(&self) -> (r: &Options)
        ensures
            r == self.options,
    {
        &self.options
    }
}

/// A shared, reference-counted handle to a table.
pub type TableRef = std::sync::Arc<Table>;

/// Relies on `Arc::clone`: the returned handle refers to the same value as
/// the argument.
#[verifier::external_body]
pub(crate) fn clone_arc<T>(a: &std::sync::Arc<T>) -> (r: std::sync::Arc<T>)
    ensures
        r == *a,
{
    std::sync::Arc::clone(a)
}

} // verus!
