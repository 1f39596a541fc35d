//! What the configuration file declares: nested sets of names, values that
//! differ from host to host, and how both are brought into a flat form.

use vstd::prelude::*;
use crate::text::{
    contains, distinct_keys, first_values, has_key, insert_sorted, key_set, lemma_first_values_dom,
    lemma_first_values_next, name_set, names, strictly_sorted,
};

verus! {

/// A nested set of names.
///
/// The names can be grouped into named or unnamed groups, with arbitrary
/// nesting. The grouping is there for the reader: only the names count.
#[derive(Debug)]
pub enum NestedSet {
    /// A single name.
    Singleton(String),
    /// A group of sets, where each set has a name.
    NamedGroups(Vec<(String, NestedSet)>),
    /// A group of sets, where sets don't have names.
    Array(Vec<NestedSet>),
}

impl NestedSet {
    /// The number of sets directly inside this one.
    pub open spec fn width(self) -> nat {
        match self {
            NestedSet::Singleton(_) => 0,
            NestedSet::NamedGroups(entries) => entries@.len(),
            NestedSet::Array(items) => items@.len(),
        }
    }

    /// The set at place `i` directly inside this one.
    pub open spec fn child(self, i: int) -> NestedSet
        recommends
            0 <= i < self.width(),
    {
        match self {
            NestedSet::Singleton(_) => self,
            NestedSet::NamedGroups(entries) => entries@[i].1,
            NestedSet::Array(items) => items@[i],
        }
    }

    /// How often `x` is named in the first `n` sets inside this one; for a
    /// single name, whether it is `x`.
    pub open spec fn count_first(self, x: Seq<char>, n: nat) -> nat
        decreases self, n,
    {
        match self {
            NestedSet::Singleton(s) => if s@ == x {
                1
            } else {
                0
            },
            NestedSet::NamedGroups(entries) => if n == 0 || n > entries@.len() {
                0
            } else {
                self.count_first(x, (n - 1) as nat) + entries@[n - 1].1.count(x)
            },
            NestedSet::Array(items) => if n == 0 || n > items@.len() {
                0
            } else {
                self.count_first(x, (n - 1) as nat) + items@[n - 1].count(x)
            },
        }
    }

    /// How often `x` is named anywhere in this set.
    pub open spec fn count(self, x: Seq<char>) -> nat
        decreases self, self.width() + 1,
    {
        self.count_first(x, self.width())
    }

    /// The names that occur in this set.
    pub open spec fn elements(self) -> Set<Seq<char>> {
        Set::new(|x: Seq<char>| self.count(x) >= 1)
    }

    /// The names that occur more than once in this set.
    pub open spec fn duplicates(self) -> Set<Seq<char>> {
        Set::new(|x: Seq<char>| self.count(x) >= 2)
    }
}

impl NestedSet {
    /// The names that occur in the first `n` sets inside this one.
    pub open spec fn elements_first(self, n: nat) -> Set<Seq<char>> {
        Set::new(|x: Seq<char>| self.count_first(x, n) >= 1)
    }

    /// The names that occur more than once in the first `n` sets inside
    /// this one.
    pub open spec fn duplicates_first(self, n: nat) -> Set<Seq<char>> {
        Set::new(|x: Seq<char>| self.count_first(x, n) >= 2)
    }
}

/// A flattened [`NestedSet`]: the names that occurred, and those that
/// occurred more than once. Both lists are sorted ascending.
#[derive(Debug)]
pub struct FlattenedSet {
    /// The elements of the set.
    pub elements: Vec<String>,
    /// The elements that occurred more than once.
    pub duplicates: Vec<String>,
}

/// What a flattened set holds after names were added to it: the names it
/// held and the `added` ones; as duplicates those it had, those that were
/// added more than once (`added_twice`), and those that were added and
/// were there before.
pub open spec fn flattened_after(
    before: FlattenedSet,
    added: Set<Seq<char>>,
    added_twice: Set<Seq<char>>,
    after: FlattenedSet,
) -> bool {
    &&& after.wf()
    &&& after.element_set() == before.element_set().union(added)
    &&& after.duplicate_set() == before.duplicate_set().union(added_twice).union(
        before.element_set().intersect(added),
    )
}

/// How often the name `x` occurs in a list of names.
pub open spec fn occurrences(s: Seq<Seq<char>>, x: Seq<char>) -> nat
    decreases s.len(),
{
    if s.len() == 0 {
        0
    } else {
        occurrences(s.drop_last(), x) + if s.last() == x {
            1nat
        } else {
            0nat
        }
    }
}

impl FlattenedSet {
    /// Both lists are sorted and hold nothing twice, and every duplicate is
    /// an element.
    pub open spec fn wf(&self) -> bool {
        &&& strictly_sorted(names(self.elements@))
        &&& strictly_sorted(names(self.duplicates@))
        &&& name_set(self.duplicates@).subset_of(name_set(self.elements@))
    }

    /// The elements, as a set of names.
    pub open spec fn element_set(&self) -> Set<Seq<char>> {
        name_set(self.elements@)
    }

    /// The duplicates, as a set of names.
    pub open spec fn duplicate_set(&self) -> Set<Seq<char>> {
        name_set(self.duplicates@)
    }

    /// An empty set.
    pub fn new() -> (r: Self)
        ensures
            r.wf(),
            r.elements@.len() == 0,
            r.duplicates@.len() == 0,
            r.element_set() == Set::<Seq<char>>::empty(),
            r.duplicate_set() == Set::<Seq<char>>::empty(),
    {
        let r = FlattenedSet { elements: Vec::new(), duplicates: Vec::new() };
        assert(r.element_set() =~= Set::empty());
        assert(r.duplicate_set() =~= Set::empty());
        r
    }

    /// Adds one name. A name that is an element already becomes a
    /// duplicate.
    pub fn insert(&mut self, element: String)
        requires
            old(self).wf(),
        ensures
            final(self).wf(),
            final(self).element_set() == old(self).element_set().insert(element@),
            final(self).duplicate_set() == if old(self).element_set().contains(element@) {
                old(self).duplicate_set().insert(element@)
            } else {
                old(self).duplicate_set()
            },
    {
        if contains(&self.elements, &element) {
            insert_sorted(&mut self.duplicates, element);
            assert(self.element_set() =~= old(self).element_set().insert(element@));
        } else {
            insert_sorted(&mut self.elements, element);
        }
    }

    /// Adds the names of a list, one after the other.
    pub fn extend(&mut self, items: &Vec<String>)
        requires
            old(self).wf(),
        ensures
            flattened_after(
                *old(self),
                name_set(items@),
                Set::new(|x: Seq<char>| occurrences(names(items@), x) >= 2),
                *final(self),
            ),
    {
        let mut i: usize = 0;
        let ghost all = names(items@);
        proof {
            assert(self.element_set() =~= old(self).element_set().union(
                Set::new(|x: Seq<char>| occurrences(all.take(0), x) >= 1),
            ));
            assert(self.duplicate_set() =~= old(self).duplicate_set().union(
                Set::new(|x: Seq<char>| occurrences(all.take(0), x) >= 2),
            ).union(
                old(self).element_set().intersect(
                    Set::new(|x: Seq<char>| occurrences(all.take(0), x) >= 1),
                ),
            ));
        }
        while i < items.len()
            invariant
                i <= items.len(),
                all == names(items@),
                self.wf(),
                self.element_set() == old(self).element_set().union(
                    Set::new(|x: Seq<char>| occurrences(all.take(i as int), x) >= 1),
                ),
                self.duplicate_set() == old(self).duplicate_set().union(
                    Set::new(|x: Seq<char>| occurrences(all.take(i as int), x) >= 2),
                ).union(
                    old(self).element_set().intersect(
                        Set::new(|x: Seq<char>| occurrences(all.take(i as int), x) >= 1),
                    ),
                ),
            decreases items.len() - i,
        {
            self.insert(items[i].clone());
            proof {
                assert(all.take(i + 1).drop_last() =~= all.take(i as int));
                assert(all.take(i + 1).last() == items@[i as int]@);
            }
            i += 1;
            proof {
                assert(self.element_set() =~= old(self).element_set().union(
                    Set::new(|x: Seq<char>| occurrences(all.take(i as int), x) >= 1),
                ));
                assert(self.duplicate_set() =~= old(self).duplicate_set().union(
                    Set::new(|x: Seq<char>| occurrences(all.take(i as int), x) >= 2),
                ).union(
                    old(self).element_set().intersect(
                        Set::new(|x: Seq<char>| occurrences(all.take(i as int), x) >= 1),
                    ),
                ));
            }
        }
        proof {
            assert(all.take(all.len() as int) =~= all);
            lemma_occurrences_contains(all);
            assert(Set::new(|x: Seq<char>| occurrences(all, x) >= 1) =~= name_set(items@));
        }
    }
}

/// A name occurs in a list at least once exactly if the list holds it.
pub proof fn lemma_occurrences_contains(s: Seq<Seq<char>>)
    ensures
        forall|x: Seq<char>| occurrences(s, x) >= 1 <==> s.contains(x),
    decreases s.len(),
{
    if s.len() > 0 {
        lemma_occurrences_contains(s.drop_last());
        assert forall|x: Seq<char>| occurrences(s, x) >= 1 <==> s.contains(x) by {
            if s.drop_last().contains(x) {
                let j = choose|j: int| 0 <= j < s.drop_last().len() && s.drop_last()[j] == x;
                assert(s[j] == x);
            }
            if s.contains(x) {
                let j = choose|j: int| 0 <= j < s.len() && s[j] == x;
                if j < s.len() - 1 {
                    assert(s.drop_last()[j] == x);
                }
            }
            if s.last() == x {
                assert(s[s.len() - 1] == x);
            }
        }
    }
}

impl NestedSet {
    /// Adds every name of this set to `flattened`.
    ///
    /// A name that is met while it is an element already becomes a
    /// duplicate: one that this set names twice, and one that this set
    /// names and that was an element before.
    pub fn flatten_into(&self, flattened: &mut FlattenedSet)
        requires
            old(flattened).wf(),
        ensures
            flattened_after(*old(flattened), self.elements(), self.duplicates(), *final(flattened)),
        decreases self,
    {
        match self {
            NestedSet::Singleton(x) => {
                flattened.insert(x.clone());
                proof {
                    assert(flattened.element_set() =~= old(flattened).element_set().union(
                        self.elements(),
                    ));
                    assert(flattened.duplicate_set() =~= old(flattened).duplicate_set().union(
                        self.duplicates(),
                    ).union(old(flattened).element_set().intersect(self.elements())));
                }
            },
            NestedSet::NamedGroups(entries) => {
                let mut i: usize = 0;
                proof {
                    self.lemma_partial_start(*flattened);
                }
                while i < entries.len()
                    invariant
                        i <= entries.len(),
                        self == NestedSet::NamedGroups(*entries),
                        flattened_after(
                            *old(flattened),
                            self.elements_first(i as nat),
                            self.duplicates_first(i as nat),
                            *flattened,
                        ),
                    decreases entries.len() - i,
                {
                    let ghost before = *flattened;
                    proof {
                        self.lemma_child_smaller(i as int);
                    }
                    entries[i].1.flatten_into(flattened);
                    proof {
                        self.lemma_partial_step(*old(flattened), before, *flattened, i as nat);
                    }
                    i += 1;
                }
                proof {
                    self.lemma_partial_end();
                }
            },
            NestedSet::Array(items) => {
                let mut i: usize = 0;
                proof {
                    self.lemma_partial_start(*flattened);
                }
                while i < items.len()
                    invariant
                        i <= items.len(),
                        self == NestedSet::Array(*items),
                        flattened_after(
                            *old(flattened),
                            self.elements_first(i as nat),
                            self.duplicates_first(i as nat),
                            *flattened,
                        ),
                    decreases items.len() - i,
                {
                    let ghost before = *flattened;
                    proof {
                        self.lemma_child_smaller(i as int);
                    }
                    items[i].flatten_into(flattened);
                    proof {
                        self.lemma_partial_step(*old(flattened), before, *flattened, i as nat);
                    }
                    i += 1;
                }
                proof {
                    self.lemma_partial_end();
                }
            },
        }
    }

    /// A set inside a group is smaller than the group.
    proof fn lemma_child_smaller(self, i: int)
        requires
            0 <= i < self.width(),
        ensures
            decreases_to!(self => self.child(i)),
    {
        match self {
            NestedSet::Singleton(_) => {},
            NestedSet::NamedGroups(entries) => {
                assert(decreases_to!(self => entries));
                assert(decreases_to!(entries => entries@));
                assert(decreases_to!(entries@ => entries@[i]));
                assert(decreases_to!(entries@[i] => entries@[i].1));
            },
            NestedSet::Array(items) => {
                assert(decreases_to!(self => items));
                assert(decreases_to!(items => items@));
                assert(decreases_to!(items@ => items@[i]));
            },
        }
    }

    /// Before any set inside a group was visited, nothing was added.
    proof fn lemma_partial_start(self, start: FlattenedSet)
        requires
            start.wf(),
            !(self is Singleton),
        ensures
            flattened_after(start, self.elements_first(0), self.duplicates_first(0), start),
    {
        assert(start.element_set() =~= start.element_set().union(self.elements_first(0)));
        assert(start.duplicate_set() =~= start.duplicate_set().union(
            self.duplicates_first(0),
        ).union(start.element_set().intersect(self.elements_first(0))));
    }

    /// Visiting the set at place `i` of a group, after the `i` sets before
    /// it.
    proof fn lemma_partial_step(
        self,
        start: FlattenedSet,
        before: FlattenedSet,
        after: FlattenedSet,
        i: nat,
    )
        requires
            !(self is Singleton),
            i < self.width(),
            flattened_after(start, self.elements_first(i), self.duplicates_first(i), before),
            flattened_after(
                before,
                self.child(i as int).elements(),
                self.child(i as int).duplicates(),
                after,
            ),
        ensures
            flattened_after(
                start,
                self.elements_first(i + 1),
                self.duplicates_first(i + 1),
                after,
            ),
    {
        let c = self.child(i as int);
        assert forall|x: Seq<char>|
            self.count_first(x, i + 1) == self.count_first(x, i) + c.count(x) by {}
        assert(after.element_set() =~= start.element_set().union(self.elements_first(i + 1)));
        assert(after.duplicate_set() =~= start.duplicate_set().union(
            self.duplicates_first(i + 1),
        ).union(start.element_set().intersect(self.elements_first(i + 1))));
    }

    /// Once every set inside a group was visited, the whole group was.
    proof fn lemma_partial_end(self)
        ensures
            self.elements_first(self.width()) == self.elements(),
            self.duplicates_first(self.width()) == self.duplicates(),
    {
        assert(self.elements_first(self.width()) =~= self.elements());
        assert(self.duplicates_first(self.width()) =~= self.duplicates());
    }
}

impl NestedSet {
    /// The sets directly inside this one, in their order.
    pub open spec fn children(self) -> Seq<NestedSet> {
        Seq::new(self.width(), |i: int| self.child(i))
    }
}

/// How often `x` is named in a list of sets.
pub open spec fn sum_counts(sets: Seq<NestedSet>, x: Seq<char>) -> nat
    decreases sets.len(),
{
    if sets.len() == 0 {
        0
    } else {
        sum_counts(sets.drop_last(), x) + sets.last().count(x)
    }
}

/// What the first `n` sets inside a group name is the sum over those
/// sets.
proof fn lemma_count_first_is_sum(set: NestedSet, x: Seq<char>, n: nat)
    requires
        !(set is Singleton),
        n <= set.width(),
    ensures
        set.count_first(x, n) == sum_counts(set.children().take(n as int), x),
    decreases n,
{
    let children = set.children();
    if n > 0 {
        lemma_count_first_is_sum(set, x, (n - 1) as nat);
        assert(children.take(n as int).drop_last() =~= children.take(n - 1));
        assert(children.take(n as int).last() == set.child(n - 1));
    }
}

/// Taking one set out of a list takes out what that set names.
proof fn lemma_sum_counts_remove(sets: Seq<NestedSet>, j: int, x: Seq<char>)
    requires
        0 <= j < sets.len(),
    ensures
        sum_counts(sets, x) == sum_counts(sets.remove(j), x) + sets[j].count(x),
    decreases sets.len(),
{
    if j == sets.len() - 1 {
        assert(sets.remove(j) =~= sets.drop_last());
    } else {
        lemma_sum_counts_remove(sets.drop_last(), j, x);
        assert(sets.remove(j).drop_last() =~= sets.drop_last().remove(j));
        assert(sets.remove(j).last() == sets.last());
    }
}

/// The number of times a name occurs in a list of sets does not depend on
/// the order of the list.
pub proof fn lemma_sum_counts_permutation(s1: Seq<NestedSet>, s2: Seq<NestedSet>, x: Seq<char>)
    requires
        s1.to_multiset() == s2.to_multiset(),
    ensures
        sum_counts(s1, x) == sum_counts(s2, x),
    decreases s1.len(),
{
    vstd::seq_lib::to_multiset_len(s1);
    vstd::seq_lib::to_multiset_len(s2);
    if s1.len() > 0 {
        let last = s1.last();
        assert(s1[s1.len() - 1] == last);
        vstd::seq_lib::to_multiset_contains(s1, last);
        vstd::seq_lib::to_multiset_contains(s2, last);
        let j = choose|j: int| 0 <= j < s2.len() && s2[j] == last;
        vstd::seq_lib::to_multiset_remove(s1, s1.len() - 1);
        vstd::seq_lib::to_multiset_remove(s2, j);
        assert(s1.remove(s1.len() - 1) =~= s1.drop_last());
        lemma_sum_counts_permutation(s1.drop_last(), s2.remove(j), x);
        lemma_sum_counts_remove(s2, j, x);
    }
}

/// Two lists of sets that agree place by place in how often they name `x`
/// agree on the whole.
proof fn lemma_sum_counts_pointwise(s1: Seq<NestedSet>, s2: Seq<NestedSet>, x: Seq<char>)
    requires
        s1.len() == s2.len(),
        forall|i: int| 0 <= i < s1.len() ==> s1[i].count(x) == s2[i].count(x),
    ensures
        sum_counts(s1, x) == sum_counts(s2, x),
    decreases s1.len(),
{
    if s1.len() > 0 {
        let n = s1.len() - 1;
        assert(s1.last().count(x) == s2.last().count(x)) by {
            assert(s1[n].count(x) == s2[n].count(x));
        }
        assert forall|i: int| 0 <= i < n implies s1.drop_last()[i].count(x) == s2.drop_last()[
            i
        ].count(x) by {
            assert(s1[i].count(x) == s2[i].count(x));
        }
        lemma_sum_counts_pointwise(s1.drop_last(), s2.drop_last(), x);
    }
}

/// Only the names count, at every depth: two groups of the same width
/// whose sets name every name equally often, place by place, do so too.
/// The sets themselves may differ in how they group their names.
pub proof fn law_flatten_depends_on_counts(a: NestedSet, b: NestedSet)
    requires
        !(a is Singleton),
        !(b is Singleton),
        a.width() == b.width(),
        forall|i: int, x: Seq<char>|
            0 <= i < a.width() ==> #[trigger] a.child(i).count(x) == b.child(i).count(x),
    ensures
        forall|x: Seq<char>| a.count(x) == b.count(x),
        a.elements() == b.elements(),
        a.duplicates() == b.duplicates(),
{
    assert forall|x: Seq<char>| a.count(x) == b.count(x) by {
        lemma_count_first_is_sum(a, x, a.width());
        lemma_count_first_is_sum(b, x, b.width());
        assert(a.children().take(a.width() as int) =~= a.children());
        assert(b.children().take(b.width() as int) =~= b.children());
        assert forall|i: int| 0 <= i < a.children().len() implies a.children()[i].count(x)
            == b.children()[i].count(x) by {
            assert(a.child(i).count(x) == b.child(i).count(x));
        }
        lemma_sum_counts_pointwise(a.children(), b.children(), x);
    }
    assert(a.elements() =~= b.elements());
    assert(a.duplicates() =~= b.duplicates());
}

/// Flattening does not depend on the order of the sets inside a group: two
/// groups that hold the same sets, in whatever order, name every name
/// equally often, and so have the same elements and the same duplicates.
pub proof fn law_flatten_order_independent(a: NestedSet, b: NestedSet)
    requires
        !(a is Singleton),
        !(b is Singleton),
        a.children().to_multiset() == b.children().to_multiset(),
    ensures
        forall|x: Seq<char>| a.count(x) == b.count(x),
        a.elements() == b.elements(),
        a.duplicates() == b.duplicates(),
{
    assert forall|x: Seq<char>| a.count(x) == b.count(x) by {
        lemma_count_first_is_sum(a, x, a.width());
        lemma_count_first_is_sum(b, x, b.width());
        assert(a.children().take(a.width() as int) =~= a.children());
        assert(b.children().take(b.width() as int) =~= b.children());
        lemma_sum_counts_permutation(a.children(), b.children(), x);
    }
    assert(a.elements() =~= b.elements());
    assert(a.duplicates() =~= b.duplicates());
}

/// Value that can have different definitions depending on the hostname of
/// the machine. `K` is the type of a hostname.
#[derive(Debug)]
pub struct PerHostname<K, T> {
    /// Values common to all hostnames.
    pub common: Option<T>,
    /// Values specific to some hostnames. Of two entries for one hostname
    /// the first counts.
    pub hosts: Vec<(K, T)>,
}

/// The value of the first entry for `hostname`, if there is one.
pub open spec fn host_value<T>(hosts: Seq<(String, T)>, hostname: Seq<char>) -> Option<T>
    decreases hosts.len(),
{
    if hosts.len() == 0 {
        None
    } else if hosts[0].0@ == hostname {
        Some(hosts[0].1)
    } else {
        host_value(hosts.drop_first(), hostname)
    }
}

impl<K, T> PerHostname<K, T> {
    /// Nothing declared, for no host.
    pub fn new() -> (r: Self)
        ensures
            r.common is None,
            r.hosts@.len() == 0,
    {
        PerHostname { common: None, hosts: Vec::new() }
    }

    /// Replaces every hostname by what `f` makes of it. The values, their
    /// order and the common value stay.
    pub fn map_keys<K2, F: Fn(K) -> K2>(self, f: F) -> (r: PerHostname<K2, T>)
        requires
            forall|k: K| f.requires((k,)),
        ensures
            r.common == self.common,
            r.hosts@.len() == self.hosts@.len(),
            forall|i: int|
                0 <= i < self.hosts@.len() ==> {
                    &&& f.ensures((self.hosts@[i].0,), #[trigger] r.hosts@[i].0)
                    &&& r.hosts@[i].1 == self.hosts@[i].1
                },
    {
        let ghost all = self.hosts@;
        let mut hosts = self.hosts;
        let mut mapped: Vec<(K2, T)> = Vec::new();
        while hosts.len() > 0
            invariant
                forall|k: K| f.requires((k,)),
                mapped@.len() + hosts@.len() == all.len(),
                hosts@ == all.skip(mapped@.len() as int),
                forall|i: int|
                    0 <= i < mapped@.len() ==> {
                        &&& f.ensures((all[i].0,), #[trigger] mapped@[i].0)
                        &&& mapped@[i].1 == all[i].1
                    },
            decreases hosts.len(),
        {
            let ghost done = mapped@.len() as int;
            let (k, v) = hosts.remove(0);
            assert(hosts@ =~= all.skip(done + 1));
            mapped.push((f(k), v));
        }
        PerHostname { common: self.common, hosts: mapped }
    }
}

impl<T> PerHostname<String, T> {
    /// The value declared for `hostname`, apart from the common one.
    pub fn host(&self, hostname: &String) -> (r: Option<&T>)
        ensures
            match host_value(self.hosts@, hostname@) {
                Some(v) => r == Some(&v),
                None => r is None,
            },
    {
        let mut i: usize = 0;
        assert(self.hosts@.skip(0) =~= self.hosts@);
        while i < self.hosts.len()
            invariant
                i <= self.hosts.len(),
                host_value(self.hosts@, hostname@) == host_value(
                    self.hosts@.skip(i as int),
                    hostname@,
                ),
            decreases self.hosts.len() - i,
        {
            if self.hosts[i].0 == *hostname {
                return Some(&self.hosts[i].1);
            }
            assert(self.hosts@.skip(i as int).drop_first() =~= self.hosts@.skip(i + 1));
            i += 1;
        }
        None
    }
}

/// The value that counts for `hostname` where a host's value takes the
/// place of the common one: that of the host if it has one, else the
/// common one.
pub open spec fn effective_value<T>(declared: PerHostname<String, T>, hostname: Seq<char>) -> Option<
    T,
> {
    match host_value(declared.hosts@, hostname) {
        Some(v) => Some(v),
        None => declared.common,
    }
}

impl<T> PerHostname<String, T> {
    /// The value that counts for `hostname` where a host's value takes the
    /// place of the common one.
    pub fn effective(&self, hostname: &String) -> (r: Option<&T>)
        ensures
            match effective_value(*self, hostname@) {
                Some(v) => r == Some(&v),
                None => r is None,
            },
    {
        match self.host(hostname) {
            Some(v) => Some(v),
            None => self.common.as_ref(),
        }
    }
}

impl<K, T> Default for PerHostname<K, T> {
    fn default() -> (r: Self)
        ensures
            r.common is None,
            r.hosts@.len() == 0,
    {
        PerHostname::new()
    }
}

impl Default for NestedSet {
    /// Returns an empty `Array`.
    fn default() -> (r: Self)
        ensures
            r is Array,
            r.width() == 0,
    {
        NestedSet::Array(Vec::new())
    }
}

/// The names that occur in a nested set, if there is one.
pub open spec fn nested_elements(set: Option<NestedSet>) -> Set<Seq<char>> {
    match set {
        Some(s) => s.elements(),
        None => Set::empty(),
    }
}

/// The names that occur more than once in a nested set, if there is one.
pub open spec fn nested_duplicates(set: Option<NestedSet>) -> Set<Seq<char>> {
    match set {
        Some(s) => s.duplicates(),
        None => Set::empty(),
    }
}

/// The names of a list, if there is one.
pub open spec fn list_elements(list: Option<Vec<String>>) -> Set<Seq<char>> {
    match list {
        Some(v) => name_set(v@),
        None => Set::empty(),
    }
}

/// The names that a list holds more than once, if there is one.
pub open spec fn list_duplicates(list: Option<Vec<String>>) -> Set<Seq<char>> {
    match list {
        Some(v) => Set::new(|x: Seq<char>| occurrences(names(v@), x) >= 2),
        None => Set::empty(),
    }
}

/// The map that a list of pairs stands for, if there is one.
pub open spec fn list_map(list: Option<Vec<(String, String)>>) -> Map<Seq<char>, Seq<char>> {
    match list {
        Some(v) => first_values(v@),
        None => Map::empty(),
    }
}

/// `merged` is what the common section and the section of one host declare
/// together: the elements of both, and as duplicates those of either and
/// every name that both sections declare.
pub open spec fn merged_sections(
    common_elements: Set<Seq<char>>,
    common_duplicates: Set<Seq<char>>,
    host_elements: Set<Seq<char>>,
    host_duplicates: Set<Seq<char>>,
    merged: FlattenedSet,
) -> bool {
    &&& merged.wf()
    &&& merged.element_set() == common_elements.union(host_elements)
    &&& merged.duplicate_set() == common_duplicates.union(host_duplicates).union(
        common_elements.intersect(host_elements),
    )
}

/// The flattened set of a nested set declared per host: the common one and
/// that of `hostname`, each flattened, then merged.
pub fn flatten_per_host(declared: &PerHostname<String, NestedSet>, hostname: &String) -> (r:
    FlattenedSet)
    ensures
        merged_sections(
            nested_elements(declared.common),
            nested_duplicates(declared.common),
            nested_elements(host_value(declared.hosts@, hostname@)),
            nested_duplicates(host_value(declared.hosts@, hostname@)),
            r,
        ),
{
    let mut flattened = FlattenedSet::new();
    if let Some(common) = &declared.common {
        common.flatten_into(&mut flattened);
    }
    if let Some(host) = declared.host(hostname) {
        host.flatten_into(&mut flattened);
    }
    proof {
        let ce = nested_elements(declared.common);
        let cd = nested_duplicates(declared.common);
        let he = nested_elements(host_value(declared.hosts@, hostname@));
        let hd = nested_duplicates(host_value(declared.hosts@, hostname@));
        assert(flattened.element_set() =~= ce.union(he));
        assert(flattened.duplicate_set() =~= cd.union(hd).union(ce.intersect(he)));
    }
    flattened
}

/// The flattened set of a list declared per host: the common one and that
/// of `hostname`, merged.
pub fn merge_per_host(declared: &PerHostname<String, Vec<String>>, hostname: &String) -> (r:
    FlattenedSet)
    ensures
        merged_sections(
            list_elements(declared.common),
            list_duplicates(declared.common),
            list_elements(host_value(declared.hosts@, hostname@)),
            list_duplicates(host_value(declared.hosts@, hostname@)),
            r,
        ),
{
    let mut flattened = FlattenedSet::new();
    if let Some(common) = &declared.common {
        flattened.extend(common);
    }
    if let Some(host) = declared.host(hostname) {
        flattened.extend(host);
    }
    proof {
        let ce = list_elements(declared.common);
        let cd = list_duplicates(declared.common);
        let he = list_elements(host_value(declared.hosts@, hostname@));
        let hd = list_duplicates(host_value(declared.hosts@, hostname@));
        assert(flattened.element_set() =~= ce.union(he));
        assert(flattened.duplicate_set() =~= cd.union(hd).union(ce.intersect(he)));
    }
    flattened
}

/// Adds to `merged` the pairs of `more` whose key it does not hold yet.
pub fn add_missing(merged: &mut Vec<(String, String)>, more: &Vec<(String, String)>)
    requires
        distinct_keys(old(merged)@),
    ensures
        distinct_keys(final(merged)@),
        first_values(final(merged)@) == first_values(more@).union_prefer_right(
            first_values(old(merged)@),
        ),
{
    let ghost start = first_values(merged@);
    let mut i: usize = 0;
    assert(first_values(merged@) =~= first_values(more@.take(0)).union_prefer_right(start));
    while i < more.len()
        invariant
            i <= more.len(),
            distinct_keys(merged@),
            start == first_values(old(merged)@),
            first_values(merged@) == first_values(more@.take(i as int)).union_prefer_right(start),
        decreases more.len() - i,
    {
        let ghost before = merged@;
        proof {
            lemma_first_values_next(more@, i as int);
            lemma_first_values_dom(before);
        }
        if !has_key(merged, &more[i].0) {
            merged.push((more[i].0.clone(), more[i].1.clone()));
            proof {
                assert(merged@.drop_last() =~= before);
                assert forall|a: int, b: int| 0 <= a < b < merged@.len() implies (
                #[trigger] merged@[a]).0@ != (#[trigger] merged@[b]).0@ by {
                    if b == before.len() {
                        assert(before[a].0@ != more@[i as int].0@);
                    }
                }
            }
        }
        i += 1;
        assert(first_values(merged@) =~= first_values(more@.take(i as int)).union_prefer_right(
            start,
        ));
    }
    proof {
        if more.len() > 0 {
            lemma_first_values_next(more@, 0);
        } else {
            assert(more@.take(0) =~= more@);
        }
    }
}

/// The mapping declared per host, merged: the pairs of the common section,
/// where the section of `hostname` has a pair with the same key, that pair
/// instead, and the other pairs of that section. No key comes twice.
pub fn override_per_host(
    declared: &PerHostname<String, Vec<(String, String)>>,
    hostname: &String,
) -> (r: Vec<(String, String)>)
    ensures
        distinct_keys(r@),
        first_values(r@) == list_map(declared.common).union_prefer_right(
            list_map(host_value(declared.hosts@, hostname@)),
        ),
{
    let mut merged: Vec<(String, String)> = Vec::new();
    assert(first_values(merged@) =~= Map::empty());
    if let Some(host) = declared.host(hostname) {
        add_missing(&mut merged, host);
    }
    if let Some(common) = &declared.common {
        add_missing(&mut merged, common);
    }
    assert(first_values(merged@) =~= list_map(declared.common).union_prefer_right(
        list_map(host_value(declared.hosts@, hostname@)),
    ));
    merged
}

/// All values that can be specified in the configuration file.
#[derive(Debug)]
pub struct ConfigData {
    /// The files that should be copied to somewhere on the filesystem, as
    /// pairs of the copy's location and the original file, both absolute
    /// paths. For a single location, the original specified in the section
    /// for a specific host overrides the one of the `common` section.
    pub copies: PerHostname<String, Vec<(String, String)>>,
    /// The files that should be linked from somewhere on the filesystem,
    /// as pairs of the link's location and its target, both absolute
    /// paths. For a single location, the target specified in the section
    /// for a specific host overrides the one of the `common` section.
    pub links: PerHostname<String, Vec<(String, String)>>,
    /// The groups of packages that should be installed: those of the
    /// `common` section and those of the section of the host.
    pub package_groups: PerHostname<String, Vec<String>>,
    /// The packages that should be installed: those of the `common`
    /// section and those of the section of the host.
    pub packages: PerHostname<String, NestedSet>,
    /// The systemd services that should be enabled: those of the `common`
    /// section and those of the section of the host.
    pub services: PerHostname<String, Vec<String>>,
    /// Path to the xkb types file.
    pub xkb_types: Option<String>,
}

/// The configuration of one machine.
#[derive(Debug)]
pub struct Config {
    /// The hostname of the machine.
    pub hostname: String,
    /// The contents of the configuration file.
    pub data: ConfigData,
}

impl Config {
    /// Path to the xkb types file, if one is configured.
    pub fn xkb_types(&self) -> (r: Option<&String>)
        ensures
            match self.data.xkb_types {
                Some(path) => r == Some(&path),
                None => r is None,
            },
    {
        self.data.xkb_types.as_ref()
    }

    /// The copies to make on this machine, each location once.
    pub fn copies(&self) -> (r: Vec<(String, String)>)
        ensures
            distinct_keys(r@),
            first_values(r@) == list_map(self.data.copies.common).union_prefer_right(
                list_map(host_value(self.data.copies.hosts@, self.hostname@)),
            ),
    {
        self.merge_links_or_copies(&self.data.copies)
    }

    /// The links to make on this machine, each location once.
    pub fn links(&self) -> (r: Vec<(String, String)>)
        ensures
            distinct_keys(r@),
            first_values(r@) == list_map(self.data.links.common).union_prefer_right(
                list_map(host_value(self.data.links.hosts@, self.hostname@)),
            ),
    {
        self.merge_links_or_copies(&self.data.links)
    }

    /// The pairs that `paths` declares for this machine: those of the
    /// common section, overridden key by key by those of this host.
    pub fn merge_links_or_copies(&self, paths: &PerHostname<String, Vec<(String, String)>>) -> (r:
        Vec<(String, String)>)
        ensures
            distinct_keys(r@),
            first_values(r@) == list_map(paths.common).union_prefer_right(
                list_map(host_value(paths.hosts@, self.hostname@)),
            ),
    {
        override_per_host(paths, &self.hostname)
    }

    /// The package groups declared for this machine.
    pub fn package_groups(&self) -> (r: FlattenedSet)
        ensures
            merged_sections(
                list_elements(self.data.package_groups.common),
                list_duplicates(self.data.package_groups.common),
                list_elements(host_value(self.data.package_groups.hosts@, self.hostname@)),
                list_duplicates(host_value(self.data.package_groups.hosts@, self.hostname@)),
                r,
            ),
    {
        merge_per_host(&self.data.package_groups, &self.hostname)
    }

    /// The packages declared for this machine.
    pub fn packages(&self) -> (r: FlattenedSet)
        ensures
            merged_sections(
                nested_elements(self.data.packages.common),
                nested_duplicates(self.data.packages.common),
                nested_elements(host_value(self.data.packages.hosts@, self.hostname@)),
                nested_duplicates(host_value(self.data.packages.hosts@, self.hostname@)),
                r,
            ),
    {
        flatten_per_host(&self.data.packages, &self.hostname)
    }

    /// The services declared for this machine.
    pub fn services(&self) -> (r: FlattenedSet)
        ensures
            merged_sections(
                list_elements(self.data.services.common),
                list_duplicates(self.data.services.common),
                list_elements(host_value(self.data.services.hosts@, self.hostname@)),
                list_duplicates(host_value(self.data.services.hosts@, self.hostname@)),
                r,
            ),
    {
        merge_per_host(&self.data.services, &self.hostname)
    }
}

} // verus!
