//! The order in which the entries of a registry are declared: each entry
//! after the entries that it depends on.

use crate::ez_mode_gen::error::SchemaError;
use crate::ez_mode_gen::registry::{EntryView, SchemaRegistry};
use crate::ez_mode_gen::soundness::{insertion_order, is_sound, law_sound_registry_is_ordered};
use vstd::prelude::*;

verus! {

/// Whether every entry depends on indices of entries only.
pub open spec fn deps_in_range(reg: Seq<EntryView>) -> bool {
    forall|i: int, k: int|
        0 <= i < reg.len() && 0 <= k < reg[i].dependencies.len() ==> (
        #[trigger] reg[i].dependencies[k]) < reg.len()
}

/// Whether the dependency at position `k` of the entry `i` is the first in
/// the registry that is the index of no entry: none before it in the entry
/// `i` and none in an entry before is such.
pub open spec fn is_first_invalid(reg: Seq<EntryView>, i: int, k: int) -> bool {
    &&& 0 <= i < reg.len()
    &&& 0 <= k < reg[i].dependencies.len()
    &&& reg[i].dependencies[k] >= reg.len()
    &&& forall|b: int| 0 <= b < k ==> (#[trigger] reg[i].dependencies[b]) < reg.len()
    &&& forall|a: int, b: int|
        0 <= a < i && 0 <= b < reg[a].dependencies.len() ==> (#[trigger] reg[a].dependencies[b])
            < reg.len()
}

/// Whether `dependency` is the first dependency in the registry that is the
/// index of no entry, and `entry` the index of the entry that has it.
pub open spec fn is_first_invalid_dependency(reg: Seq<EntryView>, dependency: u32, entry: u32)
    -> bool {
    exists|k: int|
        #[trigger] is_first_invalid(reg, entry as int, k) && reg[entry as int].dependencies[k]
            == dependency
}

/// Whether everything that the entry `i` depends on is among `done`.
pub open spec fn deps_within(reg: Seq<EntryView>, done: Seq<u32>, i: int) -> bool {
    forall|k: int|
        0 <= k < reg[i].dependencies.len() ==> done.contains(#[trigger] reg[i].dependencies[k])
}

/// Whether the entry `i` can be declared next after `done`: it is not among
/// `done`, and everything that it depends on is.
pub open spec fn is_ready(reg: Seq<EntryView>, done: Seq<u32>, i: int) -> bool {
    !done.contains(i as u32) && deps_within(reg, done, i)
}

/// Whether `order` holds the index of each entry once, each after the
/// indices that its entry depends on.
pub open spec fn is_dependency_order(reg: Seq<EntryView>, order: Seq<u32>) -> bool {
    &&& order.len() == reg.len()
    &&& order.no_duplicates()
    &&& forall|p: int| 0 <= p < order.len() ==> (#[trigger] order[p]) < reg.len()
    &&& forall|p: int|
        0 <= p < order.len() ==> deps_within(reg, #[trigger] order.take(p), order[p] as int)
}

/// Whether `order` takes, at each position, the entry that was registered
/// first among those that can be declared next: no entry with a smaller
/// index can.
pub open spec fn keeps_insertion_order(reg: Seq<EntryView>, order: Seq<u32>) -> bool {
    forall|p: int, j: int|
        0 <= p < order.len() && 0 <= j < order[p] ==> !#[trigger] is_ready(reg, order.take(p), j)
}

/// The first position of `sigma` whose index is not among `done`, at or
/// before a position `p` of which this holds.
proof fn lemma_first_not_done(done: Seq<u32>, sigma: Seq<u32>, p: int) -> (m: int)
    requires
        0 <= p < sigma.len(),
        !done.contains(sigma[p]),
    ensures
        0 <= m <= p,
        !done.contains(sigma[m]),
        forall|q: int| 0 <= q < m ==> done.contains(#[trigger] sigma[q]),
    decreases p,
{
    if exists|q: int| 0 <= q < p && !done.contains(#[trigger] sigma[q]) {
        let q = choose|q: int| 0 <= q < p && !done.contains(#[trigger] sigma[q]);
        lemma_first_not_done(done, sigma, q)
    } else {
        p
    }
}

/// Where fewer indices are done than there are entries and yet no entry can
/// be declared next, the registry has no dependency order: the first entry of
/// such an order that is not done would depend on one that comes later.
pub proof fn lemma_stuck_has_no_order(reg: Seq<EntryView>, done: Seq<u32>, sigma: Seq<u32>)
    requires
        done.len() < reg.len(),
        done.no_duplicates(),
        forall|i: int| 0 <= i < reg.len() ==> !is_ready(reg, done, i),
    ensures
        !is_dependency_order(reg, sigma),
{
    if is_dependency_order(reg, sigma) {
        if forall|p: int| 0 <= p < sigma.len() ==> done.contains(#[trigger] sigma[p]) {
            broadcast use vstd::seq_lib::seq_to_set_is_finite;

            assert(sigma.to_set().subset_of(done.to_set())) by {
                assert forall|x: u32| sigma.to_set().contains(x) implies done.to_set().contains(
                    x,
                ) by {
                    let p = choose|p: int| 0 <= p < sigma.len() && sigma[p] == x;
                    assert(done.contains(sigma[p]));
                }
            }
            vstd::set_lib::lemma_len_subset(sigma.to_set(), done.to_set());
            sigma.unique_seq_to_set();
            done.unique_seq_to_set();
            assert(false);
        }
        let p = choose|p: int| 0 <= p < sigma.len() && !done.contains(#[trigger] sigma[p]);
        let m = lemma_first_not_done(done, sigma, p);
        let r = sigma[m];
        assert(!is_ready(reg, done, r as int));
        let k = choose|k: int|
            0 <= k < reg[r as int].dependencies.len() && !done.contains(
                #[trigger] reg[r as int].dependencies[k],
            );
        let d = reg[r as int].dependencies[k];
        assert(deps_within(reg, sigma.take(m), sigma[m] as int));
        assert(sigma.take(m).contains(d));
        let q = choose|q: int| 0 <= q < sigma.take(m).len() && sigma.take(m)[q] == d;
        assert(sigma[q] == d);
        assert(done.contains(sigma[q]));
        assert(false);
    }
}

/// A list of different `u32` is no longer than there are `u32`.
pub proof fn lemma_distinct_indices_are_few(order: Seq<u32>)
    requires
        order.no_duplicates(),
    ensures
        order.len() <= u32::MAX + 1,
{
    let ints = order.map_values(|x: u32| x as int);
    assert(ints.no_duplicates()) by {
        assert forall|a: int, b: int| 0 <= a < ints.len() && 0 <= b < ints.len() && a != b implies ints[a]
            != ints[b] by {
            assert(order[a] != order[b]);
        }
    }
    ints.unique_seq_to_set();
    vstd::set_lib::lemma_int_range(0, u32::MAX + 1);
    let range = vstd::set_lib::set_int_range(0, u32::MAX + 1);
    assert(ints.to_set().subset_of(range)) by {
        assert forall|x: int| ints.to_set().contains(x) implies range.contains(x) by {
            let p = choose|p: int| 0 <= p < ints.len() && ints[p] == x;
            assert(ints[p] == order[p] as int);
        }
    }
    vstd::set_lib::lemma_len_subset(ints.to_set(), range);
}

/// A dependency order holds the index of every entry.
pub proof fn lemma_order_holds_every_index(reg: Seq<EntryView>, order: Seq<u32>, i: int)
    requires
        is_dependency_order(reg, order),
        0 <= i < reg.len(),
    ensures
        exists|p: int| 0 <= p < order.len() && #[trigger] order[p] == i,
{
    let n = reg.len() as int;
    let ints = order.map_values(|x: u32| x as int);
    assert(ints.no_duplicates()) by {
        assert forall|a: int, b: int| 0 <= a < ints.len() && 0 <= b < ints.len() && a != b implies ints[a]
            != ints[b] by {
            assert(order[a] != order[b]);
        }
    }
    ints.unique_seq_to_set();
    vstd::set_lib::lemma_int_range(0, n);
    let range = vstd::set_lib::set_int_range(0, n);
    assert(ints.to_set().subset_of(range)) by {
        assert forall|x: int| ints.to_set().contains(x) implies range.contains(x) by {
            let p = choose|p: int| 0 <= p < ints.len() && ints[p] == x;
            assert(order[p] < reg.len());
        }
    }
    broadcast use vstd::seq_lib::seq_to_set_is_finite;

    vstd::set_lib::lemma_subset_equality(ints.to_set(), range);
    assert(range.contains(i));
    assert(ints.to_set().contains(i));
    let p = choose|p: int| 0 <= p < ints.len() && ints[p] == i;
    assert(order[p] == i);
}

/// A registry with a dependency order has no more entries than there are
/// `u32`, and its entries depend on indices of entries only.
pub proof fn lemma_order_needs_valid_dependencies(reg: Seq<EntryView>, order: Seq<u32>)
    requires
        is_dependency_order(reg, order),
    ensures
        reg.len() <= u32::MAX + 1,
        deps_in_range(reg),
{
    lemma_distinct_indices_are_few(order);
    assert forall|i: int, k: int|
        0 <= i < reg.len() && 0 <= k < reg[i].dependencies.len() implies (
    #[trigger] reg[i].dependencies[k]) < reg.len() by {
        lemma_order_holds_every_index(reg, order, i);
        let p = choose|p: int| 0 <= p < order.len() && #[trigger] order[p] == i;
        assert(deps_within(reg, order.take(p), order[p] as int));
        assert(order.take(p).contains(reg[i].dependencies[k]));
        let q = choose|q: int|
            0 <= q < order.take(p).len() && order.take(p)[q] == reg[i].dependencies[k];
        assert(order[q] < reg.len());
    }
}

/// In a dependency order, the entry at each position can be declared next
/// after those before it.
proof fn lemma_ready_at(reg: Seq<EntryView>, order: Seq<u32>, q: int)
    requires
        is_dependency_order(reg, order),
        0 <= q < order.len(),
    ensures
        is_ready(reg, order.take(q), order[q] as int),
{
    if order.take(q).contains(order[q]) {
        let p = choose|p: int| 0 <= p < order.take(q).len() && order.take(q)[p] == order[q];
        assert(order[p] == order[q]);
    }
    assert(deps_within(reg, order.take(q), order[q] as int));
}

/// Two dependency orders that keep insertion order agree on their first `p`
/// positions.
proof fn lemma_prefixes_agree(reg: Seq<EntryView>, a: Seq<u32>, b: Seq<u32>, p: nat)
    requires
        is_dependency_order(reg, a),
        keeps_insertion_order(reg, a),
        is_dependency_order(reg, b),
        keeps_insertion_order(reg, b),
        p <= reg.len(),
    ensures
        a.take(p as int) == b.take(p as int),
    decreases p,
{
    if p == 0 {
        assert(a.take(0) =~= b.take(0));
    } else {
        let q = (p - 1) as int;
        lemma_prefixes_agree(reg, a, b, q as nat);
        lemma_ready_at(reg, a, q);
        lemma_ready_at(reg, b, q);
        if a[q] < b[q] {
            assert(!is_ready(reg, b.take(q), a[q] as int));
        }
        if b[q] < a[q] {
            assert(!is_ready(reg, a.take(q), b[q] as int));
        }
        assert(a.take(p as int) =~= a.take(q).push(a[q]));
        assert(b.take(p as int) =~= b.take(q).push(b[q]));
    }
}

/// Two dependency orders of a registry that keep insertion order are the
/// same.
pub proof fn lemma_insertion_order_is_unique(reg: Seq<EntryView>, a: Seq<u32>, b: Seq<u32>)
    requires
        is_dependency_order(reg, a),
        keeps_insertion_order(reg, a),
        is_dependency_order(reg, b),
        keeps_insertion_order(reg, b),
    ensures
        a == b,
{
    lemma_prefixes_agree(reg, a, b, reg.len());
    assert(a.take(reg.len() as int) =~= a);
    assert(b.take(reg.len() as int) =~= b);
}

impl SchemaRegistry {
    /// Whether everything that the entry `i` depends on is marked in `seen`.
    fn deps_are_seen(&self, i: usize, seen: &Vec<bool>) -> (all: bool)
        requires
            i < self@.len(),
            seen@.len() == self@.len(),
            deps_in_range(self@),
        ensures
            all == forall|k: int|
                0 <= k < self@[i as int].dependencies.len() ==> seen@[(
                #[trigger] self@[i as int].dependencies[k]) as int],
    {
        let deps = &self.entries[i].dependencies;
        let mut k: usize = 0;
        while k < deps.len()
            invariant
                k <= deps.len(),
                i < self@.len(),
                deps@ == self@[i as int].dependencies,
                seen@.len() == self@.len(),
                deps_in_range(self@),
                forall|b: int| 0 <= b < k ==> seen@[(#[trigger] deps@[b]) as int],
            decreases deps.len() - k,
        {
            assert(deps@[k as int] == self@[i as int].dependencies[k as int]);
            if !seen[deps[k] as usize] {
                return false;
            }
            k += 1;
        }
        true
    }

    /// The first entry that can be declared next after `done`, whose indices
    /// are those marked in `seen`.
    fn first_ready(&self, seen: &Vec<bool>, Ghost(done): Ghost<Seq<u32>>) -> (found: Option<usize>)
        requires
            self@.len() <= u32::MAX + 1,
            seen@.len() == self@.len(),
            deps_in_range(self@),
            forall|i: int| 0 <= i < self@.len() ==> seen@[i] == done.contains(i as u32),
        ensures
            match found {
                Some(i) => {
                    &&& i < self@.len()
                    &&& is_ready(self@, done, i as int)
                    &&& forall|j: int| 0 <= j < i ==> !is_ready(self@, done, j)
                },
                None => forall|j: int| 0 <= j < self@.len() ==> !is_ready(self@, done, j),
            },
    {
        let n = self.entries.len();
        let mut i: usize = 0;
        while i < n
            invariant
                i <= n,
                n == self@.len(),
                n <= u32::MAX + 1,
                deps_in_range(self@),
                seen@.len() == n,
                forall|i: int| 0 <= i < n ==> seen@[i] == done.contains(i as u32),
                forall|j: int| 0 <= j < i ==> !is_ready(self@, done, j),
            decreases n - i,
        {
            if !seen[i] && self.deps_are_seen(i, seen) {
                return Some(i);
            }
            i += 1;
        }
        None
    }

    /// The first dependency that is the index of no entry, with the index of
    /// the entry that has it.
    fn first_invalid_dependency(&self) -> (found: Option<(u32, u32)>)
        requires
            self@.len() <= u32::MAX + 1,
        ensures
            match found {
                Some((dependency, entry)) => is_first_invalid_dependency(
                    self@,
                    dependency,
                    entry,
                ),
                None => deps_in_range(self@),
            },
    {
        let n = self.entries.len();
        let mut i: usize = 0;
        while i < n
            invariant
                i <= n,
                n == self@.len(),
                n <= u32::MAX + 1,
                forall|a: int, b: int|
                    0 <= a < i && 0 <= b < self@[a].dependencies.len() ==> (
                    #[trigger] self@[a].dependencies[b]) < n,
            decreases n - i,
        {
            let deps = &self.entries[i].dependencies;
            let mut k: usize = 0;
            while k < deps.len()
                invariant
                    k <= deps.len(),
                    i < n,
                    n == self@.len(),
                    n <= u32::MAX + 1,
                    deps@ == self@[i as int].dependencies,
                    forall|b: int| 0 <= b < k ==> (#[trigger] self@[i as int].dependencies[b]) < n,
                    forall|a: int, b: int|
                        0 <= a < i && 0 <= b < self@[a].dependencies.len() ==> (
                        #[trigger] self@[a].dependencies[b]) < n,
                decreases deps.len() - k,
            {
                if deps[k] as usize >= n {
                    assert(is_first_invalid(self@, i as int, k as int));
                    assert(self@[i as int].dependencies[k as int] == deps@[k as int]);
                    assert((i as u32) as int == i as int);
                    let dependency = deps[k];
                    let entry = i as u32;
                    assert(is_first_invalid(self@, entry as int, k as int));
                    assert(self@[entry as int].dependencies[k as int] == dependency);
                    return Some((dependency, entry));
                }
                k += 1;
            }
            i += 1;
        }
        None
    }

    /// The indices of the entries in the order in which they are declared:
    /// each entry after the entries that it depends on, and among the entries
    /// that can come next the one that was registered first.
    ///
    /// The order is given exactly where the registry has a dependency order.
    /// The order of a sound registry is the order of its entries.
    /// Else the call fails: with `RegistryFull` where the registry has more
    /// entries than a `u32` can index; with `InvalidDependency` where an
    /// entry depends on an index that is the index of no entry, naming the
    /// first such dependency; with `CycleDetected` in any other case.
    pub fn topologically_sorted_indices(&self) -> (result: Result<Vec<u32>, SchemaError>)
        ensures
            match result {
                Ok(order) => {
                    &&& is_dependency_order(self@, order@)
                    &&& keeps_insertion_order(self@, order@)
                },
                Err(SchemaError::RegistryFull) => self@.len() > u32::MAX + 1,
                Err(SchemaError::InvalidDependency { dependency, entry }) => {
                    &&& self@.len() <= u32::MAX + 1
                    &&& is_first_invalid_dependency(self@, dependency, entry)
                },
                Err(SchemaError::CycleDetected) => {
                    &&& self@.len() <= u32::MAX + 1
                    &&& deps_in_range(self@)
                },
                Err(_) => false,
            },
            result is Ok <==> exists|order: Seq<u32>| is_dependency_order(self@, order),
            is_sound(self@) ==> result is Ok && result->Ok_0@ == insertion_order(self@),
    {
        proof {
            if is_sound(self@) {
                law_sound_registry_is_ordered(self@);
            }
        }
        let n = self.entries.len();
        if n > 0 && n - 1 > u32::MAX as usize {
            proof {
                assert forall|order: Seq<u32>| !is_dependency_order(self@, order) by {
                    if is_dependency_order(self@, order) {
                        lemma_order_needs_valid_dependencies(self@, order);
                    }
                }
            }
            return Err(SchemaError::RegistryFull);
        }
        match self.first_invalid_dependency() {
            Some((dependency, entry)) => {
                proof {
                    let k = choose|k: int|
                        #[trigger] is_first_invalid(self@, entry as int, k)
                            && self@[entry as int].dependencies[k] == dependency;
                    assert(self@[entry as int].dependencies[k] >= self@.len());
                    assert forall|order: Seq<u32>| !is_dependency_order(self@, order) by {
                        if is_dependency_order(self@, order) {
                            lemma_order_needs_valid_dependencies(self@, order);
                        }
                    }
                }
                return Err(SchemaError::InvalidDependency { dependency, entry });
            },
            None => {},
        }
        let mut seen: Vec<bool> = Vec::new();
        while seen.len() < n
            invariant
                seen@.len() <= n,
                forall|i: int| 0 <= i < seen@.len() ==> !seen@[i],
            decreases n - seen.len(),
        {
            seen.push(false);
        }
        let mut order: Vec<u32> = Vec::new();
        while order.len() < n
            invariant
                n == self@.len(),
                n <= u32::MAX + 1,
                deps_in_range(self@),
                is_sound(self@) ==> is_dependency_order(self@, insertion_order(self@))
                    && keeps_insertion_order(self@, insertion_order(self@)),
                seen@.len() == n,
                order@.len() <= n,
                order@.no_duplicates(),
                forall|i: int| 0 <= i < n ==> seen@[i] == order@.contains(i as u32),
                forall|p: int| 0 <= p < order@.len() ==> (#[trigger] order@[p]) < n,
                forall|p: int|
                    0 <= p < order@.len() ==> deps_within(
                        self@,
                        #[trigger] order@.take(p),
                        order@[p] as int,
                    ),
                keeps_insertion_order(self@, order@),
            decreases n - order.len(),
        {
            let i = match self.first_ready(&seen, Ghost(order@)) {
                Some(i) => i,
                None => {
                    proof {
                        assert forall|sigma: Seq<u32>| !is_dependency_order(self@, sigma) by {
                            lemma_stuck_has_no_order(self@, order@, sigma);
                        }
                    }
                    return Err(SchemaError::CycleDetected);
                },
            };
            let ghost before = order@;
            seen.set(i, true);
            order.push(i as u32);
            proof {
                assert forall|p: int| 0 <= p <= before.len() implies #[trigger] order@.take(p)
                    == before.take(p) by {
                    assert(order@.take(p) =~= before.take(p));
                }
                assert(before.take(before.len() as int) =~= before);
                assert forall|p: int| 0 <= p < order@.len() implies deps_within(
                    self@,
                    #[trigger] order@.take(p),
                    order@[p] as int,
                ) by {
                    if p < before.len() {
                        assert(order@.take(p) == before.take(p));
                        assert(deps_within(self@, before.take(p), before[p] as int));
                    }
                }
                assert forall|p: int, j: int|
                    0 <= p < order@.len() && 0 <= j < order@[p] implies !#[trigger] is_ready(
                    self@,
                    order@.take(p),
                    j,
                ) by {
                    if p < before.len() {
                        assert(order@.take(p) == before.take(p));
                        assert(!is_ready(self@, before.take(p), j));
                    }
                }
                assert forall|x: int| 0 <= x < n implies seen@[x] == order@.contains(x as u32) by {
                    if x == i {
                        assert(order@[before.len() as int] == i as u32);
                    } else if before.contains(x as u32) {
                        let q = choose|q: int| 0 <= q < before.len() && before[q] == x as u32;
                        assert(order@[q] == x as u32);
                    } else if order@.contains(x as u32) {
                        let q = choose|q: int| 0 <= q < order@.len() && order@[q] == x as u32;
                        if q < before.len() {
                            assert(before[q] == x as u32);
                        }
                    }
                }
                assert(order@.no_duplicates()) by {
                    assert forall|a: int, b: int|
                        0 <= a < order@.len() && 0 <= b < order@.len() && a != b implies order@[a]
                        != order@[b] by {
                        if a < before.len() && b < before.len() {
                            assert(before[a] != before[b]);
                        } else if a < before.len() {
                            assert(before.contains(before[a]));
                        } else if b < before.len() {
                            assert(before.contains(before[b]));
                        }
                    }
                }
            }
        }
        proof {
            assert(is_dependency_order(self@, order@));
            if is_sound(self@) {
                lemma_insertion_order_is_unique(self@, order@, insertion_order(self@));
            }
        }
        Ok(order)
    }
}

} // verus!
