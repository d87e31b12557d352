//! Properties that relate several operations of the object model.

use vstd::prelude::*;

use vstd::set_lib::{lemma_int_range, lemma_len_subset, set_int_range};

use crate::heap::{
    ancestor, get_outcome, resized_array, resized_properties, undefined_slot, has_own, is_ancestor_at, lemma_ancestor_ends, lemma_ancestor_valid,
    link_valid, local_outcome, protos_valid, search_outcome, set_effect, valid_in, with_proto,
    ObjectView, Outcome,
};
use crate::names::decimal;
use crate::object::Object;
use crate::value::{Error, Property, Value};

verus! {

proof fn lemma_search_at(heap: Seq<ObjectView>, o: Object, name: Seq<char>, d: nat)
    requires
        d <= 255,
        forall|j: nat|
            1 <= j <= d ==> (#[trigger] ancestor(heap, o, j)) is Some && !has_own(
                heap,
                ancestor(heap, o, j)->Some_0,
                name,
            ),
    ensures
        search_outcome(heap, ancestor(heap, o, 1), name, o, 0) == search_outcome(
            heap,
            ancestor(heap, o, d + 1),
            name,
            o,
            d,
        ),
    decreases d,
{
    if d > 0 {
        lemma_search_at(heap, o, name, (d - 1) as nat);
        let a = ancestor(heap, o, d)->Some_0;
        assert(ancestor(heap, o, d + 1) == heap[a.index() as int].proto);
    }
}

/// Property lookup: an own property is read from the object itself; otherwise
/// the first of its ancestors that has the property is read, with the object
/// as receiver. When the first `k` objects of the chain (the object and
/// `k - 1` ancestors) lack it, the `k`-th ancestor decides: its own property
/// if `k <= 255`; undefined if the chain has ended, for `k <= 256`; and a
/// chain-depth error if a 256th ancestor exists.
pub proof fn lemma_get_resolution(heap: Seq<ObjectView>, o: Object, name: Seq<char>, k: nat)
    requires
        protos_valid(heap),
        valid_in(heap, o),
        forall|j: nat|
            j < k ==> (#[trigger] ancestor(heap, o, j)) is Some && !has_own(
                heap,
                ancestor(heap, o, j)->Some_0,
                name,
            ),
    ensures
        has_own(heap, o, name) ==> get_outcome(heap, o, name) == Ok::<Outcome, Error>(
            local_outcome(heap, o, name, o),
        ),
        1 <= k <= 255 && ancestor(heap, o, k) is Some && has_own(heap, ancestor(heap, o, k)->Some_0, name)
            ==> get_outcome(heap, o, name) == Ok::<Outcome, Error>(
            local_outcome(heap, ancestor(heap, o, k)->Some_0, name, o),
        ),
        1 <= k <= 256 && ancestor(heap, o, k) is None ==> get_outcome(heap, o, name) == Ok::<
            Outcome,
            Error,
        >(Outcome::Value(Value::Undefined)),
        k == 256 && ancestor(heap, o, k) is Some ==> get_outcome(heap, o, name) == Err::<
            Outcome,
            Error,
        >(Error::PrototypeChainTooDeep),
{
    assert(ancestor(heap, o, 0) == Some(o));
    assert(ancestor(heap, o, 1) == heap[o.index() as int].proto);
    if 1 <= k <= 256 {
        assert(!has_own(heap, o, name));
        lemma_search_at(heap, o, name, (k - 1) as nat);
    }
}

/// Own properties do not depend on the prototype link: replacing it leaves
/// every `has_own_property` answer as it was.
pub proof fn lemma_own_ignores_proto(heap: Seq<ObjectView>, o: Object, proto: Option<Object>, x: Object, name: Seq<char>)
    requires
        valid_in(heap, o),
        valid_in(heap, x),
    ensures
        has_own(heap.update(o.index() as int, with_proto(heap[o.index() as int], proto)), x, name)
            == has_own(heap, x, name),
{
}

proof fn lemma_same_index(heap: Seq<ObjectView>, x: Object, y: Object)
    requires
        valid_in(heap, x),
        valid_in(heap, y),
        x.index() == y.index(),
    ensures
        x == y,
{
    match x {
        Object::ScriptObject(sx) => match y {
            Object::ScriptObject(sy) => {},
            Object::StageObject(sy) => {},
        },
        Object::StageObject(sx) => match y {
            Object::ScriptObject(sy) => {},
            Object::StageObject(sy) => {},
        },
    }
}

proof fn lemma_ancestor_shift(heap: Seq<ObjectView>, o: Object, i: nat, j: nat, t: nat)
    requires
        ancestor(heap, o, i) == ancestor(heap, o, j),
    ensures
        ancestor(heap, o, i + t) == ancestor(heap, o, j + t),
    decreases t,
{
    if t > 0 {
        lemma_ancestor_shift(heap, o, i, j, (t - 1) as nat);
        assert(ancestor(heap, o, i + t) == match ancestor(heap, o, (i + t - 1) as nat) {
            Some(a) => heap[a.index() as int].proto,
            None => None,
        });
        assert(ancestor(heap, o, j + t) == match ancestor(heap, o, (j + t - 1) as nat) {
            Some(a) => heap[a.index() as int].proto,
            None => None,
        });
    }
}

/// Membership in the prototype chain: if `a` is the `k`-th ancestor of `b`,
/// for any `k >= 1`, it is also one within as many links as the heap has
/// objects. A walk of that many steps therefore finds every ancestor, also
/// on a cyclic chain.
pub proof fn lemma_ancestor_within_heap(heap: Seq<ObjectView>, a: Object, b: Object, k: nat)
    requires
        protos_valid(heap),
        valid_in(heap, b),
        k >= 1,
        is_ancestor_at(heap, a, b, k),
    ensures
        exists|m: nat| 1 <= m <= heap.len() && #[trigger] is_ancestor_at(heap, a, b, m),
    decreases k,
{
    let n = heap.len();
    if k <= n {
        assert(is_ancestor_at(heap, a, b, k));
    } else {
        assert forall|x: nat| x <= k implies (#[trigger] ancestor(heap, b, x)) is Some by {
            if ancestor(heap, b, x) is None {
                lemma_ancestor_ends(heap, b, x, k);
            }
        }
        let s = Seq::new((n + 1) as nat, |t: int| ancestor(heap, b, (t + 1) as nat)->Some_0.index() as int);
        assert forall|t: int| 0 <= t < s.len() implies 0 <= #[trigger] s[t] < n by {
            lemma_ancestor_valid(heap, b, (t + 1) as nat);
        }
        lemma_int_range(0, n as int);
        assert(s.to_set().subset_of(set_int_range(0, n as int)));
        lemma_len_subset(s.to_set(), set_int_range(0, n as int));
        if s.no_duplicates() {
            s.unique_seq_to_set();
            assert(false);
        }
        let (i, j) = choose|i: int, j: int| 0 <= i < s.len() && 0 <= j < s.len() && i != j && s[i] == s[j];
        let (i, j) = if i < j { (i, j) } else { (j, i) };
        let xi = ancestor(heap, b, (i + 1) as nat)->Some_0;
        let xj = ancestor(heap, b, (j + 1) as nat)->Some_0;
        lemma_ancestor_valid(heap, b, (i + 1) as nat);
        lemma_ancestor_valid(heap, b, (j + 1) as nat);
        lemma_same_index(heap, xi, xj);
        let p = (j - i) as nat;
        let t = (k - (j + 1)) as nat;
        lemma_ancestor_shift(heap, b, (i + 1) as nat, (j + 1) as nat, t);
        assert((j + 1) as nat + t == k);
        assert(is_ancestor_at(heap, a, b, (k - p) as nat));
        lemma_ancestor_within_heap(heap, a, b, (k - p) as nat);
    }
}

/// Identity of allocations: an object allocated after `o` never shares its
/// identity, so `ptr_eq` tells allocations apart.
pub proof fn lemma_fresh_is_distinct(heap: Seq<ObjectView>, o: Object, fresh: Object)
    requires
        valid_in(heap, o),
        fresh.index() == heap.len(),
    ensures
        fresh.ptr() != o.ptr(),
{
}

/// Writing a property keeps every handle of the heap valid, allocates
/// nothing and touches no prototype link, so identities stay as they were.
pub proof fn lemma_set_keeps_identity(heap: Seq<ObjectView>, o: Object, name: Seq<char>, value: Value, x: Object)
    requires
        valid_in(heap, o),
        valid_in(heap, x),
    ensures
        set_effect(heap, o, name, value).1.len() == heap.len(),
        valid_in(set_effect(heap, o, name, value).1, x),
        set_effect(heap, o, name, value).1[x.index() as int].proto == heap[x.index() as int].proto,
{
}

/// Array and property storage stay in step under a length change: an index
/// that the new length adds is an element holding undefined and a property
/// holding undefined; an index that it drops is neither.
pub proof fn lemma_resize_in_step(
    props: Map<Seq<char>, Property>,
    array: Seq<Value>,
    n: nat,
    i: nat,
)
    ensures
        array.len() <= i < n ==> resized_array(array, n)[i as int] == Value::Undefined
            && resized_properties(props, array.len(), n).contains_key(decimal(i))
            && resized_properties(props, array.len(), n)[decimal(i)] == undefined_slot(),
        n <= i < array.len() ==> !resized_properties(props, array.len(), n).contains_key(decimal(i)),
        resized_array(array, n).len() == n,
{
    if array.len() <= i < n {
        assert(resized_properties(props, array.len(), n).contains_key(decimal(i)));
    }
    if n <= i < array.len() {
        assert(!resized_properties(props, array.len(), n).contains_key(decimal(i)));
    }
}

} // verus!
