use vstd::prelude::*;
use core::cmp::Ordering;
use vstd::std_specs::cmp::PartialOrdSpec;

verus! {

/// 1. Scan: the first `Some` that `f` gives over `data`, in order.
pub fn scan<T, R, F: Fn(&T) -> Option<R>>(data: &[T], f: F) -> (r: Option<R>)
    requires
        forall|i: int| 0 <= i < data@.len() ==> #[trigger] f.requires((&data@[i],)),
    ensures
        match r {
            Some(v) => exists|i: int| 0 <= i < data@.len() && #[trigger] f.ensures((&data@[i],), Some(v))
                && forall|j: int| 0 <= j < i ==> #[trigger] f.ensures((&data@[j],), None::<R>),
            None => forall|j: int| 0 <= j < data@.len() ==> #[trigger] f.ensures((&data@[j],), None::<R>),
        },
{
    let mut i: usize = 0;
    while i < data.len()
        invariant
            i <= data@.len(),
            forall|k: int| 0 <= k < data@.len() ==> #[trigger] f.requires((&data@[k],)),
            forall|j: int| 0 <= j < i ==> #[trigger] f.ensures((&data@[j],), None::<R>),
        decreases data@.len() - i,
    {
        let res = f(&data[i]);
        match res {
            Some(v) => {
                assert(f.ensures((&data@[i as int],), Some(v)));
                return Some(v);
            },
            None => {},
        }
        i = i + 1;
    }
    None
}

/// The mix behind `hash`: three xor-shifts around one multiplication,
/// taken modulo 2^64.
pub open spec fn hash_spec(id: usize) -> usize {
    let x0 = id as u64;
    let x1 = x0 ^ (x0 >> 27u64);
    let x2 = x1.wrapping_mul(0x2545F4914F6CDD1Du64);
    let x3 = x2 ^ (x2 >> 28u64);
    (x3 ^ (x3 >> 31u64)) as usize
}

/// 2. Hash: a fast integer mix of `id`.
pub fn hash(id: usize) -> (h: usize)
    ensures
        h == hash_spec(id),
{
    let mut x = id as u64;
    x = x ^ (x >> 27u64);
    x = x.wrapping_mul(0x2545F4914F6CDD1Du64);
    x = x ^ (x >> 28u64);
    (x ^ (x >> 31u64)) as usize
}

/// 3. Fold: `f` applied from `init` over `items` in order. The result is
/// the last state of a chain of states that starts at `init` and in which
/// each step is a possible result of `f` on the previous state and the
/// next item.
pub fn fold<T: Copy, S, F: Fn(S, T) -> S>(items: &[T], init: S, f: F) -> (r: S)
    requires
        forall|s: S, t: T| #[trigger] f.requires((s, t)),
    ensures
        exists|states: Seq<S>| {
            &&& states.len() == items@.len() + 1
            &&& states[0] == init
            &&& states.last() == r
            &&& forall|i: int| 0 <= i < items@.len() ==> #[trigger] f.ensures((states[i], items@[i]), states[i + 1])
        },
{
    let mut acc = init;
    let ghost mut states: Seq<S> = seq![init];
    let mut i: usize = 0;
    while i < items.len()
        invariant
            i <= items@.len(),
            forall|s: S, t: T| #[trigger] f.requires((s, t)),
            states.len() == i + 1,
            states[0] == init,
            states.last() == acc,
            forall|k: int| 0 <= k < i ==> #[trigger] f.ensures((states[k], items@[k]), states[k + 1]),
        decreases items@.len() - i,
    {
        let next = f(acc, items[i]);
        proof {
            let old_states = states;
            states = states.push(next);
            assert forall|k: int| 0 <= k < i + 1 implies #[trigger] f.ensures((states[k], items@[k]), states[k + 1]) by {
                if k < i {
                    assert(states[k] == old_states[k]);
                    assert(states[k + 1] == old_states[k + 1]);
                }
            }
        }
        acc = next;
        i = i + 1;
    }
    acc
}

/// 4. Project: `f` applied to `item`.
pub fn project<T, U, F: Fn(T) -> U>(item: T, f: F) -> (u: U)
    requires
        f.requires((item,)),
    ensures
        f.ensures((item,), u),
{
    f(item)
}

/// 5. Scale: `base * multiplier` modulo 2^64 (the machine word).
pub fn scale(base: usize, multiplier: usize) -> (r: usize)
    ensures
        r == base.wrapping_mul(multiplier),
{
    base.wrapping_mul(multiplier)
}

/// 6. Compare: whether `a` is less than `b`.
pub fn compare<T: PartialOrd>(a: &T, b: &T) -> (r: bool)
    ensures
        T::obeys_partial_cmp_spec() ==> (r <==> a.partial_cmp_spec(b) == Some(Ordering::Less)),
{
    a < b
}

/// 7. Combine: `f` applied to `a` and `b`.
pub fn combine<A, B, C, F: Fn(A, B) -> C>(a: A, b: B, f: F) -> (c: C)
    requires
        f.requires((a, b)),
    ensures
        f.ensures((a, b), c),
{
    f(a, b)
}

/// 8. Order: whether `cmp` puts `a` before `b`.
pub fn order<T, F: Fn(&T, &T) -> Ordering>(a: &T, b: &T, cmp: F) -> (r: bool)
    requires
        cmp.requires((a, b)),
    ensures
        exists|o: Ordering| #[trigger] cmp.ensures((a, b), o) && (r <==> o == Ordering::Less),
{
    let o = cmp(a, b);
    match o {
        Ordering::Less => true,
        Ordering::Equal => false,
        Ordering::Greater => false,
    }
}

} // verus!
