//! Stable sorting by a textual key.

use vstd::prelude::*;

verus! {

/// `a` comes before `b` in the order of their characters, or is `b`.
pub open spec fn text_le(a: Seq<char>, b: Seq<char>) -> bool
    decreases a.len(),
{
    if a.len() == 0 {
        true
    } else if b.len() == 0 {
        false
    } else if a[0] != b[0] {
        a[0] < b[0]
    } else {
        text_le(a.drop_first(), b.drop_first())
    }
}

/// Each key comes no later than the keys behind it.
pub open spec fn is_ordered<T>(s: Seq<T>, key: spec_fn(T) -> Seq<char>) -> bool {
    forall|i: int, j: int|
        #![trigger s[i], s[j]]
        0 <= i < j < s.len() ==> text_le(key(s[i]), key(s[j]))
}

/// The items of `s` whose key is `k`, in their order.
pub open spec fn with_key<T>(s: Seq<T>, key: spec_fn(T) -> Seq<char>, k: Seq<char>) -> Seq<T> {
    s.filter(|x: T| key(x) == k)
}

/// `after` holds the items of `before` in the order of their keys; items with
/// one key stay in the order in which they were.
pub open spec fn stably_sorted<T>(
    before: Seq<T>,
    after: Seq<T>,
    key: spec_fn(T) -> Seq<char>,
) -> bool {
    &&& is_ordered(after, key)
    &&& forall|k: Seq<char>| #[trigger] with_key(after, key, k) == with_key(before, key, k)
}

pub proof fn lemma_le_reflexive(a: Seq<char>)
    ensures
        text_le(a, a),
    decreases a.len(),
{
    if a.len() > 0 {
        lemma_le_reflexive(a.drop_first());
    }
}

pub proof fn lemma_le_total(a: Seq<char>, b: Seq<char>)
    ensures
        text_le(a, b) || text_le(b, a),
    decreases a.len(),
{
    if a.len() > 0 && b.len() > 0 && a[0] == b[0] {
        lemma_le_total(a.drop_first(), b.drop_first());
    }
}

pub proof fn lemma_le_transitive(a: Seq<char>, b: Seq<char>, c: Seq<char>)
    requires
        text_le(a, b),
        text_le(b, c),
    ensures
        text_le(a, c),
    decreases a.len(),
{
    if a.len() > 0 && b.len() > 0 && c.len() > 0 && a[0] == b[0] && b[0] == c[0] {
        lemma_le_transitive(a.drop_first(), b.drop_first(), c.drop_first());
    }
}

pub proof fn lemma_le_antisymmetric(a: Seq<char>, b: Seq<char>)
    requires
        text_le(a, b),
        text_le(b, a),
    ensures
        a == b,
    decreases a.len(),
{
    if a.len() > 0 && b.len() > 0 {
        lemma_le_antisymmetric(a.drop_first(), b.drop_first());
        assert(a =~= seq![a[0]] + a.drop_first());
        assert(b =~= seq![b[0]] + b.drop_first());
    } else {
        assert(a =~= b);
    }
}

/// Whether `a` comes before `b` in the order of their characters, or is `b`.
fn chars_le(a: &Vec<char>, b: &Vec<char>) -> (r: bool)
    ensures
        r == text_le(a@, b@),
{
    let mut i: usize = 0;
    assert(a@.skip(0) =~= a@);
    assert(b@.skip(0) =~= b@);
    while i < a.len() && i < b.len()
        invariant
            i <= a@.len(),
            i <= b@.len(),
            text_le(a@, b@) == text_le(a@.skip(i as int), b@.skip(i as int)),
        decreases a@.len() - i,
    {
        let x = a[i];
        let y = b[i];
        assert(a@.skip(i as int).drop_first() =~= a@.skip(i + 1));
        assert(b@.skip(i as int).drop_first() =~= b@.skip(i + 1));
        if x != y {
            return x < y;
        }
        i = i + 1;
    }
    i == a.len()
}

proof fn lemma_with_key_add<T>(a: Seq<T>, b: Seq<T>, key: spec_fn(T) -> Seq<char>, k: Seq<char>)
    ensures
        with_key(a + b, key, k) == with_key(a, key, k) + with_key(b, key, k),
{
    Seq::filter_distributes_over_add(a, b, |x: T| key(x) == k);
}

proof fn lemma_with_key_one<T>(x: T, key: spec_fn(T) -> Seq<char>, k: Seq<char>)
    ensures
        with_key(seq![x], key, k) == if key(x) == k {
            seq![x]
        } else {
            Seq::empty()
        },
{
    reveal_with_fuel(Seq::filter, 2);
    assert(seq![x].drop_last() =~= Seq::empty());
    assert(Seq::<T>::empty().push(x) =~= seq![x]);
}

proof fn lemma_with_key_none<T>(s: Seq<T>, key: spec_fn(T) -> Seq<char>, k: Seq<char>)
    requires
        forall|i: int| 0 <= i < s.len() ==> key(#[trigger] s[i]) != k,
    ensures
        with_key(s, key, k) == Seq::<T>::empty(),
    decreases s.len(),
{
    reveal(Seq::filter);
    if s.len() > 0 {
        lemma_with_key_none(s.drop_last(), key, k);
    }
}

/// The items with the key `k` are those of the sequence whose key it is.
proof fn lemma_with_key_member<T>(s: Seq<T>, key: spec_fn(T) -> Seq<char>, k: Seq<char>, x: T)
    ensures
        with_key(s, key, k).contains(x) <==> s.contains(x) && key(x) == k,
    decreases s.len(),
{
    reveal(Seq::filter);
    if s.len() > 0 {
        let r = s.drop_last();
        lemma_with_key_member(r, key, k, x);
        let w = with_key(r, key, k);
        assert(s =~= r.push(s.last()));
        lemma_push_contains(r, s.last(), x);
        lemma_push_contains(w, s.last(), x);
    }
}

proof fn lemma_push_contains<T>(s: Seq<T>, y: T, x: T)
    ensures
        s.push(y).contains(x) <==> s.contains(x) || x == y,
{
    if s.contains(x) {
        let i = s.index_of(x);
        assert(s.push(y)[i] == x);
    }
    assert(s.push(y)[s.len() as int] == y);
    if s.push(y).contains(x) && x != y {
        let i = s.push(y).index_of(x);
        assert(s[i] == x);
    }
}

/// The key that an item is sorted by, next to the item.
pub open spec fn pair_key<T>() -> spec_fn((Vec<char>, T)) -> Seq<char> {
    |x: (Vec<char>, T)| x.0@
}

/// Taking the last item of the two runs that is no smaller than the other keeps, for
/// each key, the order of its items.
proof fn lemma_take_last<T>(
    a: Seq<T>,
    b: Seq<T>,
    done: Seq<T>,
    from_a: bool,
    key: spec_fn(T) -> Seq<char>,
    k: Seq<char>,
)
    requires
        is_ordered(b, key),
        from_a ==> a.len() > 0 && (b.len() > 0 ==> !text_le(key(a.last()), key(b.last()))),
        !from_a ==> b.len() > 0,
    ensures
        ({
            let a2 = if from_a {
                a.drop_last()
            } else {
                a
            };
            let b2 = if from_a {
                b
            } else {
                b.drop_last()
            };
            let x = if from_a {
                a.last()
            } else {
                b.last()
            };
            with_key(a2, key, k) + with_key(b2, key, k) + with_key(seq![x] + done, key, k)
                == with_key(a, key, k) + with_key(b, key, k) + with_key(done, key, k)
        }),
{
    if from_a {
        let x = a.last();
        let a2 = a.drop_last();
        assert(a =~= a2 + seq![x]);
        lemma_with_key_add(a2, seq![x], key, k);
        lemma_with_key_add(seq![x], done, key, k);
        lemma_with_key_one(x, key, k);
        if key(x) == k {
            assert forall|i: int| 0 <= i < b.len() implies key(#[trigger] b[i]) != k by {
                if key(b[i]) == k {
                    lemma_le_reflexive(k);
                    if i < b.len() - 1 {
                        assert(text_le(key(b[i]), key(b[b.len() - 1])));
                    }
                }
            }
            lemma_with_key_none(b, key, k);
        }
        assert(with_key(a2, key, k) + with_key(b, key, k) + with_key(seq![x] + done, key, k)
            =~= with_key(a, key, k) + with_key(b, key, k) + with_key(done, key, k));
    } else {
        let x = b.last();
        let b2 = b.drop_last();
        assert(b =~= b2 + seq![x]);
        lemma_with_key_add(b2, seq![x], key, k);
        lemma_with_key_add(seq![x], done, key, k);
        assert(with_key(a, key, k) + with_key(b2, key, k) + with_key(seq![x] + done, key, k)
            =~= with_key(a, key, k) + with_key(b, key, k) + with_key(done, key, k));
    }
}

/// The items of `back`, the last one first.
pub fn reversed<T>(back: Vec<T>) -> (r: Vec<T>)
    ensures
        r@ == back@.reverse(),
{
    let mut back = back;
    let ghost all = back@;
    let mut out: Vec<T> = Vec::new();
    while back.len() > 0
        invariant
            out@ + back@.reverse() =~= all.reverse(),
        decreases back@.len(),
    {
        let ghost b = back@;
        match back.pop() {
            Some(x) => {
                assert(b.reverse() =~= seq![x] + back@.reverse());
                out.push(x);
            },
            None => {},
        }
    }
    out
}

/// Merges two ordered runs; of items with one key those of `a` come first.
fn merge<T>(a: Vec<(Vec<char>, T)>, b: Vec<(Vec<char>, T)>) -> (r: Vec<(Vec<char>, T)>)
    requires
        is_ordered(a@, pair_key::<T>()),
        is_ordered(b@, pair_key::<T>()),
    ensures
        stably_sorted(a@ + b@, r@, pair_key::<T>()),
{
    let ghost key = pair_key::<T>();
    let ghost whole = a@ + b@;
    let ghost mut done: Seq<(Vec<char>, T)> = Seq::empty();
    let mut a = a;
    let mut b = b;
    let mut back: Vec<(Vec<char>, T)> = Vec::new();
    proof {
        assert forall|k: Seq<char>|
            with_key(a@, key, k) + with_key(b@, key, k) + with_key(done, key, k) == #[trigger]
            with_key(whole, key, k) by {
            lemma_with_key_add(a@, b@, key, k);
            lemma_with_key_none(done, key, k);
            assert(with_key(a@, key, k) + with_key(b@, key, k) + Seq::empty() =~= with_key(
                a@,
                key,
                k,
            ) + with_key(b@, key, k));
        }
    }
    while a.len() > 0 || b.len() > 0
        invariant
            key == pair_key::<T>(),
            is_ordered(a@, key),
            is_ordered(b@, key),
            is_ordered(done, key),
            back@ =~= done.reverse(),
            forall|i: int, j: int|
                #![trigger a@[i], done[j]]
                0 <= i < a@.len() && 0 <= j < done.len() ==> text_le(key(a@[i]), key(done[j])),
            forall|i: int, j: int|
                #![trigger b@[i], done[j]]
                0 <= i < b@.len() && 0 <= j < done.len() ==> text_le(key(b@[i]), key(done[j])),
            forall|k: Seq<char>|
                with_key(a@, key, k) + with_key(b@, key, k) + with_key(done, key, k) == #[trigger]
                with_key(whole, key, k),
        decreases a@.len() + b@.len(),
    {
        let from_a: bool = if a.len() == 0 {
            false
        } else if b.len() == 0 {
            true
        } else {
            !chars_le(&a[a.len() - 1].0, &b[b.len() - 1].0)
        };
        let ghost a0 = a@;
        let ghost b0 = b@;
        let ghost done0 = done;
        let taken = if from_a {
            a.pop()
        } else {
            b.pop()
        };
        match taken {
            Some(x) => {
                proof {
                    done = seq![x] + done0;
                    assert(done.reverse() =~= done0.reverse().push(x));
                    if a0.len() > 0 && b0.len() > 0 {
                        lemma_le_total(key(a0.last()), key(b0.last()));
                    }
                    assert forall|i: int| 0 <= i < a@.len() implies text_le(
                        key(#[trigger] a@[i]),
                        key(x),
                    ) by {
                        assert(a@[i] == a0[i]);
                        if !from_a {
                            lemma_le_reflexive(key(a0.last()));
                            assert(text_le(key(a0[i]), key(a0[a0.len() - 1])));
                            lemma_le_transitive(key(a0[i]), key(a0.last()), key(x));
                        }
                    }
                    assert forall|i: int| 0 <= i < b@.len() implies text_le(
                        key(#[trigger] b@[i]),
                        key(x),
                    ) by {
                        assert(b@[i] == b0[i]);
                        if from_a {
                            lemma_le_reflexive(key(b0.last()));
                            assert(text_le(key(b0[i]), key(b0[b0.len() - 1])));
                            lemma_le_transitive(key(b0[i]), key(b0.last()), key(x));
                        }
                    }
                    assert forall|j: int| 0 <= j < done0.len() implies text_le(
                        key(x),
                        key(#[trigger] done0[j]),
                    ) by {
                        if from_a {
                            assert(a0[a0.len() - 1] == x);
                        } else {
                            assert(b0[b0.len() - 1] == x);
                        }
                    }
                    assert forall|k: Seq<char>|
                        with_key(a@, key, k) + with_key(b@, key, k) + with_key(done, key, k)
                            == #[trigger] with_key(whole, key, k) by {
                        lemma_take_last(a0, b0, done0, from_a, key, k);
                    }
                }
                back.push(x);
            },
            None => {},
        }
    }
    proof {
        assert(done.reverse().reverse() =~= done);
        assert forall|k: Seq<char>| #[trigger]
            with_key(done, key, k) == with_key(whole, key, k) by {
            lemma_with_key_none(a@, key, k);
            lemma_with_key_none(b@, key, k);
            assert(with_key(a@, key, k) + with_key(b@, key, k) + with_key(done, key, k)
                =~= with_key(done, key, k));
        }
    }
    reversed(back)
}

/// The items of `v` in the order of their keys; items with one key stay in their order.
pub fn sort_keyed<T>(v: Vec<(Vec<char>, T)>) -> (r: Vec<(Vec<char>, T)>)
    ensures
        stably_sorted(v@, r@, pair_key::<T>()),
    decreases v@.len(),
{
    if v.len() <= 1 {
        return v;
    }
    let ghost key = pair_key::<T>();
    let ghost all = v@;
    let mut left = v;
    let mid: usize = left.len() / 2;
    let right = left.split_off(mid);
    let ghost l0 = left@;
    let ghost r0 = right@;
    let a = sort_keyed(left);
    let b = sort_keyed(right);
    let ghost a0 = a@;
    let ghost b0 = b@;
    let r = merge(a, b);
    proof {
        assert(all =~= l0 + r0);
        assert forall|k: Seq<char>| #[trigger] with_key(r@, key, k) == with_key(all, key, k) by {
            assert(with_key(r@, key, k) == with_key(a0 + b0, key, k));
            lemma_with_key_add(a0, b0, key, k);
            lemma_with_key_add(l0, r0, key, k);
            assert(with_key(a0, key, k) == with_key(l0, key, k));
            assert(with_key(b0, key, k) == with_key(r0, key, k));
        }
    }
    r
}

/// The items of `v` without their keys.
pub fn without_keys<T>(v: Vec<(Vec<char>, T)>) -> (r: Vec<T>)
    ensures
        r@ == v@.map_values(|x: (Vec<char>, T)| x.1),
{
    let ghost second = |x: (Vec<char>, T)| x.1;
    let ghost all = v@.map_values(second);
    let mut v = v;
    let mut back: Vec<T> = Vec::new();
    while v.len() > 0
        invariant
            v@.map_values(second) + back@.reverse() =~= all,
            second == |x: (Vec<char>, T)| x.1,
        decreases v@.len(),
    {
        let ghost v0 = v@;
        let ghost back0 = back@;
        match v.pop() {
            Some(x) => {
                back.push(x.1);
                assert(v0.map_values(second) =~= v@.map_values(second) + seq![x.1]);
                assert(back@.reverse() =~= seq![x.1] + back0.reverse());
            },
            None => {},
        }
    }
    reversed(back)
}

/// Mapping items to items with the same keys picks the same ones out.
proof fn lemma_with_key_map<A, B>(
    s: Seq<A>,
    g: spec_fn(A) -> B,
    key_a: spec_fn(A) -> Seq<char>,
    key_b: spec_fn(B) -> Seq<char>,
    k: Seq<char>,
)
    requires
        forall|i: int| 0 <= i < s.len() ==> key_a(#[trigger] s[i]) == key_b(g(s[i])),
    ensures
        with_key(s.map_values(g), key_b, k) == with_key(s, key_a, k).map_values(g),
    decreases s.len(),
{
    reveal(Seq::filter);
    let m = s.map_values(g);
    if s.len() > 0 {
        lemma_with_key_map(s.drop_last(), g, key_a, key_b, k);
        assert(m.drop_last() =~= s.drop_last().map_values(g));
        assert(key_a(s[s.len() - 1]) == key_b(g(s[s.len() - 1])));
        let rest = with_key(s.drop_last(), key_a, k);
        assert(rest.push(s.last()).map_values(g) =~= rest.map_values(g).push(g(s.last())));
    }
    assert(with_key(m, key_b, k) =~= with_key(s, key_a, k).map_values(g));
}

/// Sorting items sorts what they are mapped to, where that has the same keys.
pub proof fn lemma_sorted_map<A, B>(
    before: Seq<A>,
    after: Seq<A>,
    g: spec_fn(A) -> B,
    key_a: spec_fn(A) -> Seq<char>,
    key_b: spec_fn(B) -> Seq<char>,
)
    requires
        stably_sorted(before, after, key_a),
        forall|i: int| 0 <= i < before.len() ==> key_a(#[trigger] before[i]) == key_b(g(before[i])),
    ensures
        stably_sorted(before.map_values(g), after.map_values(g), key_b),
{
    assert forall|i: int| 0 <= i < after.len() implies key_a(#[trigger] after[i]) == key_b(
        g(after[i]),
    ) by {
        let k = key_a(after[i]);
        assert(after.contains(after[i]));
        lemma_with_key_member(after, key_a, k, after[i]);
        assert(with_key(after, key_a, k) == with_key(before, key_a, k));
        lemma_with_key_member(before, key_a, k, after[i]);
        let n = before.index_of(after[i]);
        assert(before[n] == after[i]);
    }
    let b = before.map_values(g);
    let a = after.map_values(g);
    assert forall|k: Seq<char>| #[trigger] with_key(a, key_b, k) == with_key(b, key_b, k) by {
        lemma_with_key_map(before, g, key_a, key_b, k);
        lemma_with_key_map(after, g, key_a, key_b, k);
        assert(with_key(after, key_a, k) == with_key(before, key_a, k));
    }
    assert forall|i: int, j: int|
        #![trigger a[i], a[j]]
        0 <= i < j < a.len() implies text_le(key_b(a[i]), key_b(a[j])) by {
        assert(text_le(key_a(after[i]), key_a(after[j])));
    }
}

proof fn lemma_count<T>(s: Seq<T>, key: spec_fn(T) -> Seq<char>, x: T)
    ensures
        s.to_multiset().count(x) == with_key(s, key, key(x)).to_multiset().count(x),
    decreases s.len(),
{
    broadcast use vstd::seq_lib::group_to_multiset_ensures;

    reveal(Seq::filter);
    if s.len() > 0 {
        let r = s.drop_last();
        lemma_count(r, key, x);
        assert(s =~= r.push(s.last()));
    }
}

/// A sorted sequence holds the items that were there before, each as often as before.
pub proof fn law_sorting_keeps_items<T>(
    before: Seq<T>,
    after: Seq<T>,
    key: spec_fn(T) -> Seq<char>,
)
    requires
        stably_sorted(before, after, key),
    ensures
        after.to_multiset() == before.to_multiset(),
        after.len() == before.len(),
{
    broadcast use vstd::seq_lib::group_to_multiset_ensures;

    assert forall|x: T| after.to_multiset().count(x) == before.to_multiset().count(x) by {
        lemma_count(after, key, x);
        lemma_count(before, key, x);
        assert(with_key(after, key, key(x)) == with_key(before, key, key(x)));
    }
    assert(after.to_multiset() =~= before.to_multiset());
    assert(after.to_multiset().len() == after.len());
    assert(before.to_multiset().len() == before.len());
}

proof fn lemma_determined<T>(a: Seq<T>, b: Seq<T>, key: spec_fn(T) -> Seq<char>)
    requires
        is_ordered(a, key),
        is_ordered(b, key),
        forall|k: Seq<char>| #[trigger] with_key(a, key, k) == with_key(b, key, k),
    ensures
        a == b,
    decreases a.len(),
{
    if a.len() == 0 {
        if b.len() > 0 {
            assert(with_key(a, key, key(b.last())) == with_key(b, key, key(b.last())));
            reveal(Seq::filter);
        }
        assert(a =~= b);
    } else {
        lemma_last_key(a, b, key);
        assert(b.len() > 0) by {
            reveal(Seq::filter);
            assert(with_key(a, key, key(a.last())) == with_key(b, key, key(a.last())));
        }
        lemma_last_key(b, a, key);
        let x = a.last();
        let y = b.last();
        lemma_le_antisymmetric(key(x), key(y));
        let a2 = a.drop_last();
        let b2 = b.drop_last();
        assert forall|k: Seq<char>| #[trigger] with_key(a2, key, k) == with_key(b2, key, k) by {
            reveal(Seq::filter);
            assert(with_key(a, key, k) == with_key(b, key, k));
            if k == key(x) {
                assert(with_key(a, key, k).drop_last() =~= with_key(a2, key, k));
                assert(with_key(b, key, k).drop_last() =~= with_key(b2, key, k));
            }
        }
        assert(x == y) by {
            reveal(Seq::filter);
            assert(with_key(a, key, key(x)) == with_key(b, key, key(x)));
            assert(with_key(a, key, key(x)).last() == x);
            assert(with_key(b, key, key(x)).last() == y);
        }
        lemma_determined(a2, b2, key);
        assert(a =~= a2.push(x));
        assert(b =~= b2.push(y));
    }
}

/// The last key of one sequence comes no later than that of the other, when both hold the same.
proof fn lemma_last_key<T>(a: Seq<T>, b: Seq<T>, key: spec_fn(T) -> Seq<char>)
    requires
        a.len() > 0,
        is_ordered(b, key),
        forall|k: Seq<char>| #[trigger] with_key(a, key, k) == with_key(b, key, k),
    ensures
        b.len() > 0,
        text_le(key(a.last()), key(b.last())),
{
    let x = a.last();
    let k = key(x);
    assert(with_key(a, key, k) == with_key(b, key, k));
    assert(a.contains(a[a.len() - 1]));
    lemma_with_key_member(a, key, k, x);
    lemma_with_key_member(b, key, k, x);
    let n = b.index_of(x);
    if n < b.len() - 1 {
        assert(text_le(key(b[n]), key(b[b.len() - 1])));
    } else {
        lemma_le_reflexive(k);
    }
}

/// What comes out of sorting is determined by what went in.
pub proof fn law_sorting_is_determined<T>(
    before: Seq<T>,
    a: Seq<T>,
    b: Seq<T>,
    key: spec_fn(T) -> Seq<char>,
)
    requires
        stably_sorted(before, a, key),
        stably_sorted(before, b, key),
    ensures
        a == b,
{
    assert forall|k: Seq<char>| #[trigger] with_key(a, key, k) == with_key(b, key, k) by {
        assert(with_key(a, key, k) == with_key(before, key, k));
        assert(with_key(b, key, k) == with_key(before, key, k));
    }
    lemma_determined(a, b, key);
}

/// One text comes before another where it is a part of it, from the beginning,
/// or where the first characters in which they differ come in this order.
pub proof fn law_text_order(head: Seq<char>, x: char, a: Seq<char>, y: char, b: Seq<char>)
    ensures
        text_le(head, head + b),
        b.len() > 0 ==> !text_le(head + b, head),
        x != y ==> (text_le(head + seq![x] + a, head + seq![y] + b) <==> x < y),
    decreases head.len(),
{
    let p = head + seq![x] + a;
    let q = head + seq![y] + b;
    if head.len() == 0 {
        assert(head + b =~= b);
        assert(p[0] == x && q[0] == y);
    } else {
        let t = head.drop_first();
        law_text_order(t, x, a, y, b);
        assert((head + b).drop_first() =~= t + b);
        assert(p.drop_first() =~= t + seq![x] + a);
        assert(q.drop_first() =~= t + seq![y] + b);
        assert(p[0] == head[0] && q[0] == head[0]);
        assert((head + b)[0] == head[0]);
    }
}

/// In a sorted sequence no item comes before one with a smaller key.
pub proof fn law_sorted<T>(
    before: Seq<T>,
    after: Seq<T>,
    key: spec_fn(T) -> Seq<char>,
    i: int,
    j: int,
)
    requires
        stably_sorted(before, after, key),
        0 <= i < j < after.len(),
    ensures
        text_le(key(after[i]), key(after[j])),
{
}

} // verus!
