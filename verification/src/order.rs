//! Lexicographic order on integer key sequences and a stable sort by key.
//!
//! Keys are sequences of `u32`: a pair `(row, column)` becomes a two-element
//! key, a name becomes the code points of its characters. Comparing such keys
//! lexicographically is the order that tuples and strings have in Rust.

use vstd::prelude::*;

verus! {

broadcast use vstd::seq_lib::group_seq_properties;

/// `a` precedes or equals `b` in lexicographic order.
pub open spec fn lex_le(a: Seq<u32>, b: Seq<u32>) -> bool
    decreases a.len(),
{
    if a.len() == 0 {
        true
    } else if b.len() == 0 {
        false
    } else if a[0] < b[0] {
        true
    } else if a[0] > b[0] {
        false
    } else {
        lex_le(a.drop_first(), b.drop_first())
    }
}

/// Every key is at most itself.
pub proof fn lemma_lex_le_reflexive(a: Seq<u32>)
    ensures
        lex_le(a, a),
    decreases a.len(),
{
    if a.len() > 0 {
        lemma_lex_le_reflexive(a.drop_first());
    }
}

/// Any two keys are comparable.
pub proof fn lemma_lex_le_total(a: Seq<u32>, b: Seq<u32>)
    ensures
        lex_le(a, b) || lex_le(b, a),
    decreases a.len(),
{
    if a.len() > 0 && b.len() > 0 && a[0] == b[0] {
        lemma_lex_le_total(a.drop_first(), b.drop_first());
    }
}

/// Lexicographic order is transitive.
pub proof fn lemma_lex_le_transitive(a: Seq<u32>, b: Seq<u32>, c: Seq<u32>)
    requires
        lex_le(a, b),
        lex_le(b, c),
    ensures
        lex_le(a, c),
    decreases a.len(),
{
    if a.len() > 0 && b.len() > 0 && c.len() > 0 && a[0] == b[0] && b[0] == c[0] {
        lemma_lex_le_transitive(a.drop_first(), b.drop_first(), c.drop_first());
    }
}

/// Two keys that precede each other are equal.
pub proof fn lemma_lex_le_antisymmetric(a: Seq<u32>, b: Seq<u32>)
    requires
        lex_le(a, b),
        lex_le(b, a),
    ensures
        a == b,
    decreases a.len(),
{
    if a.len() > 0 {
        lemma_lex_le_antisymmetric(a.drop_first(), b.drop_first());
        assert(a =~= seq![a[0]] + a.drop_first());
        assert(b =~= seq![b[0]] + b.drop_first());
    } else {
        assert(b =~= Seq::<u32>::empty());
    }
}

/// Decides `lex_le` on two key vectors.
pub fn lex_le_exec(a: &Vec<u32>, b: &Vec<u32>) -> (r: bool)
    ensures
        r == lex_le(a@, b@),
{
    let mut i: usize = 0;
    while i < a.len() && i < b.len()
        invariant
            i <= a.len(),
            i <= b.len(),
            lex_le(a@, b@) == lex_le(a@.skip(i as int), b@.skip(i as int)),
        decreases a.len() - i,
    {
        if a[i] < b[i] {
            return true;
        }
        if a[i] > b[i] {
            return false;
        }
        assert(a@.skip(i as int).drop_first() =~= a@.skip(i + 1));
        assert(b@.skip(i as int).drop_first() =~= b@.skip(i + 1));
        i = i + 1;
    }
    i == a.len()
}

/// The elements of `s` whose key is `k`, in their order in `s`.
pub open spec fn with_key<T>(s: Seq<T>, key: spec_fn(T) -> Seq<u32>, k: Seq<u32>) -> Seq<T> {
    s.filter(key_is(key, k))
}

/// The predicate "has key `k`".
pub open spec fn key_is<T>(key: spec_fn(T) -> Seq<u32>, k: Seq<u32>) -> spec_fn(T) -> bool {
    |x: T| key(x) == k
}

/// `s` is in nondecreasing key order.
pub open spec fn sorted_by_key<T>(s: Seq<T>, key: spec_fn(T) -> Seq<u32>) -> bool {
    forall|i: int, j: int| 0 <= i < j < s.len() ==> lex_le(#[trigger] key(s[i]), #[trigger] key(s[j]))
}

/// `t` is a stable sort of `s`: its keys are in order, and the elements that
/// share any one key appear in `t` exactly as they appear in `s`.
pub open spec fn is_stable_sort<T>(t: Seq<T>, s: Seq<T>, key: spec_fn(T) -> Seq<u32>) -> bool {
    &&& sorted_by_key(t, key)
    &&& forall|k: Seq<u32>| #[trigger] with_key(t, key, k) == with_key(s, key, k)
}

proof fn lemma_with_key_push<T>(s: Seq<T>, key: spec_fn(T) -> Seq<u32>, k: Seq<u32>, x: T)
    ensures
        with_key(s.push(x), key, k) == if key(x) == k {
            with_key(s, key, k).push(x)
        } else {
            with_key(s, key, k)
        },
{
    s.lemma_filter_push(x, key_is(key, k));
}

proof fn lemma_with_key_add<T>(a: Seq<T>, b: Seq<T>, key: spec_fn(T) -> Seq<u32>, k: Seq<u32>)
    ensures
        with_key(a + b, key, k) == with_key(a, key, k) + with_key(b, key, k),
{
    Seq::filter_distributes_over_add(a, b, key_is(key, k));
}

proof fn lemma_with_key_none<T>(s: Seq<T>, key: spec_fn(T) -> Seq<u32>, k: Seq<u32>)
    requires
        forall|i: int| 0 <= i < s.len() ==> key(#[trigger] s[i]) != k,
    ensures
        with_key(s, key, k) == Seq::<T>::empty(),
    decreases s.len(),
{
    if s.len() > 0 {
        lemma_with_key_none(s.drop_last(), key, k);
        assert(s =~= s.drop_last().push(s.last()));
        lemma_with_key_push(s.drop_last(), key, k, s.last());
    } else {
        reveal(Seq::filter);
    }
}

/// Inserting `x` after every element whose key does not exceed its own keeps
/// a stable sort stable.
proof fn lemma_insert_keeps_stable<T>(
    t: Seq<T>,
    s: Seq<T>,
    x: T,
    j: int,
    key: spec_fn(T) -> Seq<u32>,
)
    requires
        is_stable_sort(t, s, key),
        0 <= j <= t.len(),
        forall|m: int| 0 <= m < j ==> lex_le(key(#[trigger] t[m]), key(x)),
        forall|m: int| j <= m < t.len() ==> !lex_le(key(#[trigger] t[m]), key(x)),
    ensures
        is_stable_sort(t.insert(j, x), s.push(x), key),
{
    let t2 = t.insert(j, x);
    let lo = t.subrange(0, j);
    let hi = t.subrange(j, t.len() as int);
    assert(t =~= lo + hi);
    assert(t2 =~= lo + seq![x] + hi);
    assert forall|a: int, b: int| 0 <= a < b < t2.len() implies lex_le(
        #[trigger] key(t2[a]),
        #[trigger] key(t2[b]),
    ) by {
        if b < j {
            assert(t2[a] == t[a] && t2[b] == t[b]);
        } else if b == j {
            assert(t2[a] == t[a]);
        } else if a < j {
            assert(t2[a] == t[a] && t2[b] == t[b - 1]);
            lemma_lex_le_total(key(t[b - 1]), key(x));
            lemma_lex_le_transitive(key(t[a]), key(x), key(t[b - 1]));
        } else if a == j {
            assert(t2[b] == t[b - 1]);
            lemma_lex_le_total(key(t[b - 1]), key(x));
        } else {
            assert(t2[a] == t[a - 1] && t2[b] == t[b - 1]);
        }
    }
    assert forall|k: Seq<u32>| #[trigger] with_key(t2, key, k) == with_key(s.push(x), key, k) by {
        lemma_with_key_add(lo + seq![x], hi, key, k);
        lemma_with_key_add(lo, seq![x], key, k);
        lemma_with_key_add(lo, hi, key, k);
        lemma_with_key_push(s, key, k, x);
        lemma_with_key_push(Seq::<T>::empty(), key, k, x);
        assert(seq![x] =~= Seq::<T>::empty().push(x));
        lemma_with_key_none(Seq::<T>::empty(), key, k);
        if key(x) == k {
            assert forall|m: int| 0 <= m < hi.len() implies key(#[trigger] hi[m]) != k by {
                assert(hi[m] == t[j + m]);
                lemma_lex_le_reflexive(k);
            }
            lemma_with_key_none(hi, key, k);
            assert(with_key(t2, key, k) =~= with_key(lo, key, k).push(x));
            assert(with_key(t, key, k) =~= with_key(lo, key, k));
        } else {
            assert(with_key(t2, key, k) =~= with_key(lo, key, k) + with_key(hi, key, k));
        }
    }
}

/// An element of `s` with key `k` is among `with_key(s, key, k)`, and every
/// element there has key `k` and is an element of `s`.
proof fn lemma_with_key_members<T>(s: Seq<T>, key: spec_fn(T) -> Seq<u32>, k: Seq<u32>)
    ensures
        forall|i: int| 0 <= i < s.len() && key(s[i]) == k ==> #[trigger] with_key(s, key, k).contains(s[i]),
        forall|x: T| #[trigger] with_key(s, key, k).contains(x) ==> s.contains(x) && key(x) == k,
{
    s.filter_lemma(key_is(key, k));
    assert forall|x: T| #[trigger] with_key(s, key, k).contains(x) implies s.contains(x) && key(x) == k by {
        s.lemma_filter_contains_rev(key_is(key, k), x);
        let i = choose|i: int| 0 <= i < with_key(s, key, k).len() && with_key(s, key, k)[i] == x;
        assert(key_is(key, k)(with_key(s, key, k)[i]));
    }
}

/// The last element of a nonempty sorted sequence has the greatest key.
proof fn lemma_sorted_last_max<T>(s: Seq<T>, key: spec_fn(T) -> Seq<u32>, x: T)
    requires
        sorted_by_key(s, key),
        s.contains(x),
    ensures
        lex_le(key(x), key(s.last())),
{
    let i = choose|i: int| 0 <= i < s.len() && s[i] == x;
    if i < s.len() - 1 {
        assert(lex_le(key(s[i]), key(s[s.len() - 1])));
    } else {
        lemma_lex_le_reflexive(key(x));
    }
}

proof fn lemma_sorted_equal_groups<T>(a: Seq<T>, b: Seq<T>, key: spec_fn(T) -> Seq<u32>)
    requires
        sorted_by_key(a, key),
        sorted_by_key(b, key),
        forall|k: Seq<u32>| #[trigger] with_key(a, key, k) == with_key(b, key, k),
    ensures
        a == b,
    decreases a.len() + b.len(),
{
    if a.len() == 0 && b.len() == 0 {
        assert(a =~= b);
    } else if a.len() == 0 || b.len() == 0 {
        let (c, d) = if a.len() == 0 { (b, a) } else { (a, b) };
        let k = key(c[0]);
        lemma_with_key_members(c, key, k);
        lemma_with_key_members(d, key, k);
        assert(with_key(c, key, k).contains(c[0]));
        assert(with_key(c, key, k) == with_key(d, key, k));
        assert(d.contains(c[0]));
    } else {
        let ka = key(a.last());
        let kb = key(b.last());
        lemma_with_key_members(a, key, ka);
        lemma_with_key_members(b, key, ka);
        lemma_with_key_members(a, key, kb);
        lemma_with_key_members(b, key, kb);
        assert(with_key(a, key, ka).contains(a.last()));
        assert(with_key(b, key, ka).contains(a.last()));
        lemma_sorted_last_max(b, key, a.last());
        assert(with_key(b, key, kb).contains(b.last()));
        assert(with_key(a, key, kb).contains(b.last()));
        lemma_sorted_last_max(a, key, b.last());
        lemma_lex_le_antisymmetric(ka, kb);
        let a0 = a.drop_last();
        let b0 = b.drop_last();
        assert(a =~= a0.push(a.last()));
        assert(b =~= b0.push(b.last()));
        lemma_with_key_push(a0, key, ka, a.last());
        lemma_with_key_push(b0, key, ka, b.last());
        assert forall|k: Seq<u32>| #[trigger] with_key(a0, key, k) == with_key(b0, key, k) by {
            lemma_with_key_push(a0, key, k, a.last());
            lemma_with_key_push(b0, key, k, b.last());
            if k == ka {
                assert(with_key(a0, key, k) =~= with_key(a, key, k).drop_last());
                assert(with_key(b0, key, k) =~= with_key(b, key, k).drop_last());
            }
        }
        assert(with_key(a, key, ka).last() == a.last());
        assert(with_key(b, key, ka).last() == b.last());
        assert(sorted_by_key(a0, key));
        assert(sorted_by_key(b0, key));
        lemma_sorted_equal_groups(a0, b0, key);
    }
}

/// A sequence has one stable sort by a given key: any two stable sorts of
/// the same sequence are equal.
pub proof fn law_stable_sort_unique<T>(a: Seq<T>, b: Seq<T>, s: Seq<T>, key: spec_fn(T) -> Seq<u32>)
    requires
        is_stable_sort(a, s, key),
        is_stable_sort(b, s, key),
    ensures
        a == b,
{
    assert forall|k: Seq<u32>| #[trigger] with_key(a, key, k) == with_key(b, key, k) by {
        assert(with_key(a, key, k) == with_key(s, key, k));
        assert(with_key(b, key, k) == with_key(s, key, k));
    }
    lemma_sorted_equal_groups(a, b, key);
}

proof fn lemma_count_in_group<T>(s: Seq<T>, key: spec_fn(T) -> Seq<u32>, x: T)
    ensures
        s.to_multiset().count(x) == with_key(s, key, key(x)).to_multiset().count(x),
    decreases s.len(),
{
    broadcast use vstd::seq_lib::group_to_multiset_ensures;

    if s.len() == 0 {
        reveal(Seq::filter);
    } else {
        let s0 = s.drop_last();
        lemma_count_in_group(s0, key, x);
        assert(s =~= s0.push(s.last()));
        lemma_with_key_push(s0, key, key(x), s.last());
    }
}

/// A stable sort holds the same elements as the sequence it sorts, each as
/// many times.
pub proof fn law_stable_sort_permutes<T>(t: Seq<T>, s: Seq<T>, key: spec_fn(T) -> Seq<u32>)
    requires
        is_stable_sort(t, s, key),
    ensures
        t.to_multiset() == s.to_multiset(),
{
    assert forall|x: T| t.to_multiset().count(x) == s.to_multiset().count(x) by {
        lemma_count_in_group(t, key, x);
        lemma_count_in_group(s, key, x);
        assert(with_key(t, key, key(x)) == with_key(s, key, key(x)));
    }
    assert(t.to_multiset() =~= s.to_multiset());
}

/// Sorts `items` stably by key, where `keys[i]` holds the key of `items[i]`;
/// the keys travel with their items.
pub(crate) fn stable_sort_by_keys<T>(
    items: &mut Vec<T>,
    keys: &mut Vec<Vec<u32>>,
    Ghost(key): Ghost<spec_fn(T) -> Seq<u32>>,
)
    requires
        old(keys)@.len() == old(items)@.len(),
        forall|i: int| 0 <= i < old(items)@.len() ==> (#[trigger] old(keys)@[i])@ == key(old(items)@[i]),
    ensures
        is_stable_sort(final(items)@, old(items)@, key),
        final(keys)@.len() == final(items)@.len(),
        forall|i: int| 0 <= i < final(items)@.len() ==> (#[trigger] final(keys)@[i])@ == key(final(items)@[i]),
{
    let ghost orig = items@;
    let n = items.len();
    proof {
        reveal(Seq::filter);
        assert forall|k: Seq<u32>| #[trigger] with_key(items@.subrange(0, 0), key, k) == with_key(orig.subrange(0, 0), key, k) by {
            assert(items@.subrange(0, 0) =~= orig.subrange(0, 0));
        }
    }
    let mut i: usize = 0;
    while i < n
        invariant
            n == orig.len(),
            items@.len() == n,
            keys@.len() == n,
            i <= n,
            forall|m: int| 0 <= m < n ==> (#[trigger] keys@[m])@ == key(items@[m]),
            is_stable_sort(items@.subrange(0, i as int), orig.subrange(0, i as int), key),
            items@.subrange(i as int, n as int) == orig.subrange(i as int, n as int),
        decreases n - i,
    {
        let ghost t = items@.subrange(0, i as int);
        let x = items.remove(i);
        let kx = keys.remove(i);
        assert(x == orig[i as int]) by {
            assert(orig.subrange(i as int, n as int)[0] == orig[i as int]);
        }
        let mut j: usize = i;
        while j > 0 && !lex_le_exec(&keys[j - 1], &kx)
            invariant
                0 <= j <= i,
                i < n,
                items@.len() == n - 1,
                keys@.len() == n - 1,
                kx@ == key(x),
                forall|m: int| 0 <= m < n - 1 ==> (#[trigger] keys@[m])@ == key(items@[m]),
                items@.subrange(0, i as int) == t,
                forall|m: int| j <= m < i ==> !lex_le(key(#[trigger] t[m]), key(x)),
            decreases j,
        {
            assert(t[j - 1] == items@[j - 1]);
            j = j - 1;
        }
        proof {
            assert forall|m: int| 0 <= m < j implies lex_le(key(#[trigger] t[m]), key(x)) by {
                assert(t[j - 1] == items@[j - 1]);
                if m < j - 1 {
                    lemma_lex_le_transitive(key(t[m]), key(t[j - 1]), key(x));
                }
            }
            lemma_insert_keeps_stable(t, orig.subrange(0, i as int), x, j as int, key);
            assert(orig.subrange(0, i as int).push(x) =~= orig.subrange(0, i + 1));
        }
        let ghost before = items@;
        proof {
            assert(before =~= t + orig.subrange(i + 1, n as int));
            assert(before.insert(j as int, x) =~= t.insert(j as int, x) + orig.subrange(i + 1, n as int));
        }
        items.insert(j, x);
        keys.insert(j, kx);
        proof {
            assert(items@.subrange(0, i + 1) =~= t.insert(j as int, x));
            assert(items@.subrange(i + 1, n as int) =~= orig.subrange(i + 1, n as int));
        }
        i = i + 1;
    }
    proof {
        assert(items@.subrange(0, n as int) =~= items@);
        assert(orig.subrange(0, n as int) =~= orig);
    }
}

} // verus!
