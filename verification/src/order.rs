//! The order of texts, and stable sorting by a text as key.
use crate::text;
use vstd::hash_set::StringHashSet;
use vstd::prelude::*;

verus! {

/// Whether `a` comes before `b` or is `b`: the first character in which they
/// differ decides, and a text comes before its continuations.
pub open spec fn lex_le(a: Seq<char>, b: Seq<char>) -> bool
    decreases a.len(),
{
    if a.len() == 0 {
        true
    } else if b.len() == 0 {
        false
    } else if a.first() != b.first() {
        (a.first() as u32) < (b.first() as u32)
    } else {
        lex_le(a.drop_first(), b.drop_first())
    }
}

/// Every text is at most itself.
pub proof fn lex_reflexive(a: Seq<char>)
    ensures
        lex_le(a, a),
    decreases a.len(),
{
    if a.len() > 0 {
        lex_reflexive(a.drop_first());
    }
}

/// Of two texts one is at most the other.
pub proof fn lex_total(a: Seq<char>, b: Seq<char>)
    ensures
        lex_le(a, b) || lex_le(b, a),
    decreases a.len(),
{
    if a.len() > 0 && b.len() > 0 && a.first() == b.first() {
        lex_total(a.drop_first(), b.drop_first());
    } else if a.len() > 0 && b.len() > 0 {
        vstd::utf8::char_u32_cast(a.first(), a.first() as u32);
        vstd::utf8::char_u32_cast(b.first(), b.first() as u32);
    }
}

/// The order is transitive.
pub proof fn lex_transitive(a: Seq<char>, b: Seq<char>, c: Seq<char>)
    requires
        lex_le(a, b),
        lex_le(b, c),
    ensures
        lex_le(a, c),
    decreases a.len(),
{
    if a.len() > 0 && b.len() > 0 && c.len() > 0 {
        if a.first() == b.first() && b.first() == c.first() {
            lex_transitive(a.drop_first(), b.drop_first(), c.drop_first());
        }
    }
}

/// Two texts that are each at most the other are the same.
pub proof fn lex_antisymmetric(a: Seq<char>, b: Seq<char>)
    requires
        lex_le(a, b),
        lex_le(b, a),
    ensures
        a == b,
    decreases a.len(),
{
    if a.len() > 0 && b.len() > 0 {
        lex_antisymmetric(a.drop_first(), b.drop_first());
        assert(a =~= seq![a.first()] + a.drop_first());
        assert(b =~= seq![b.first()] + b.drop_first());
    } else {
        assert(a =~= b);
    }
}

/// Whether `a` is at most `b`.
pub fn at_most(a: &[char], b: &[char]) -> (r: bool)
    ensures
        r == lex_le(a@, b@),
{
    let mut i: usize = 0;
    assert(a@.skip(0) =~= a@);
    assert(b@.skip(0) =~= b@);
    while i < a.len()
        invariant
            i <= a@.len(),
            i <= b@.len(),
            lex_le(a@, b@) == lex_le(a@.skip(i as int), b@.skip(i as int)),
        decreases a@.len() - i,
    {
        if i >= b.len() {
            return false;
        }
        assert(a@.skip(i as int).drop_first() =~= a@.skip(i + 1));
        assert(b@.skip(i as int).drop_first() =~= b@.skip(i + 1));
        if a[i] != b[i] {
            return (a[i] as u32) < (b[i] as u32);
        }
        i += 1;
    }
    true
}

/// Where the key of index `x` goes in the sorted indices `o`: behind everything
/// that is at most it.
pub open spec fn place(o: Seq<int>, keys: Seq<Seq<char>>, x: int) -> int
    decreases o.len(),
{
    if o.len() == 0 {
        0
    } else if lex_le(keys[o.last()], keys[x]) {
        o.len() as int
    } else {
        place(o.drop_last(), keys, x)
    }
}

/// The indices of the first `n` keys in the order of the keys; equal keys keep
/// their order.
pub open spec fn sorted_prefix(keys: Seq<Seq<char>>, n: nat) -> Seq<int>
    decreases n,
{
    if n == 0 {
        Seq::<int>::empty()
    } else {
        let o = sorted_prefix(keys, (n - 1) as nat);
        o.insert(place(o, keys, n - 1), n - 1)
    }
}

/// The indices of the keys in the order of the keys; equal keys keep their order.
pub open spec fn sorted_order(keys: Seq<Seq<char>>) -> Seq<int> {
    sorted_prefix(keys, keys.len())
}

/// `o` lists the keys in ascending order, equal ones by ascending index.
pub open spec fn is_sorted(o: Seq<int>, keys: Seq<Seq<char>>) -> bool {
    forall|i: int, j: int|
        #![trigger o[i], o[j]]
        0 <= i < j < o.len() ==> lex_le(keys[o[i]], keys[o[j]]) && (keys[o[i]] == keys[o[j]]
            ==> o[i] < o[j])
}

proof fn place_bounds(o: Seq<int>, keys: Seq<Seq<char>>, x: int)
    ensures
        0 <= place(o, keys, x) <= o.len(),
        place(o, keys, x) > 0 ==> lex_le(keys[o[place(o, keys, x) - 1]], keys[x]),
        forall|i: int| place(o, keys, x) <= i < o.len() ==> !lex_le(keys[#[trigger] o[i]], keys[x]),
    decreases o.len(),
{
    if o.len() > 0 && !lex_le(keys[o.last()], keys[x]) {
        place_bounds(o.drop_last(), keys, x);
        let p = place(o, keys, x);
        assert forall|i: int| p <= i < o.len() implies !lex_le(keys[#[trigger] o[i]], keys[x]) by {
            if i < o.len() - 1 {
                assert(o.drop_last()[i] == o[i]);
            }
        }
        if p > 0 {
            assert(o.drop_last()[p - 1] == o[p - 1]);
        }
    }
}

proof fn sorted_prefix_facts(keys: Seq<Seq<char>>, n: nat)
    requires
        n <= keys.len(),
    ensures
        sorted_prefix(keys, n).len() == n,
        is_sorted(sorted_prefix(keys, n), keys),
        forall|i: int|
            0 <= i < n ==> 0 <= #[trigger] sorted_prefix(keys, n)[i] < n,
        forall|x: int| 0 <= x < n ==> #[trigger] sorted_prefix(keys, n).contains(x),
    decreases n,
{
    if n > 0 {
        let x = n - 1;
        let o = sorted_prefix(keys, (n - 1) as nat);
        sorted_prefix_facts(keys, (n - 1) as nat);
        place_bounds(o, keys, x);
        let p = place(o, keys, x);
        let r = o.insert(p, x);
        assert(r == sorted_prefix(keys, n));
        assert forall|i: int| 0 <= i < n implies 0 <= #[trigger] r[i] < n by {
            if i < p {
                assert(r[i] == o[i]);
            } else if i > p {
                assert(r[i] == o[i - 1]);
            }
        }
        assert forall|y: int| 0 <= y < n implies #[trigger] r.contains(y) by {
            if y == x {
                assert(r[p] == x);
            } else {
                assert(o.contains(y));
                let k = choose|k: int| 0 <= k < o.len() && o[k] == y;
                if k < p {
                    assert(r[k] == y);
                } else {
                    assert(r[k + 1] == y);
                }
            }
        }
        assert forall|i: int, j: int|
            #![trigger r[i], r[j]]
            0 <= i < j < r.len() implies lex_le(keys[r[i]], keys[r[j]]) && (keys[r[i]] == keys[r[j]]
            ==> r[i] < r[j]) by {
            let oi = if i < p {
                i
            } else {
                i - 1
            };
            let oj = if j < p {
                j
            } else {
                j - 1
            };
            if i != p && j != p {
                assert(r[i] == o[oi] && r[j] == o[oj]);
            } else if j == p {
                // What stands before the new index is at most the key before it.
                assert(r[i] == o[i]);
                assert(r[j] == x);
                if i < p - 1 {
                    assert(lex_le(keys[o[i]], keys[o[p - 1]]));
                    lex_transitive(keys[o[i]], keys[o[p - 1]], keys[x]);
                }
            } else {
                // What stands behind it is larger.
                assert(r[i] == x);
                assert(r[j] == o[j - 1]);
                lex_total(keys[o[j - 1]], keys[x]);
                if keys[x] == keys[o[j - 1]] {
                    lex_reflexive(keys[x]);
                }
            }
        }
    }
}

/// Sorting rearranges: every index appears once, the keys ascend, and equal keys
/// keep the order in which they came.
pub proof fn sorting_is_a_stable_rearrangement(keys: Seq<Seq<char>>)
    ensures
        sorted_order(keys).len() == keys.len(),
        is_sorted(sorted_order(keys), keys),
        forall|x: int| 0 <= x < keys.len() ==> #[trigger] sorted_order(keys).contains(x),
        forall|i: int|
            0 <= i < keys.len() ==> 0 <= #[trigger] sorted_order(keys)[i] < keys.len(),
        sorted_order(keys).no_duplicates(),
{
    let o = sorted_order(keys);
    sorted_prefix_facts(keys, keys.len());
    assert forall|i: int, j: int| 0 <= i < o.len() && 0 <= j < o.len() && i != j implies o[i]
        != o[j] by {
        if i < j {
            assert(keys[o[i]] == keys[o[j]] ==> o[i] < o[j]);
        } else {
            assert(keys[o[j]] == keys[o[i]] ==> o[j] < o[i]);
        }
    }
}

/// What is picked at every position once is the same, in another order.
pub proof fn picking_keeps_all<T>(v: Seq<T>, o: Seq<int>)
    requires
        forall|x: int| 0 <= x < v.len() ==> #[trigger] o.contains(x),
        forall|i: int| 0 <= i < o.len() ==> 0 <= #[trigger] o[i] < v.len(),
    ensures
        forall|x: T| #[trigger] v.contains(x) <==> pick(v, o).contains(x),
{
    let p = pick(v, o);
    assert forall|x: T| #[trigger] v.contains(x) <==> p.contains(x) by {
        if v.contains(x) {
            let k = choose|k: int| 0 <= k < v.len() && v[k] == x;
            assert(o.contains(k));
            let i = choose|i: int| 0 <= i < o.len() && o[i] == k;
            assert(p[i] == x);
        }
        if p.contains(x) {
            let i = choose|i: int| 0 <= i < p.len() && p[i] == x;
            assert(v[o[i]] == x);
        }
    }
}

/// Indices as integers.
pub open spec fn indices(v: Seq<usize>) -> Seq<int> {
    v.map_values(|i: usize| i as int)
}

/// The items that stand at the positions `o`.
pub open spec fn pick<T>(items: Seq<T>, o: Seq<int>) -> Seq<T> {
    Seq::new(o.len(), |i: int| items[o[i]])
}

/// The indices of `keys` in the order of the keys; equal keys keep their order.
pub fn stable_order(keys: &Vec<Vec<char>>) -> (r: Vec<usize>)
    ensures
        indices(r@) == sorted_order(text::texts(keys@)),
        r@.len() == keys@.len(),
        forall|i: int| 0 <= i < r@.len() ==> (#[trigger] r@[i]) < keys@.len(),
{
    let ghost all = text::texts(keys@);
    let n: usize = keys.len();
    let mut r: Vec<usize> = Vec::new();
    let mut x: usize = 0;
    assert(indices(r@) =~= sorted_prefix(all, 0));
    while x < n
        invariant
            n == keys@.len(),
            x <= n,
            all == text::texts(keys@),
            indices(r@) == sorted_prefix(all, x as nat),
            r@.len() == x,
            forall|i: int| 0 <= i < r@.len() ==> (#[trigger] r@[i]) < x,
        decreases n - x,
    {
        let ghost o = indices(r@);
        let mut p: usize = r.len();
        assert(o.take(p as int) =~= o);
        while p > 0 && !at_most(keys[r[p - 1]].as_slice(), keys[x].as_slice())
            invariant
                n == keys@.len(),
                x < n,
                p <= r@.len(),
                all == text::texts(keys@),
                o == indices(r@),
                forall|i: int| 0 <= i < r@.len() ==> (#[trigger] r@[i]) < x,
                place(o.take(p as int), all, x as int) == place(o, all, x as int),
            decreases p,
        {
            assert(o.take(p as int).drop_last() =~= o.take(p - 1));
            assert(o[p - 1] == r@[p - 1]);
            assert(all[o[p - 1]] == keys@[r@[p - 1] as int]@);
            p -= 1;
        }
        assert(p > 0 ==> o[p - 1] == r@[p - 1] && all[o[p - 1]] == keys@[r@[p - 1] as int]@);
        assert(p == place(o, all, x as int));
        let ghost before = r@;
        r.insert(p, x);
        assert(indices(r@) =~= o.insert(p as int, x as int));
        assert forall|i: int| 0 <= i < r@.len() implies (#[trigger] r@[i]) < x + 1 by {
            if i < p {
                assert(r@[i] == before[i]);
            } else if i > p {
                assert(r@[i] == before[i - 1]);
            }
        }
        x += 1;
    }
    r
}

/// The positions that stay when every item is dropped whose key is that of the
/// item before it.
pub open spec fn without_repeats(keys: Seq<Seq<char>>, n: nat) -> Seq<int>
    decreases n,
{
    if n == 0 {
        Seq::<int>::empty()
    } else {
        let kept = without_repeats(keys, (n - 1) as nat);
        if n >= 2 && keys[n - 1] == keys[n - 2] {
            kept
        } else {
            kept.push(n - 1)
        }
    }
}

/// The positions that stay when every item is dropped whose key is that of the
/// item before it.
pub fn first_of_each(keys: &Vec<Vec<char>>) -> (r: Vec<usize>)
    ensures
        indices(r@) == without_repeats(text::texts(keys@), keys@.len()),
        forall|i: int| 0 <= i < r@.len() ==> (#[trigger] r@[i]) < keys@.len(),
{
    let ghost all = text::texts(keys@);
    let mut r: Vec<usize> = Vec::new();
    let mut i: usize = 0;
    assert(indices(r@) =~= without_repeats(all, 0));
    while i < keys.len()
        invariant
            i <= keys@.len(),
            all == text::texts(keys@),
            indices(r@) == without_repeats(all, i as nat),
            forall|k: int| 0 <= k < r@.len() ==> (#[trigger] r@[k]) < keys@.len(),
        decreases keys@.len() - i,
    {
        let ghost kept = indices(r@);
        let repeat = i >= 1 && crate::text::same(keys[i].as_slice(), keys[i - 1].as_slice());
        if !repeat {
            r.push(i);
            assert(indices(r@) =~= kept.push(i as int));
        }
        i += 1;
    }
    r
}

/// What stays ascends, and no two neighbours among it have the same key; the last key
/// is that of the last item.
pub proof fn no_repeats_remain(keys: Seq<Seq<char>>, n: nat)
    requires
        n <= keys.len(),
    ensures
        ({
            let o = without_repeats(keys, n);
            &&& forall|i: int| 0 <= i < o.len() ==> 0 <= #[trigger] o[i] < n
            &&& forall|i: int, j: int|
                #![trigger o[i], o[j]]
                0 <= i < j < o.len() ==> o[i] < o[j]
            &&& forall|i: int| 0 <= i < o.len() - 1 ==> keys[#[trigger] o[i]] != keys[o[i + 1]]
            &&& n > 0 ==> o.len() > 0 && keys[o.last()] == keys[n - 1]
        }),
    decreases n,
{
    if n > 0 {
        no_repeats_remain(keys, (n - 1) as nat);
        let before = without_repeats(keys, (n - 1) as nat);
        let o = without_repeats(keys, n);
        assert forall|i: int| 0 <= i < o.len() - 1 implies keys[#[trigger] o[i]] != keys[o[i + 1]] by {
            assert(o[i] == before[i]);
            if i + 1 < before.len() {
                assert(o[i + 1] == before[i + 1]);
            } else {
                assert(o[i + 1] == n - 1);
                assert(before[i] == before.last());
            }
        }
    }
}

/// No key is lost.
pub proof fn every_key_stays(keys: Seq<Seq<char>>, n: nat, x: int)
    requires
        0 <= x < n <= keys.len(),
    ensures
        exists|i: int|
            0 <= i < without_repeats(keys, n).len() && keys[#[trigger] without_repeats(keys, n)[i]]
                == keys[x],
    decreases n,
{
    no_repeats_remain(keys, n);
    let o = without_repeats(keys, n);
    if x == n - 1 {
        assert(keys[o[o.len() - 1]] == keys[x]);
    } else {
        every_key_stays(keys, (n - 1) as nat, x);
        let before = without_repeats(keys, (n - 1) as nat);
        let i = choose|i: int| 0 <= i < before.len() && keys[#[trigger] before[i]] == keys[x];
        assert(o[i] == before[i]);
    }
}

/// In sorted keys, dropping those that repeat their neighbour leaves every key once.
pub proof fn sorted_keys_stay_once(keys: Seq<Seq<char>>)
    requires
        forall|i: int, j: int|
            #![trigger keys[i], keys[j]]
            0 <= i < j < keys.len() ==> lex_le(keys[i], keys[j]),
    ensures
        pick(keys, without_repeats(keys, keys.len())).no_duplicates(),
{
    no_repeats_remain(keys, keys.len());
    let o = without_repeats(keys, keys.len());
    let p = pick(keys, o);
    assert forall|i: int, j: int| 0 <= i < j < p.len() implies p[i] != p[j] by {
        assert(keys[o[i]] != keys[o[i + 1]]);
        if p[i] == p[j] {
            assert(o[i] < o[i + 1]);
            assert(lex_le(keys[o[i]], keys[o[i + 1]]));
            if i + 1 < j {
                assert(o[i + 1] < o[j]);
                assert(lex_le(keys[o[i + 1]], keys[o[j]]));
            } else {
                lex_reflexive(keys[o[j]]);
            }
            lex_antisymmetric(keys[o[i]], keys[o[i + 1]]);
        }
    }
}

/// The key of an item that no item before it has.
pub open spec fn is_new(keys: Seq<Seq<char>>, i: int) -> bool {
    !keys.take(i).contains(keys[i])
}

/// The positions that stay among the first `n` when every item is dropped whose key an
/// item before it has.
pub open spec fn distinct(keys: Seq<Seq<char>>, n: nat) -> Seq<int>
    decreases n,
{
    if n == 0 {
        Seq::<int>::empty()
    } else if is_new(keys, n - 1) {
        distinct(keys, (n - 1) as nat).push(n - 1)
    } else {
        distinct(keys, (n - 1) as nat)
    }
}

/// The positions that stay when every item is dropped whose key an item before it has.
pub fn distinct_places(keys: &Vec<Vec<char>>) -> (r: Vec<usize>)
    ensures
        indices(r@) == distinct(text::texts(keys@), keys@.len()),
        forall|i: int| 0 <= i < r@.len() ==> (#[trigger] r@[i]) < keys@.len(),
{
    let ghost all = text::texts(keys@);
    let mut seen = StringHashSet::new();
    let mut r: Vec<usize> = Vec::new();
    let mut i: usize = 0;
    assert(indices(r@) =~= distinct(all, 0));
    assert(all.take(0) =~= Seq::empty());
    while i < keys.len()
        invariant
            i <= keys@.len(),
            all == text::texts(keys@),
            indices(r@) == distinct(all, i as nat),
            forall|k: int| 0 <= k < r@.len() ==> (#[trigger] r@[k]) < keys@.len(),
            forall|key: Seq<char>| #[trigger]
                seen@.contains(key) <==> all.take(i as int).contains(key),
        decreases keys@.len() - i,
    {
        let ghost kept = indices(r@);
        let key = text::text_of(keys[i].as_slice());
        assert(all[i as int] == key@);
        if !seen.contains(key.as_str()) {
            r.push(i);
            assert(indices(r@) =~= kept.push(i as int));
        }
        seen.insert(key);
        proof {
            let before = all.take(i as int);
            let now = all.take(i + 1);
            assert(now =~= before.push(all[i as int]));
            assert(now[i as int] == all[i as int]);
            assert forall|key: Seq<char>| #[trigger] seen@.contains(key) <==> now.contains(
                key,
            ) by {
                if before.contains(key) {
                    let k = choose|k: int| 0 <= k < before.len() && before[k] == key;
                    assert(now[k] == key);
                }
                if now.contains(key) && key != all[i as int] {
                    let k = choose|k: int| 0 <= k < now.len() && now[k] == key;
                    assert(before[k] == key);
                }
            }
        }
        i += 1;
    }
    r
}

/// What stays ascends, has every key once, and has every key.
pub proof fn distinct_keys_stay(keys: Seq<Seq<char>>, n: nat)
    requires
        n <= keys.len(),
    ensures
        ({
            let o = distinct(keys, n);
            &&& forall|i: int| 0 <= i < o.len() ==> 0 <= #[trigger] o[i] < n
            &&& forall|i: int, j: int|
                #![trigger o[i], o[j]]
                0 <= i < j < o.len() ==> o[i] < o[j]
            &&& pick(keys, o).no_duplicates()
            &&& forall|x: int| 0 <= x < n ==> pick(keys, o).contains(#[trigger] keys[x])
        }),
    decreases n,
{
    if n > 0 {
        let before = distinct(keys, (n - 1) as nat);
        let o = distinct(keys, n);
        distinct_keys_stay(keys, (n - 1) as nat);
        let had = pick(keys, before);
        let has = pick(keys, o);
        let key = keys[n - 1];
        if is_new(keys, n - 1) {
            assert(has =~= had.push(key));
            assert forall|i: int| 0 <= i < had.len() implies had[i] != key by {
                assert(keys.take(n - 1)[before[i]] == had[i]);
            }
            assert(has[had.len() as int] == key);
            assert forall|x: int| 0 <= x < n implies has.contains(#[trigger] keys[x]) by {
                if x < n - 1 {
                    assert(had.contains(keys[x]));
                    let i = choose|i: int| 0 <= i < had.len() && had[i] == keys[x];
                    assert(has[i] == keys[x]);
                }
            }
        } else {
            let seen = keys.take(n - 1);
            let k = choose|k: int| 0 <= k < seen.len() && seen[k] == key;
            assert(keys[k] == key);
        }
    }
}

/// What a filter lets through is from the list and passes, and all of the list that passes
/// comes through.
pub proof fn filter_lets_through<T>(v: Seq<T>, f: spec_fn(T) -> bool)
    ensures
        forall|i: int|
            0 <= i < v.filter(f).len() ==> f(#[trigger] v.filter(f)[i]) && v.contains(v.filter(f)[i]),
        forall|k: int| 0 <= k < v.len() && f(#[trigger] v[k]) ==> v.filter(f).contains(v[k]),
        v.filter(f).len() <= v.len(),
    decreases v.len(),
{
    reveal(Seq::filter);
    if v.len() > 0 {
        let head = v.drop_last();
        filter_lets_through(head, f);
        let before = head.filter(f);
        let now = v.filter(f);
        assert forall|i: int| 0 <= i < now.len() implies f(#[trigger] now[i]) && v.contains(now[i]) by {
            if i < before.len() {
                assert(now[i] == before[i]);
                assert(head.contains(before[i]));
                let k = choose|k: int| 0 <= k < head.len() && head[k] == before[i];
                assert(v[k] == now[i]);
            } else {
                assert(v[v.len() - 1] == now[i]);
            }
        }
        assert forall|k: int| 0 <= k < v.len() && f(#[trigger] v[k]) implies now.contains(v[k]) by {
            if k < head.len() {
                assert(head[k] == v[k]);
                assert(before.contains(v[k]));
                let i = choose|i: int| 0 <= i < before.len() && before[i] == v[k];
                assert(now[i] == v[k]);
            } else {
                assert(now[now.len() - 1] == v[k]);
            }
        }
    }
}

/// The first character in which two texts differ decides which comes first, and a text
/// comes before those that go on behind it.
pub proof fn first_difference_decides(p: Seq<char>, c: char, d: char, x: Seq<char>, y: Seq<char>)
    requires
        (c as u32) < (d as u32),
    ensures
        lex_le(p.push(c) + x, p.push(d) + y),
        !lex_le(p.push(d) + y, p.push(c) + x),
        lex_le(p, p.push(c) + x),
        !lex_le(p.push(c) + x, p),
    decreases p.len(),
{
    let a = p.push(c) + x;
    let b = p.push(d) + y;
    if p.len() > 0 {
        let t = p.drop_first();
        first_difference_decides(t, c, d, x, y);
        assert(a.drop_first() =~= t.push(c) + x);
        assert(b.drop_first() =~= t.push(d) + y);
        assert(a.first() == p.first() && b.first() == p.first());
    } else {
        assert(a.first() == c && b.first() == d);
    }
}

/// Of items with the same key the one that was found first stays, once they are sorted by
/// that key and every repeated key is dropped.
pub proof fn first_found_stays(keys: Seq<Seq<char>>, x: int)
    requires
        0 <= x < keys.len(),
        forall|j: int| 0 <= j < x ==> keys[j] != keys[x],
    ensures
        ({
            let o = sorted_order(keys);
            let sorted = pick(keys, o);
            let kept = without_repeats(sorted, sorted.len());
            exists|i: int| 0 <= i < kept.len() && o[#[trigger] kept[i]] == x
        }),
{
    let o = sorted_order(keys);
    let sorted = pick(keys, o);
    sorting_is_a_stable_rearrangement(keys);
    assert(o.contains(x));
    let p = choose|p: int| 0 <= p < o.len() && o[p] == x;
    if p > 0 && sorted[p - 1] == sorted[p] {
        assert(o[p - 1] < o[p]);
        assert(keys[o[p - 1]] == keys[x]);
    }
    new_places_stay(sorted, sorted.len(), p);
}

/// A place whose key is not that of the place before stays.
proof fn new_places_stay(keys: Seq<Seq<char>>, n: nat, p: int)
    requires
        0 <= p < n <= keys.len(),
        p > 0 ==> keys[p - 1] != keys[p],
    ensures
        exists|i: int|
            0 <= i < without_repeats(keys, n).len() && #[trigger] without_repeats(keys, n)[i] == p,
    decreases n,
{
    let kept = without_repeats(keys, n);
    let before = without_repeats(keys, (n - 1) as nat);
    if p < n - 1 {
        new_places_stay(keys, (n - 1) as nat, p);
        let i = choose|i: int| 0 <= i < before.len() && #[trigger] before[i] == p;
        assert(kept[i] == p);
    } else {
        assert(kept[kept.len() - 1] == p);
    }
}

} // verus!
