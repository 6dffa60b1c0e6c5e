//! What holds of every pool and of every key.

use vstd::arithmetic::div_mod::{
    lemma_add_mod_noop_right, lemma_mod_equivalence, lemma_small_mod,
};
use vstd::prelude::*;
use vstd::std_specs::cmp::PartialEqSpec;
use crate::pool::{
    configured_key, direct_key, lawful_keys, lemma_number_after, number_after, proxied_key,
    AuthorityView, Pool, PoolKey, PoolKeyView, ProxyKeyView, Scheme, TlsConfigCounter, TlsConfigKey,
};

verus! {

// Pools.

/// A new pool keeps nothing.
pub proof fn new_pool_keeps_nothing<K: Eq, V>(pool: Pool<K, V>, key: K)
    requires
        pool.entries() == Seq::<(K, V)>::empty(),
    ensures
        pool.wf(),
        pool.lookup(key) is None,
{
}

/// Giving a connection out leaves the pool with one entry for each key.
pub proof fn serving_keeps_keys_apart<K: Eq, V: Clone>(
    before: Pool<K, V>,
    key: K,
    after: Pool<K, V>,
    conn: V,
)
    requires
        lawful_keys::<K>(),
        before.wf(),
        Pool::serves(before, key, after, conn),
    ensures
        after.wf(),
{
    if before.lookup(key) is None {
        let n = before.entries().len() as int;
        assert forall|i: int, j: int|
            0 <= i < after.entries().len() && 0 <= j < after.entries().len() && i != j implies !(
        #[trigger] after.entries()[i]).0.eq_spec(&(#[trigger] after.entries()[j]).0) by {
            if j == n {
                assert(!before.entry_is(i, key));
            } else if i == n {
                assert(!before.entry_is(j, key));
            } else {
                assert(after.entries()[i] == before.entries()[i]);
                assert(after.entries()[j] == before.entries()[j]);
            }
        }
    }
}

/// Giving a connection out for one key changes nothing for any other.
pub proof fn other_keys_are_untouched<K: Eq, V: Clone>(
    before: Pool<K, V>,
    key: K,
    after: Pool<K, V>,
    conn: V,
    other: K,
)
    requires
        lawful_keys::<K>(),
        before.wf(),
        Pool::serves(before, key, after, conn),
        !other.eq_spec(&key),
    ensures
        after.lookup(other) == before.lookup(other),
{
    serving_keeps_keys_apart(before, key, after, conn);
    if exists|i: int| before.entry_is(i, other) {
        let i = choose|i: int| before.entry_is(i, other);
        assert(after.entry_is(i, other));
        before.lemma_lookup(i, other);
        after.lemma_lookup(i, other);
    } else {
        assert forall|i: int| !after.entry_is(i, other) by {
            assert(!before.entry_is(i, other));
        }
    }
}

/// What the pool keeps for a key stays what it is, whatever connections it gives
/// out.
pub proof fn kept_is_kept<K: Eq, V: Clone>(
    before: Pool<K, V>,
    key: K,
    after: Pool<K, V>,
    conn: V,
    other: K,
)
    requires
        lawful_keys::<K>(),
        before.wf(),
        Pool::serves(before, key, after, conn),
        before.lookup(other) is Some,
    ensures
        after.lookup(other) == before.lookup(other),
{
    serving_keeps_keys_apart(before, key, after, conn);
    let i = choose|i: int| before.entry_is(i, other);
    assert(after.entry_is(i, other));
    before.lemma_lookup(i, other);
    after.lemma_lookup(i, other);
}

/// A history of a pool: `pools[i]` is the pool before the call number `i`, which
/// gives `conns[i]` out for `keys[i]`.
pub open spec fn history<K: Eq, V: Clone>(
    pools: Seq<Pool<K, V>>,
    keys: Seq<K>,
    conns: Seq<V>,
) -> bool {
    &&& lawful_keys::<K>()
    &&& pools.len() == keys.len() + 1
    &&& conns.len() == keys.len()
    &&& pools[0].wf()
    &&& forall|i: int|
        0 <= i < keys.len() ==> Pool::serves(
            #[trigger] pools[i],
            keys[i],
            pools[i + 1],
            conns[i],
        )
}

proof fn lemma_history_wf<K: Eq, V: Clone>(
    pools: Seq<Pool<K, V>>,
    keys: Seq<K>,
    conns: Seq<V>,
    i: int,
)
    requires
        history(pools, keys, conns),
        0 <= i < pools.len(),
    ensures
        pools[i].wf(),
    decreases i,
{
    if i > 0 {
        lemma_history_wf(pools, keys, conns, i - 1);
        assert(Pool::serves(pools[i - 1], keys[i - 1], pools[i], conns[i - 1]));
        serving_keeps_keys_apart(pools[i - 1], keys[i - 1], pools[i], conns[i - 1]);
    }
}

proof fn lemma_kept_through<K: Eq, V: Clone>(
    pools: Seq<Pool<K, V>>,
    keys: Seq<K>,
    conns: Seq<V>,
    key: K,
    i: int,
    j: int,
)
    requires
        history(pools, keys, conns),
        0 <= i <= j < pools.len(),
        pools[i].lookup(key) is Some,
    ensures
        pools[j].lookup(key) == pools[i].lookup(key),
    decreases j - i,
{
    if i < j {
        lemma_kept_through(pools, keys, conns, key, i, j - 1);
        lemma_history_wf(pools, keys, conns, j - 1);
        assert(Pool::serves(pools[j - 1], keys[j - 1], pools[j], conns[j - 1]));
        kept_is_kept(pools[j - 1], keys[j - 1], pools[j], conns[j - 1], key);
    }
}

/// Equal keys are the same key to `lookup`.
proof fn lemma_equal_keys<K: Eq, V>(pool: Pool<K, V>, a: K, b: K)
    requires
        lawful_keys::<K>(),
        pool.wf(),
        a.eq_spec(&b),
        pool.lookup(a) is Some,
    ensures
        pool.lookup(b) == pool.lookup(a),
{
    let i = choose|i: int| pool.entry_is(i, a);
    let k = pool.entries()[i].0;
    assert(k.eq_spec(&a));
    assert(k.eq_spec(&b));
    assert(pool.entry_is(i, b));
    pool.lemma_lookup(i, a);
    pool.lemma_lookup(i, b);
}

/// All calls with equal keys, however many others come between, get clones of one
/// and the same thing; only the first of them can find nothing kept.
pub proof fn equal_keys_share<K: Eq, V: Clone>(
    pools: Seq<Pool<K, V>>,
    keys: Seq<K>,
    conns: Seq<V>,
    i: int,
    j: int,
)
    requires
        history(pools, keys, conns),
        0 <= i <= j < keys.len(),
        keys[i].eq_spec(&keys[j]),
    ensures
        pools[i + 1].lookup(keys[i]) is Some,
        pools[j + 1].lookup(keys[j]) == pools[i + 1].lookup(keys[i]),
        cloned(pools[i + 1].lookup(keys[i])->0, conns[i]),
        cloned(pools[i + 1].lookup(keys[i])->0, conns[j]),
        i < j ==> pools[j].lookup(keys[j]) == pools[i + 1].lookup(keys[i]),
{
    assert(Pool::serves(pools[i], keys[i], pools[i + 1], conns[i]));
    assert(Pool::serves(pools[j], keys[j], pools[j + 1], conns[j]));
    lemma_kept_through(pools, keys, conns, keys[i], i + 1, j + 1);
    lemma_history_wf(pools, keys, conns, j + 1);
    lemma_equal_keys(pools[j + 1], keys[i], keys[j]);
    if i < j {
        lemma_kept_through(pools, keys, conns, keys[i], i + 1, j);
        lemma_history_wf(pools, keys, conns, j);
        lemma_equal_keys(pools[j], keys[i], keys[j]);
    }
}

/// A history of a pool from its beginning, with what was to be made: where the call
/// number `i` finds nothing, what is kept by it is something that its `create_fn`
/// can return. `makes[i]` says what that is; each call may bring a closure of a type
/// of its own.
pub open spec fn full_history<K: Eq, V: Clone>(
    pools: Seq<Pool<K, V>>,
    keys: Seq<K>,
    conns: Seq<V>,
    makes: Seq<spec_fn(V) -> bool>,
) -> bool {
    &&& history(pools, keys, conns)
    &&& pools[0].entries() == Seq::<(K, V)>::empty()
    &&& makes.len() == keys.len()
    &&& forall|i: int|
        0 <= i < keys.len() && (#[trigger] pools[i]).lookup(keys[i]) is None ==> makes[i](
            pools[i + 1].lookup(keys[i])->0,
        )
}

/// What `create_fn` can return when it is called with `allowed_num` and
/// `speed_conf`.
pub open spec fn returns_of<F: FnOnce(usize, C) -> V, C, V>(
    create_fn: F,
    allowed_num: usize,
    speed_conf: C,
) -> spec_fn(V) -> bool {
    |made: V| call_ensures(create_fn, (allowed_num, speed_conf), made)
}

/// A new pool begins a history.
pub proof fn new_pool_begins_a_history<K: Eq, V: Clone>(pool: Pool<K, V>)
    requires
        lawful_keys::<K>(),
        pool.entries() == Seq::<(K, V)>::empty(),
    ensures
        full_history(seq![pool], Seq::empty(), Seq::empty(), Seq::empty()),
{
}

/// Each call takes a history further, whatever the type of its closure.
pub proof fn calls_go_on_with_a_history<K: Eq, V: Clone, F: FnOnce(usize, C) -> V, C>(
    pools: Seq<Pool<K, V>>,
    keys: Seq<K>,
    conns: Seq<V>,
    makes: Seq<spec_fn(V) -> bool>,
    key: K,
    create_fn: F,
    allowed_num: usize,
    speed_conf: C,
    after: Pool<K, V>,
    conn: V,
)
    requires
        full_history(pools, keys, conns, makes),
        Pool::serves(pools.last(), key, after, conn),
        pools.last().lookup(key) is None ==> call_ensures(
            create_fn,
            (allowed_num, speed_conf),
            after.lookup(key)->0,
        ),
    ensures
        full_history(
            pools.push(after),
            keys.push(key),
            conns.push(conn),
            makes.push(returns_of(create_fn, allowed_num, speed_conf)),
        ),
{
    let n = keys.len() as int;
    let pools2 = pools.push(after);
    let keys2 = keys.push(key);
    let conns2 = conns.push(conn);
    let makes2 = makes.push(returns_of(create_fn, allowed_num, speed_conf));
    assert forall|i: int| 0 <= i < keys2.len() implies Pool::serves(
        #[trigger] pools2[i],
        keys2[i],
        pools2[i + 1],
        conns2[i],
    ) && (pools2[i].lookup(keys2[i]) is None ==> makes2[i](pools2[i + 1].lookup(keys2[i])->0)) by {
        if i < n {
            assert(Pool::serves(pools[i], keys[i], pools[i + 1], conns[i]));
        }
    }
}

/// A call of a pool from its beginning finds nothing if and only if no call before
/// it had an equal key.
pub proof fn first_call_finds_nothing<K: Eq, V: Clone>(
    pools: Seq<Pool<K, V>>,
    keys: Seq<K>,
    conns: Seq<V>,
    n: int,
)
    requires
        history(pools, keys, conns),
        pools[0].entries() == Seq::<(K, V)>::empty(),
        0 <= n < keys.len(),
    ensures
        pools[n].lookup(keys[n]) is None <==> forall|i: int|
            0 <= i < n ==> !keys[n].eq_spec(&#[trigger] keys[i]),
{
    if forall|i: int| 0 <= i < n ==> !keys[n].eq_spec(&#[trigger] keys[i]) {
        new_pool_keeps_nothing(pools[0], keys[n]);
        nothing_comes_from_other_keys(pools, keys, conns, keys[n], n);
    } else {
        let i = choose|i: int| 0 <= i < n && keys[n].eq_spec(&#[trigger] keys[i]);
        assert(keys[i].eq_spec(&keys[n]));
        equal_keys_share(pools, keys, conns, i, n);
    }
}

/// The first call with a key finds nothing, and what its `create_fn` makes is what
/// all calls with equal keys share. The later ones find it, so that nothing is made
/// for them.
pub proof fn first_call_makes_what_is_shared<K: Eq, V: Clone>(
    pools: Seq<Pool<K, V>>,
    keys: Seq<K>,
    conns: Seq<V>,
    makes: Seq<spec_fn(V) -> bool>,
    first: int,
    later: int,
)
    requires
        full_history(pools, keys, conns, makes),
        0 <= first <= later < keys.len(),
        forall|i: int| 0 <= i < first ==> !keys[first].eq_spec(&#[trigger] keys[i]),
        keys[first].eq_spec(&keys[later]),
    ensures
        pools[first].lookup(keys[first]) is None,
        pools[first + 1].lookup(keys[first]) is Some,
        ({
            let kept = pools[first + 1].lookup(keys[first])->0;
            &&& makes[first](kept)
            &&& cloned(kept, conns[first])
            &&& first < later ==> pools[later].lookup(keys[later]) == Some(kept)
            &&& pools[later + 1].lookup(keys[later]) == Some(kept)
            &&& cloned(kept, conns[later])
        }),
{
    first_call_finds_nothing(pools, keys, conns, first);
    equal_keys_share(pools, keys, conns, first, later);
}

/// A pool that keeps nothing for a key comes to keep something for it only by a
/// call with an equal key: what was made for one key is never given out for
/// another.
pub proof fn nothing_comes_from_other_keys<K: Eq, V: Clone>(
    pools: Seq<Pool<K, V>>,
    keys: Seq<K>,
    conns: Seq<V>,
    key: K,
    n: int,
)
    requires
        history(pools, keys, conns),
        0 <= n < pools.len(),
        pools[0].lookup(key) is None,
        forall|i: int| 0 <= i < n ==> !key.eq_spec(&#[trigger] keys[i]),
    ensures
        pools[n].lookup(key) is None,
    decreases n,
{
    if n > 0 {
        nothing_comes_from_other_keys(pools, keys, conns, key, n - 1);
        lemma_history_wf(pools, keys, conns, n - 1);
        assert(Pool::serves(pools[n - 1], keys[n - 1], pools[n], conns[n - 1]));
        other_keys_are_untouched(pools[n - 1], keys[n - 1], pools[n], conns[n - 1], key);
    }
}

// Keys.

/// `==` on pool keys is an equivalence, so that they can be the keys of a pool.
pub proof fn pool_keys_are_lawful()
    ensures
        lawful_keys::<PoolKey>(),
{
}

/// Two keys are equal if and only if they agree in everything: target scheme,
/// target authority, whether there is a proxy, its scheme, its authority and its
/// credentials, and the TLS configuration.
pub proof fn keys_agree_in_everything(a: PoolKey, b: PoolKey)
    ensures
        a.eq_spec(&b) <==> {
            &&& a@.target_scheme == b@.target_scheme
            &&& a@.target_authority.host == b@.target_authority.host
            &&& a@.target_authority.port == b@.target_authority.port
            &&& match (a@.proxy, b@.proxy) {
                (Some(p), Some(q)) => {
                    &&& p.scheme == q.scheme
                    &&& p.authority.host == q.authority.host
                    &&& p.authority.port == q.authority.port
                    &&& p.auth == q.auth
                },
                (None, None) => true,
                _ => false,
            }
            &&& match (a@.tls_config, b@.tls_config) {
                (Some(c), Some(d)) => c.target() == d.target() && c.proxy() == d.proxy(),
                (None, None) => true,
                _ => false,
            }
        },
{
}

/// Two keys of connections through proxies are equal if and only if target scheme,
/// target authority, proxy scheme, proxy authority and credentials are.
pub proof fn proxied_keys_have_five_parts(
    s: Scheme,
    a: AuthorityView,
    p: ProxyKeyView,
    t: Scheme,
    b: AuthorityView,
    q: ProxyKeyView,
)
    ensures
        proxied_key(s, a, p) == proxied_key(t, b, q) <==> {
            &&& s == t
            &&& a == b
            &&& p.scheme == q.scheme
            &&& p.authority == q.authority
            &&& p.auth == q.auth
        },
{
}

/// A connection straight to a target and one through a proxy never have the same
/// key, under whatever TLS configurations or none.
pub proof fn direct_and_proxied_differ(
    s: Scheme,
    a: AuthorityView,
    t: Scheme,
    b: AuthorityView,
    proxy: ProxyKeyView,
    c: TlsConfigKey,
    d: TlsConfigKey,
)
    ensures
        direct_key(s, a) != proxied_key(t, b, proxy),
        configured_key(direct_key(s, a), c) != proxied_key(t, b, proxy),
        direct_key(s, a) != configured_key(proxied_key(t, b, proxy), d),
        configured_key(direct_key(s, a), c) != configured_key(proxied_key(t, b, proxy), d),
{
}

/// Keys under TLS configurations are equal if and only if the configurations are
/// and the keys agree in target scheme, target authority and proxy. A key under a
/// configuration is none without, and of two configurations the later one counts.
pub proof fn configurations_isolate(
    a: PoolKeyView,
    b: PoolKeyView,
    c: TlsConfigKey,
    d: TlsConfigKey,
)
    ensures
        configured_key(a, c) == configured_key(b, d) <==> {
            &&& c == d
            &&& a.target_scheme == b.target_scheme
            &&& a.target_authority == b.target_authority
            &&& a.proxy == b.proxy
        },
        b.tls_config is None ==> configured_key(a, c) != b,
        configured_key(configured_key(a, d), c) == configured_key(a, c),
{
}

/// Two numbers are the same where the steps between them go all the way round.
proof fn lemma_numbers_equal(n: int, k: int, l: int)
    ensures
        number_after(n, k) == number_after(n, l) <==> (l - k) % (usize::MAX + 1) == 0,
{
    lemma_mod_equivalence(n + l, n + k, usize::MAX + 1);
}

/// Counting on twice.
proof fn lemma_numbers_add(n: int, k: int, l: int)
    ensures
        number_after(number_after(n, k), l) == number_after(n, k + l),
{
    lemma_add_mod_noop_right(l, n + k, usize::MAX + 1);
}

/// There are as many even numbers as odd ones, so that what is an odd number of
/// steps away never is the same.
proof fn lemma_odd_steps(k: int)
    requires
        k % 2 == 1,
    ensures
        k % (usize::MAX + 1) != 0,
{
    if usize::MAX == 0xffff_ffff {
        assert(k % 0x1_0000_0000 != 0);
    } else {
        assert(usize::MAX == 0xffff_ffff_ffff_ffff);
        assert(k % 0x1_0000_0000_0000_0000 != 0);
    }
}

/// Draws of keys from one counter: `keys[i]` takes it from `counters[i]` to
/// `counters[i + 1]`.
pub open spec fn draws(counters: Seq<TlsConfigCounter>, keys: Seq<TlsConfigKey>) -> bool {
    &&& counters.len() == keys.len() + 1
    &&& forall|i: int|
        0 <= i < keys.len() ==> (#[trigger] keys[i]).drawn(counters[i], counters[i + 1])
}

/// After `n` draws the numbers have all been given out, once or several times, and
/// begin again where they began.
pub open spec fn come_round(n: int) -> bool {
    (2 * n) % (usize::MAX + 1) == 0
}

proof fn lemma_draws(counters: Seq<TlsConfigCounter>, keys: Seq<TlsConfigKey>, i: int, j: int)
    requires
        draws(counters, keys),
        0 <= i <= j < counters.len(),
    ensures
        counters[j].upcoming() == number_after(counters[i].upcoming() as int, 2 * (j - i)),
    decreases j - i,
{
    let n = counters[i].upcoming() as int;
    if i < j {
        lemma_draws(counters, keys, i, j - 1);
        assert(keys[j - 1].drawn(counters[j - 1], counters[j]));
        lemma_numbers_add(n, 2 * (j - 1 - i), 2);
    } else {
        lemma_number_after(n, 0);
    }
}

/// The configuration for targets and the one for proxies never have the same
/// number.
pub proof fn two_numbers_to_a_key(
    before: TlsConfigCounter,
    key: TlsConfigKey,
    after: TlsConfigCounter,
)
    requires
        key.drawn(before, after),
    ensures
        key.target() != key.proxy(),
{
    lemma_number_after(before.upcoming() as int, 0);
    lemma_numbers_equal(before.upcoming() as int, 0, 1);
    lemma_odd_steps(1);
}

/// Keys that are drawn from one counter have a number in common only where the
/// numbers have come round between them, which takes as many numbers as there are.
/// What numbers a configuration for targets in one never numbers one for proxies in
/// another.
pub proof fn numbers_do_not_repeat(
    counters: Seq<TlsConfigCounter>,
    keys: Seq<TlsConfigKey>,
    i: int,
    j: int,
)
    requires
        draws(counters, keys),
        0 <= i < j < keys.len(),
    ensures
        keys[i].target() != keys[j].proxy(),
        keys[i].proxy() != keys[j].target(),
        keys[i].target() == keys[j].target() <==> come_round(j - i),
        keys[i].proxy() == keys[j].proxy() <==> come_round(j - i),
        keys[i] == keys[j] <==> come_round(j - i),
        2 * (j - i) <= usize::MAX ==> !come_round(j - i),
{
    let n = counters[i].upcoming() as int;
    let k = 2 * (j - i);
    assert(keys[i].drawn(counters[i], counters[i + 1]));
    assert(keys[j].drawn(counters[j], counters[j + 1]));
    lemma_draws(counters, keys, i, j);
    lemma_number_after(n, 0);
    lemma_numbers_add(n, k, 1);
    lemma_numbers_equal(n, 0, k);
    lemma_numbers_equal(n, 0, k + 1);
    lemma_numbers_equal(n, 1, k);
    lemma_numbers_equal(n, 1, k + 1);
    lemma_odd_steps(k + 1);
    lemma_odd_steps(k - 1);
    if k <= usize::MAX {
        lemma_small_mod(k as nat, (usize::MAX + 1) as nat);
    }
}

/// Clients whose TLS configurations were drawn from one counter never share a
/// connection, even where all else is the same, until the numbers have come round.
pub proof fn clients_do_not_share(
    counters: Seq<TlsConfigCounter>,
    keys: Seq<TlsConfigKey>,
    i: int,
    j: int,
    a: PoolKeyView,
    b: PoolKeyView,
)
    requires
        draws(counters, keys),
        0 <= i < j < keys.len(),
        !come_round(j - i),
    ensures
        configured_key(a, keys[i]) != configured_key(b, keys[j]),
{
    numbers_do_not_repeat(counters, keys, i, j);
}

} // verus!
