//! When keys are the same, in terms of what they were made from; and which call made
//! what a call is given.

use vstd::prelude::*;
use vstd::std_specs::cmp::PartialEqSpec;
use crate::pool::{
    configured_key, direct_key, lawful_keys, lemma_number_after, proxied_key, Authority, Pool,
    PoolKey, ProxyKey, ProxyKeyView, Scheme, TlsConfigCounter, TlsConfigKey,
};
use crate::pool::laws::{
    first_call_makes_what_is_shared, full_history,
};
use crate::text::optional_text;

verus! {

/// Verified code may rely on `==` of authorities, proxies and keys.
pub proof fn equality_is_relied_on()
    ensures
        Authority::obeys_eq_spec(),
        ProxyKey::obeys_eq_spec(),
        PoolKey::obeys_eq_spec(),
{
}

/// Keys are lawful wherever `==` on them can be relied on and is an equivalence.
pub proof fn equivalences_are_lawful<K: Eq>()
    requires
        K::obeys_eq_spec(),
        forall|a: K| #[trigger] a.eq_spec(&a),
        forall|a: K, b: K| #[trigger] a.eq_spec(&b) ==> b.eq_spec(&a),
        forall|a: K, b: K, c: K|
            #[trigger] a.eq_spec(&b) && #[trigger] b.eq_spec(&c) ==> a.eq_spec(&c),
    ensures
        lawful_keys::<K>(),
{
}

/// Two authorities are the same if and only if their hosts have the same characters,
/// and their ports are both missing or both there with the same characters.
pub proof fn same_authorities(a: Authority, b: Authority)
    ensures
        a.eq_spec(&b) <==> {
            &&& a.host@ == b.host@
            &&& match (a.port, b.port) {
                (Some(p), Some(q)) => p@ == q@,
                (None, None) => true,
                _ => false,
            }
        },
        a@ == b@ <==> a.eq_spec(&b),
        a@.host == a.host@,
{
}

/// Two proxies are the same if and only if scheme, authority and credentials are.
pub proof fn same_proxies(p: ProxyKey, q: ProxyKey)
    ensures
        p.eq_spec(&q) <==> {
            &&& p@.scheme == q@.scheme
            &&& p@.authority.host == q@.authority.host
            &&& p@.authority.port == q@.authority.port
            &&& p@.auth == q@.auth
        },
{
}

/// Two TLS configurations are the same if and only if their numbers are.
pub proof fn same_configurations(c: TlsConfigKey, d: TlsConfigKey)
    ensures
        c == d <==> c.target() == d.target() && c.proxy() == d.proxy(),
{
}

/// Two keys of connections straight to their targets are the same if and only if the
/// schemes are, the hosts have the same characters, and so have the ports, or both
/// have none.
pub proof fn same_direct_keys(
    k: PoolKey,
    s: Scheme,
    a: Authority,
    l: PoolKey,
    t: Scheme,
    b: Authority,
)
    requires
        k@ == direct_key(s, a@),
        l@ == direct_key(t, b@),
    ensures
        k.eq_spec(&l) <==> {
            &&& s == t
            &&& a.host@ == b.host@
            &&& match (a.port, b.port) {
                (Some(p), Some(q)) => p@ == q@,
                (None, None) => true,
                _ => false,
            }
        },
        direct_key(s, a@) == direct_key(t, b@) <==> s == t && a@ == b@,
{
}

/// Two keys of connections through proxies are the same if and only if the targets'
/// schemes, hosts and ports are, and the proxies' schemes, hosts, ports and
/// credentials.
pub proof fn same_proxied_keys(
    k: PoolKey,
    s: Scheme,
    a: Authority,
    ps: Scheme,
    pa: Authority,
    auth: Option<String>,
    l: PoolKey,
    t: Scheme,
    b: Authority,
    qs: Scheme,
    qa: Authority,
    other_auth: Option<String>,
)
    requires
        k@ == proxied_key(
            s,
            a@,
            (ProxyKeyView { scheme: ps, authority: pa@, auth: optional_text(auth) }),
        ),
        l@ == proxied_key(
            t,
            b@,
            (ProxyKeyView { scheme: qs, authority: qa@, auth: optional_text(other_auth) }),
        ),
    ensures
        k.eq_spec(&l) <==> {
            &&& s == t
            &&& a.host@ == b.host@
            &&& match (a.port, b.port) {
                (Some(p), Some(q)) => p@ == q@,
                (None, None) => true,
                _ => false,
            }
            &&& ps == qs
            &&& pa.host@ == qa.host@
            &&& match (pa.port, qa.port) {
                (Some(p), Some(q)) => p@ == q@,
                (None, None) => true,
                _ => false,
            }
            &&& match (auth, other_auth) {
                (Some(u), Some(v)) => u@ == v@,
                (None, None) => true,
                _ => false,
            }
        },
{
}

/// The key of a connection straight to its target and that of one through a proxy are
/// never the same, and neither has a TLS configuration until it is given one.
pub proof fn direct_is_never_proxied(
    k: PoolKey,
    s: Scheme,
    a: Authority,
    l: PoolKey,
    t: Scheme,
    b: Authority,
    proxy: ProxyKeyView,
)
    requires
        k@ == direct_key(s, a@),
        l@ == proxied_key(t, b@, proxy),
    ensures
        !k.eq_spec(&l),
        !l.eq_spec(&k),
        k@.tls_config is None,
        l@.tls_config is None,
{
}

/// Two keys that are given TLS configurations, and had none or the same, become the
/// same if and only if they were the same and the numbers of the configurations are.
/// A key that had none becomes another one.
pub proof fn same_configured_keys(
    k: PoolKey,
    k2: PoolKey,
    c: TlsConfigKey,
    l: PoolKey,
    l2: PoolKey,
    d: TlsConfigKey,
)
    requires
        k2@ == configured_key(k@, c),
        l2@ == configured_key(l@, d),
        k@.tls_config == l@.tls_config,
    ensures
        k2.eq_spec(&l2) <==> k.eq_spec(&l) && c.target() == d.target() && c.proxy() == d.proxy(),
        k@.tls_config is None ==> !k2.eq_spec(&k) && !k2.eq_spec(&l),
{
    same_configurations(c, d);
}

/// A key that is given a TLS configuration, and then another, is as if it had been
/// given the other alone.
pub proof fn last_configuration_counts(
    k: PoolKey,
    between: PoolKey,
    c: TlsConfigKey,
    k2: PoolKey,
    k3: PoolKey,
    d: TlsConfigKey,
)
    requires
        between@ == configured_key(k@, c),
        k2@ == configured_key(between@, d),
        k3@ == configured_key(k@, d),
    ensures
        k2.eq_spec(&k3),
{
}

/// A draw takes the number that is next and the one after it, and leaves the one after
/// that. After the largest number comes 0.
pub proof fn numbers_follow_each_other(
    before: TlsConfigCounter,
    key: TlsConfigKey,
    after: TlsConfigCounter,
)
    requires
        key.drawn(before, after),
    ensures
        key.target() == before.upcoming(),
        key.target() < usize::MAX ==> key.proxy() == key.target() + 1,
        key.target() == usize::MAX ==> key.proxy() == 0,
        key.proxy() < usize::MAX ==> after.upcoming() == key.proxy() + 1,
        key.proxy() == usize::MAX ==> after.upcoming() == 0,
{
    lemma_number_after(before.upcoming() as int, 1);
    lemma_number_after(before.upcoming() as int, 2);
}

/// What a call is given is a clone of what the `create_fn` of the first call with an
/// equal key made.
pub proof fn connections_come_from_the_first_call<K: Eq, V: Clone>(
    pools: Seq<Pool<K, V>>,
    keys: Seq<K>,
    conns: Seq<V>,
    makes: Seq<spec_fn(V) -> bool>,
    n: int,
)
    requires
        full_history(pools, keys, conns, makes),
        0 <= n < keys.len(),
    ensures
        exists|first: int, kept: V|
            {
                &&& 0 <= first <= n
                &&& #[trigger] keys[first].eq_spec(&keys[n])
                &&& forall|i: int| 0 <= i < first ==> !keys[first].eq_spec(&#[trigger] keys[i])
                &&& makes[first](kept)
                &&& #[trigger] cloned(kept, conns[n])
            },
{
    let first = first_equal(keys, n, n);
    first_call_makes_what_is_shared(pools, keys, conns, makes, first, n);
    let kept = pools[first + 1].lookup(keys[first])->0;
    assert(keys[first].eq_spec(&keys[n]) && cloned(kept, conns[n]));
}

/// The first key that is equal to the key number `n`, where `from` is one such.
proof fn first_equal<K: Eq>(keys: Seq<K>, n: int, from: int) -> (first: int)
    requires
        lawful_keys::<K>(),
        0 <= from <= n < keys.len(),
        keys[from].eq_spec(&keys[n]),
    ensures
        0 <= first <= n,
        keys[first].eq_spec(&keys[n]),
        forall|i: int| 0 <= i < first ==> !keys[first].eq_spec(&#[trigger] keys[i]),
    decreases from,
{
    if forall|i: int| 0 <= i < from ==> !keys[from].eq_spec(&#[trigger] keys[i]) {
        from
    } else {
        let i = choose|i: int| 0 <= i < from && keys[from].eq_spec(&#[trigger] keys[i]);
        assert(keys[i].eq_spec(&keys[from]));
        assert(keys[i].eq_spec(&keys[n]));
        first_equal(keys, n, i)
    }
}

} // verus!
