//! The connection pool: one set of connections for each key.
//!
//! A key holds everything that decides whether a connection may be shared: where
//! it leads, through which proxy and with which credentials it goes, and under
//! which TLS configuration it was made.

use vstd::arithmetic::div_mod::{lemma_mod_sub_multiples_vanish, lemma_small_mod};
use vstd::prelude::*;
use vstd::std_specs::cmp::{PartialEqSpec, PartialEqSpecImpl};
use crate::text::optional_text;

pub mod identity;
pub mod laws;

verus! {

// The pool.

/// `==` on keys is what `eq_spec` says, and is an equivalence, as `Eq` asks.
pub open spec fn lawful_keys<K: Eq>() -> bool {
    &&& K::obeys_eq_spec()
    &&& forall|a: K| #[trigger] a.eq_spec(&a)
    &&& forall|a: K, b: K| #[trigger] a.eq_spec(&b) ==> b.eq_spec(&a)
    &&& forall|a: K, b: K, c: K|
        #[trigger] a.eq_spec(&b) && #[trigger] b.eq_spec(&c) ==> a.eq_spec(&c)
}

/// Connections, by key. No two keys in it are equal.
pub struct Pool<K, V> {
    pool: Vec<(K, V)>,
}

impl<K, V> Pool<K, V> {
    /// The keys with what is kept for them, in the order in which they came.
    pub closed spec fn entries(self) -> Seq<(K, V)> {
        self.pool@
    }

    /// An empty pool.
    pub fn new() -> (pool: Self)
        ensures
            pool.entries() == Seq::<(K, V)>::empty(),
    {
        Pool { pool: Vec::new() }
    }
}

impl<K: Eq, V> Pool<K, V> {
    /// No two keys are equal.
    pub open spec fn wf(self) -> bool {
        forall|i: int, j: int|
            0 <= i < self.entries().len() && 0 <= j < self.entries().len() && i != j
                ==> !(#[trigger] self.entries()[i]).0.eq_spec(&(#[trigger] self.entries()[j]).0)
    }

    /// The entry at `i` is the one for `key`.
    pub open spec fn entry_is(self, i: int, key: K) -> bool {
        0 <= i < self.entries().len() && self.entries()[i].0.eq_spec(&key)
    }

    /// What is kept for `key`.
    pub open spec fn lookup(self, key: K) -> Option<V> {
        if exists|i: int| self.entry_is(i, key) {
            Some(self.entries()[choose|i: int| self.entry_is(i, key)].1)
        } else {
            None
        }
    }

    /// `lookup` gives what stands at the one entry for the key.
    proof fn lemma_lookup(self, i: int, key: K)
        requires
            lawful_keys::<K>(),
            self.wf(),
            self.entry_is(i, key),
        ensures
            self.lookup(key) == Some(self.entries()[i].1),
    {
        let j = choose|j: int| self.entry_is(j, key);
        let a = self.entries()[i].0;
        let b = self.entries()[j].0;
        assert(key.eq_spec(&b));
        assert(a.eq_spec(&b));
    }
}

impl<K: Eq, V: Clone> Pool<K, V> {
    /// The pool gives `conn` out for `key` and goes from `before` to `after` by it:
    /// what it kept stays, it then keeps something for `key`, and `conn` is a clone
    /// of that.
    pub open spec fn serves(before: Self, key: K, after: Self, conn: V) -> bool {
        &&& after.lookup(key) is Some
        &&& cloned(after.lookup(key)->0, conn)
        &&& before.lookup(key) is Some ==> after.entries() == before.entries()
        &&& before.lookup(key) is None ==> after.entries() == before.entries().push(
            (key, after.lookup(key)->0),
        )
    }

    /// A clone of what the pool keeps for `key`. Where it keeps nothing, it first
    /// takes in what `create_fn` makes.
    pub fn get<F, C>(&mut self, key: K, create_fn: F, allowed_num: usize, speed_conf: C) -> (conn: V)
        where F: FnOnce(usize, C) -> V
        requires
            lawful_keys::<K>(),
            old(self).wf(),
            old(self).lookup(key) is None ==> call_requires(create_fn, (allowed_num, speed_conf)),
        ensures
            final(self).wf(),
            Self::serves(*old(self), key, *final(self), conn),
            old(self).lookup(key) is None ==> call_ensures(
                create_fn,
                (allowed_num, speed_conf),
                final(self).lookup(key)->0,
            ),
    {
        let mut i: usize = 0;
        while i < self.pool.len()
            invariant
                lawful_keys::<K>(),
                self.wf(),
                *self == *old(self),
                i <= self.entries().len(),
                forall|j: int| 0 <= j < i ==> !(#[trigger] self.entries()[j]).0.eq_spec(&key),
            decreases self.entries().len() - i,
        {
            if self.pool[i].0 == key {
                proof {
                    self.lemma_lookup(i as int, key);
                }
                return self.pool[i].1.clone();
            }
            i += 1;
        }
        assert(self.lookup(key) is None);
        let made: V = create_fn(allowed_num, speed_conf);
        let conn: V = made.clone();
        self.pool.push((key, made));
        proof {
            self.lemma_lookup(i as int, key);
        }
        conn
    }
}

// What keys are made of.

/// The scheme of a URI.
#[derive(Clone, Copy, Debug, PartialEq, Eq, Hash, Structural)]
pub enum Scheme {
    Http,
    Https,
}

/// The authority of a URI: its host, and its port as the URI writes it.
#[derive(Debug, Hash)]
pub struct Authority {
    pub host: String,
    pub port: Option<String>,
}

/// An [`Authority`] as text.
pub struct AuthorityView {
    pub host: Seq<char>,
    pub port: Option<Seq<char>>,
}

impl View for Authority {
    type V = AuthorityView;

    open spec fn view(&self) -> AuthorityView {
        AuthorityView { host: self.host@, port: optional_text(self.port) }
    }
}

/// Whether two texts, either of which may be missing, are the same.
fn same_optional_text(a: &Option<String>, b: &Option<String>) -> (same: bool)
    ensures
        same == (optional_text(*a) == optional_text(*b)),
{
    match (a, b) {
        (Some(a), Some(b)) => *a == *b,
        (None, None) => true,
        _ => false,
    }
}

/// A copy of a text that may be missing.
fn clone_optional_text(a: &Option<String>) -> (b: Option<String>)
    ensures
        optional_text(b) == optional_text(*a),
{
    match a {
        Some(a) => Some(a.clone()),
        None => None,
    }
}

impl PartialEq for Authority {
    fn eq(&self, other: &Self) -> (same: bool) {
        self.host == other.host && same_optional_text(&self.port, &other.port)
    }
}

impl PartialEqSpecImpl for Authority {
    open spec fn obeys_eq_spec() -> bool {
        true
    }

    open spec fn eq_spec(&self, other: &Self) -> bool {
        self@ == other@
    }
}

impl Eq for Authority {}

impl Clone for Authority {
    fn clone(&self) -> (copy: Self)
        ensures
            copy@ == self@,
    {
        Authority { host: self.host.clone(), port: clone_optional_text(&self.port) }
    }
}

/// A proxy, as far as connections through it may be shared: how it is reached,
/// where it is, and the Basic credentials that it is given.
#[derive(Debug, Hash)]
pub struct ProxyKey {
    scheme: Scheme,
    authority: Authority,
    auth: Option<String>,
}

/// A [`ProxyKey`] as text.
pub struct ProxyKeyView {
    pub scheme: Scheme,
    pub authority: AuthorityView,
    pub auth: Option<Seq<char>>,
}

impl View for ProxyKey {
    type V = ProxyKeyView;

    closed spec fn view(&self) -> ProxyKeyView {
        ProxyKeyView {
            scheme: self.scheme,
            authority: self.authority@,
            auth: optional_text(self.auth),
        }
    }
}

impl PartialEq for ProxyKey {
    fn eq(&self, other: &Self) -> (same: bool) {
        self.scheme == other.scheme && self.authority == other.authority && same_optional_text(
            &self.auth,
            &other.auth,
        )
    }
}

impl PartialEqSpecImpl for ProxyKey {
    open spec fn obeys_eq_spec() -> bool {
        true
    }

    open spec fn eq_spec(&self, other: &Self) -> bool {
        self@ == other@
    }
}

impl Eq for ProxyKey {}

impl Clone for ProxyKey {
    fn clone(&self) -> (copy: Self)
        ensures
            copy@ == self@,
    {
        ProxyKey {
            scheme: self.scheme,
            authority: self.authority.clone(),
            auth: clone_optional_text(&self.auth),
        }
    }
}

/// The number that is given out `k` numbers after `n`.
pub open spec fn number_after(n: int, k: int) -> int {
    (n + k) % (usize::MAX + 1)
}

/// Counting on from `n` goes round at most once, as long as it takes no more steps
/// than there are numbers.
pub(crate) proof fn lemma_number_after(n: int, k: int)
    requires
        0 <= n <= usize::MAX,
        0 <= k <= usize::MAX,
    ensures
        number_after(n, k) == if n + k <= usize::MAX {
            n + k
        } else {
            n + k - (usize::MAX + 1)
        },
{
    let m = usize::MAX + 1;
    if n + k <= usize::MAX {
        lemma_small_mod((n + k) as nat, m as nat);
    } else {
        lemma_mod_sub_multiples_vanish(n + k, m);
        lemma_small_mod((n + k - m) as nat, m as nat);
    }
}

/// Numbers for TLS configurations. The first one is 1; after the last number that
/// there is, they begin again at 0.
pub struct TlsConfigCounter {
    next: usize,
}

impl TlsConfigCounter {
    /// The number that is given out next.
    pub closed spec fn upcoming(self) -> usize {
        self.next
    }

    /// A counter that has given nothing out.
    pub fn new() -> (counter: Self)
        ensures
            counter.upcoming() == 1,
    {
        TlsConfigCounter { next: 1 }
    }

    /// Gives a number out.
    fn take(&mut self) -> (n: usize)
        ensures
            n == old(self).upcoming(),
            final(self).upcoming() == number_after(old(self).upcoming() as int, 1),
    {
        let n: usize = self.next;
        proof {
            lemma_number_after(n as int, 1);
        }
        self.next = n.wrapping_add(1);
        n
    }
}

/// The TLS configurations of a client, by number: the one for targets and the one
/// for proxies.
#[derive(Clone, Copy, Debug, PartialEq, Eq, Hash, Structural)]
pub struct TlsConfigKey {
    target: usize,
    proxy: usize,
}

impl TlsConfigKey {
    /// The number of the configuration for targets.
    pub closed spec fn target(self) -> usize {
        self.target
    }

    /// The number of the configuration for proxies.
    pub closed spec fn proxy(self) -> usize {
        self.proxy
    }

    /// The key takes the next two numbers of a counter, which goes from `before` to
    /// `after` by it.
    pub open spec fn drawn(self, before: TlsConfigCounter, after: TlsConfigCounter) -> bool {
        &&& self.target() == before.upcoming()
        &&& self.proxy() == number_after(before.upcoming() as int, 1)
        &&& after.upcoming() == number_after(before.upcoming() as int, 2)
    }

    /// Two new numbers.
    pub fn next(counter: &mut TlsConfigCounter) -> (key: Self)
        ensures
            key.drawn(*old(counter), *final(counter)),
    {
        proof {
            lemma_number_after(counter.upcoming() as int, 1);
            lemma_number_after(counter.upcoming() as int, 2);
            lemma_number_after(number_after(counter.upcoming() as int, 1), 1);
        }
        let target: usize = counter.take();
        let proxy: usize = counter.take();
        TlsConfigKey { target, proxy }
    }
}

// Keys.

/// What decides whether two requests may share a connection.
#[derive(Debug, Hash)]
pub struct PoolKey {
    target_scheme: Scheme,
    target_authority: Authority,
    proxy: Option<ProxyKey>,
    tls_config: Option<TlsConfigKey>,
}

/// A [`PoolKey`] as text and numbers.
pub struct PoolKeyView {
    pub target_scheme: Scheme,
    pub target_authority: AuthorityView,
    pub proxy: Option<ProxyKeyView>,
    pub tls_config: Option<TlsConfigKey>,
}

impl View for PoolKey {
    type V = PoolKeyView;

    closed spec fn view(&self) -> PoolKeyView {
        PoolKeyView {
            target_scheme: self.target_scheme,
            target_authority: self.target_authority@,
            proxy: match self.proxy {
                Some(proxy) => Some(proxy@),
                None => None,
            },
            tls_config: self.tls_config,
        }
    }
}

impl PartialEq for PoolKey {
    fn eq(&self, other: &Self) -> (same: bool) {
        let same_proxy: bool = match (&self.proxy, &other.proxy) {
            (Some(a), Some(b)) => *a == *b,
            (None, None) => true,
            _ => false,
        };
        let same_tls_config: bool = match (&self.tls_config, &other.tls_config) {
            (Some(a), Some(b)) => *a == *b,
            (None, None) => true,
            _ => false,
        };
        self.target_scheme == other.target_scheme && self.target_authority == other.target_authority
            && same_proxy && same_tls_config
    }
}

impl PartialEqSpecImpl for PoolKey {
    open spec fn obeys_eq_spec() -> bool {
        true
    }

    open spec fn eq_spec(&self, other: &Self) -> bool {
        self@ == other@
    }
}

impl Eq for PoolKey {}

impl Clone for PoolKey {
    fn clone(&self) -> (copy: Self)
        ensures
            copy@ == self@,
    {
        PoolKey {
            target_scheme: self.target_scheme,
            target_authority: self.target_authority.clone(),
            proxy: match &self.proxy {
                Some(proxy) => Some(proxy.clone()),
                None => None,
            },
            tls_config: self.tls_config,
        }
    }
}

/// The key of a connection straight to its target.
pub open spec fn direct_key(scheme: Scheme, authority: AuthorityView) -> PoolKeyView {
    PoolKeyView {
        target_scheme: scheme,
        target_authority: authority,
        proxy: None,
        tls_config: None,
    }
}

/// The key of a connection to its target through `proxy`.
pub open spec fn proxied_key(
    scheme: Scheme,
    authority: AuthorityView,
    proxy: ProxyKeyView,
) -> PoolKeyView {
    PoolKeyView { proxy: Some(proxy), ..direct_key(scheme, authority) }
}

/// A key, under a TLS configuration.
pub open spec fn configured_key(key: PoolKeyView, tls_config: TlsConfigKey) -> PoolKeyView {
    PoolKeyView { tls_config: Some(tls_config), ..key }
}

impl PoolKey {
    /// The key of a connection straight to its target.
    pub fn new(scheme: Scheme, authority: Authority) -> (key: Self)
        ensures
            key@ == direct_key(scheme, authority@),
    {
        PoolKey {
            target_scheme: scheme,
            target_authority: authority,
            proxy: None,
            tls_config: None,
        }
    }

    /// The key of a connection to its target through a proxy.
    pub fn with_proxy(
        target_scheme: Scheme,
        target_authority: Authority,
        proxy_scheme: Scheme,
        proxy_authority: Authority,
        proxy_auth: Option<String>,
    ) -> (key: Self)
        ensures
            key@ == proxied_key(
                target_scheme,
                target_authority@,
                (ProxyKeyView {
                    scheme: proxy_scheme,
                    authority: proxy_authority@,
                    auth: optional_text(proxy_auth),
                }),
            ),
    {
        PoolKey {
            target_scheme,
            target_authority,
            proxy: Some(
                ProxyKey { scheme: proxy_scheme, authority: proxy_authority, auth: proxy_auth },
            ),
            tls_config: None,
        }
    }

    /// The same key, under a TLS configuration.
    pub fn with_tls_config(self, tls_config: TlsConfigKey) -> (key: Self)
        ensures
            key@ == configured_key(self@, tls_config),
    {
        PoolKey { tls_config: Some(tls_config), ..self }
    }
}

} // verus!
