use ylong_http_client::pool::{
    Authority, Pool, PoolKey, Scheme, TlsConfigCounter, TlsConfigKey,
};

struct SpeedConfig;

impl SpeedConfig {
    fn none() -> Self {
        SpeedConfig
    }
}

/// The scheme and the authority of a URI.
fn parts(uri: &str) -> (Scheme, Authority) {
    let (scheme, rest) = uri.split_once("://").unwrap();
    let scheme = match scheme {
        "http" => Scheme::Http,
        "https" => Scheme::Https,
        other => panic!("{}", other),
    };
    let authority = rest.split('/').next().unwrap();
    let authority = match authority.split_once(':') {
        Some((host, port)) => Authority {
            host: host.to_string(),
            port: Some(port.to_string()),
        },
        None => Authority {
            host: authority.to_string(),
            port: None,
        },
    };
    (scheme, authority)
}

fn direct(target: &str) -> PoolKey {
    let (scheme, authority) = parts(target);
    PoolKey::new(scheme, authority)
}

fn via(target: &str, proxy: &str, auth: Option<&str>) -> PoolKey {
    let (target_scheme, target_authority) = parts(target);
    let (proxy_scheme, proxy_authority) = parts(proxy);
    PoolKey::with_proxy(
        target_scheme,
        target_authority,
        proxy_scheme,
        proxy_authority,
        auth.map(|a| a.to_string()),
    )
}

#[test]
fn ut_pool_get() {
    let key = direct("http://example1.com:80/foo?a=1");
    let data = String::from("Data info");
    let consume_and_return_data = move |_size: usize, _conf: SpeedConfig| data;
    let mut pool = Pool::new();
    let res = pool.get(key, consume_and_return_data, 6, SpeedConfig::none());
    assert_eq!(res, "Data info".to_string());
}

#[test]
fn ut_pool_key_proxy_isolation() {
    let target = "https://target.example:443/foo";
    let http_proxy = "http://proxy.example:8080";
    let https_proxy = "https://proxy.example:8080";
    let other_proxy = "https://other-proxy.example:8080";
    let other_target = "https://other-target.example:443/foo";

    let direct = direct(target);
    let via_http = via(target, http_proxy, None);
    let via_https = via(target, https_proxy, None);
    let via_https_with_auth = via(target, https_proxy, Some("auth"));
    let via_other_proxy = via(target, other_proxy, None);
    let via_other_target = via(other_target, https_proxy, None);

    assert_ne!(direct, via_http);
    assert_ne!(via_http, via_https);
    assert_ne!(via_https, via_https_with_auth);
    assert_ne!(via_https, via_other_proxy);
    assert_ne!(via_https, via_other_target);
}

#[test]
fn ut_pool_key_tls_config_isolation() {
    let target = "https://target.example:443/foo";
    let proxy = "https://proxy.example:8080";
    let mut counter = TlsConfigCounter::new();
    let key_a = via(target, proxy, None).with_tls_config(TlsConfigKey::next(&mut counter));
    let key_b = via(target, proxy, None).with_tls_config(TlsConfigKey::next(&mut counter));

    assert_ne!(key_a, key_b);
}

#[test]
fn equal_parts_make_equal_keys() {
    let target = "https://target.example:443/foo";
    let proxy = "https://proxy.example:8080";
    assert_eq!(direct(target), direct(target));
    assert_eq!(via(target, proxy, Some("auth")), via(target, proxy, Some("auth")));
    assert_ne!(via(target, proxy, Some("auth")), via(target, proxy, Some("other")));
    assert_ne!(direct("http://a:1"), direct("https://a:1"));
    assert_ne!(direct("http://a:1"), direct("http://a:2"));
    assert_ne!(direct("http://a:1"), direct("http://a"));
    assert_ne!(via(target, "http://p:1", None), via(target, "http://p:2", None));
}

#[test]
fn clones_are_equal() {
    let mut counter = TlsConfigCounter::new();
    let key = via("https://t:443", "https://p:1", Some("auth"))
        .with_tls_config(TlsConfigKey::next(&mut counter));
    assert_eq!(key.clone(), key);
    let plain = direct("http://t");
    assert_eq!(plain.clone(), plain);
}

#[test]
fn tls_configurations_are_part_of_the_key() {
    let mut counter = TlsConfigCounter::new();
    let first = TlsConfigKey::next(&mut counter);
    let second = TlsConfigKey::next(&mut counter);
    let key = direct("https://t:443");
    assert_ne!(first, second);
    assert_ne!(key.clone().with_tls_config(first), key);
    assert_eq!(
        key.clone().with_tls_config(first),
        key.clone().with_tls_config(first)
    );
    assert_ne!(
        key.clone().with_tls_config(first),
        key.clone().with_tls_config(second)
    );
    assert_eq!(
        key.clone().with_tls_config(first).with_tls_config(second),
        key.with_tls_config(second)
    );
}

#[test]
fn tls_configurations_are_numbered_from_one() {
    let mut counter = TlsConfigCounter::new();
    let first = TlsConfigKey::next(&mut counter);
    let second = TlsConfigKey::next(&mut counter);
    assert_eq!(format!("{:?}", first), "TlsConfigKey { target: 1, proxy: 2 }");
    assert_eq!(format!("{:?}", second), "TlsConfigKey { target: 3, proxy: 4 }");
}

#[test]
fn equal_keys_get_what_was_made_first() {
    let mut pool = Pool::new();
    let a = pool.get(direct("http://a:1"), |n: usize, c: u8| (n, c, 'a'), 6, 9u8);
    let b = pool.get(direct("http://b:1"), |n: usize, c: u8| (n, c, 'b'), 7, 8u8);
    assert_eq!(a, (6, 9, 'a'));
    assert_eq!(b, (7, 8, 'b'));
    let again = pool.get(
        direct("http://a:1"),
        |_: usize, _: u8| panic!("there is one already"),
        1,
        1u8,
    );
    assert_eq!(again, (6, 9, 'a'));
    let again = pool.get(
        direct("http://b:1"),
        |_: usize, _: u8| panic!("there is one already"),
        1,
        1u8,
    );
    assert_eq!(again, (7, 8, 'b'));
}

#[test]
fn only_the_first_call_with_a_key_makes_something() {
    let made = std::cell::RefCell::new(Vec::new());
    let mut pool = Pool::new();
    let mut got: Vec<usize> = Vec::new();
    for (call, uri) in ["http://b:1", "http://a:1", "http://b:1", "http://a:1"].iter().enumerate() {
        let create = |n: usize, c: usize| {
            made.borrow_mut().push(call);
            n + c
        };
        got.push(pool.get(direct(uri), create, 10 * call, call));
    }
    assert_eq!(got, vec![0, 11, 0, 11]);
    assert_eq!(made.into_inner(), vec![0, 1]);
}

#[test]
fn proxied_and_direct_connections_are_kept_apart() {
    let target = "https://target.example:443";
    let mut pool = Pool::new();
    let keys = vec![
        direct(target),
        via(target, "http://proxy.example:8080", None),
        via(target, "https://proxy.example:8080", None),
        via(target, "https://proxy.example:8080", Some("auth")),
    ];
    for i in 0..keys.len() {
        let made = pool.get(keys[i].clone(), |n: usize, _: ()| n, i, ());
        assert_eq!(made, i);
    }
    for i in 0..keys.len() {
        let kept = pool.get(keys[i].clone(), |_: usize, _: ()| 100, 0, ());
        assert_eq!(kept, i);
    }
}
