use dacloud::client::{Config, Dacloud, RequestError, Step};
use dacloud::fingerprint::fingerprint;
use dacloud::headers::Headers;
use dacloud::properties::Properties;

fn answer(dc: &mut Dacloud, body: &str) -> (Properties, bool) {
    match dc.prepare() {
        Step::Done(p) => (p, false),
        Step::Fetch(plan) => {
            let reply = match dc.complete(&plan, Ok(body.as_bytes().to_vec())) {
                Ok(r) => r,
                Err(_) => panic!("transport"),
            };
            (reply.properties, true)
        }
    }
}

fn names(p: &Properties) -> Vec<String> {
    (0..p.len()).map(|i| p.entry(i).0.clone()).collect()
}

#[test]
fn dc_integration_tests() {
    let mut host = String::from("region0.deviceatlascloud.com");
    let mut licence_key = String::from("12345");
    let cfg = Config::new(host, licence_key, 0 as usize);
    let mut dc = Dacloud::new(cfg);
    assert!(dc.headers.len() == 0);
    dc.headers.insert(String::from("user-agent"), String::from("iPhone"));
    assert!(dc.headers.len() == 1);
    let (mut ret, _) = answer(&mut dc, "");
    assert!(ret.len() == 0);
    host = String::from("region2.deviceatlascloud.com");
    licence_key = String::from("dummy");
    let cfg2 = Config::new(host, licence_key, 32 as usize);
    let mut dc2 = Dacloud::new(cfg2);
    dc2.headers.insert(String::from("user-agent"), String::from("iPhone"));
    assert!(dc.headers == dc2.headers);
    ret = answer(&mut dc, "").0;
    assert!(ret.len() == 0);
}

#[test]
fn no_user_agent_gives_empty_map_without_fetch() {
    let mut dc = Dacloud::new(Config::new(String::from("host"), String::from("lk"), 0));
    match dc.prepare() {
        Step::Done(p) => assert_eq!(p.len(), 0),
        Step::Fetch(_) => panic!("no fetch expected"),
    }
    dc.headers.insert(String::from("User-Agent"), String::from("iPhone"));
    assert!(matches!(dc.prepare(), Step::Done(_)));
}

#[test]
fn fetch_plan_url_and_headers() {
    let mut dc = Dacloud::new(Config::new(String::from("host:8080"), String::from("lk"), 0));
    dc.headers.insert(String::from("user-agent"), String::from("iPhone"));
    dc.headers.insert(String::from("x-foo"), String::from("1"));
    match dc.prepare() {
        Step::Fetch(plan) => {
            assert_eq!(plan.url, "http://host:8080/v1/detect/properties?licencekey=lk&useragent=iPhone");
            assert_eq!(
                plan.headers,
                vec![
                    String::from("X-DA-user-agent: iPhone"),
                    String::from("X-DA-x-foo: 1"),
                    String::from("User-Agent: rust/0.1.0"),
                    String::from("Accept: application/json"),
                ]
            );
            assert_eq!(plan.fingerprint, fingerprint(&dc.headers));
        }
        Step::Done(_) => panic!("fetch expected"),
    }
}

#[test]
fn empty_properties_give_empty_map() {
    let mut dc = Dacloud::new(Config::new(String::from("host"), String::from("lk"), 0));
    dc.headers.insert(String::from("user-agent"), String::from("iPhone"));
    let (p, fetched) = answer(&mut dc, "{\"properties\": {}}");
    assert!(fetched);
    assert_eq!(p.len(), 0);
}

#[test]
fn typed_decode() {
    let mut dc = Dacloud::new(Config::new(String::from("host"), String::from("lk"), 0));
    dc.headers.insert(String::from("user-agent"), String::from("iPhone"));
    let (p, _) = answer(
        &mut dc,
        "{\"properties\": {\"isMobile\": true, \"displayWidth\": 375, \"osName\": \"iOS\"}}",
    );
    assert_eq!(p.len(), 3);
    let m = p.get("isMobile").unwrap();
    assert_eq!((m.b, m.i, m.s.as_str()), (true, -1, "true"));
    let w = p.get("displayWidth").unwrap();
    assert_eq!((w.b, w.i, w.s.as_str()), (false, 375, "375"));
    let o = p.get("osName").unwrap();
    assert_eq!((o.b, o.i, o.s.as_str()), (false, -1, "iOS"));
}

#[test]
fn cache_hit_skips_fetch() {
    let mut dc = Dacloud::new(Config::new(String::from("host"), String::from("lk"), 4));
    dc.headers.insert(String::from("user-agent"), String::from("A"));
    dc.headers.insert(String::from("x-foo"), String::from("1"));
    let (first, fetched) = answer(&mut dc, "{\"properties\": {\"osName\": \"iOS\", \"displayWidth\": 375}}");
    assert!(fetched);
    let (second, fetched_again) = answer(&mut dc, "{\"properties\": {}}");
    assert!(!fetched_again);
    assert_eq!(names(&first), names(&second));
    for i in 0..first.len() {
        let (a, b) = (first.entry(i).1, second.entry(i).1);
        assert!(a == b);
        assert_eq!((a.b, a.i), (b.b, b.i));
    }
}

#[test]
fn disabled_cache_always_fetches() {
    let mut dc = Dacloud::new(Config::new(String::from("host"), String::from("lk"), 0));
    dc.headers.insert(String::from("user-agent"), String::from("A"));
    assert!(answer(&mut dc, "{\"properties\": {\"a\": 1}}").1);
    assert!(answer(&mut dc, "{\"properties\": {\"a\": 1}}").1);
}

#[test]
fn fingerprint_sensitivity() {
    let mut a = Headers::new();
    a.insert(String::from("user-agent"), String::from("A"));
    let mut b = Headers::new();
    b.insert(String::from("user-agent"), String::from("B"));
    assert_ne!(fingerprint(&a), fingerprint(&b));

    let mut dc = Dacloud::new(Config::new(String::from("host"), String::from("lk"), 4));
    dc.headers.insert(String::from("user-agent"), String::from("A"));
    assert!(answer(&mut dc, "{\"properties\": {\"n\": \"a\"}}").1);
    dc.headers.insert(String::from("user-agent"), String::from("B"));
    let (pb, fetched) = answer(&mut dc, "{\"properties\": {\"n\": \"b\"}}");
    assert!(fetched);
    assert_eq!(pb.get("n").unwrap().s, "b");
    dc.headers.insert(String::from("user-agent"), String::from("A"));
    let (pa, fetched) = answer(&mut dc, "{}");
    assert!(!fetched);
    assert_eq!(pa.get("n").unwrap().s, "a");
}

#[test]
fn fingerprint_exact_digest() {
    let mut h = Headers::new();
    assert_eq!(fingerprint(&h), "da39a3ee5e6b4b0d3255bfef95601890afd80709");
    h.insert(String::from("user-agent"), String::from("iPhone"));
    assert_eq!(fingerprint(&h), "80adab0114b796f6ba3c3c2f3d1b722a5c10565e");
}

#[test]
fn fingerprint_follows_concatenated_text() {
    let mut a = Headers::new();
    a.insert(String::from("ab"), String::from("c"));
    let mut b = Headers::new();
    b.insert(String::from("a"), String::from("bc"));
    assert_eq!(fingerprint(&a), fingerprint(&b));
}

#[test]
fn decoder_resilience() {
    let mut dc = Dacloud::new(Config::new(String::from("host"), String::from("lk"), 4));
    dc.headers.insert(String::from("user-agent"), String::from("A"));
    let plan = match dc.prepare() {
        Step::Fetch(plan) => plan,
        Step::Done(_) => panic!("fetch expected"),
    };
    let reply = match dc.complete(&plan, Ok(b"not json".to_vec())) {
        Ok(r) => r,
        Err(_) => panic!("transport"),
    };
    assert!(!reply.decoded);
    assert_eq!(reply.properties.len(), 0);
    let (p, fetched) = answer(&mut dc, "{\"properties\": {\"osName\": \"iOS\"}}");
    assert!(fetched);
    assert_eq!(p.get("osName").unwrap().s, "iOS");
}

#[test]
fn invalid_utf8_is_not_decoded() {
    let mut dc = Dacloud::new(Config::new(String::from("host"), String::from("lk"), 4));
    dc.headers.insert(String::from("user-agent"), String::from("A"));
    if let Step::Fetch(plan) = dc.prepare() {
        let reply = dc.complete(&plan, Ok(vec![0xff, 0xfe])).ok().unwrap();
        assert!(!reply.decoded);
        assert_eq!(reply.properties.len(), 0);
    } else {
        panic!("fetch expected");
    }
    assert!(matches!(dc.prepare(), Step::Fetch(_)));
}

#[test]
fn non_object_properties_give_empty_map() {
    let mut dc = Dacloud::new(Config::new(String::from("host"), String::from("lk"), 0));
    dc.headers.insert(String::from("user-agent"), String::from("A"));
    let (p, _) = answer(&mut dc, "{\"properties\": [1, 2]}");
    assert_eq!(p.len(), 0);
    let (q, _) = answer(&mut dc, "{\"other\": {\"a\": 1}}");
    assert_eq!(q.len(), 0);
}

#[test]
fn transport_failure_is_an_error() {
    let mut dc = Dacloud::new(Config::new(String::from("host"), String::from("lk"), 4));
    dc.headers.insert(String::from("user-agent"), String::from("A"));
    let plan = match dc.prepare() {
        Step::Fetch(plan) => plan,
        Step::Done(_) => panic!("fetch expected"),
    };
    match dc.complete(&plan, Err(String::from("refused"))) {
        Err(RequestError::Transport(m)) => assert_eq!(m, "refused"),
        Ok(_) => panic!("error expected"),
    }
    assert!(answer(&mut dc, "{\"properties\": {}}").1);
}

#[test]
fn lru_evicts_least_recently_used() {
    let mut dc = Dacloud::new(Config::new(String::from("host"), String::from("lk"), 2));
    for ua in ["u1", "u2", "u3"] {
        dc.headers.insert(String::from("user-agent"), String::from(ua));
        assert!(answer(&mut dc, "{\"properties\": {}}").1);
    }
    for ua in ["u2", "u3"] {
        dc.headers.insert(String::from("user-agent"), String::from(ua));
        assert!(!answer(&mut dc, "{}").1);
    }
    dc.headers.insert(String::from("user-agent"), String::from("u1"));
    assert!(answer(&mut dc, "{}").1);
}

#[test]
fn lru_read_counts_as_use() {
    let mut dc = Dacloud::new(Config::new(String::from("host"), String::from("lk"), 2));
    for ua in ["u1", "u2", "u1", "u3"] {
        dc.headers.insert(String::from("user-agent"), String::from(ua));
        answer(&mut dc, "{\"properties\": {}}");
    }
    dc.headers.insert(String::from("user-agent"), String::from("u1"));
    assert!(!answer(&mut dc, "{}").1);
    dc.headers.insert(String::from("user-agent"), String::from("u2"));
    assert!(answer(&mut dc, "{}").1);
}

#[test]
fn config_keeps_parameters() {
    let cfg = Config::new(String::from("h"), String::from("k"), 7);
    assert_eq!(cfg.host, "h");
    assert_eq!(cfg.licence_key, "k");
    assert_eq!(cfg.capacity(), 7);
    let dc = Dacloud::new(cfg);
    assert_eq!(dc.cfg().capacity(), 7);
}

#[test]
fn set_header_replaces_and_appends() {
    let mut dc = Dacloud::new(Config::new(String::from("host"), String::from("lk"), 0));
    dc.set_header(String::from("user-agent"), String::from("A"));
    dc.set_header(String::from("x-foo"), String::from("1"));
    dc.set_header(String::from("user-agent"), String::from("B"));
    assert_eq!(dc.headers.len(), 2);
    assert_eq!(dc.headers.get("user-agent").unwrap(), "B");
    match dc.prepare() {
        Step::Fetch(plan) => assert!(plan.url.ends_with("&useragent=B")),
        Step::Done(_) => panic!("fetch expected"),
    }
}

#[test]
fn fingerprint_is_lowercase_hex() {
    let mut h = Headers::new();
    h.insert(String::from("user-agent"), String::from("Mozilla/5.0"));
    let f = fingerprint(&h);
    assert_eq!(f.len(), 40);
    assert!(f.chars().all(|c| c.is_ascii_digit() || ('a'..='f').contains(&c)));
}
