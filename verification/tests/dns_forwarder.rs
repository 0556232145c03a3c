use rustyrouter::addr::Ipv4Addr;
use rustyrouter::services::dns_forwarder;
use rustyrouter::services::dns_forwarder::{
    cache_key_of, cache_ttl_of, get_cache_key, get_upstream_dns, handle_dns_query,
    handle_dns_response, insert_cache, insert_parsed, lookup_cache, DnsAction, DnsCache, DnsPacket,
    DnsQuestion, DNS_HEADER_SIZE,
};
use rustyrouter::services::WanLease;
use rustyrouter::time::{Instant, NANOS_PER_SEC};

fn at(secs: u64) -> Instant {
    Instant { nanos: (1000 + secs) * NANOS_PER_SEC }
}

fn google_query(id: u8) -> Vec<u8> {
    let mut query = vec![0u8; DNS_HEADER_SIZE];
    query[0] = id;
    query[1] = id + 1;
    query[5] = 1; // QDCount = 1
    query.extend_from_slice(&[6, b'g', b'o', b'o', b'g', b'l', b'e', 3, b'c', b'o', b'm', 0]);
    query.extend_from_slice(&[0, 1]); // Type A
    query.extend_from_slice(&[0, 1]); // Class IN
    query
}

fn google_response(ttls: &[u32]) -> Vec<u8> {
    let mut resp = google_query(0);
    resp[7] = ttls.len() as u8; // ANCount
    for ttl in ttls {
        resp.extend_from_slice(&[0xc0, 0x0c]);
        resp.extend_from_slice(&[0, 1]); // Type A
        resp.extend_from_slice(&[0, 1]); // Class IN
        resp.extend_from_slice(&ttl.to_be_bytes());
        resp.extend_from_slice(&[0, 4]); // RDLength
        resp.extend_from_slice(&[8, 8, 8, 8]); // IP
    }
    resp
}

#[test]
fn test_get_cache_key_valid() {
    // DNS header (12 bytes) + "google.com" question + Type A (2 bytes) + Class IN (2 bytes)
    let mut query = vec![0u8; DNS_HEADER_SIZE];
    query[5] = 1; // QDCount = 1
    query.extend_from_slice(&[
        6, b'g', b'o', b'o', b'g', b'l', b'e', 3, b'c', b'o', b'm', 0,
    ]);
    query.extend_from_slice(&[0, 1]); // Type A
    query.extend_from_slice(&[0, 1]); // Class IN

    let key = get_cache_key(&query);
    assert_eq!(key, Some("google.com:A:IN".to_string().into_bytes()));
}

#[test]
fn test_get_cache_key_invalid() {
    let query = vec![0u8; 10]; // Too short
    assert_eq!(get_cache_key(&query), None);
}

#[test]
fn test_insert_cache_ttl() {
    // Build a raw DNS response with answers having TTL 300 and 150
    let mut resp = vec![0u8; DNS_HEADER_SIZE];
    // Question: "google.com", Type A, Class IN
    resp.extend_from_slice(&[
        6, b'g', b'o', b'o', b'g', b'l', b'e', 3, b'c', b'o', b'm', 0,
    ]);
    resp.extend_from_slice(&[0, 1]); // Type A
    resp.extend_from_slice(&[0, 1]); // Class IN

    // Modify header to specify 1 question and 2 answers
    resp[5] = 1; // QDCount = 1
    resp[7] = 2; // ANCount = 2

    // Answer 1: name compression pointer 0xc00c, Type A, Class IN, TTL 300, RDLength 4, IP 8.8.8.8
    resp.extend_from_slice(&[0xc0, 0x0c]);
    resp.extend_from_slice(&[0, 1]); // Type A
    resp.extend_from_slice(&[0, 1]); // Class IN
    resp.extend_from_slice(&[0, 0, 1, 0x2c]); // TTL = 300
    resp.extend_from_slice(&[0, 4]); // RDLength
    resp.extend_from_slice(&[8, 8, 8, 8]); // IP

    // Answer 2: name compression pointer 0xc00c, Type A, Class IN, TTL 150, RDLength 4, IP 8.8.4.4
    resp.extend_from_slice(&[0xc0, 0x0c]);
    resp.extend_from_slice(&[0, 1]); // Type A
    resp.extend_from_slice(&[0, 1]); // Class IN
    resp.extend_from_slice(&[0, 0, 0, 0x96]); // TTL = 150
    resp.extend_from_slice(&[0, 4]); // RDLength
    resp.extend_from_slice(&[8, 8, 4, 4]); // IP

    let mut cache = DnsCache::new();
    let now = at(0);
    insert_cache(b"key".to_vec(), resp, &mut cache, now);

    let expiry = cache.expiry(b"key").unwrap();
    let cache_ttl = (expiry.nanos - now.nanos) / NANOS_PER_SEC;
    assert!((148..=150).contains(&cache_ttl));
    assert_eq!(cache_ttl, 150);
}

#[test]
fn query_without_question_has_no_key() {
    assert_eq!(get_cache_key(&vec![0u8; 12]), None);
    let packet = DnsPacket { questions: vec![], answer_ttls: vec![] };
    assert_eq!(cache_key_of(&packet), None);
}

#[test]
fn key_of_a_parsed_message() {
    let packet = DnsPacket {
        questions: vec![
            DnsQuestion {
                name: "a.b".to_string(),
                kind: "AAAA".to_string(),
                class: "CH".to_string(),
            },
            DnsQuestion { name: "x".to_string(), kind: "A".to_string(), class: "IN".to_string() },
        ],
        answer_ttls: vec![],
    };
    assert_eq!(cache_key_of(&packet), Some(b"a.b:AAAA:CH".to_vec()));
}

#[test]
fn time_that_a_response_is_kept() {
    let ttl = |answer_ttls: Vec<u32>| cache_ttl_of(&DnsPacket { questions: vec![], answer_ttls });
    assert_eq!(ttl(vec![]), 30);
    assert_eq!(ttl(vec![300, 150, 200]), 150);
    assert_eq!(ttl(vec![100_000]), 3600);
    assert_eq!(ttl(vec![5, 0]), 0);
}

#[test]
fn response_without_lifetime_is_not_kept() {
    let mut cache = DnsCache::new();
    insert_cache(b"k".to_vec(), google_response(&[60, 0]), &mut cache, at(0));
    assert_eq!(cache.expiry(b"k"), None);
    insert_cache(b"k".to_vec(), b"no message".to_vec(), &mut cache, at(0));
    assert_eq!(cache.expiry(b"k"), None);
    insert_parsed(b"k".to_vec(), vec![0; 12], None, &mut cache, at(0));
    assert_eq!(cache.expiry(b"k"), None);
    let packet = DnsPacket { questions: vec![], answer_ttls: vec![7] };
    insert_parsed(b"k".to_vec(), vec![0; 11], Some(&packet), &mut cache, at(0));
    assert_eq!(cache.expiry(b"k"), None);
    insert_parsed(b"k".to_vec(), vec![0; 12], Some(&packet), &mut cache, at(0));
    assert_eq!(cache.expiry(b"k"), Some(at(7)));
}

#[test]
fn expired_response_is_removed_when_looked_up() {
    let mut cache = DnsCache::new();
    cache.insert(b"a".to_vec(), vec![1; 12], at(10));
    cache.insert(b"b".to_vec(), vec![2; 12], at(20));
    assert_eq!(lookup_cache(b"a", &mut cache, at(9)), Some(vec![1; 12]));
    assert_eq!(lookup_cache(b"a", &mut cache, at(10)), None);
    assert_eq!(cache.expiry(b"a"), None);
    assert_eq!(lookup_cache(b"b", &mut cache, at(10)), Some(vec![2; 12]));
    assert_eq!(lookup_cache(b"c", &mut cache, at(10)), None);
}

#[test]
fn newer_response_takes_the_place_of_an_older() {
    let mut cache = DnsCache::new();
    cache.insert(b"a".to_vec(), vec![1; 12], at(10));
    cache.insert(b"a".to_vec(), vec![2; 12], at(5));
    assert_eq!(lookup_cache(b"a", &mut cache, at(0)), Some(vec![2; 12]));
    assert_eq!(lookup_cache(b"a", &mut cache, at(7)), None);
    assert_eq!(lookup_cache(b"a", &mut cache, at(0)), None);
}

#[test]
fn pruning_removes_what_has_expired() {
    let mut cache = DnsCache::new();
    cache.insert(b"a".to_vec(), vec![1; 12], at(10));
    cache.insert(b"b".to_vec(), vec![2; 12], at(20));
    cache.insert(b"c".to_vec(), vec![3; 12], at(5));
    cache.prune(at(10));
    assert_eq!(cache.expiry(b"a"), None);
    assert_eq!(cache.expiry(b"b"), Some(at(20)));
    assert_eq!(cache.expiry(b"c"), None);
}

#[test]
fn query_is_forwarded_then_answered_from_the_cache() {
    let mut cache = DnsCache::new();
    let mut lease = WanLease::default();
    lease.dns_servers = vec![Ipv4Addr::new(9, 9, 9, 9), Ipv4Addr::new(1, 1, 1, 1)];

    let key = match handle_dns_query(&google_query(1), &mut cache, &lease, at(0)) {
        DnsAction::Forward { key, upstream } => {
            assert_eq!(upstream, Ipv4Addr::new(9, 9, 9, 9));
            key
        }
        _ => panic!("expected the query to be forwarded"),
    };
    assert_eq!(key, b"google.com:A:IN".to_vec());

    let response = google_response(&[60]);
    let sent = handle_dns_response(key, Some(response.clone()), &mut cache, at(0));
    assert_eq!(sent, Some(response.clone()));

    match handle_dns_query(&google_query(77), &mut cache, &lease, at(59)) {
        DnsAction::Reply(reply) => {
            assert_eq!(&reply[..2], &[77, 78]);
            assert_eq!(&reply[2..], &response[2..]);
        }
        _ => panic!("expected an answer from the cache"),
    }
    assert!(matches!(
        handle_dns_query(&google_query(2), &mut cache, &lease, at(60)),
        DnsAction::Forward { .. }
    ));
}

#[test]
fn invalid_query_is_dropped() {
    let mut cache = DnsCache::new();
    let lease = WanLease::default();
    assert!(matches!(handle_dns_query(&[0; 11], &mut cache, &lease, at(0)), DnsAction::Drop));
    assert!(matches!(handle_dns_query(&[0; 12], &mut cache, &lease, at(0)), DnsAction::Drop));
    assert!(matches!(
        dns_forwarder::answer_with_key(&[0; 12], None, &mut cache, &lease, at(0)),
        DnsAction::Drop
    ));
}

#[test]
fn unanswered_query_sends_nothing() {
    let mut cache = DnsCache::new();
    assert_eq!(handle_dns_response(b"k".to_vec(), None, &mut cache, at(0)), None);
    assert_eq!(cache.expiry(b"k"), None);
}

#[test]
fn upstream_falls_back() {
    assert_eq!(get_upstream_dns(&WanLease::default()), Ipv4Addr::new(8, 8, 8, 8));
}

#[test]
fn questions_with_colons_are_told_apart() {
    let key = |name: &str, kind: &str, class: &str| {
        let question = DnsQuestion {
            name: name.to_string(),
            kind: kind.to_string(),
            class: class.to_string(),
        };
        cache_key_of(&DnsPacket { questions: vec![question], answer_ttls: vec![] }).unwrap()
    };
    assert_ne!(key("a:A", "AAAA", "IN"), key("a", "A", "IN"));
    assert_ne!(key("a:A", "A", "IN"), key("a", "A", "IN"));
    assert_eq!(key("a:A", "A", "IN"), b"a:A:A:IN".to_vec());
}
