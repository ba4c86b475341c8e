use order_api::admission::{admission_decision, Admission};
use order_api::rate_limiter::RateLimiter;
use order_api::response::{Body, FieldValue};
use order_api::text::client_key;

fn headers_of(h: &[order_api::admission::Header]) -> Vec<(String, String)> {
    h.iter().map(|x| (x.name.clone(), x.value.clone())).collect()
}

#[test]
fn granted_request_carries_limit_headers() {
    match admission_decision(true, 4, 5, 10) {
        Admission::Forward(h) => assert_eq!(
            headers_of(&h),
            vec![
                ("X-RateLimit-Limit".to_string(), "5".to_string()),
                ("X-RateLimit-Remaining".to_string(), "4".to_string()),
            ]
        ),
        Admission::Refuse(..) => panic!("expected the request to pass"),
    }
}

#[test]
fn refused_request_gets_429() {
    match admission_decision(false, 0, 5, 10) {
        Admission::Refuse(r, h) => {
            assert_eq!(r.status, 429);
            match r.body {
                Body::Object(fields) => {
                    assert_eq!(fields.len(), 2);
                    assert_eq!(fields[0].name, "error");
                    assert!(matches!(&fields[0].value, FieldValue::Text(t) if t == "Too Many Requests"));
                    assert_eq!(fields[1].name, "message");
                    assert!(matches!(&fields[1].value,
                        FieldValue::Text(t) if t == "Rate limit of 5 req/10s exceeded. Retry after 10s."));
                },
                Body::Recorded(_) => panic!("expected an object"),
            }
            assert_eq!(
                headers_of(&h),
                vec![
                    ("Retry-After".to_string(), "10".to_string()),
                    ("X-RateLimit-Limit".to_string(), "5".to_string()),
                    ("X-RateLimit-Remaining".to_string(), "0".to_string()),
                ]
            );
        },
        Admission::Forward(_) => panic!("expected a refusal"),
    }
}

#[test]
fn limiter_lets_five_through_then_refuses() {
    let mut rl = RateLimiter::new(5, 10);
    for expected_remaining in (0..5).rev() {
        match rl.check_request("1.2.3.4") {
            Admission::Forward(h) => {
                assert_eq!(headers_of(&h)[1].1, expected_remaining.to_string());
            },
            Admission::Refuse(..) => panic!("request should pass"),
        }
    }
    for _ in 0..3 {
        assert!(matches!(rl.check_request("1.2.3.4"), Admission::Refuse(..)));
    }
    assert!(matches!(rl.check_request("5.6.7.8"), Admission::Forward(_)));
}

#[test]
fn client_key_takes_first_forwarded_address() {
    assert_eq!(client_key(Some(" 203.0.113.7 , 10.0.0.1"), "127.0.0.1"), "203.0.113.7");
    assert_eq!(client_key(Some("198.51.100.2"), "127.0.0.1"), "198.51.100.2");
    assert_eq!(client_key(None, "127.0.0.1"), "127.0.0.1");
}

#[test]
fn client_key_edge_cases() {
    assert_eq!(client_key(Some(""), "127.0.0.1"), "");
    assert_eq!(client_key(Some(",x"), "127.0.0.1"), "");
    assert_eq!(client_key(Some("\t a b \u{3000},c"), "p"), "a b");
    assert_eq!(client_key(Some("   "), "p"), "");
}

#[test]
fn remaining_header_drops_by_one_per_request() {
    let mut rl = RateLimiter::new(3, 60);
    let mut seen = Vec::new();
    for _ in 0..3 {
        match rl.check_request("9.9.9.9") {
            Admission::Forward(h) => seen.push(headers_of(&h)[1].1.clone()),
            Admission::Refuse(..) => panic!("request should pass"),
        }
    }
    assert_eq!(seen, vec!["2".to_string(), "1".to_string(), "0".to_string()]);
    match rl.check_request("9.9.9.9") {
        Admission::Refuse(r, h) => {
            assert_eq!(r.status, 429);
            assert_eq!(headers_of(&h)[2], ("X-RateLimit-Remaining".to_string(), "0".to_string()));
        },
        Admission::Forward(_) => panic!("request should be refused"),
    }
}
