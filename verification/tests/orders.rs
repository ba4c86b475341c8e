use order_api::digest::hash_body;
use order_api::models::CreateOrderRequest;
use order_api::orders::{replay_status_of, OrderAction, OrderEvent, OrderFlow, StoredRecord};
use order_api::response::{ApiResponse, Body, FieldValue, Lookup};

const BODY: &str = "{\"customer_id\":\"cust-1\",\"item_id\":\"item-1\",\"quantity\":3}";

fn request(quantity: i32) -> CreateOrderRequest {
    CreateOrderRequest { customer_id: "cust-1".to_string(), item_id: "item-1".to_string(), quantity }
}

fn received(key: Option<&str>, body: &str, req: Option<CreateOrderRequest>) -> OrderEvent {
    OrderEvent::Received { idempotency_key: key.map(|k| k.to_string()), body: body.to_string(), request: req }
}

fn advance(flow: OrderFlow, e: OrderEvent) -> (OrderFlow, OrderAction) {
    assert!(flow.can_take(&e));
    flow.step(e)
}

fn responded(a: OrderAction) -> ApiResponse {
    match a {
        OrderAction::Respond(r) => r,
        _ => panic!("expected a response"),
    }
}

fn error_text(r: &ApiResponse) -> String {
    match &r.body {
        Body::Object(fs) => match &fs[0].value {
            FieldValue::Text(t) => t.clone(),
            FieldValue::Number(_) => panic!("expected text"),
        },
        Body::Recorded(_) => panic!("expected an object"),
    }
}

fn field<'a>(r: &'a ApiResponse, name: &str) -> &'a FieldValue {
    match &r.body {
        Body::Object(fs) => &fs.iter().find(|f| f.name == name).expect("field").value,
        Body::Recorded(_) => panic!("expected an object"),
    }
}

fn is_uuid_v4(s: &str) -> bool {
    let b: Vec<char> = s.chars().collect();
    b.len() == 36
        && b.iter().enumerate().all(|(i, c)| {
            if [8, 13, 18, 23].contains(&i) { *c == '-' } else { c.is_ascii_hexdigit() && !c.is_ascii_uppercase() }
        })
        && b[14] == '4'
        && "89ab".contains(b[19])
}

fn is_utc_rfc3339(s: &str) -> bool {
    let b: Vec<char> = s.chars().collect();
    let digits = |from: usize, to: usize| b.get(from..to).map_or(false, |p| p.iter().all(|c| c.is_ascii_digit()));
    let year_len = if b.first() == Some(&'+') { (1..b.len()).take_while(|i| b[*i].is_ascii_digit()).count() + 1 } else { 4 };
    if !digits(if year_len == 4 { 0 } else { 1 }, year_len) {
        return false;
    }
    let t = year_len + 6;
    let fixed = b.get(year_len) == Some(&'-') && digits(year_len + 1, year_len + 3) && b.get(year_len + 3) == Some(&'-')
        && digits(year_len + 4, t) && b.get(t) == Some(&'T') && digits(t + 1, t + 3) && b.get(t + 3) == Some(&':')
        && digits(t + 4, t + 6) && b.get(t + 6) == Some(&':') && digits(t + 7, t + 9);
    let frac = t + 9;
    let frac_len = b.len().saturating_sub(frac + 6);
    let frac_ok = frac_len == 0 || ([4, 7, 10].contains(&frac_len) && b[frac] == '.' && digits(frac + 1, frac + frac_len));
    fixed && frac_ok && b.len() >= frac + 6 && b[b.len() - 6..].iter().collect::<String>() == "+00:00"
}

#[test]
fn missing_key_is_refused() {
    let (flow, a) = advance(OrderFlow::Start, received(None, BODY, Some(request(3))));
    assert!(matches!(flow, OrderFlow::Done));
    let r = responded(a);
    assert_eq!(r.status, 400);
    assert_eq!(error_text(&r), "Idempotency-Key header is required");
}

#[test]
fn unparsable_body_is_refused() {
    let (flow, a) = advance(OrderFlow::Start, received(Some("k"), "not json", None));
    assert!(matches!(flow, OrderFlow::Done));
    let r = responded(a);
    assert_eq!(r.status, 400);
    assert_eq!(error_text(&r), "invalid request body");
}

#[test]
fn new_order_runs_the_whole_transaction() {
    let (flow, a) = advance(OrderFlow::Start, received(Some("demo-order-1"), BODY, Some(request(3))));
    assert!(matches!(&a, OrderAction::FindRecord(k) if k == "demo-order-1"));
    match &flow {
        OrderFlow::Lookup { request_hash, .. } => assert_eq!(request_hash, &hash_body(BODY)),
        _ => panic!("expected a lookup"),
    }
    let (flow, a) = advance(flow, OrderEvent::Looked(Lookup::Missing));
    assert!(matches!(a, OrderAction::BeginTransaction));
    let (flow, a) = advance(flow, OrderEvent::Finished(true));
    let order = match a {
        OrderAction::InsertOrder(o) => o,
        _ => panic!("expected the order insert"),
    };
    assert_eq!(order.amount, 300);
    assert_eq!(order.quantity, 3);
    assert_eq!(order.customer_id, "cust-1");
    assert_eq!(order.item_id, "item-1");
    assert!(is_uuid_v4(&order.order_id));
    assert!(is_uuid_v4(&order.ledger_id));
    assert_ne!(order.order_id, order.ledger_id);
    assert!(is_utc_rfc3339(&order.created_at), "{}", order.created_at);
    let (flow, a) = advance(flow, OrderEvent::Finished(true));
    assert!(matches!(&a, OrderAction::InsertLedger(o) if o.order_id == order.order_id));
    let (flow, a) = advance(flow, OrderEvent::Finished(true));
    let stored = match a {
        OrderAction::StoreRecord { key, request_hash, response, status_code } => {
            assert_eq!(key, "demo-order-1");
            assert_eq!(request_hash, hash_body(BODY));
            assert_eq!(status_code, 201);
            response
        },
        _ => panic!("expected the record"),
    };
    let (flow, a) = advance(flow, OrderEvent::Finished(true));
    assert!(matches!(a, OrderAction::Commit));
    let (flow, a) = advance(flow, OrderEvent::Finished(true));
    assert!(matches!(flow, OrderFlow::Done));
    let r = responded(a);
    assert_eq!(r.status, 201);
    assert_eq!(r.status, stored.status);
    assert!(matches!(field(&r, "amount"), FieldValue::Number(300)));
    assert!(matches!(field(&r, "quantity"), FieldValue::Number(3)));
    assert!(matches!(field(&r, "order_id"), FieldValue::Text(t) if *t == order.order_id));
    assert!(matches!(field(&stored, "order_id"), FieldValue::Text(t) if *t == order.order_id));
    assert!(matches!(field(&r, "created_at"), FieldValue::Text(t) if *t == order.created_at));
    assert!(!flow.can_take(&OrderEvent::Finished(true)));
}

fn lookup_state(key: &str, body: &str) -> OrderFlow {
    advance(OrderFlow::Start, received(Some(key), body, Some(request(3)))).0
}

#[test]
fn same_body_is_replayed() {
    let flow = lookup_state("k", BODY);
    let record = StoredRecord { request_hash: hash_body(BODY), response_body: "{\"a\":1}".to_string(), status_code: 201 };
    let (flow, a) = advance(flow, OrderEvent::Looked(Lookup::Found(record)));
    assert!(matches!(flow, OrderFlow::Done));
    let r = responded(a);
    assert_eq!(r.status, 201);
    assert!(matches!(r.body, Body::Recorded(ref t) if t == "{\"a\":1}"));
}

#[test]
fn other_body_conflicts() {
    let flow = lookup_state("k", BODY);
    let record = StoredRecord { request_hash: hash_body("{}"), response_body: "{}".to_string(), status_code: 201 };
    let (_, a) = advance(flow, OrderEvent::Looked(Lookup::Found(record)));
    let r = responded(a);
    assert_eq!(r.status, 409);
    assert_eq!(error_text(&r), "idempotency key reused with different request body");
}

#[test]
fn failed_lookup_is_internal_error() {
    let (_, a) = advance(lookup_state("k", BODY), OrderEvent::Looked(Lookup::Failed));
    let r = responded(a);
    assert_eq!(r.status, 500);
    assert_eq!(error_text(&r), "internal server error");
}

fn writing_after(steps_ok: usize) -> OrderFlow {
    let (mut flow, _) = advance(lookup_state("k", BODY), OrderEvent::Looked(Lookup::Missing));
    for _ in 0..steps_ok {
        flow = advance(flow, OrderEvent::Finished(true)).0;
    }
    flow
}

#[test]
fn failures_inside_the_transaction_roll_back() {
    let (_, a) = advance(writing_after(0), OrderEvent::Finished(false));
    assert_eq!(responded(a).status, 500);
    for steps in 1..4 {
        let (flow, a) = advance(writing_after(steps), OrderEvent::Finished(false));
        assert!(matches!(flow, OrderFlow::Done));
        match a {
            OrderAction::RollBack(r) => assert_eq!(r.status, 500),
            _ => panic!("expected a roll-back"),
        }
    }
    let (_, a) = advance(writing_after(4), OrderEvent::Finished(false));
    assert_eq!(responded(a).status, 500);
}

#[test]
fn replayed_status_is_made_valid() {
    assert_eq!(replay_status_of(201), 201);
    assert_eq!(replay_status_of(999), 999);
    assert_eq!(replay_status_of(100), 100);
    assert_eq!(replay_status_of(99), 200);
    assert_eq!(replay_status_of(1000), 200);
    assert_eq!(replay_status_of(-1), 200);
    assert_eq!(replay_status_of(65536 + 404), 404);
}

#[test]
fn amount_overflow_is_not_taken() {
    let flow = advance(OrderFlow::Start, received(Some("k"), BODY, Some(request(21_474_837)))).0;
    assert!(!flow.can_take(&OrderEvent::Looked(Lookup::Missing)));
    let flow = advance(OrderFlow::Start, received(Some("k"), BODY, Some(request(21_474_836)))).0;
    assert!(flow.can_take(&OrderEvent::Looked(Lookup::Missing)));
    let flow = advance(OrderFlow::Start, received(Some("k"), BODY, Some(request(-21_474_836)))).0;
    assert!(flow.can_take(&OrderEvent::Looked(Lookup::Missing)));
    let flow = advance(OrderFlow::Start, received(Some("k"), BODY, Some(request(-21_474_837)))).0;
    assert!(!flow.can_take(&OrderEvent::Looked(Lookup::Missing)));
}

#[test]
fn events_out_of_turn_are_not_taken() {
    assert!(!OrderFlow::Start.can_take(&OrderEvent::Finished(true)));
    assert!(!OrderFlow::Done.can_take(&received(Some("k"), BODY, None)));
    assert!(!lookup_state("k", BODY).can_take(&OrderEvent::Finished(true)));
}
