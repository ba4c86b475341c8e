//! Properties of the order protocol that span its steps or several requests.

use vstd::prelude::*;
use crate::orders::{
    created_order_answer, replay_status, responds, rolls_back, NewOrder, OrderAction, OrderEvent,
    OrderFlow, Stage, StoredRecord,
};
use crate::response::{error_body, internal_error, BodyView, Lookup, ValueView};
use crate::orders::{amount_due, is_utc_rfc3339, is_v4_uuid_text};

verus! {

/// How far a flow has come: every step moves it strictly further.
pub open spec fn progress(s: OrderFlow) -> int {
    match s {
        OrderFlow::Start => 0,
        OrderFlow::Lookup { .. } => 1,
        OrderFlow::Writing { stage, .. } => match stage {
            Stage::Begin => 2,
            Stage::InsertOrder => 3,
            Stage::InsertLedger => 4,
            Stage::StoreRecord => 5,
            Stage::Commit => 6,
        },
        OrderFlow::Done => 7,
    }
}

/// The flow is writing and waits on `stage`.
pub open spec fn at_stage(s: OrderFlow, stage: Stage) -> bool {
    match s {
        OrderFlow::Writing { stage: current, .. } => current == stage,
        _ => false,
    }
}

/// Every step moves the flow forward, so a request is answered after at most
/// seven steps, and a finished flow takes no further event.
pub proof fn law_flow_always_finishes(s: OrderFlow, e: OrderEvent, s2: OrderFlow, a: OrderAction)
    requires
        s.next(e, s2, a),
    ensures
        progress(s) < progress(s2) <= 7,
        !(s is Done),
        !OrderFlow::Done.takes(e),
{
}

/// A key whose record holds the fingerprint of this request's body is
/// answered from the record: its status (made valid) and its recorded body,
/// and nothing is written.
pub proof fn law_same_body_replays_record(s: OrderFlow, record: StoredRecord, s2: OrderFlow, a: OrderAction)
    requires
        s matches OrderFlow::Lookup { request_hash, .. } && request_hash@ == record.request_hash@,
        s.next(OrderEvent::Looked(Lookup::Found(record)), s2, a),
    ensures
        s2 is Done,
        responds(a, (replay_status(record.status_code), BodyView::Recorded(record.response_body@))),
{
}

/// A key whose record holds another fingerprint is refused with 409, and
/// nothing is written.
pub proof fn law_other_body_conflicts(s: OrderFlow, record: StoredRecord, s2: OrderFlow, a: OrderAction)
    requires
        s matches OrderFlow::Lookup { request_hash, .. } && request_hash@ != record.request_hash@,
        s.next(OrderEvent::Looked(Lookup::Found(record)), s2, a),
    ensures
        s2 is Done,
        responds(a, (409, error_body("idempotency key reused with different request body"@))),
{
}

/// A retry with the same body finds the fingerprint that the first request
/// recorded, and so is answered from the record.
pub proof fn law_retry_is_replayed(
    first_key: String,
    first_body: String,
    first: crate::models::CreateOrderRequest,
    s1: OrderFlow,
    a1: OrderAction,
    retry_key: String,
    retry_body: String,
    retry: crate::models::CreateOrderRequest,
    s2: OrderFlow,
    a2: OrderAction,
    record: StoredRecord,
    s3: OrderFlow,
    a3: OrderAction,
)
    requires
        OrderFlow::Start.next(
            OrderEvent::Received { idempotency_key: Some(first_key), body: first_body, request: Some(first) },
            s1,
            a1,
        ),
        s1 matches OrderFlow::Lookup { request_hash, .. } && record.request_hash@ == request_hash@,
        OrderFlow::Start.next(
            OrderEvent::Received { idempotency_key: Some(retry_key), body: retry_body, request: Some(retry) },
            s2,
            a2,
        ),
        retry_body@ == first_body@,
        s2.next(OrderEvent::Looked(Lookup::Found(record)), s3, a3),
    ensures
        responds(a3, (replay_status(record.status_code), BodyView::Recorded(record.response_body@))),
{
}

/// The record stored for a new order holds the request's fingerprint, the
/// status 201 (which a replay sends as 201) and the very response that the
/// flow sends once the transaction commits.
pub proof fn law_recorded_answer_is_sent_answer(
    s1: OrderFlow,
    s2: OrderFlow,
    a2: OrderAction,
    s3: OrderFlow,
    a3: OrderAction,
    s4: OrderFlow,
    a4: OrderAction,
)
    requires
        s1 matches OrderFlow::Writing { stage: Stage::InsertLedger, .. },
        s1.next(OrderEvent::Finished(true), s2, a2),
        s2.next(OrderEvent::Finished(true), s3, a3),
        s3.next(OrderEvent::Finished(true), s4, a4),
    ensures
        a2 matches OrderAction::StoreRecord { key, request_hash, response, status_code } && {
            &&& s1 matches OrderFlow::Writing { key: k1, request_hash: h1, .. } && k1 == key && h1 == request_hash
            &&& status_code == 201
            &&& replay_status(status_code) == 201
            &&& a3 is Commit
            &&& responds(a4, response@)
        },
{
    assert(replay_status(201) == 201) by (bit_vector);
}

/// A fresh order is only ever reported created (201 with the order) by the
/// step that sees the transaction commit.
pub proof fn law_created_only_after_commit(s: OrderFlow, e: OrderEvent, s2: OrderFlow, a: OrderAction, o: NewOrder)
    requires
        s.next(e, s2, a),
        responds(a, created_order_answer(o)),
    ensures
        s matches OrderFlow::Writing { stage: Stage::Commit, .. },
        e == OrderEvent::Finished(true),
{
}

/// A failed write inside the transaction rolls it back and answers with a
/// failure; a failure to begin or to commit answers with a failure.
pub proof fn law_failed_write_rolls_back(s: OrderFlow, s2: OrderFlow, a: OrderAction)
    requires
        s is Writing,
        s.next(OrderEvent::Finished(false), s2, a),
    ensures
        s2 is Done,
        at_stage(s, Stage::Begin) || at_stage(s, Stage::Commit) ==> responds(a, internal_error()),
        at_stage(s, Stage::InsertOrder) || at_stage(s, Stage::InsertLedger) || at_stage(s, Stage::StoreRecord)
            ==> rolls_back(a, internal_error()),
{
}

/// A request without an idempotency key is refused with 400 before anything
/// else is looked at.
pub proof fn law_key_required(body: String, request: Option<crate::models::CreateOrderRequest>, s2: OrderFlow, a: OrderAction)
    requires
        OrderFlow::Start.next(OrderEvent::Received { idempotency_key: None, body, request }, s2, a),
    ensures
        s2 is Done,
        responds(a, (400, error_body("Idempotency-Key header is required"@))),
{
}

/// The value of the first member called `name` of an object body, if any.
pub open spec fn member(body: BodyView, name: Seq<char>) -> Option<ValueView> {
    match body {
        BodyView::Object(fields) => first_member(fields, name),
        BodyView::Recorded(_) => None,
    }
}

/// The value of the first of `fields` called `name`, if any.
pub open spec fn first_member(fields: Seq<(Seq<char>, ValueView)>, name: Seq<char>) -> Option<ValueView>
    decreases fields.len(),
{
    if fields.len() == 0 {
        None
    } else if fields[0].0 == name {
        Some(fields[0].1)
    } else {
        first_member(fields.drop_first(), name)
    }
}

/// The answer to a created order reports that order: each member carries the
/// order's field of the same name.
pub proof fn law_created_answer_reports_order(o: NewOrder)
    ensures
        created_order_answer(o).0 == 201,
        member(created_order_answer(o).1, "order_id"@) == Some(ValueView::Text(o.order_id@)),
        member(created_order_answer(o).1, "customer_id"@) == Some(ValueView::Text(o.customer_id@)),
        member(created_order_answer(o).1, "item_id"@) == Some(ValueView::Text(o.item_id@)),
        member(created_order_answer(o).1, "quantity"@) == Some(ValueView::Number(o.quantity as int)),
        member(created_order_answer(o).1, "amount"@) == Some(ValueView::Number(o.amount as int)),
        member(created_order_answer(o).1, "created_at"@) == Some(ValueView::Text(o.created_at@)),
{
    reveal_strlit("order_id");
    reveal_strlit("customer_id");
    reveal_strlit("item_id");
    reveal_strlit("quantity");
    reveal_strlit("amount");
    reveal_strlit("created_at");
    let f = match created_order_answer(o).1 {
        BodyView::Object(f) => f,
        BodyView::Recorded(_) => Seq::empty(),
    };
    assert("order_id"@[0] != "customer_id"@[0]);
    assert("order_id"@[0] != "item_id"@[0]);
    assert("order_id"@[0] != "quantity"@[0]);
    assert("order_id"@[0] != "amount"@[0]);
    assert("order_id"@[0] != "created_at"@[0]);
    assert("customer_id"@[1] != "created_at"@[1]);
    assert("customer_id"@[0] != "item_id"@[0]);
    assert("customer_id"@[0] != "quantity"@[0]);
    assert("customer_id"@[0] != "amount"@[0]);
    assert("item_id"@[0] != "quantity"@[0]);
    assert("item_id"@[0] != "amount"@[0]);
    assert("item_id"@[0] != "created_at"@[0]);
    assert("quantity"@[0] != "amount"@[0]);
    assert("quantity"@[0] != "created_at"@[0]);
    assert("amount"@[0] != "created_at"@[0]);
    assert(f.drop_first().drop_first().drop_first().drop_first().drop_first().drop_first().len() == 0);
    reveal_with_fuel(first_member, 7);
}

/// A new order's 201 answer, and the answer recorded for replays, report the
/// request: its customer, item and quantity, the amount due for it, a fresh
/// order id and the creation time. This follows the flow from the lookup
/// that finds no record, through every database step succeeding.
pub proof fn law_created_answer_reports_request(
    s0: OrderFlow,
    request: crate::models::CreateOrderRequest,
    s1: OrderFlow,
    a1: OrderAction,
    s2: OrderFlow,
    a2: OrderAction,
    s3: OrderFlow,
    a3: OrderAction,
    s4: OrderFlow,
    a4: OrderAction,
    s5: OrderFlow,
    a5: OrderAction,
    s6: OrderFlow,
    a6: OrderAction,
)
    requires
        s0 matches OrderFlow::Lookup { request: r, .. } && r == request,
        s0.next(OrderEvent::Looked(Lookup::Missing), s1, a1),
        s1.next(OrderEvent::Finished(true), s2, a2),
        s2.next(OrderEvent::Finished(true), s3, a3),
        s3.next(OrderEvent::Finished(true), s4, a4),
        s4.next(OrderEvent::Finished(true), s5, a5),
        s5.next(OrderEvent::Finished(true), s6, a6),
    ensures
        a4 matches OrderAction::StoreRecord { response, .. } && {
            &&& member(response@.1, "customer_id"@) == Some(ValueView::Text(request.customer_id@))
            &&& member(response@.1, "item_id"@) == Some(ValueView::Text(request.item_id@))
            &&& member(response@.1, "quantity"@) == Some(ValueView::Number(request.quantity as int))
            &&& member(response@.1, "amount"@) == Some(ValueView::Number(amount_due(request.quantity as int)))
            &&& responds(a6, response@)
        },
        a6 matches OrderAction::Respond(r) && {
            &&& r@.0 == 201
            &&& member(r@.1, "customer_id"@) == Some(ValueView::Text(request.customer_id@))
            &&& member(r@.1, "item_id"@) == Some(ValueView::Text(request.item_id@))
            &&& member(r@.1, "quantity"@) == Some(ValueView::Number(request.quantity as int))
            &&& member(r@.1, "amount"@) == Some(ValueView::Number(amount_due(request.quantity as int)))
            &&& (member(r@.1, "order_id"@) matches Some(ValueView::Text(id)) && is_v4_uuid_text(id))
            &&& (member(r@.1, "created_at"@) matches Some(ValueView::Text(t)) && is_utc_rfc3339(t))
        },
{
    match s1 {
        OrderFlow::Writing { order, .. } => {
            law_created_answer_reports_order(order);
        },
        _ => {},
    }
}

} // verus!
