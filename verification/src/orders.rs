//! The protocol that creates an order exactly once per idempotency key.
//!
//! A request names an idempotency key and carries a JSON body. The first
//! request under a key creates the order, its ledger entry and a record of
//! the key, the body's fingerprint and the response, all in one database
//! transaction. A later request under the same key is answered from that
//! record when its body has the same fingerprint, and refused with 409 when
//! it does not.
//!
//! `OrderFlow::step` takes the flow's state and the outcome of the last
//! action, and gives the next state and the next action; the caller performs
//! the actions against the database.

use vstd::prelude::*;
use vstd::utf8::encode_utf8;
use chrono::Utc;
use crate::digest::{body_fingerprint, hash_body};
use crate::models::CreateOrderRequest;
use crate::response::{
    error_body, error_response, internal_error, internal_error_response, number, number_field,
    object, text, text_field, ApiResponse, Body, BodyView, Field, Lookup,
};

verus! {

/// Whether `c` is a decimal digit.
pub open spec fn is_digit(c: char) -> bool {
    '0' <= c && c <= '9'
}

/// The characters of `s` from `from` up to `to` are decimal digits.
pub open spec fn digits_at(s: Seq<char>, from: int, to: int) -> bool {
    forall|i: int| from <= i < to ==> is_digit(#[trigger] s[i])
}

/// `s` is an RFC 3339 time in UTC whose year takes `year_len` characters and
/// whose fraction of a second (dot included) takes `frac_len`:
/// `YYYY-MM-DDThh:mm:ss[.fff|.ffffff|.fffffffff]+00:00`, where a year after
/// 9999 is written with a `+` sign and five or more digits.
pub open spec fn rfc3339_layout(s: Seq<char>, year_len: int, frac_len: int) -> bool {
    let t = year_len + 6;
    let frac = t + 9;
    let zone = frac + frac_len;
    &&& (year_len == 4 && digits_at(s, 0, 4)) || (year_len >= 6 && s[0] == '+' && digits_at(s, 1, year_len))
    &&& s[year_len] == '-' && digits_at(s, year_len + 1, year_len + 3)
    &&& s[year_len + 3] == '-' && digits_at(s, year_len + 4, t)
    &&& s[t] == 'T' && digits_at(s, t + 1, t + 3) && s[t + 3] == ':' && digits_at(s, t + 4, t + 6)
    &&& s[t + 6] == ':' && digits_at(s, t + 7, frac)
    &&& frac_len == 0 || ((frac_len == 4 || frac_len == 7 || frac_len == 10) && s[frac] == '.' && digits_at(s, frac + 1, zone))
    &&& s.len() == zone + 6
    &&& s[zone] == '+' && s[zone + 1] == '0' && s[zone + 2] == '0'
    &&& s[zone + 3] == ':' && s[zone + 4] == '0' && s[zone + 5] == '0'
}

/// `s` is an RFC 3339 time in UTC, as `DateTime<Utc>::to_rfc3339` writes it.
pub open spec fn is_utc_rfc3339(s: Seq<char>) -> bool {
    exists|year_len: int, frac_len: int| rfc3339_layout(s, year_len, frac_len)
}

/// `chrono::Utc::now`, rendered by `DateTime::to_rfc3339`: the current time
/// in RFC 3339 form, in UTC (offset `+00:00`), with the fraction of a second
/// left out, or written with 3, 6 or 9 digits. Which time it is is not stated:
/// it depends on the system clock (and the call panics where that clock reads
/// before 1970).
#[verifier::external_body]
fn utc_now_rfc3339() -> (s: String)
    ensures
        is_utc_rfc3339(s@),
{
    Utc::now().to_rfc3339()
}

/// Whether `c` is a lower-case hexadecimal digit.
pub open spec fn is_lower_hex_digit(c: char) -> bool {
    ('0' <= c && c <= '9') || ('a' <= c && c <= 'f')
}

/// The hyphenated text of a random (version 4) UUID: 36 characters,
/// hyphens at 8, 13, 18 and 23, lower-case hex digits elsewhere, the
/// version digit `4` at 14 and a variant digit from `8`, `9`, `a`, `b` at 19.
pub open spec fn is_v4_uuid_text(s: Seq<char>) -> bool {
    &&& s.len() == 36
    &&& forall|i: int|
        0 <= i < 36 ==> if i == 8 || i == 13 || i == 18 || i == 23 {
            #[trigger] s[i] == '-'
        } else {
            is_lower_hex_digit(s[i])
        }
    &&& s[14] == '4'
    &&& (s[19] == '8' || s[19] == '9' || s[19] == 'a' || s[19] == 'b')
}

/// `uuid::Uuid::new_v4`, rendered by its `Display` impl: a random UUID in
/// hyphenated lower-case form. Which one is left open; its form is stated.
/// The call panics where the operating system's random source fails (no
/// input can rule that out).
#[verifier::external_body]
fn new_uuid_text() -> (s: String)
    ensures
        is_v4_uuid_text(s@),
{
    uuid::Uuid::new_v4().to_string()
}

/// The amount charged for an order: 100 per unit.
pub open spec fn amount_due(quantity: int) -> int {
    quantity * 100
}

/// Whether an amount can be held in an `i32`.
pub open spec fn fits_i32(x: int) -> bool {
    i32::MIN <= x <= i32::MAX
}

/// A previously recorded answer to a key.
pub struct StoredRecord {
    /// The fingerprint of the body the key was first used with.
    pub request_hash: String,
    /// The JSON text of the response sent then.
    pub response_body: String,
    /// Its status code, as stored.
    pub status_code: i32,
}

/// An order about to be written.
pub struct NewOrder {
    pub order_id: String,
    pub ledger_id: String,
    pub customer_id: String,
    pub item_id: String,
    pub quantity: i32,
    pub amount: i32,
    /// The creation time in RFC 3339 form.
    pub created_at: String,
}

impl NewOrder {
    /// A copy of this order.
    pub fn duplicate(&self) -> (o: NewOrder)
        ensures
            o == *self,
    {
        NewOrder {
            order_id: self.order_id.clone(),
            ledger_id: self.ledger_id.clone(),
            customer_id: self.customer_id.clone(),
            item_id: self.item_id.clone(),
            quantity: self.quantity,
            amount: self.amount,
            created_at: self.created_at.clone(),
        }
    }
}

/// `o` is the order for `request`: same customer, item and quantity, the
/// amount due, fresh random identifiers, and a creation time in RFC 3339 form.
pub open spec fn order_for(o: NewOrder, request: CreateOrderRequest) -> bool {
    &&& o.customer_id == request.customer_id
    &&& o.item_id == request.item_id
    &&& o.quantity == request.quantity
    &&& o.amount == amount_due(request.quantity as int)
    &&& is_v4_uuid_text(o.order_id@)
    &&& is_v4_uuid_text(o.ledger_id@)
    &&& is_utc_rfc3339(o.created_at@)
}

/// The answer to a created order: 201 with the order.
pub open spec fn created_order_answer(o: NewOrder) -> (u16, BodyView) {
    (201, BodyView::Object(seq![
        text("order_id"@, o.order_id@),
        text("customer_id"@, o.customer_id@),
        text("item_id"@, o.item_id@),
        number("quantity"@, o.quantity as int),
        number("amount"@, o.amount as int),
        text("created_at"@, o.created_at@),
    ]))
}

/// Builds the answer to a created order (see `created_order_answer`).
pub fn created_order_response(o: &NewOrder) -> (r: ApiResponse)
    ensures
        r@ == created_order_answer(*o),
{
    let mut fields: Vec<Field> = Vec::new();
    fields.push(text_field("order_id", o.order_id.clone()));
    fields.push(text_field("customer_id", o.customer_id.clone()));
    fields.push(text_field("item_id", o.item_id.clone()));
    fields.push(number_field("quantity", o.quantity as i64));
    fields.push(number_field("amount", o.amount as i64));
    fields.push(text_field("created_at", o.created_at.clone()));
    assert(fields@.map_values(|f: Field| f@) =~= seq![
        text("order_id"@, o.order_id@),
        text("customer_id"@, o.customer_id@),
        text("item_id"@, o.item_id@),
        number("quantity"@, o.quantity as int),
        number("amount"@, o.amount as int),
        text("created_at"@, o.created_at@),
    ]);
    ApiResponse { status: 201, body: object(fields) }
}

/// The status a recorded answer is replayed with: the stored code cut to 16
/// bits, where that is a valid status (100 to 999); else 200.
pub open spec fn replay_status(stored: i32) -> u16 {
    let code = stored as u16;
    if 100 <= code <= 999 { code } else { 200 }
}

/// Computes `replay_status`.
pub fn replay_status_of(stored: i32) -> (s: u16)
    ensures
        s == replay_status(stored),
{
    let code = stored as u16;
    if 100 <= code && code <= 999 {
        code
    } else {
        200
    }
}

/// The order with fresh identifiers and the current time for `request`.
fn prepare_order(request: CreateOrderRequest) -> (o: NewOrder)
    requires
        fits_i32(amount_due(request.quantity as int)),
    ensures
        order_for(o, request),
{
    let order_id = new_uuid_text();
    let ledger_id = new_uuid_text();
    let created_at = utc_now_rfc3339();
    let amount = request.quantity * 100;
    NewOrder {
        order_id,
        ledger_id,
        customer_id: request.customer_id,
        item_id: request.item_id,
        quantity: request.quantity,
        amount,
        created_at,
    }
}

/// Which database step a flow in its writing phase waits on.
pub enum Stage {
    Begin,
    InsertOrder,
    InsertLedger,
    StoreRecord,
    Commit,
}

/// The state of an order request.
pub enum OrderFlow {
    /// Nothing has been read yet.
    Start,
    /// Waiting for the record of `key`.
    Lookup { key: String, request: CreateOrderRequest, request_hash: String },
    /// Writing `order` inside a transaction; waiting on `stage`.
    Writing { key: String, request_hash: String, order: NewOrder, stage: Stage },
    /// Answered.
    Done,
}

/// What the caller reports to the flow.
pub enum OrderEvent {
    /// The request arrived: its `Idempotency-Key` header, where present and
    /// readable; its body; and the body parsed as an order, where it parses.
    Received { idempotency_key: Option<String>, body: String, request: Option<CreateOrderRequest> },
    /// The lookup of the key's record finished.
    Looked(Lookup<StoredRecord>),
    /// The last database step finished, successfully or not.
    Finished(bool),
}

/// What the caller is to do next.
pub enum OrderAction {
    /// Look up the record of this key.
    FindRecord(String),
    /// Begin a transaction.
    BeginTransaction,
    /// Insert the order row.
    InsertOrder(NewOrder),
    /// Insert the ledger row of the order.
    InsertLedger(NewOrder),
    /// Store the record of the key: the fingerprint, the response (its body
    /// as JSON text) and the status code.
    StoreRecord { key: String, request_hash: String, response: ApiResponse, status_code: i32 },
    /// Commit the transaction.
    Commit,
    /// Roll the transaction back, then send the response.
    RollBack(ApiResponse),
    /// Send the response.
    Respond(ApiResponse),
}

/// `a` sends `answer`.
pub open spec fn responds(a: OrderAction, answer: (u16, BodyView)) -> bool {
    a matches OrderAction::Respond(r) && r@ == answer
}

/// `a` rolls back and sends `answer`.
pub open spec fn rolls_back(a: OrderAction, answer: (u16, BodyView)) -> bool {
    a matches OrderAction::RollBack(r) && r@ == answer
}

/// The flow in its writing phase at `stage`, otherwise as `key`, `hash`, `order`.
pub open spec fn writing_at(s: OrderFlow, key: String, hash: String, order: NewOrder, stage: Stage) -> bool {
    s == OrderFlow::Writing { key, request_hash: hash, order, stage }
}

impl OrderFlow {
    /// Whether the flow can take `e` now: each event answers the action the
    /// flow last asked for; and an order is only made where its amount fits
    /// an `i32` (the computation would overflow otherwise).
    pub open spec fn takes(self, e: OrderEvent) -> bool {
        match self {
            OrderFlow::Start => e is Received,
            OrderFlow::Lookup { key, request, request_hash } => match e {
                OrderEvent::Looked(Lookup::Missing) => fits_i32(amount_due(request.quantity as int)),
                OrderEvent::Looked(_) => true,
                _ => false,
            },
            OrderFlow::Writing { .. } => e is Finished,
            OrderFlow::Done => false,
        }
    }

    /// Checks `takes`.
    pub fn can_take(&self, e: &OrderEvent) -> (b: bool)
        ensures
            b == self.takes(*e),
    {
        match self {
            OrderFlow::Start => matches!(e, OrderEvent::Received { .. }),
            OrderFlow::Lookup { request, .. } => match e {
                OrderEvent::Looked(Lookup::Missing) => {
                    let q = request.quantity as i64;
                    -21474836 <= q && q <= 21474836
                },
                OrderEvent::Looked(_) => true,
                _ => false,
            },
            OrderFlow::Writing { .. } => matches!(e, OrderEvent::Finished(_)),
            OrderFlow::Done => false,
        }
    }

    /// What the flow does on `e`.
    pub open spec fn next(self, e: OrderEvent, s2: OrderFlow, a: OrderAction) -> bool {
        match self {
            OrderFlow::Start => match e {
                OrderEvent::Received { idempotency_key, body, request } => match idempotency_key {
                    None => s2 is Done && responds(a, (400, error_body("Idempotency-Key header is required"@))),
                    Some(key) => match request {
                        None => s2 is Done && responds(a, (400, error_body("invalid request body"@))),
                        Some(req) => {
                            &&& s2 matches OrderFlow::Lookup { key: k2, request: r2, request_hash: h2 }
                            &&& k2 == key
                            &&& r2 == req
                            &&& h2@ == body_fingerprint(encode_utf8(body@))
                            &&& a == OrderAction::FindRecord(key)
                        },
                    },
                },
                _ => false,
            },
            OrderFlow::Lookup { key, request, request_hash } => match e {
                OrderEvent::Looked(Lookup::Found(record)) => {
                    &&& s2 is Done
                    &&& if record.request_hash@ != request_hash@ {
                        responds(a, (409, error_body("idempotency key reused with different request body"@)))
                    } else {
                        responds(a, (replay_status(record.status_code), BodyView::Recorded(record.response_body@)))
                    }
                },
                OrderEvent::Looked(Lookup::Failed) => s2 is Done && responds(a, internal_error()),
                OrderEvent::Looked(Lookup::Missing) => {
                    &&& s2 matches OrderFlow::Writing { key: k2, request_hash: h2, order, stage: Stage::Begin }
                    &&& k2 == key
                    &&& h2 == request_hash
                    &&& order_for(order, request)
                    &&& a is BeginTransaction
                },
                _ => false,
            },
            OrderFlow::Writing { key, request_hash, order, stage } => match e {
                OrderEvent::Finished(ok) => match stage {
                    Stage::Begin => if ok {
                        writing_at(s2, key, request_hash, order, Stage::InsertOrder) && a == OrderAction::InsertOrder(order)
                    } else {
                        s2 is Done && responds(a, internal_error())
                    },
                    Stage::InsertOrder => if ok {
                        writing_at(s2, key, request_hash, order, Stage::InsertLedger) && a == OrderAction::InsertLedger(order)
                    } else {
                        s2 is Done && rolls_back(a, internal_error())
                    },
                    Stage::InsertLedger => if ok {
                        &&& writing_at(s2, key, request_hash, order, Stage::StoreRecord)
                        &&& a matches OrderAction::StoreRecord { key: k, request_hash: h, response, status_code }
                        &&& k == key
                        &&& h == request_hash
                        &&& response@ == created_order_answer(order)
                        &&& status_code == 201
                    } else {
                        s2 is Done && rolls_back(a, internal_error())
                    },
                    Stage::StoreRecord => if ok {
                        writing_at(s2, key, request_hash, order, Stage::Commit) && a is Commit
                    } else {
                        s2 is Done && rolls_back(a, internal_error())
                    },
                    Stage::Commit => {
                        &&& s2 is Done
                        &&& if ok { responds(a, created_order_answer(order)) } else { responds(a, internal_error()) }
                    },
                },
                _ => false,
            },
            OrderFlow::Done => false,
        }
    }

    /// Advances the flow on `e` (see `next`).
    pub fn step(self, e: OrderEvent) -> (r: (OrderFlow, OrderAction))
        requires
            self.takes(e),
        ensures
            self.next(e, r.0, r.1),
    {
        match self {
            OrderFlow::Start => match e {
                OrderEvent::Received { idempotency_key, body, request } => match idempotency_key {
                    None => {
                        let r = error_response(400, "Idempotency-Key header is required");
                        (OrderFlow::Done, OrderAction::Respond(r))
                    },
                    Some(key) => match request {
                        None => {
                            let r = error_response(400, "invalid request body");
                            (OrderFlow::Done, OrderAction::Respond(r))
                        },
                        Some(req) => {
                            let request_hash = hash_body(body.as_str());
                            let find = key.clone();
                            (OrderFlow::Lookup { key, request: req, request_hash }, OrderAction::FindRecord(find))
                        },
                    },
                },
                _ => (OrderFlow::Done, OrderAction::Respond(internal_error_response())),
            },
            OrderFlow::Lookup { key, request, request_hash } => match e {
                OrderEvent::Looked(Lookup::Found(record)) => {
                    if record.request_hash != request_hash {
                        let r = error_response(409, "idempotency key reused with different request body");
                        (OrderFlow::Done, OrderAction::Respond(r))
                    } else {
                        let r = ApiResponse {
                            status: replay_status_of(record.status_code),
                            body: Body::Recorded(record.response_body),
                        };
                        (OrderFlow::Done, OrderAction::Respond(r))
                    }
                },
                OrderEvent::Looked(Lookup::Failed) => (OrderFlow::Done, OrderAction::Respond(internal_error_response())),
                OrderEvent::Looked(Lookup::Missing) => {
                    let order = prepare_order(request);
                    (OrderFlow::Writing { key, request_hash, order, stage: Stage::Begin }, OrderAction::BeginTransaction)
                },
                _ => (OrderFlow::Done, OrderAction::Respond(internal_error_response())),
            },
            OrderFlow::Writing { key, request_hash, order, stage } => match e {
                OrderEvent::Finished(ok) => match stage {
                    Stage::Begin => if ok {
                        let copy = order.duplicate();
                        (OrderFlow::Writing { key, request_hash, order, stage: Stage::InsertOrder }, OrderAction::InsertOrder(copy))
                    } else {
                        (OrderFlow::Done, OrderAction::Respond(internal_error_response()))
                    },
                    Stage::InsertOrder => if ok {
                        let copy = order.duplicate();
                        (OrderFlow::Writing { key, request_hash, order, stage: Stage::InsertLedger }, OrderAction::InsertLedger(copy))
                    } else {
                        (OrderFlow::Done, OrderAction::RollBack(internal_error_response()))
                    },
                    Stage::InsertLedger => if ok {
                        let response = created_order_response(&order);
                        let action = OrderAction::StoreRecord {
                            key: key.clone(),
                            request_hash: request_hash.clone(),
                            response,
                            status_code: 201,
                        };
                        (OrderFlow::Writing { key, request_hash, order, stage: Stage::StoreRecord }, action)
                    } else {
                        (OrderFlow::Done, OrderAction::RollBack(internal_error_response()))
                    },
                    Stage::StoreRecord => if ok {
                        (OrderFlow::Writing { key, request_hash, order, stage: Stage::Commit }, OrderAction::Commit)
                    } else {
                        (OrderFlow::Done, OrderAction::RollBack(internal_error_response()))
                    },
                    Stage::Commit => if ok {
                        (OrderFlow::Done, OrderAction::Respond(created_order_response(&order)))
                    } else {
                        (OrderFlow::Done, OrderAction::Respond(internal_error_response()))
                    },
                },
                _ => (OrderFlow::Done, OrderAction::Respond(internal_error_response())),
            },
            OrderFlow::Done => (OrderFlow::Done, OrderAction::Respond(internal_error_response())),
        }
    }
}

} // verus!
