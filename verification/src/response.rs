//! The answers the service sends: a status code and a JSON body, which is
//! either a flat object or a body recorded earlier and sent again verbatim.

use vstd::prelude::*;
use crate::models::CreateItemRequest;

verus! {

/// A value in a response object.
pub enum FieldValue {
    Text(String),
    Number(i64),
}

/// A member of a response object.
pub struct Field {
    pub name: String,
    pub value: FieldValue,
}

/// The body of a response.
pub enum Body {
    /// A JSON object with these members, in this order.
    Object(Vec<Field>),
    /// JSON text recorded with an earlier response; sent as it is parsed,
    /// or as an empty object where it does not parse.
    Recorded(String),
}

/// A response: status code and body.
pub struct ApiResponse {
    pub status: u16,
    pub body: Body,
}

/// The model of a member value.
pub enum ValueView {
    Text(Seq<char>),
    Number(int),
}

/// The model of a body.
pub enum BodyView {
    Object(Seq<(Seq<char>, ValueView)>),
    Recorded(Seq<char>),
}

impl View for FieldValue {
    type V = ValueView;

    open spec fn view(&self) -> ValueView {
        match self {
            FieldValue::Text(s) => ValueView::Text(s@),
            FieldValue::Number(n) => ValueView::Number(*n as int),
        }
    }
}

impl View for Field {
    type V = (Seq<char>, ValueView);

    open spec fn view(&self) -> (Seq<char>, ValueView) {
        (self.name@, self.value@)
    }
}

impl View for Body {
    type V = BodyView;

    open spec fn view(&self) -> BodyView {
        match self {
            Body::Object(fields) => BodyView::Object(fields@.map_values(|f: Field| f@)),
            Body::Recorded(text) => BodyView::Recorded(text@),
        }
    }
}

impl View for ApiResponse {
    type V = (u16, BodyView);

    open spec fn view(&self) -> (u16, BodyView) {
        (self.status, self.body@)
    }
}

/// A text member.
pub open spec fn text(name: Seq<char>, value: Seq<char>) -> (Seq<char>, ValueView) {
    (name, ValueView::Text(value))
}

/// A number member.
pub open spec fn number(name: Seq<char>, value: int) -> (Seq<char>, ValueView) {
    (name, ValueView::Number(value))
}

/// The body of an error response: `{"error": message}`.
pub open spec fn error_body(message: Seq<char>) -> BodyView {
    BodyView::Object(seq![text("error"@, message)])
}

/// The message of a failure inside the service.
pub open spec fn internal_error() -> (u16, BodyView) {
    (500, error_body("internal server error"@))
}

pub fn text_field(name: &str, value: String) -> (f: Field)
    ensures
        f@ == text(name@, value@),
{
    Field { name: name.to_owned(), value: FieldValue::Text(value) }
}

pub fn number_field(name: &str, value: i64) -> (f: Field)
    ensures
        f@ == number(name@, value as int),
{
    Field { name: name.to_owned(), value: FieldValue::Number(value) }
}

/// An object body made of `fields`, in order.
pub fn object(fields: Vec<Field>) -> (b: Body)
    ensures
        b@ == BodyView::Object(fields@.map_values(|f: Field| f@)),
{
    Body::Object(fields)
}

/// `{"error": message}` with `status`.
pub fn error_response(status: u16, message: &str) -> (r: ApiResponse)
    ensures
        r@ == (status, error_body(message@)),
{
    let mut fields: Vec<Field> = Vec::new();
    fields.push(text_field("error", message.to_owned()));
    let r = ApiResponse { status, body: object(fields) };
    assert(r.body@ == error_body(message@)) by {
        assert(fields@.map_values(|f: Field| f@) =~= seq![text("error"@, message@)]);
    }
    r
}

/// The answer to a failure inside the service.
pub fn internal_error_response() -> (r: ApiResponse)
    ensures
        r@ == internal_error(),
{
    error_response(500, "internal server error")
}

/// The answer to a health probe, given whether the database answered.
pub open spec fn health_answer(db_reachable: bool) -> (u16, BodyView) {
    if db_reachable {
        (200, BodyView::Object(seq![text("status"@, "ok"@), text("db"@, "connected"@)]))
    } else {
        (503, BodyView::Object(seq![text("status"@, "error"@), text("db"@, "disconnected"@)]))
    }
}

/// Answers a health probe (see `health_answer`).
pub fn health_check(db_reachable: bool) -> (r: ApiResponse)
    ensures
        r@ == health_answer(db_reachable),
{
    let (status, state, db) = if db_reachable {
        (200u16, "ok", "connected")
    } else {
        (503u16, "error", "disconnected")
    };
    let mut fields: Vec<Field> = Vec::new();
    fields.push(text_field("status", state.to_owned()));
    fields.push(text_field("db", db.to_owned()));
    proof {
        reveal_strlit("ok");
        reveal_strlit("connected");
        reveal_strlit("error");
        reveal_strlit("disconnected");
    }
    assert(fields@.map_values(|f: Field| f@) =~= seq![text("status"@, state@), text("db"@, db@)]);
    ApiResponse { status, body: object(fields) }
}

/// The answer to an item creation: the stored item with the identifier the
/// database gave it, or a failure where the insert failed.
pub open spec fn created_item_answer(name: Seq<char>, value: i32, inserted: Option<i32>) -> (u16, BodyView) {
    match inserted {
        Some(id) => (201, BodyView::Object(seq![number("id"@, id as int), text("name"@, name), number("value"@, value as int)])),
        None => internal_error(),
    }
}

/// Answers an item creation (see `created_item_answer`); `inserted` is the
/// identifier the insert returned, `None` where it failed.
pub fn create_item(request: &CreateItemRequest, inserted: Option<i32>) -> (r: ApiResponse)
    ensures
        r@ == created_item_answer(request.name@, request.value, inserted),
{
    match inserted {
        Some(id) => {
            let mut fields: Vec<Field> = Vec::new();
            fields.push(number_field("id", id as i64));
            fields.push(text_field("name", request.name.clone()));
            fields.push(number_field("value", request.value as i64));
            assert(fields@.map_values(|f: Field| f@) =~= seq![
                number("id"@, id as int),
                text("name"@, request.name@),
                number("value"@, request.value as int),
            ]);
            ApiResponse { status: 201, body: object(fields) }
        },
        None => internal_error_response(),
    }
}

/// The outcome of looking a row up.
pub enum Lookup<T> {
    Found(T),
    Missing,
    Failed,
}

/// An item as stored.
pub struct ItemRow {
    pub id: i32,
    pub name: String,
    pub value: i32,
}

/// The answer to an item lookup.
pub open spec fn item_answer(lookup: Lookup<ItemRow>) -> (u16, BodyView) {
    match lookup {
        Lookup::Found(row) => (200, BodyView::Object(seq![
            number("id"@, row.id as int),
            text("name"@, row.name@),
            number("value"@, row.value as int),
        ])),
        Lookup::Missing => (404, error_body("item not found"@)),
        Lookup::Failed => internal_error(),
    }
}

/// Answers an item lookup (see `item_answer`).
pub fn get_item(lookup: Lookup<ItemRow>) -> (r: ApiResponse)
    ensures
        r@ == item_answer(lookup),
{
    match lookup {
        Lookup::Found(row) => {
            let mut fields: Vec<Field> = Vec::new();
            fields.push(number_field("id", row.id as i64));
            fields.push(text_field("name", row.name));
            fields.push(number_field("value", row.value as i64));
            assert(fields@.map_values(|f: Field| f@) =~= seq![
                number("id"@, row.id as int),
                text("name"@, row.name@),
                number("value"@, row.value as int),
            ]);
            ApiResponse { status: 200, body: object(fields) }
        },
        Lookup::Missing => error_response(404, "item not found"),
        Lookup::Failed => internal_error_response(),
    }
}

/// An order as stored.
pub struct OrderRow {
    pub order_id: String,
    pub customer_id: String,
    pub item_id: String,
    pub quantity: i32,
    /// The creation time in RFC 3339 form.
    pub created_at: String,
}

/// The answer to an order lookup.
pub open spec fn order_answer(lookup: Lookup<OrderRow>) -> (u16, BodyView) {
    match lookup {
        Lookup::Found(row) => (200, BodyView::Object(seq![
            text("order_id"@, row.order_id@),
            text("customer_id"@, row.customer_id@),
            text("item_id"@, row.item_id@),
            number("quantity"@, row.quantity as int),
            text("created_at"@, row.created_at@),
        ])),
        Lookup::Missing => (404, error_body("order not found"@)),
        Lookup::Failed => internal_error(),
    }
}

/// Answers an order lookup (see `order_answer`).
pub fn get_order(lookup: Lookup<OrderRow>) -> (r: ApiResponse)
    ensures
        r@ == order_answer(lookup),
{
    match lookup {
        Lookup::Found(row) => {
            let mut fields: Vec<Field> = Vec::new();
            fields.push(text_field("order_id", row.order_id));
            fields.push(text_field("customer_id", row.customer_id));
            fields.push(text_field("item_id", row.item_id));
            fields.push(number_field("quantity", row.quantity as i64));
            fields.push(text_field("created_at", row.created_at));
            assert(fields@.map_values(|f: Field| f@) =~= seq![
                text("order_id"@, row.order_id@),
                text("customer_id"@, row.customer_id@),
                text("item_id"@, row.item_id@),
                number("quantity"@, row.quantity as int),
                text("created_at"@, row.created_at@),
            ]);
            ApiResponse { status: 200, body: object(fields) }
        },
        Lookup::Missing => error_response(404, "order not found"),
        Lookup::Failed => internal_error_response(),
    }
}

} // verus!
