use order_api::models::CreateItemRequest;
use order_api::response::{
    create_item, error_response, get_item, get_order, health_check, ApiResponse, Body, FieldValue, ItemRow, Lookup,
    OrderRow,
};

#[derive(Debug, PartialEq)]
enum V {
    T(String),
    N(i64),
}

fn fields(r: &ApiResponse) -> Vec<(String, V)> {
    match &r.body {
        Body::Object(fs) => fs
            .iter()
            .map(|f| {
                (
                    f.name.clone(),
                    match &f.value {
                        FieldValue::Text(t) => V::T(t.clone()),
                        FieldValue::Number(n) => V::N(*n),
                    },
                )
            })
            .collect(),
        Body::Recorded(_) => panic!("expected an object body"),
    }
}

fn t(name: &str, v: &str) -> (String, V) {
    (name.to_string(), V::T(v.to_string()))
}

fn n(name: &str, v: i64) -> (String, V) {
    (name.to_string(), V::N(v))
}

#[test]
fn health_ok_and_down() {
    let up = health_check(true);
    assert_eq!(up.status, 200);
    assert_eq!(fields(&up), vec![t("status", "ok"), t("db", "connected")]);
    let down = health_check(false);
    assert_eq!(down.status, 503);
    assert_eq!(fields(&down), vec![t("status", "error"), t("db", "disconnected")]);
}

#[test]
fn item_created_and_failed() {
    let req = CreateItemRequest { name: "widget".to_string(), value: 42 };
    let ok = create_item(&req, Some(1));
    assert_eq!(ok.status, 201);
    assert_eq!(fields(&ok), vec![n("id", 1), t("name", "widget"), n("value", 42)]);
    let failed = create_item(&req, None);
    assert_eq!(failed.status, 500);
    assert_eq!(fields(&failed), vec![t("error", "internal server error")]);
}

#[test]
fn item_lookup_outcomes() {
    let found = get_item(Lookup::Found(ItemRow { id: 1, name: "widget".to_string(), value: -3 }));
    assert_eq!(found.status, 200);
    assert_eq!(fields(&found), vec![n("id", 1), t("name", "widget"), n("value", -3)]);
    let missing = get_item(Lookup::Missing);
    assert_eq!(missing.status, 404);
    assert_eq!(fields(&missing), vec![t("error", "item not found")]);
    let failed = get_item(Lookup::Failed);
    assert_eq!(failed.status, 500);
    assert_eq!(fields(&failed), vec![t("error", "internal server error")]);
}

#[test]
fn order_lookup_outcomes() {
    let row = OrderRow {
        order_id: "o-1".to_string(),
        customer_id: "cust-1".to_string(),
        item_id: "item-1".to_string(),
        quantity: 3,
        created_at: "2024-01-02T03:04:05+00:00".to_string(),
    };
    let found = get_order(Lookup::Found(row));
    assert_eq!(found.status, 200);
    assert_eq!(
        fields(&found),
        vec![
            t("order_id", "o-1"),
            t("customer_id", "cust-1"),
            t("item_id", "item-1"),
            n("quantity", 3),
            t("created_at", "2024-01-02T03:04:05+00:00"),
        ]
    );
    let missing = get_order(Lookup::Missing);
    assert_eq!(missing.status, 404);
    assert_eq!(fields(&missing), vec![t("error", "order not found")]);
    assert_eq!(get_order(Lookup::Failed).status, 500);
}

#[test]
fn error_response_shape() {
    let r = error_response(418, "teapot");
    assert_eq!(r.status, 418);
    assert_eq!(fields(&r), vec![t("error", "teapot")]);
}
