//! The request bodies the service accepts.

use vstd::prelude::*;

verus! {

/// The body of an order request.
#[derive(Debug)]
pub struct CreateOrderRequest {
    pub customer_id: String,
    pub item_id: String,
    pub quantity: i32,
}

/// The body of an item request.
#[derive(Debug)]
pub struct CreateItemRequest {
    pub name: String,
    pub value: i32,
}

} // verus!
