//! The product table as the library sees it, and the rendering of its rows
//! for the listing endpoint.

use vstd::prelude::*;

use crate::price::{price_string, spec_price_string};

verus! {

/// One row of the product table. The price is held as a whole number of
/// cents, already rounded to two decimal places by the store.
#[derive(Debug, Clone)]
pub struct Product {
    pub id: i32,
    pub name: String,
    pub href: String,
    pub price_cents: u64,
    pub description: String,
    pub image_src: String,
    pub image_alt: String,
}

/// One rendered row of the listing response: the same fields, with the
/// price formatted as a decimal string.
#[derive(Debug, Clone)]
pub struct ProductRow {
    pub id: i32,
    pub name: String,
    pub href: String,
    pub price: String,
    pub description: String,
    pub image_src: String,
    pub image_alt: String,
}

/// Whether `row` renders `p`: every field carried over unchanged, and the
/// price formatted with exactly two digits after the decimal point.
pub open spec fn row_renders(p: Product, row: ProductRow) -> bool {
    &&& row.id == p.id
    &&& row.name@ == p.name@
    &&& row.href@ == p.href@
    &&& row.price@ == spec_price_string(p.price_cents)
    &&& row.description@ == p.description@
    &&& row.image_src@ == p.image_src@
    &&& row.image_alt@ == p.image_alt@
}

/// Renders the whole product table for the listing endpoint: exactly one
/// row per product, in table order; an empty table yields an empty list.
pub fn render_products(products: &Vec<Product>) -> (rows: Vec<ProductRow>)
    ensures
        rows@.len() == products@.len(),
        forall|i: int| 0 <= i < products@.len() ==> row_renders(products@[i], #[trigger] rows@[i]),
        products@.len() == 0 ==> rows@.len() == 0,
{
    let mut rows: Vec<ProductRow> = Vec::new();
    let mut i: usize = 0;
    while i < products.len()
        invariant
            i <= products@.len(),
            rows@.len() == i,
            forall|j: int| 0 <= j < i ==> row_renders(products@[j], #[trigger] rows@[j]),
        decreases products@.len() - i,
    {
        let p = &products[i];
        let row = ProductRow {
            id: p.id,
            name: p.name.clone(),
            href: p.href.clone(),
            price: price_string(p.price_cents),
            description: p.description.clone(),
            image_src: p.image_src.clone(),
            image_alt: p.image_alt.clone(),
        };
        rows.push(row);
        i = i + 1;
    }
    rows
}

} // verus!
