use product_checkout::catalog::{render_products, Product};
use product_checkout::price::price_string;

fn product(id: i32, name: &str, cents: u64) -> Product {
    Product {
        id,
        name: name.to_string(),
        href: format!("/p/{}", id),
        price_cents: cents,
        description: format!("{} description", name),
        image_src: format!("/img/{}.jpg", id),
        image_alt: format!("{} image", name),
    }
}

#[test]
fn price_has_exactly_two_decimals() {
    assert_eq!(price_string(1999), "19.99");
    assert_eq!(price_string(0), "0.00");
    assert_eq!(price_string(5), "0.05");
    assert_eq!(price_string(99), "0.99");
    assert_eq!(price_string(100), "1.00");
    assert_eq!(price_string(1000), "10.00");
    assert_eq!(price_string(123456), "1234.56");
}

#[test]
fn price_of_largest_value() {
    assert_eq!(price_string(u64::MAX), "184467440737095516.15");
}

#[test]
fn one_rendered_row_per_product() {
    let products = vec![product(1, "Aspirin", 499), product(2, "Warfarin", 1250)];
    let rows = render_products(&products);
    assert_eq!(rows.len(), 2);
    assert_eq!(rows[0].id, 1);
    assert_eq!(rows[0].name, "Aspirin");
    assert_eq!(rows[0].href, "/p/1");
    assert_eq!(rows[0].price, "4.99");
    assert_eq!(rows[0].description, "Aspirin description");
    assert_eq!(rows[0].image_src, "/img/1.jpg");
    assert_eq!(rows[0].image_alt, "Aspirin image");
    assert_eq!(rows[1].id, 2);
    assert_eq!(rows[1].name, "Warfarin");
    assert_eq!(rows[1].price, "12.50");
}

#[test]
fn every_rendered_price_has_two_decimals() {
    let products = vec![
        product(1, "Aspirin", 0),
        product(2, "Warfarin", 7),
        product(3, "Ibuprofen", 70),
        product(4, "Paracetamol", 10000),
    ];
    let rows = render_products(&products);
    assert_eq!(rows.len(), products.len());
    for row in &rows {
        let dot = row.price.find('.').expect("a decimal point");
        assert_eq!(dot, row.price.len() - 3);
        assert!(row.price[dot + 1..].chars().all(|c| c.is_ascii_digit()));
        assert!(row.price[..dot].chars().all(|c| c.is_ascii_digit()));
    }
}

#[test]
fn empty_table_renders_empty_list() {
    let products: Vec<Product> = Vec::new();
    let rows = render_products(&products);
    assert!(rows.is_empty());
}
