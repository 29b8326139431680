use groceries::codec::{parse_grocery_id, parse_grocery_item};
use groceries::items::{GroceryId, GroceryItem};
use groceries::render::render_items;

fn parse_item(body: &[u8]) -> Option<GroceryItem> {
    parse_grocery_item(&body.to_vec())
}

fn parse_id(body: &[u8]) -> Option<GroceryId> {
    parse_grocery_id(&body.to_vec())
}

#[test]
fn item_body_parses() {
    let it = parse_item(b"{\"name\":\"apples\",\"quantity\":3}").unwrap();
    assert_eq!(it.name, "apples");
    assert_eq!(it.quantity, 3);
}

#[test]
fn item_body_parses_in_either_order_with_whitespace() {
    let it = parse_item(b" {\t\"quantity\" : 2 ,\n \"name\" : \"milk\" }\r\n").unwrap();
    assert_eq!(it.name, "milk");
    assert_eq!(it.quantity, 2);
}

#[test]
fn item_name_escapes_decode() {
    let it = parse_item(b"{\"name\":\"a\\\"b\\\\c\\nd\\t\\/\",\"quantity\":1}").unwrap();
    assert_eq!(it.name, "a\"b\\c\nd\t/");
}

#[test]
fn item_quantity_signs_and_zero() {
    assert_eq!(parse_item(b"{\"name\":\"x\",\"quantity\":-5}").unwrap().quantity, -5);
    assert_eq!(parse_item(b"{\"name\":\"x\",\"quantity\":0}").unwrap().quantity, 0);
    assert_eq!(parse_item(b"{\"name\":\"x\",\"quantity\":-0}").unwrap().quantity, 0);
}

#[test]
fn item_quantity_range_edges() {
    assert_eq!(
        parse_item(b"{\"name\":\"x\",\"quantity\":2147483647}").unwrap().quantity,
        i32::MAX
    );
    assert_eq!(
        parse_item(b"{\"name\":\"x\",\"quantity\":-2147483648}").unwrap().quantity,
        i32::MIN
    );
    assert!(parse_item(b"{\"name\":\"x\",\"quantity\":2147483648}").is_none());
    assert!(parse_item(b"{\"name\":\"x\",\"quantity\":-2147483649}").is_none());
    assert!(parse_item(b"{\"name\":\"x\",\"quantity\":99999999999999999999}").is_none());
}

#[test]
fn item_missing_name_is_rejected() {
    assert!(parse_item(b"{\"quantity\":3}").is_none());
}

#[test]
fn item_missing_quantity_is_rejected() {
    assert!(parse_item(b"{\"name\":\"apples\"}").is_none());
}

#[test]
fn item_wrong_field_types_are_rejected() {
    assert!(parse_item(b"{\"name\":3,\"quantity\":2}").is_none());
    assert!(parse_item(b"{\"name\":\"a\",\"quantity\":\"2\"}").is_none());
}

#[test]
fn item_unknown_members_are_ignored() {
    let it = parse_item(b"{\"name\":\"a\",\"quantity\":2,\"note\":\"x\"}").unwrap();
    assert_eq!(it.name, "a");
    assert_eq!(it.quantity, 2);
    let it = parse_item(
        b"{\"extra\":[1,{\"deep\":null},true,1.5],\"quantity\":7,\"name\":\"b\",\"more\":{}}",
    )
    .unwrap();
    assert_eq!(it.name, "b");
    assert_eq!(it.quantity, 7);
}

#[test]
fn item_repeated_declared_members_are_rejected() {
    assert!(parse_item(b"{\"name\":\"a\",\"name\":\"b\",\"quantity\":1}").is_none());
    assert!(parse_item(b"{\"name\":\"a\",\"quantity\":1,\"quantity\":2}").is_none());
}

#[test]
fn item_utf8_names_decode() {
    let it = parse_item("{\"name\":\"caf\u{e9}\",\"quantity\":1}".as_bytes()).unwrap();
    assert_eq!(it.name, "caf\u{e9}");
    let it = parse_item("{\"name\":\"\u{1f34e} apples\",\"quantity\":2}".as_bytes()).unwrap();
    assert_eq!(it.name, "\u{1f34e} apples");
}

#[test]
fn item_unicode_escapes_decode() {
    let it = parse_item(b"{\"name\":\"\\u0041\\u00e9\",\"quantity\":1}").unwrap();
    assert_eq!(it.name, "A\u{e9}");
    let it = parse_item(b"{\"name\":\"\\uD83C\\uDF4E\",\"quantity\":1}").unwrap();
    assert_eq!(it.name, "\u{1f34e}");
}

#[test]
fn broken_unicode_is_rejected() {
    assert!(parse_item(b"{\"name\":\"\\uD83C\",\"quantity\":1}").is_none());
    assert!(parse_item(b"{\"name\":\"\\uDC00x\",\"quantity\":1}").is_none());
    assert!(parse_item(b"{\"name\":\"\\u00G1\",\"quantity\":1}").is_none());
    assert!(parse_item(b"{\"name\":\"\xff\",\"quantity\":1}").is_none());
    assert!(parse_item(b"{\"name\":\"\xc3\",\"quantity\":1}").is_none());
    assert!(parse_item(b"{\"name\":\"\xc0\xaf\",\"quantity\":1}").is_none());
    assert!(parse_item(b"{\"name\":\"\xed\xa0\x80\",\"quantity\":1}").is_none());
}

#[test]
fn malformed_bodies_are_rejected() {
    assert!(parse_item(b"").is_none());
    assert!(parse_item(b"   ").is_none());
    assert!(parse_item(b"[]").is_none());
    assert!(parse_item(b"{\"name\":\"a\",\"quantity\":2} trailing").is_none());
    assert!(parse_item(b"{\"name\":\"a\",\"quantity\":01}").is_none());
    assert!(parse_item(b"{\"name\":\"a\",\"quantity\":1.5}").is_none());
    assert!(parse_item(b"{\"name\":\"a\",\"quantity\":1e3}").is_none());
    assert!(parse_item(b"{\"name\":\"a\",\"quantity\":}").is_none());
    assert!(parse_item(b"{\"name\":\"a\"\"quantity\":1}").is_none());
    assert!(parse_item(b"{\"name\":\"unterminated,\"quantity\":1}").is_none());
    assert!(parse_item(b"{\"name\":\"a\",\"quantity\":1").is_none());
}

#[test]
fn empty_name_is_accepted() {
    let it = parse_item(b"{\"name\":\"\",\"quantity\":1}").unwrap();
    assert_eq!(it.name, "");
}

#[test]
fn id_body_parses() {
    let id = parse_id(b"{\"name\":\"kiwis\"}").unwrap();
    assert_eq!(id.name, "kiwis");
}

#[test]
fn id_body_rejects_other_shapes() {
    assert!(parse_id(b"{}").is_none());
    assert!(parse_id(b"{\"name\":7}").is_none());
    assert!(parse_id(b"{\"name\":\"a\",\"name\":\"b\"}").is_none());
    assert!(parse_id(b"\"kiwis\"").is_none());
}

#[test]
fn id_body_ignores_unknown_members() {
    let id = parse_id(b"{\"name\":\"a\",\"quantity\":1}").unwrap();
    assert_eq!(id.name, "a");
}

#[test]
fn render_empty_listing() {
    assert_eq!(render_items(&vec![]), "[]");
}

#[test]
fn render_one_item_exactly() {
    let items = vec![GroceryItem { name: "apples".to_string(), quantity: 5 }];
    assert_eq!(render_items(&items), "[{\"name\":\"apples\",\"quantity\":5}]");
}

#[test]
fn render_two_items_with_negative_quantity() {
    let items = vec![
        GroceryItem { name: "a".to_string(), quantity: -3 },
        GroceryItem { name: "b".to_string(), quantity: 10 },
    ];
    assert_eq!(
        render_items(&items),
        "[{\"name\":\"a\",\"quantity\":-3},{\"name\":\"b\",\"quantity\":10}]"
    );
}

#[test]
fn render_escapes_name_characters() {
    let items = vec![GroceryItem { name: "a\"b\\c\nd".to_string(), quantity: 1 }];
    assert_eq!(
        render_items(&items),
        "[{\"name\":\"a\\\"b\\\\c\\nd\",\"quantity\":1}]"
    );
}

#[test]
fn render_escapes_control_characters() {
    let items = vec![GroceryItem { name: "a\u{1}b\u{1f}".to_string(), quantity: 1 }];
    assert_eq!(
        render_items(&items),
        "[{\"name\":\"a\\u0001b\\u001f\",\"quantity\":1}]"
    );
}

#[test]
fn render_passes_unicode_names_through() {
    let items = vec![GroceryItem { name: "caf\u{e9} \u{1f34e}".to_string(), quantity: 1 }];
    assert_eq!(
        render_items(&items),
        "[{\"name\":\"caf\u{e9} \u{1f34e}\",\"quantity\":1}]"
    );
}

#[test]
fn render_extreme_quantities() {
    let items = vec![
        GroceryItem { name: "max".to_string(), quantity: i32::MAX },
        GroceryItem { name: "min".to_string(), quantity: i32::MIN },
    ];
    assert_eq!(
        render_items(&items),
        "[{\"name\":\"max\",\"quantity\":2147483647},{\"name\":\"min\",\"quantity\":-2147483648}]"
    );
}

#[test]
fn parse_render_round_trip() {
    let body = b"{\"name\":\"grapes\",\"quantity\":12}";
    let it = parse_item(body).unwrap();
    assert_eq!(render_items(&vec![it]), "[{\"name\":\"grapes\",\"quantity\":12}]");
}
