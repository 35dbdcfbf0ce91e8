use gallery_server::aggregate::{
    aggregate_detailed_orders, AggregateError, JoinedArtwork, JoinedLine, JoinedRow,
};
use gallery_server::model::{Customer, Date};

fn customer(id: &str) -> Customer {
    Customer {
        customer_id: id.to_string(),
        first_name: "Grace".to_string(),
        last_name: "Hopper".to_string(),
        email: "grace@example.com".to_string(),
        phone: "555-0100".to_string(),
        address: "Arlington".to_string(),
    }
}

fn date(y: i32, m: u32, d: u32) -> Date {
    Date::from_ymd(y, m, d).unwrap()
}

fn artwork(title: &str, price_cents: i64) -> JoinedArtwork {
    JoinedArtwork {
        title: title.to_string(),
        description: format!("{} description", title),
        year_created: 1900,
        price_cents,
        id_artist: "artist-1".to_string(),
        art_type: "painting".to_string(),
    }
}

fn line_row(order: &str, line_id: &str, amount: i32, art: Option<JoinedArtwork>) -> JoinedRow {
    JoinedRow {
        id_order: order.to_string(),
        order_date: date(2025, 3, 1),
        customer: customer("c1"),
        line: Some(JoinedLine {
            id_artwork_in_order: line_id.to_string(),
            id_artwork: format!("art-{}", line_id),
            amount,
            artwork: art,
        }),
    }
}

fn bare_row(order: &str) -> JoinedRow {
    JoinedRow {
        id_order: order.to_string(),
        order_date: date(2025, 1, 15),
        customer: customer("c2"),
        line: None,
    }
}

#[test]
fn order_without_line_items_has_zero_total() {
    let rows = vec![bare_row("o1")];
    let orders = aggregate_detailed_orders(&rows).unwrap();
    assert_eq!(orders.len(), 1);
    assert_eq!(orders[0].id_order, "o1");
    assert!(orders[0].artworks.is_empty());
    assert_eq!(orders[0].total_amount, 0);
    assert_eq!(orders[0].customer.customer_id, "c2");
    assert_eq!(orders[0].order_date, date(2025, 1, 15));
}

#[test]
fn two_line_items_sum_to_thirty_five() {
    let rows = vec![
        line_row("o1", "l1", 2, Some(artwork("Sunrise", 1000))),
        line_row("o1", "l2", 3, Some(artwork("Dusk", 500))),
    ];
    let orders = aggregate_detailed_orders(&rows).unwrap();
    assert_eq!(orders.len(), 1);
    let o = &orders[0];
    assert_eq!(o.artworks.len(), 2);
    assert_eq!(o.artworks[0].id_artwork_in_order, "l1");
    assert_eq!(o.artworks[0].total_price_for_artwork, 2000);
    assert_eq!(o.artworks[0].artwork_title, "Sunrise");
    assert_eq!(o.artworks[0].id_artwork, "art-l1");
    assert_eq!(o.artworks[1].id_artwork_in_order, "l2");
    assert_eq!(o.artworks[1].total_price_for_artwork, 1500);
    assert_eq!(o.artworks[1].artwork_price_cents, 500);
    assert_eq!(o.total_amount, 3500);
}

#[test]
fn aggregating_twice_gives_identical_output() {
    let rows = vec![
        line_row("o1", "l1", 2, Some(artwork("Sunrise", 1000))),
        line_row("o1", "l2", 3, Some(artwork("Dusk", 500))),
        bare_row("o2"),
    ];
    let first = aggregate_detailed_orders(&rows).unwrap();
    let second = aggregate_detailed_orders(&rows).unwrap();
    assert_eq!(format!("{:?}", first), format!("{:?}", second));
}

#[test]
fn orders_come_out_in_first_seen_order() {
    let rows = vec![
        line_row("o2", "l1", 1, Some(artwork("A", 100))),
        bare_row("o1"),
        line_row("o3", "l2", 4, Some(artwork("B", 250))),
    ];
    let orders = aggregate_detailed_orders(&rows).unwrap();
    let ids: Vec<&str> = orders.iter().map(|o| o.id_order.as_str()).collect();
    assert_eq!(ids, vec!["o2", "o1", "o3"]);
    assert_eq!(orders[0].total_amount, 100);
    assert_eq!(orders[1].total_amount, 0);
    assert_eq!(orders[2].total_amount, 1000);
}

#[test]
fn rows_of_one_order_apart_go_to_one_entry() {
    let rows = vec![
        line_row("o1", "l1", 1, Some(artwork("A", 100))),
        bare_row("o2"),
        line_row("o1", "l2", 2, Some(artwork("B", 300))),
    ];
    let orders = aggregate_detailed_orders(&rows).unwrap();
    assert_eq!(orders.len(), 2);
    assert_eq!(orders[0].id_order, "o1");
    assert_eq!(orders[0].artworks.len(), 2);
    assert_eq!(orders[0].total_amount, 700);
}

#[test]
fn negative_quantity_is_taken_as_given() {
    let rows = vec![line_row("o1", "l1", -2, Some(artwork("A", 150)))];
    let orders = aggregate_detailed_orders(&rows).unwrap();
    assert_eq!(orders[0].total_amount, -300);
}

#[test]
fn empty_join_gives_no_orders() {
    let rows: Vec<JoinedRow> = Vec::new();
    assert!(aggregate_detailed_orders(&rows).unwrap().is_empty());
}

#[test]
fn line_item_without_artwork_is_integrity_error() {
    let rows = vec![
        line_row("o1", "l1", 1, Some(artwork("A", 100))),
        line_row("o1", "l2", 1, None),
    ];
    match aggregate_detailed_orders(&rows) {
        Err(AggregateError::MissingArtwork { id_order, id_artwork_in_order }) => {
            assert_eq!(id_order, "o1");
            assert_eq!(id_artwork_in_order, "l2");
        }
        other => panic!("unexpected result {:?}", other),
    }
}

#[test]
fn large_prices_do_not_overflow_subtotal() {
    let rows = vec![line_row("o1", "l1", i32::MAX, Some(artwork("A", i64::MAX)))];
    let orders = aggregate_detailed_orders(&rows).unwrap();
    assert_eq!(orders[0].total_amount, (i32::MAX as i128) * (i64::MAX as i128));
}
