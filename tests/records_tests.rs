use gallery_server::filters::{
    artists_born_after, artworks_of_type, contains_text, customers_with_address_containing,
    orders_after,
};
use gallery_server::model::{Artist, Artwork, ArtworkInOrder, Customer, Date, Order};
use gallery_server::repository::{http_status, Operation, RepoError, Session, Statement, StoreReply, Table};

fn artist(first: &str, last: &str, year: i32) -> Artist {
    Artist {
        artist_id: None,
        first_name: first.to_string(),
        last_name: last.to_string(),
        birth_year: year,
    }
}

fn customer(id: &str, address: &str) -> Customer {
    Customer {
        customer_id: id.to_string(),
        first_name: "F".to_string(),
        last_name: "L".to_string(),
        email: "e@example.com".to_string(),
        phone: "1".to_string(),
        address: address.to_string(),
    }
}

fn artwork(title: &str, art_type: &str) -> Artwork {
    Artwork {
        id_artwork: Some(format!("id-{}", title)),
        title: title.to_string(),
        description: "d".to_string(),
        year_created: 2000,
        price_cents: 12345,
        id_artist: "a1".to_string(),
        art_type: art_type.to_string(),
    }
}

fn order(id: &str, y: i32, m: u32, d: u32) -> Order {
    Order {
        id_order: id.to_string(),
        id_customer: "c1".to_string(),
        order_date: Date::from_ymd(y, m, d).unwrap(),
    }
}

/// Drives a session with the given replies and returns the statements run and the outcome.
fn drive(table: Table, op: Operation, replies: Vec<StoreReply>) -> (Vec<Statement>, Option<Result<(), RepoError>>) {
    let mut s = Session::start(table, op);
    let mut ran = Vec::new();
    for reply in replies {
        let st = s.pending.expect("a statement is pending");
        ran.push(st);
        if let Some(outcome) = s.advance(reply) {
            return (ran, Some(outcome));
        }
    }
    (ran, None)
}

#[test]
fn created_artist_gets_generated_id_and_is_filtered_out() {
    let ada = artist("Ada", "Lovelace", 1815).assign_new_id();
    let id = ada.artist_id.clone().unwrap();
    assert_eq!(id.len(), 36);
    assert_eq!(ada.first_name, "Ada");
    assert_eq!(ada.last_name, "Lovelace");
    assert_eq!(ada.birth_year, 1815);
    let (ran, outcome) = drive(Table::Artists, Operation::Create, vec![StoreReply::Rows(1)]);
    assert_eq!(ran, vec![Statement::Insert]);
    let outcome = outcome.unwrap();
    assert!(outcome.is_ok());
    assert_eq!(http_status(Operation::Create, &outcome), 201);
    let young = artist("Bo", "Young", 1990).assign_new_id();
    let listed = artists_born_after(&vec![ada, young], 1980);
    assert_eq!(listed.len(), 1);
    assert_eq!(listed[0].first_name, "Bo");
}

#[test]
fn generated_ids_differ_and_replace_given_ids() {
    let a = Artwork { id_artwork: Some("client-chosen".to_string()), ..artwork("x", "t") };
    let first = a.assign_new_id();
    let second = a.assign_new_id();
    assert_ne!(first.id_artwork, second.id_artwork);
    assert_ne!(first.id_artwork, Some("client-chosen".to_string()));
    assert_eq!(first.title, "x");
    let c = customer("given", "addr").assign_new_id();
    assert_ne!(c.customer_id, "given");
    assert_eq!(c.customer_id.len(), 36);
    let o = order("given", 2025, 2, 1).assign_new_id();
    assert_ne!(o.id_order, "given");
    assert_eq!(o.order_date, Date::from_ymd(2025, 2, 1).unwrap());
    let li = ArtworkInOrder {
        id_artwork_in_order: "given".to_string(),
        id_order: "o".to_string(),
        id_artwork: "w".to_string(),
        amount: 3,
    }
    .assign_new_id();
    assert_eq!(li.id_artwork_in_order.len(), 36);
    assert_eq!(li.amount, 3);
}

#[test]
fn with_id_keeps_the_other_fields() {
    let a = artist("Ada", "Lovelace", 1815).with_id("k".to_string());
    assert_eq!(a.artist_id, Some("k".to_string()));
    assert_eq!(a.last_name, "Lovelace");
    let o = order("o", 2024, 12, 31).with_id("p".to_string());
    assert_eq!(o.id_order, "p");
    assert_eq!(o.id_customer, "c1");
}

#[test]
fn update_of_missing_row_is_not_found() {
    let (ran, outcome) = drive(Table::Customers, Operation::Update, vec![StoreReply::Rows(0)]);
    assert_eq!(ran, vec![Statement::SelectById]);
    let outcome = outcome.unwrap();
    assert!(matches!(outcome, Err(RepoError::NotFound)));
    assert_eq!(http_status(Operation::Update, &outcome), 404);
}

#[test]
fn update_of_present_row_runs_the_update() {
    let (ran, outcome) =
        drive(Table::Artists, Operation::Update, vec![StoreReply::Rows(1), StoreReply::Rows(1)]);
    assert_eq!(ran, vec![Statement::SelectById, Statement::UpdateById]);
    assert!(outcome.unwrap().is_ok());
}

#[test]
fn update_matching_no_row_after_check_is_not_found() {
    let (_, outcome) =
        drive(Table::Artists, Operation::Update, vec![StoreReply::Rows(1), StoreReply::Rows(0)]);
    assert!(matches!(outcome.unwrap(), Err(RepoError::NotFound)));
}

#[test]
fn store_failure_is_store_error() {
    let (_, outcome) =
        drive(Table::Orders, Operation::Read, vec![StoreReply::Failed("disk I/O error".to_string())]);
    let outcome = outcome.unwrap();
    match &outcome {
        Err(RepoError::Store(msg)) => assert_eq!(msg, "disk I/O error"),
        other => panic!("unexpected outcome {:?}", other),
    }
    assert_eq!(http_status(Operation::Read, &outcome), 500);
}

#[test]
fn read_reports_found_and_missing() {
    let (_, found) = drive(Table::Artworks, Operation::Read, vec![StoreReply::Rows(1)]);
    let found = found.unwrap();
    assert!(found.is_ok());
    assert_eq!(http_status(Operation::Read, &found), 200);
    let (_, missing) = drive(Table::Artworks, Operation::Read, vec![StoreReply::Rows(0)]);
    assert!(matches!(missing.unwrap(), Err(RepoError::NotFound)));
}

#[test]
fn deleting_order_removes_line_items_first() {
    let (ran, outcome) =
        drive(Table::Orders, Operation::Delete, vec![StoreReply::Rows(2), StoreReply::Rows(1)]);
    assert_eq!(ran, vec![Statement::DeleteLineItems, Statement::DeleteById]);
    assert!(outcome.unwrap().is_ok());
}

#[test]
fn deleting_artwork_removes_line_items_first() {
    let (ran, outcome) =
        drive(Table::Artworks, Operation::Delete, vec![StoreReply::Rows(0), StoreReply::Rows(0)]);
    assert_eq!(ran, vec![Statement::DeleteLineItems, Statement::DeleteById]);
    assert!(matches!(outcome.unwrap(), Err(RepoError::NotFound)));
}

#[test]
fn deleting_artist_is_one_statement() {
    let (ran, outcome) = drive(Table::Artists, Operation::Delete, vec![StoreReply::Rows(1)]);
    assert_eq!(ran, vec![Statement::DeleteById]);
    assert!(outcome.unwrap().is_ok());
    let (_, gone) = drive(Table::Artists, Operation::Delete, vec![StoreReply::Rows(0)]);
    assert!(matches!(gone.unwrap(), Err(RepoError::NotFound)));
}

#[test]
fn failed_line_item_delete_stops_the_cascade() {
    let (ran, outcome) = drive(
        Table::Orders,
        Operation::Delete,
        vec![StoreReply::Failed("locked".to_string()), StoreReply::Rows(1)],
    );
    assert_eq!(ran, vec![Statement::DeleteLineItems]);
    assert!(matches!(outcome.unwrap(), Err(RepoError::Store(_))));
}

#[test]
fn customers_in_jerusalem_are_found_by_substring() {
    let customers = vec![
        customer("c1", "רחוב יפו 1, ירושלים"),
        customer("c2", "תל אביב"),
        customer("c3", "ירושלים"),
    ];
    let found = customers_with_address_containing(&customers, "ירושלים");
    let ids: Vec<&str> = found.iter().map(|c| c.customer_id.as_str()).collect();
    assert_eq!(ids, vec!["c1", "c3"]);
}

#[test]
fn text_containment_edge_cases() {
    assert!(contains_text("abc", ""));
    assert!(contains_text("", ""));
    assert!(!contains_text("", "a"));
    assert!(contains_text("abcabd", "abd"));
    assert!(!contains_text("ab", "abc"));
    assert!(!contains_text("Jerusalem", "jerusalem"));
}

#[test]
fn artworks_are_filtered_by_exact_type() {
    let artworks = vec![artwork("a", "oil"), artwork("b", "sculpture"), artwork("c", "oil"), artwork("d", "oils")];
    let oil = artworks_of_type(&artworks, &"oil".to_string());
    let titles: Vec<&str> = oil.iter().map(|a| a.title.as_str()).collect();
    assert_eq!(titles, vec!["a", "c"]);
}

#[test]
fn orders_after_cutoff_exclude_the_cutoff_day() {
    let orders = vec![
        order("o1", 2025, 1, 1),
        order("o2", 2025, 1, 2),
        order("o3", 2024, 12, 31),
        order("o4", 2026, 1, 1),
    ];
    let cutoff = Date::from_ymd(2025, 1, 1).unwrap();
    let later = orders_after(&orders, &cutoff);
    let ids: Vec<&str> = later.iter().map(|o| o.id_order.as_str()).collect();
    assert_eq!(ids, vec!["o2", "o4"]);
}

#[test]
fn artists_born_after_keep_their_order() {
    let artists = vec![artist("A", "Z", 1990), artist("B", "Y", 1980), artist("C", "X", 1981)];
    let listed = artists_born_after(&artists, 1980);
    let names: Vec<&str> = listed.iter().map(|a| a.first_name.as_str()).collect();
    assert_eq!(names, vec!["A", "C"]);
}

#[test]
fn calendar_dates_are_checked() {
    assert!(Date::from_ymd(2024, 2, 29).is_some());
    assert!(Date::from_ymd(2023, 2, 29).is_none());
    assert!(Date::from_ymd(2000, 2, 29).is_some());
    assert!(Date::from_ymd(1900, 2, 29).is_none());
    assert!(Date::from_ymd(2025, 13, 1).is_none());
    assert!(Date::from_ymd(2025, 4, 31).is_none());
    assert!(Date::from_ymd(2025, 0, 1).is_none());
    assert!(Date::from_ymd(262142, 12, 31).is_some());
    assert!(Date::from_ymd(262143, 1, 1).is_none());
    assert!(Date::from_ymd(-262143, 1, 1).is_some());
    assert!(Date::from_ymd(-262144, 1, 1).is_none());
}

#[test]
fn dates_compare_by_year_month_day() {
    let a = Date::from_ymd(2025, 1, 2).unwrap();
    let b = Date::from_ymd(2025, 1, 1).unwrap();
    let c = Date::from_ymd(2024, 12, 31).unwrap();
    assert!(a.is_after(&b));
    assert!(!b.is_after(&a));
    assert!(!b.is_after(&b));
    assert!(b.is_after(&c));
}
