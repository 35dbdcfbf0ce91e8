use vstd::prelude::*;

use crate::model::{Customer, Date};

verus! {

/// Artwork columns of one joined row; absent when the line item names an
/// artwork that the join did not find.
#[derive(Debug)]
pub struct JoinedArtwork {
    pub title: String,
    pub description: String,
    pub year_created: i32,
    pub price_cents: i64,
    pub id_artist: String,
    pub art_type: String,
}

/// Line-item columns of one joined row; absent for an order without line items.
#[derive(Debug)]
pub struct JoinedLine {
    pub id_artwork_in_order: String,
    pub id_artwork: String,
    pub amount: i32,
    pub artwork: Option<JoinedArtwork>,
}

/// One row of the join of orders, customers, line items and artworks.
#[derive(Debug)]
pub struct JoinedRow {
    pub id_order: String,
    pub order_date: Date,
    pub customer: Customer,
    pub line: Option<JoinedLine>,
}

/// One line item of a detailed order, with its artwork and its subtotal.
#[derive(Debug)]
pub struct LineItemView {
    pub id_artwork_in_order: String,
    pub id_artwork: String,
    pub amount: i32,
    pub artwork_title: String,
    pub artwork_description: String,
    pub artwork_year_created: i32,
    pub artwork_price_cents: i64,
    pub artwork_id_artist: String,
    pub artwork_art_type: String,
    pub total_price_for_artwork: i128,
}

/// An order with its customer, its line items and their grand total.
#[derive(Debug)]
pub struct DetailedOrder {
    pub id_order: String,
    pub order_date: Date,
    pub customer: Customer,
    pub artworks: Vec<LineItemView>,
    pub total_amount: i128,
}

/// What a detailed order holds, with its line items as a sequence and its
/// total as an unbounded integer.
pub struct DetailedOrderModel {
    pub id_order: String,
    pub order_date: Date,
    pub customer: Customer,
    pub artworks: Seq<LineItemView>,
    pub total_amount: int,
}

impl View for DetailedOrder {
    type V = DetailedOrderModel;

    open spec fn view(&self) -> DetailedOrderModel {
        DetailedOrderModel {
            id_order: self.id_order,
            order_date: self.order_date,
            customer: self.customer,
            artworks: self.artworks@,
            total_amount: self.total_amount as int,
        }
    }
}

/// Why a join could not be folded into detailed orders.
#[derive(Debug)]
pub enum AggregateError {
    /// A line item whose artwork columns are absent.
    MissingArtwork { id_order: String, id_artwork_in_order: String },
    /// An order total that does not fit in 128 bits.
    TotalOverflow { id_order: String },
}

/// Subtotal of a line: quantity times unit price.
pub open spec fn subtotal(amount: i32, price_cents: i64) -> int {
    amount as int * price_cents as int
}

/// The line-item view built from a joined line and its artwork.
pub open spec fn line_view(line: JoinedLine, art: JoinedArtwork) -> LineItemView {
    LineItemView {
        id_artwork_in_order: line.id_artwork_in_order,
        id_artwork: line.id_artwork,
        amount: line.amount,
        artwork_title: art.title,
        artwork_description: art.description,
        artwork_year_created: art.year_created,
        artwork_price_cents: art.price_cents,
        artwork_id_artist: art.id_artist,
        artwork_art_type: art.art_type,
        total_price_for_artwork: subtotal(line.amount, art.price_cents) as i128,
    }
}

/// The entry started for an order on its first row: no line items, total zero.
pub open spec fn new_entry(row: JoinedRow) -> DetailedOrderModel {
    DetailedOrderModel {
        id_order: row.id_order,
        order_date: row.order_date,
        customer: row.customer,
        artworks: Seq::empty(),
        total_amount: 0,
    }
}

/// The entry after taking in one more row of its order.
pub open spec fn add_row(entry: DetailedOrderModel, row: JoinedRow) -> Result<
    DetailedOrderModel,
    AggregateError,
> {
    match row.line {
        None => Ok(entry),
        Some(line) => match line.artwork {
            None => Err(
                AggregateError::MissingArtwork {
                    id_order: row.id_order,
                    id_artwork_in_order: line.id_artwork_in_order,
                },
            ),
            Some(art) => {
                let total = entry.total_amount + subtotal(line.amount, art.price_cents);
                if total < i128::MIN || total > i128::MAX {
                    Err(AggregateError::TotalOverflow { id_order: row.id_order })
                } else {
                    Ok(
                        DetailedOrderModel {
                            artworks: entry.artworks.push(line_view(line, art)),
                            total_amount: total,
                            ..entry
                        },
                    )
                }
            },
        },
    }
}

/// Index of the first entry, at or after `from`, for the order `id`; -1 if none.
pub open spec fn position_from(acc: Seq<DetailedOrderModel>, id: Seq<char>, from: int) -> int
    decreases acc.len() - from,
{
    if from < 0 || from >= acc.len() {
        -1
    } else if acc[from].id_order@ == id {
        from
    } else {
        position_from(acc, id, from + 1)
    }
}

/// The entries after taking in one row: the row goes to the entry of its order,
/// which is started at the end when the order was not seen before.
pub open spec fn fold_step(acc: Seq<DetailedOrderModel>, row: JoinedRow) -> Result<
    Seq<DetailedOrderModel>,
    AggregateError,
> {
    let p = position_from(acc, row.id_order@, 0);
    if p >= 0 {
        match add_row(acc[p], row) {
            Ok(e) => Ok(acc.update(p, e)),
            Err(err) => Err(err),
        }
    } else {
        match add_row(new_entry(row), row) {
            Ok(e) => Ok(acc.push(e)),
            Err(err) => Err(err),
        }
    }
}

/// The detailed orders of a row sequence, folded from the first row to the last;
/// the first failing row decides the error.
pub open spec fn fold_rows(rows: Seq<JoinedRow>) -> Result<Seq<DetailedOrderModel>, AggregateError>
    decreases rows.len(),
{
    if rows.len() == 0 {
        Ok(Seq::empty())
    } else {
        match fold_rows(rows.drop_last()) {
            Ok(acc) => fold_step(acc, rows.last()),
            Err(err) => Err(err),
        }
    }
}

/// The models of a sequence of detailed orders.
pub open spec fn orders_view(orders: Seq<DetailedOrder>) -> Seq<DetailedOrderModel> {
    orders.map_values(|d: DetailedOrder| d@)
}

/// The model of what the fold returned.
pub open spec fn result_view(r: Result<Vec<DetailedOrder>, AggregateError>) -> Result<
    Seq<DetailedOrderModel>,
    AggregateError,
> {
    match r {
        Ok(v) => Ok(orders_view(v@)),
        Err(e) => Err(e),
    }
}

proof fn lemma_error_persists(rows: Seq<JoinedRow>, i: int)
    requires
        0 <= i <= rows.len(),
        fold_rows(rows.subrange(0, i)) is Err,
    ensures
        fold_rows(rows) == fold_rows(rows.subrange(0, i)),
    decreases rows.len() - i,
{
    if i < rows.len() {
        let next = rows.subrange(0, i + 1);
        assert(next.drop_last() =~= rows.subrange(0, i));
        lemma_error_persists(rows, i + 1);
    } else {
        assert(rows.subrange(0, i) =~= rows);
    }
}

fn position_of(acc: &Vec<DetailedOrder>, id: &String) -> (r: Option<usize>)
    ensures
        match r {
            Some(k) => k < acc@.len() && position_from(orders_view(acc@), id@, 0) == k as int,
            None => position_from(orders_view(acc@), id@, 0) == -1,
        },
{
    let ghost av = orders_view(acc@);
    let mut k: usize = 0;
    while k < acc.len()
        invariant
            k <= acc@.len(),
            av == orders_view(acc@),
            position_from(av, id@, 0) == position_from(av, id@, k as int),
        decreases acc@.len() - k,
    {
        if acc[k].id_order == *id {
            return Some(k);
        }
        k += 1;
    }
    None
}

/// Folds the rows of the join (listed by order id, then by line-item id) into
/// one detailed order per distinct order id, in the order in which the ids
/// first appear; rows of one order need not be adjacent. Each line item carries quantity times price as its
/// subtotal, and each order the sum of its subtotals as its total.
pub fn aggregate_detailed_orders(rows: &Vec<JoinedRow>) -> (r: Result<
    Vec<DetailedOrder>,
    AggregateError,
>)
    ensures
        result_view(r) == fold_rows(rows@),
{
    let mut acc: Vec<DetailedOrder> = Vec::new();
    let mut i: usize = 0;
    assert(rows@.subrange(0, 0) =~= Seq::<JoinedRow>::empty());
    assert(orders_view(acc@) =~= Seq::<DetailedOrderModel>::empty());
    while i < rows.len()
        invariant
            i <= rows@.len(),
            fold_rows(rows@.subrange(0, i as int)) == Ok::<
                Seq<DetailedOrderModel>,
                AggregateError,
            >(orders_view(acc@)),
        decreases rows@.len() - i,
    {
        let row = &rows[i];
        let ghost before = orders_view(acc@);
        let ghost prefix = rows@.subrange(0, i as int + 1);
        assert(prefix.drop_last() =~= rows@.subrange(0, i as int));
        assert(prefix.last() == *row);
        let found = position_of(&acc, &row.id_order);
        let mut entry = match found {
            Some(k) => acc.remove(k),
            None => DetailedOrder {
                id_order: row.id_order.clone(),
                order_date: row.order_date,
                customer: row.customer.clone(),
                artworks: Vec::new(),
                total_amount: 0,
            },
        };
        let ghost entry_model = entry@;
        proof {
            match found {
                Some(k) => {
                    assert(entry_model == before[k as int]);
                },
                None => {
                    assert(entry_model.artworks =~= Seq::<LineItemView>::empty());
                    assert(entry_model == new_entry(*row));
                },
            }
        }
        match &row.line {
            None => {},
            Some(line) => match &line.artwork {
                None => {
                    proof {
                        lemma_error_persists(rows@, i as int + 1);
                    }
                    return Err(
                        AggregateError::MissingArtwork {
                            id_order: row.id_order.clone(),
                            id_artwork_in_order: line.id_artwork_in_order.clone(),
                        },
                    );
                },
                Some(art) => {
                    assert(-0x8000_0000_0000_0000_0000_0000_0000 <= (line.amount as int)
                        * (art.price_cents as int) <= 0x7fff_ffff_ffff_ffff_ffff_ffff_ffff)
                        by (nonlinear_arith)
                        requires
                            -0x8000_0000 <= line.amount as int <= 0x7fff_ffff,
                            -0x8000_0000_0000_0000 <= art.price_cents as int
                                <= 0x7fff_ffff_ffff_ffff,
                    ;
                    let sub: i128 = (line.amount as i128) * (art.price_cents as i128);
                    match entry.total_amount.checked_add(sub) {
                        None => {
                            proof {
                                lemma_error_persists(rows@, i as int + 1);
                            }
                            return Err(AggregateError::TotalOverflow { id_order: row.id_order.clone() });
                        },
                        Some(total) => {
                            let item = LineItemView {
                                id_artwork_in_order: line.id_artwork_in_order.clone(),
                                id_artwork: line.id_artwork.clone(),
                                amount: line.amount,
                                artwork_title: art.title.clone(),
                                artwork_description: art.description.clone(),
                                artwork_year_created: art.year_created,
                                artwork_price_cents: art.price_cents,
                                artwork_id_artist: art.id_artist.clone(),
                                artwork_art_type: art.art_type.clone(),
                                total_price_for_artwork: sub,
                            };
                            entry.artworks.push(item);
                            entry.total_amount = total;
                        },
                    }
                },
            },
        }
        assert(add_row(entry_model, *row) == Ok::<DetailedOrderModel, AggregateError>(entry@));
        match found {
            Some(k) => {
                acc.insert(k, entry);
                assert(orders_view(acc@) =~= before.update(k as int, entry@));
            },
            None => {
                acc.push(entry);
                assert(orders_view(acc@) =~= before.push(entry@));
            },
        }
        i += 1;
    }
    assert(rows@.subrange(0, i as int) =~= rows@);
    Ok(acc)
}

/// Sum of the subtotals of a sequence of line items.
pub open spec fn sum_of_subtotals(items: Seq<LineItemView>) -> int
    decreases items.len(),
{
    if items.len() == 0 {
        0
    } else {
        sum_of_subtotals(items.drop_last()) + items.last().total_price_for_artwork as int
    }
}

/// Each line item's subtotal is its quantity times its unit price, and the
/// order's total is exactly the sum of its subtotals.
pub open spec fn totals_consistent(entry: DetailedOrderModel) -> bool {
    &&& entry.total_amount == sum_of_subtotals(entry.artworks)
    &&& forall|j: int|
        0 <= j < entry.artworks.len() ==> (#[trigger] entry.artworks[j]).total_price_for_artwork
            as int == subtotal(entry.artworks[j].amount, entry.artworks[j].artwork_price_cents)
}

/// Every detailed order that the fold yields has a total equal to the sum of
/// its line subtotals, and each subtotal is quantity times price.
pub proof fn lemma_totals_are_sums(rows: Seq<JoinedRow>)
    ensures
        fold_rows(rows) matches Ok(orders) ==> forall|p: int|
            0 <= p < orders.len() ==> totals_consistent(#[trigger] orders[p]),
    decreases rows.len(),
{
    if rows.len() > 0 {
        lemma_totals_are_sums(rows.drop_last());
        if let Ok(acc) = fold_rows(rows.drop_last()) {
            let row = rows.last();
            let p = position_from(acc, row.id_order@, 0);
            let entry = if p >= 0 { acc[p] } else { new_entry(row) };
            assert(totals_consistent(entry)) by {
                if p < 0 {
                    assert(sum_of_subtotals(entry.artworks) == 0);
                } else {
                    lemma_position_in_range(acc, row.id_order@, 0);
                }
            }
            if let Ok(e) = add_row(entry, row) {
                if let Some(line) = row.line {
                    if let Some(art) = line.artwork {
                        let v = line_view(line, art);
                        assert(e.artworks.drop_last() =~= entry.artworks);
                        assert(-0x8000_0000_0000_0000_0000_0000_0000 <= (line.amount as int)
                            * (art.price_cents as int) <= 0x7fff_ffff_ffff_ffff_ffff_ffff_ffff)
                            by (nonlinear_arith)
                            requires
                                -0x8000_0000 <= line.amount as int <= 0x7fff_ffff,
                                -0x8000_0000_0000_0000 <= art.price_cents as int
                                    <= 0x7fff_ffff_ffff_ffff,
                        ;
                        assert(totals_consistent(e)) by {
                            assert forall|j: int| 0 <= j < e.artworks.len() implies
                                (#[trigger] e.artworks[j]).total_price_for_artwork as int
                                == subtotal(e.artworks[j].amount, e.artworks[j].artwork_price_cents) by {
                                if j < entry.artworks.len() {
                                    assert(e.artworks[j] == entry.artworks[j]);
                                }
                            }
                        }
                    }
                }
                if p >= 0 {
                    lemma_position_in_range(acc, row.id_order@, 0);
                }
            }
        }
    }
}

proof fn lemma_position_in_range(acc: Seq<DetailedOrderModel>, id: Seq<char>, from: int)
    ensures
        position_from(acc, id, from) == -1 || (0 <= from <= position_from(acc, id, from) < acc.len()
            && acc[position_from(acc, id, from)].id_order@ == id),
    decreases acc.len() - from,
{
    if 0 <= from < acc.len() && acc[from].id_order@ != id {
        lemma_position_in_range(acc, id, from + 1);
    }
}

/// An order none of whose rows carries a line item yields a detailed order
/// with no line items and a total of zero.
pub proof fn lemma_order_without_line_items(rows: Seq<JoinedRow>, id: Seq<char>)
    requires
        forall|j: int|
            0 <= j < rows.len() && (#[trigger] rows[j]).id_order@ == id ==> rows[j].line is None,
    ensures
        fold_rows(rows) matches Ok(orders) ==> forall|p: int|
            0 <= p < orders.len() && (#[trigger] orders[p]).id_order@ == id ==> orders[p].artworks.len()
                == 0 && orders[p].total_amount == 0,
    decreases rows.len(),
{
    if rows.len() > 0 {
        let init = rows.drop_last();
        assert forall|j: int| 0 <= j < init.len() && (#[trigger] init[j]).id_order@ == id implies init[j].line is None by {
            assert(init[j] == rows[j]);
        }
        lemma_order_without_line_items(init, id);
        if let Ok(acc) = fold_rows(init) {
            let row = rows.last();
            lemma_position_in_range(acc, row.id_order@, 0);
            assert(rows[rows.len() - 1] == row);
        }
    }
}

/// The fold yields exactly one detailed order per distinct order id of the rows.
pub proof fn lemma_one_entry_per_order(rows: Seq<JoinedRow>)
    ensures
        fold_rows(rows) matches Ok(orders) ==> {
            &&& forall|p: int, q: int|
                0 <= p < q < orders.len() ==> (#[trigger] orders[p]).id_order@ != (#[trigger] orders[q]).id_order@
            &&& forall|j: int|
                0 <= j < rows.len() ==> exists|p: int|
                    0 <= p < orders.len() && (#[trigger] orders[p]).id_order@ == (#[trigger] rows[j]).id_order@
            &&& forall|p: int|
                0 <= p < orders.len() ==> exists|j: int|
                    0 <= j < rows.len() && (#[trigger] orders[p]).id_order@ == (#[trigger] rows[j]).id_order@
        },
    decreases rows.len(),
{
    if rows.len() > 0 {
        let init = rows.drop_last();
        lemma_one_entry_per_order(init);
        if let Ok(acc) = fold_rows(init) {
            let row = rows.last();
            let n = rows.len() - 1;
            assert(rows[n] == row);
            let found_at = position_from(acc, row.id_order@, 0);
            lemma_position_in_range(acc, row.id_order@, 0);
            if let Ok(orders) = fold_rows(rows) {
                if found_at < 0 {
                    lemma_position_absent(acc, row.id_order@, 0);
                }
                assert forall|j: int| 0 <= j < rows.len() implies exists|p: int|
                    0 <= p < orders.len() && (#[trigger] orders[p]).id_order@ == (#[trigger] rows[j]).id_order@ by {
                    if j < n {
                        assert(rows[j] == init[j]);
                        let p = choose|p: int| 0 <= p < acc.len() && (#[trigger] acc[p]).id_order@ == init[j].id_order@;
                        assert(orders[p].id_order@ == rows[j].id_order@);
                    } else if found_at >= 0 {
                        assert(orders[found_at].id_order@ == rows[j].id_order@);
                    } else {
                        assert(orders[acc.len() as int].id_order@ == rows[j].id_order@);
                    }
                }
                assert forall|p: int| 0 <= p < orders.len() implies exists|j: int|
                    0 <= j < rows.len() && (#[trigger] orders[p]).id_order@ == (#[trigger] rows[j]).id_order@ by {
                    if p < acc.len() {
                        let j = choose|j: int| 0 <= j < init.len() && (#[trigger] acc[p]).id_order@ == (#[trigger] init[j]).id_order@;
                        assert(rows[j] == init[j]);
                        assert(orders[p].id_order@ == acc[p].id_order@);
                    } else {
                        assert(orders[p].id_order@ == rows[n].id_order@);
                    }
                }
            }
        }
    }
}

/// Two runs of the fold over the same rows return the same detailed orders,
/// field for field, or the same error.
pub proof fn lemma_aggregation_is_repeatable(
    rows: Seq<JoinedRow>,
    first: Result<Vec<DetailedOrder>, AggregateError>,
    second: Result<Vec<DetailedOrder>, AggregateError>,
)
    requires
        result_view(first) == fold_rows(rows),
        result_view(second) == fold_rows(rows),
    ensures
        result_view(first) == result_view(second),
        first is Ok <==> second is Ok,
{
}

/// Index of the first row of the order `id`; -1 if no row has it.
pub open spec fn first_row_of(rows: Seq<JoinedRow>, id: Seq<char>) -> int
    decreases rows.len(),
{
    if rows.len() == 0 {
        -1
    } else {
        let f = first_row_of(rows.drop_last(), id);
        if f >= 0 {
            f
        } else if rows.last().id_order@ == id {
            rows.len() - 1
        } else {
            -1
        }
    }
}

proof fn lemma_first_row_bounds(rows: Seq<JoinedRow>, id: Seq<char>)
    ensures
        -1 <= first_row_of(rows, id) < rows.len(),
        first_row_of(rows, id) == -1 <==> forall|j: int|
            0 <= j < rows.len() ==> (#[trigger] rows[j]).id_order@ != id,
    decreases rows.len(),
{
    if rows.len() > 0 {
        let init = rows.drop_last();
        lemma_first_row_bounds(init, id);
        if first_row_of(rows, id) == -1 {
            assert forall|j: int| 0 <= j < rows.len() implies (#[trigger] rows[j]).id_order@ != id by {
                if j < init.len() {
                    assert(rows[j] == init[j]);
                }
            }
        } else if first_row_of(init, id) >= 0 {
            let j = choose|j: int| 0 <= j < init.len() && (#[trigger] init[j]).id_order@ == id;
            assert(rows[j] == init[j]);
        } else {
            assert(rows[rows.len() - 1] == rows.last());
        }
    }
}

proof fn lemma_new_order_is_first_seen(init: Seq<JoinedRow>, acc: Seq<DetailedOrderModel>, id: Seq<char>)
    requires
        fold_rows(init) == Ok::<Seq<DetailedOrderModel>, AggregateError>(acc),
        position_from(acc, id, 0) == -1,
    ensures
        first_row_of(init, id) == -1,
{
    lemma_one_entry_per_order(init);
    lemma_position_absent(acc, id, 0);
    lemma_first_row_bounds(init, id);
    assert forall|j: int| 0 <= j < init.len() implies (#[trigger] init[j]).id_order@ != id by {
        let p = choose|p: int| 0 <= p < acc.len() && (#[trigger] acc[p]).id_order@ == (#[trigger] init[j]).id_order@;
        assert(acc[p].id_order@ != id);
    }
}

/// The detailed orders come out in the order in which their ids first appear
/// among the rows.
pub proof fn lemma_orders_in_first_seen_order(rows: Seq<JoinedRow>)
    ensures
        fold_rows(rows) matches Ok(orders) ==> {
            &&& forall|p: int| 0 <= p < orders.len() ==> 0 <= first_row_of(rows, (#[trigger] orders[p]).id_order@)
            &&& forall|p: int, q: int|
                0 <= p < q < orders.len() ==> first_row_of(rows, (#[trigger] orders[p]).id_order@)
                    < first_row_of(rows, (#[trigger] orders[q]).id_order@)
        },
    decreases rows.len(),
{
    if rows.len() > 0 {
        let init = rows.drop_last();
        lemma_orders_in_first_seen_order(init);
        if let Ok(acc) = fold_rows(init) {
            let row = rows.last();
            let n = rows.len() - 1;
            let found_at = position_from(acc, row.id_order@, 0);
            lemma_position_in_range(acc, row.id_order@, 0);
            if let Ok(orders) = fold_rows(rows) {
                assert forall|p: int| 0 <= p < acc.len() implies first_row_of(rows, (#[trigger] acc[p]).id_order@)
                    == first_row_of(init, acc[p].id_order@) && first_row_of(init, acc[p].id_order@) < n by {
                    lemma_first_row_bounds(init, acc[p].id_order@);
                }
                if found_at < 0 {
                    lemma_new_order_is_first_seen(init, acc, row.id_order@);
                    let e = orders[acc.len() as int];
                    assert(orders == acc.push(e));
                    assert(e.id_order@ == row.id_order@);
                    assert(first_row_of(rows, e.id_order@) == n);
                    assert forall|p: int, q: int|
                        0 <= p < q < orders.len() implies first_row_of(rows, (#[trigger] orders[p]).id_order@)
                            < first_row_of(rows, (#[trigger] orders[q]).id_order@) by {
                        assert(orders[p] == acc[p]);
                        if q < acc.len() {
                            assert(orders[q] == acc[q]);
                        }
                    }
                    assert forall|p: int| 0 <= p < orders.len() implies 0 <= first_row_of(rows, (#[trigger] orders[p]).id_order@) by {
                        if p < acc.len() {
                            assert(orders[p] == acc[p]);
                        }
                    }
                } else {
                    assert forall|p: int| 0 <= p < orders.len() implies (#[trigger] orders[p]).id_order@ == acc[p].id_order@ by {}
                }
            }
        }
    }
}

proof fn lemma_position_absent(acc: Seq<DetailedOrderModel>, id: Seq<char>, from: int)
    requires
        0 <= from,
        position_from(acc, id, from) == -1,
    ensures
        forall|p: int| from <= p < acc.len() ==> (#[trigger] acc[p]).id_order@ != id,
    decreases acc.len() - from,
{
    if from < acc.len() {
        lemma_position_absent(acc, id, from + 1);
    }
}

} // verus!
