use vstd::prelude::*;

use crate::aggregate::AggregateError;

verus! {

/// Why a repository operation failed.
#[derive(Debug)]
pub enum RepoError {
    /// No row carries the requested identifier.
    NotFound,
    /// The store failed to run a statement; its message.
    Store(String),
    /// Joined rows broke an invariant that the schema promises.
    DataIntegrity(AggregateError),
}

/// The tables of the gallery.
#[derive(Debug, Clone, Copy, PartialEq, Eq, Structural)]
pub enum Table {
    Artists,
    Customers,
    Artworks,
    Orders,
    ArtworksInOrder,
}

/// An operation on one row, named by its identifier.
#[derive(Debug, Clone, Copy, PartialEq, Eq, Structural)]
pub enum Operation {
    Read,
    Create,
    Update,
    Delete,
}

/// A statement that the store runs for an operation, on the row or rows of one identifier.
#[derive(Debug, Clone, Copy, PartialEq, Eq, Structural)]
pub enum Statement {
    /// Look the identifier up.
    SelectById,
    /// Insert a row under the identifier.
    Insert,
    /// Replace every non-key field of the row.
    UpdateById,
    /// Delete the line items that refer to the identifier.
    DeleteLineItems,
    /// Delete the row.
    DeleteById,
}

/// The store's answer to a statement.
#[derive(Debug)]
pub enum StoreReply {
    /// The number of rows found (for a lookup) or written.
    Rows(u64),
    /// The statement failed with this message.
    Failed(String),
}

/// Deleting a row of this table first deletes the line items that refer to it.
pub open spec fn deletes_line_items(table: Table) -> bool {
    table == Table::Artworks || table == Table::Orders
}

/// The statement that an operation starts with.
pub open spec fn spec_first_statement(table: Table, op: Operation) -> Statement {
    match op {
        Operation::Read => Statement::SelectById,
        Operation::Create => Statement::Insert,
        Operation::Update => Statement::SelectById,
        Operation::Delete => if deletes_line_items(table) {
            Statement::DeleteLineItems
        } else {
            Statement::DeleteById
        },
    }
}

/// What follows the answer `reply` to the statement `ran`: the next statement
/// to run, or the outcome of the operation.
pub open spec fn spec_advance(op: Operation, ran: Statement, reply: StoreReply) -> (
    Option<Statement>,
    Option<Result<(), RepoError>>,
) {
    match reply {
        StoreReply::Failed(msg) => (None, Some(Err(RepoError::Store(msg)))),
        StoreReply::Rows(n) => match op {
            Operation::Create => (None, Some(Ok(()))),
            Operation::Update if ran == Statement::SelectById => if n > 0 {
                (Some(Statement::UpdateById), None)
            } else {
                (None, Some(Err(RepoError::NotFound)))
            },
            Operation::Delete if ran == Statement::DeleteLineItems => (
                Some(Statement::DeleteById),
                None,
            ),
            _ => if n > 0 {
                (None, Some(Ok(())))
            } else {
                (None, Some(Err(RepoError::NotFound)))
            },
        },
    }
}

/// One operation in progress: the store runs `pending`, and its answer is
/// handed back to `advance`.
#[derive(Debug)]
pub struct Session {
    pub table: Table,
    pub op: Operation,
    pub pending: Option<Statement>,
}

impl Session {
    /// Starts an operation on a row of `table`.
    pub fn start(table: Table, op: Operation) -> (r: Session)
        ensures
            r.table == table,
            r.op == op,
            r.pending == Some(spec_first_statement(table, op)),
    {
        let first = match op {
            Operation::Read => Statement::SelectById,
            Operation::Create => Statement::Insert,
            Operation::Update => Statement::SelectById,
            Operation::Delete => match table {
                Table::Artworks | Table::Orders => Statement::DeleteLineItems,
                _ => Statement::DeleteById,
            },
        };
        Session { table, op, pending: Some(first) }
    }

    /// Takes the store's answer to the pending statement. Returns the outcome
    /// once the operation is over; until then `pending` names the next statement.
    pub fn advance(&mut self, reply: StoreReply) -> (r: Option<Result<(), RepoError>>)
        requires
            old(self).pending is Some,
        ensures
            final(self).table == old(self).table,
            final(self).op == old(self).op,
            (final(self).pending, r) == spec_advance(old(self).op, old(self).pending->0, reply),
    {
        let ran = match self.pending {
            Some(s) => s,
            None => Statement::SelectById,
        };
        let (next, outcome) = match reply {
            StoreReply::Failed(msg) => (None, Some(Err(RepoError::Store(msg)))),
            StoreReply::Rows(n) => match self.op {
                Operation::Create => (None, Some(Ok(()))),
                Operation::Update if ran == Statement::SelectById => if n > 0 {
                    (Some(Statement::UpdateById), None)
                } else {
                    (None, Some(Err(RepoError::NotFound)))
                },
                Operation::Delete if ran == Statement::DeleteLineItems => (
                    Some(Statement::DeleteById),
                    None,
                ),
                _ => if n > 0 {
                    (None, Some(Ok(())))
                } else {
                    (None, Some(Err(RepoError::NotFound)))
                },
            },
        };
        self.pending = next;
        outcome
    }
}

/// The HTTP status that answers an operation's outcome: 201 for a created row,
/// 200 for another success, 404 for a missing row, 500 for any other failure.
pub fn http_status(op: Operation, outcome: &Result<(), RepoError>) -> (r: u16)
    ensures
        r == match outcome {
            Ok(()) => if op == Operation::Create {
                201u16
            } else {
                200u16
            },
            Err(RepoError::NotFound) => 404u16,
            Err(_) => 500u16,
        },
{
    match outcome {
        Ok(()) => if op == Operation::Create {
            201
        } else {
            200
        },
        Err(RepoError::NotFound) => 404,
        Err(_) => 500,
    }
}

/// What the tables hold: the identifiers of each table's rows, and for each
/// line item the identifiers of its order and of its artwork.
pub struct StoreModel {
    pub artists: Set<Seq<char>>,
    pub customers: Set<Seq<char>>,
    pub artworks: Set<Seq<char>>,
    pub orders: Set<Seq<char>>,
    pub line_items: Map<Seq<char>, (Seq<char>, Seq<char>)>,
}

/// The identifiers of the rows of `table`.
pub open spec fn ids(db: StoreModel, table: Table) -> Set<Seq<char>> {
    match table {
        Table::Artists => db.artists,
        Table::Customers => db.customers,
        Table::Artworks => db.artworks,
        Table::Orders => db.orders,
        Table::ArtworksInOrder => db.line_items.dom(),
    }
}

/// The tables with the row `id` of `table` removed.
pub open spec fn without_row(db: StoreModel, table: Table, id: Seq<char>) -> StoreModel {
    match table {
        Table::Artists => StoreModel { artists: db.artists.remove(id), ..db },
        Table::Customers => StoreModel { customers: db.customers.remove(id), ..db },
        Table::Artworks => StoreModel { artworks: db.artworks.remove(id), ..db },
        Table::Orders => StoreModel { orders: db.orders.remove(id), ..db },
        Table::ArtworksInOrder => StoreModel { line_items: db.line_items.remove(id), ..db },
    }
}

/// The tables with a row `id` added to `table`; a new line item's references
/// are those given in `refs`.
pub open spec fn with_row(
    db: StoreModel,
    table: Table,
    id: Seq<char>,
    refs: (Seq<char>, Seq<char>),
) -> StoreModel {
    match table {
        Table::Artists => StoreModel { artists: db.artists.insert(id), ..db },
        Table::Customers => StoreModel { customers: db.customers.insert(id), ..db },
        Table::Artworks => StoreModel { artworks: db.artworks.insert(id), ..db },
        Table::Orders => StoreModel { orders: db.orders.insert(id), ..db },
        Table::ArtworksInOrder => StoreModel { line_items: db.line_items.insert(id, refs), ..db },
    }
}

/// The line item `li` refers to the row `id` of `table`.
pub open spec fn refers_to(li: (Seq<char>, Seq<char>), table: Table, id: Seq<char>) -> bool {
    (table == Table::Orders && li.0 == id) || (table == Table::Artworks && li.1 == id)
}

/// The tables with every line item that refers to the row `id` of `table` removed.
pub open spec fn without_line_items_of(db: StoreModel, table: Table, id: Seq<char>) -> StoreModel {
    StoreModel {
        line_items: db.line_items.restrict(
            db.line_items.dom().filter(|k: Seq<char>| !refers_to(db.line_items[k], table, id)),
        ),
        ..db
    }
}

/// How a store that runs every statement without failure answers `st` on the
/// identifier `id`, and what its tables hold afterwards. An insert is taken
/// only for an identifier that is not present; `removed` is the count that
/// deleting line items reports.
pub open spec fn run_statement(
    db: StoreModel,
    table: Table,
    st: Statement,
    id: Seq<char>,
    refs: (Seq<char>, Seq<char>),
    removed: u64,
) -> (StoreModel, u64) {
    let present: u64 = if ids(db, table).contains(id) {
        1
    } else {
        0
    };
    match st {
        Statement::SelectById => (db, present),
        Statement::UpdateById => (db, present),
        Statement::Insert => (with_row(db, table, id, refs), 1),
        Statement::DeleteById => (without_row(db, table, id), present),
        Statement::DeleteLineItems => (without_line_items_of(db, table, id), removed),
    }
}

/// The tables and the outcome after a session on `id` that has `pending` to
/// run next, run against a store that does not fail, within `steps` more
/// statements after this one.
pub open spec fn drive(
    db: StoreModel,
    table: Table,
    op: Operation,
    pending: Statement,
    id: Seq<char>,
    refs: (Seq<char>, Seq<char>),
    removed: u64,
    steps: nat,
) -> (StoreModel, Option<Result<(), RepoError>>)
    decreases steps,
{
    let (db2, n) = run_statement(db, table, pending, id, refs, removed);
    let (next, outcome) = spec_advance(op, pending, StoreReply::Rows(n));
    match outcome {
        Some(res) => (db2, Some(res)),
        None => if steps == 0 || next is None {
            (db2, None)
        } else {
            drive(db2, table, op, next->0, id, refs, removed, (steps - 1) as nat)
        },
    }
}

/// The tables and the outcome after a whole operation on the row `id`; no
/// operation runs more than two statements.
pub open spec fn perform(
    db: StoreModel,
    table: Table,
    op: Operation,
    id: Seq<char>,
    refs: (Seq<char>, Seq<char>),
    removed: u64,
) -> (StoreModel, Option<Result<(), RepoError>>) {
    drive(db, table, op, spec_first_statement(table, op), id, refs, removed, 1)
}

/// A row created under an identifier that its table does not hold yet can be
/// read back at once.
pub proof fn lemma_created_row_is_readable(
    db: StoreModel,
    table: Table,
    id: Seq<char>,
    refs: (Seq<char>, Seq<char>),
    removed: u64,
)
    requires
        !ids(db, table).contains(id),
    ensures
        perform(db, table, Operation::Create, id, refs, removed).1 == Some(
            Ok::<(), RepoError>(()),
        ),
        perform(
            perform(db, table, Operation::Create, id, refs, removed).0,
            table,
            Operation::Read,
            id,
            refs,
            removed,
        ).1 == Some(Ok::<(), RepoError>(())),
{
    let db2 = perform(db, table, Operation::Create, id, refs, removed).0;
    assert(db2 == with_row(db, table, id, refs));
    assert(ids(db2, table).contains(id));
}

/// Updating an identifier that the table does not hold ends in `NotFound`.
pub proof fn lemma_update_of_absent_row_is_not_found(
    db: StoreModel,
    table: Table,
    id: Seq<char>,
    refs: (Seq<char>, Seq<char>),
    removed: u64,
)
    requires
        !ids(db, table).contains(id),
    ensures
        perform(db, table, Operation::Update, id, refs, removed).1 == Some(
            Err::<(), RepoError>(RepoError::NotFound),
        ),
{
    reveal_with_fuel(drive, 2);
}

/// After a row is deleted, reading, updating or deleting it again ends in `NotFound`.
pub proof fn lemma_deleted_row_is_not_found(
    db: StoreModel,
    table: Table,
    id: Seq<char>,
    refs: (Seq<char>, Seq<char>),
    removed: u64,
    later: Operation,
)
    requires
        later != Operation::Create,
    ensures
        perform(
            perform(db, table, Operation::Delete, id, refs, removed).0,
            table,
            later,
            id,
            refs,
            removed,
        ).1 == Some(Err::<(), RepoError>(RepoError::NotFound)),
{
    reveal_with_fuel(drive, 2);
    let db2 = perform(db, table, Operation::Delete, id, refs, removed).0;
    if deletes_line_items(table) {
        let mid = without_line_items_of(db, table, id);
        assert(ids(mid, table) == ids(db, table));
        assert(db2 == without_row(mid, table, id));
    } else {
        assert(db2 == without_row(db, table, id));
    }
    assert(!ids(db2, table).contains(id));
    if later == Operation::Delete && deletes_line_items(table) {
        let mid2 = without_line_items_of(db2, table, id);
        assert(ids(mid2, table) == ids(db2, table));
    }
}

/// Deleting an artwork or an order leaves no line item that refers to it,
/// and removes the row itself.
pub proof fn lemma_delete_removes_line_items(
    db: StoreModel,
    table: Table,
    id: Seq<char>,
    refs: (Seq<char>, Seq<char>),
    removed: u64,
)
    requires
        table == Table::Artworks || table == Table::Orders,
    ensures
        spec_first_statement(table, Operation::Delete) == Statement::DeleteLineItems,
        ({
            let after = perform(db, table, Operation::Delete, id, refs, removed).0;
            &&& !ids(after, table).contains(id)
            &&& forall|k: Seq<char>|
                #[trigger] after.line_items.contains_key(k) ==> !refers_to(
                    after.line_items[k],
                    table,
                    id,
                )
        }),
{
    reveal_with_fuel(drive, 2);
    let mid = without_line_items_of(db, table, id);
    let after = perform(db, table, Operation::Delete, id, refs, removed).0;
    assert(after == without_row(mid, table, id));
    assert forall|k: Seq<char>| #[trigger] after.line_items.contains_key(k) implies !refers_to(
        after.line_items[k],
        table,
        id,
    ) by {
        assert(mid.line_items.contains_key(k));
        assert(db.line_items.dom().filter(
            |k: Seq<char>| !refers_to(db.line_items[k], table, id),
        ).contains(k));
    }
}

} // verus!
