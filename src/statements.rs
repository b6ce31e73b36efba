//! The statements the relational store runs for each operation, and the
//! decisions taken between them inside a transaction.
//!
//! User input never becomes part of a statement's text: every value reaches
//! the store as a bound parameter.

use vstd::prelude::*;
use crate::error::AppError;
use crate::pagination::{like_pattern, Pagination};
use crate::text::lower_of;

verus! {

/// Every product with the names of its categories, in name order; binds the
/// limit and the offset.
pub const LIST_SQL: &'static str = "SELECT p.*, COALESCE(ARRAY_AGG(c.name) FILTER (WHERE c.name IS NOT NULL), ARRAY[]::TEXT[]) AS categories FROM products p LEFT JOIN product_category pc ON p.id = pc.product_id LEFT JOIN categories c ON pc.category_id = c.id GROUP BY p.id ORDER BY p.name LIMIT $1 OFFSET $2";

/// As `LIST_SQL`, restricted to products whose name or brand matches a
/// pattern, ignoring case; binds the pattern, the limit and the offset.
pub const SEARCH_SQL: &'static str = "SELECT p.*, COALESCE(ARRAY_AGG(c.name) FILTER (WHERE c.name IS NOT NULL), ARRAY[]::TEXT[]) AS categories FROM products p LEFT JOIN product_category pc ON p.id = pc.product_id LEFT JOIN categories c ON pc.category_id = c.id WHERE (p.name ILIKE $1 OR p.brand ILIKE $1) GROUP BY p.id ORDER BY p.name LIMIT $2 OFFSET $3";

/// One product with the names of its categories; binds the identifier.
pub const GET_SQL: &'static str = "SELECT p.*, COALESCE(ARRAY_AGG(c.name) FILTER (WHERE c.name IS NOT NULL), ARRAY[]::TEXT[]) AS categories FROM products p LEFT JOIN product_category pc ON p.id = pc.product_id LEFT JOIN categories c ON pc.category_id = c.id WHERE p.id = $1 GROUP BY p.id";

/// Binds the nineteen fields of a form; returns the stored row.
pub const INSERT_PRODUCT_SQL: &'static str = "INSERT INTO products (name, brand, image_url, serving_size_grams, calories, fat, sugar, sodium, protein, carbs, saturated_fat, cholesterol, vitamin_c, calcium, vitamin_b1, vitamin_a, price, is_upf, is_healthier) VALUES ($1, $2, $3, $4, $5, $6, $7, $8, $9, $10, $11, $12, $13, $14, $15, $16, $17, $18, $19) RETURNING *";

/// Binds the identifier, then the nineteen fields of a form.
pub const UPDATE_PRODUCT_SQL: &'static str = "UPDATE products SET name = $2, brand = $3, image_url = $4, serving_size_grams = $5, calories = $6, fat = $7, sugar = $8, sodium = $9, protein = $10, carbs = $11, saturated_fat = $12, cholesterol = $13, vitamin_c = $14, calcium = $15, vitamin_b1 = $16, vitamin_a = $17, price = $18, is_upf = $19, is_healthier = $20 WHERE id = $1";

/// Binds the identifier; returns whether the product is stored.
pub const EXISTS_SQL: &'static str = "SELECT EXISTS(SELECT 1 FROM products WHERE id = $1)";

/// Binds the product and the category identifiers.
pub const LINK_SQL: &'static str = "INSERT INTO product_category (product_id, category_id) VALUES ($1, $2)";

/// Binds the product identifier.
pub const UNLINK_SQL: &'static str = "DELETE FROM product_category WHERE product_id = $1";

/// Binds the product identifier.
pub const DELETE_PRODUCT_SQL: &'static str = "DELETE FROM products WHERE id = $1";

/// The listing statement and what is bound to it, in order: the search
/// pattern (if any), the limit, the offset.
pub struct ListStatement {
    pub sql: &'static str,
    pub pattern: Option<String>,
    pub limit: i64,
    pub offset: i64,
}

/// The statement that lists a page of products.
pub fn list_statement(p: &Pagination) -> (r: ListStatement)
    ensures
        p.search is Some ==> r.sql@ == SEARCH_SQL@,
        p.search is None ==> r.sql@ == LIST_SQL@,
        r.pattern is Some <==> p.search is Some,
        r.pattern matches Some(q) ==> q@ == like_pattern(lower_of(p.search->0@)),
        r.limit == p.limit_value(),
        r.offset == p.offset_value(),
{
    let pattern = p.search_pattern();
    let sql = if pattern.is_some() { SEARCH_SQL } else { LIST_SQL };
    ListStatement { sql, pattern, limit: p.page_limit(), offset: p.page_offset() }
}

/// One statement of a write transaction.
#[derive(Debug, Clone, Copy, PartialEq, Eq, Structural)]
pub enum Stmt {
    /// Whether the product is stored.
    CheckExists,
    InsertProduct,
    UpdateProduct,
    /// Removes every link of the product.
    UnlinkCategories,
    /// Links the product to the category at this position of the form's list.
    LinkCategory(usize),
    DeleteProduct,
}

impl Stmt {
    pub open spec fn text(&self) -> Seq<char> {
        match self {
            Stmt::CheckExists => EXISTS_SQL@,
            Stmt::InsertProduct => INSERT_PRODUCT_SQL@,
            Stmt::UpdateProduct => UPDATE_PRODUCT_SQL@,
            Stmt::UnlinkCategories => UNLINK_SQL@,
            Stmt::LinkCategory(_) => LINK_SQL@,
            Stmt::DeleteProduct => DELETE_PRODUCT_SQL@,
        }
    }

    /// The text of the statement.
    pub fn sql(&self) -> (r: &'static str)
        ensures
            r@ == self.text(),
    {
        match self {
            Stmt::CheckExists => EXISTS_SQL,
            Stmt::InsertProduct => INSERT_PRODUCT_SQL,
            Stmt::UpdateProduct => UPDATE_PRODUCT_SQL,
            Stmt::UnlinkCategories => UNLINK_SQL,
            Stmt::LinkCategory(_) => LINK_SQL,
            Stmt::DeleteProduct => DELETE_PRODUCT_SQL,
        }
    }
}

/// What the store answered to a statement.
#[derive(Debug)]
pub enum Outcome {
    /// The statement ran and touched this many rows.
    Rows(u64),
    /// The existence check answered.
    Exists(bool),
    /// The statement failed; the store's message.
    Failed(String),
}

/// What follows a statement.
#[derive(Debug)]
pub enum Next {
    Continue,
    /// Roll the transaction back and answer with this failure.
    Abort(AppError),
}

/// `LinkCategory(0)`, ..., `LinkCategory(n - 1)`.
pub open spec fn link_steps(n: nat) -> Seq<Stmt>
    decreases n,
{
    if n == 0 {
        Seq::empty()
    } else {
        link_steps((n - 1) as nat).push(Stmt::LinkCategory((n - 1) as usize))
    }
}

/// Creating a product: store it, then link each category.
pub open spec fn create_steps(n: nat) -> Seq<Stmt> {
    seq![Stmt::InsertProduct] + link_steps(n)
}

/// Updating a product: check that it is stored, update it, then, for a
/// non-empty list of categories, replace its links.
pub open spec fn update_steps(n: nat) -> Seq<Stmt> {
    if n == 0 {
        seq![Stmt::CheckExists, Stmt::UpdateProduct]
    } else {
        seq![Stmt::CheckExists, Stmt::UpdateProduct, Stmt::UnlinkCategories] + link_steps(n)
    }
}

/// Deleting a product: its links first, then the product.
pub open spec fn delete_steps() -> Seq<Stmt> {
    seq![Stmt::UnlinkCategories, Stmt::DeleteProduct]
}

fn push_links(steps: &mut Vec<Stmt>, n: usize)
    ensures
        final(steps)@ == old(steps)@ + link_steps(n as nat),
{
    let ghost start = steps@;
    let mut k: usize = 0;
    while k < n
        invariant
            k <= n,
            steps@ == start + link_steps(k as nat),
        decreases n - k,
    {
        steps.push(Stmt::LinkCategory(k));
        assert(link_steps((k + 1) as nat) == link_steps(k as nat).push(Stmt::LinkCategory(k)));
        assert(steps@ =~= start + link_steps((k + 1) as nat));
        k = k + 1;
    }
}

/// The statements that create a product linked to `n` categories.
pub fn create_plan(n: usize) -> (r: Vec<Stmt>)
    ensures
        r@ == create_steps(n as nat),
{
    let mut steps: Vec<Stmt> = Vec::new();
    steps.push(Stmt::InsertProduct);
    push_links(&mut steps, n);
    assert(steps@ =~= create_steps(n as nat));
    steps
}

/// The statements that update a product with a form naming `n` categories.
pub fn update_plan(n: usize) -> (r: Vec<Stmt>)
    ensures
        r@ == update_steps(n as nat),
{
    let mut steps: Vec<Stmt> = Vec::new();
    steps.push(Stmt::CheckExists);
    steps.push(Stmt::UpdateProduct);
    if n > 0 {
        steps.push(Stmt::UnlinkCategories);
        push_links(&mut steps, n);
    }
    assert(steps@ =~= update_steps(n as nat));
    steps
}

/// The statements that delete a product.
pub fn delete_plan() -> (r: Vec<Stmt>)
    ensures
        r@ == delete_steps(),
{
    let mut steps: Vec<Stmt> = Vec::new();
    steps.push(Stmt::UnlinkCategories);
    steps.push(Stmt::DeleteProduct);
    assert(steps@ =~= delete_steps());
    steps
}

/// The failure a statement's outcome aborts the transaction with, if any.
pub open spec fn abort_of(stmt: Stmt, outcome: Outcome) -> Option<AppError> {
    match outcome {
        Outcome::Failed(m) => Some(AppError::DatabaseError(m)),
        Outcome::Exists(false) => if stmt == Stmt::CheckExists {
            Some(AppError::NotFound)
        } else {
            None
        },
        Outcome::Rows(n) => if n == 0 && stmt == Stmt::UpdateProduct {
            Some(AppError::NotFound)
        } else {
            None
        },
        _ => None,
    }
}

/// What the outcome of a statement decides: a failed statement aborts the
/// transaction with a store failure; a missing product, found by the
/// existence check or by an update that touched no row, aborts it as not
/// found; anything else lets it go on.
pub fn judge(stmt: Stmt, outcome: Outcome) -> (r: Next)
    ensures
        match abort_of(stmt, outcome) {
            Some(e) => r == Next::Abort(e),
            None => r is Continue,
        },
{
    match outcome {
        Outcome::Failed(m) => Next::Abort(AppError::DatabaseError(m)),
        Outcome::Exists(false) => if stmt == Stmt::CheckExists {
            Next::Abort(AppError::NotFound)
        } else {
            Next::Continue
        },
        Outcome::Rows(0) => if stmt == Stmt::UpdateProduct {
            Next::Abort(AppError::NotFound)
        } else {
            Next::Continue
        },
        _ => Next::Continue,
    }
}

/// What a transaction does next.
#[derive(Debug, Clone, Copy, PartialEq, Eq, Structural)]
pub enum TxAction {
    /// Run this statement and record its outcome.
    Run(Stmt),
    /// Every statement went through: commit.
    Commit,
    /// A statement aborted the transaction: roll it back.
    Rollback,
}

/// A write transaction in progress: its plan, how many statements went
/// through, and the failure that aborted it, if one did. Statements run in
/// the plan's order; the transaction commits only when all of them went
/// through, and after a failure nothing runs but the rollback.
pub struct WriteTx {
    plan: Vec<Stmt>,
    done: usize,
    failure: Option<AppError>,
}

impl WriteTx {
    pub closed spec fn steps(&self) -> Seq<Stmt> {
        self.plan@
    }

    /// How many statements went through.
    pub closed spec fn passed(&self) -> nat {
        self.done as nat
    }

    pub closed spec fn failure_of(&self) -> Option<AppError> {
        self.failure
    }

    pub closed spec fn wf(&self) -> bool {
        self.done <= self.plan@.len()
    }

    /// A transaction about to run `plan`.
    pub fn new(plan: Vec<Stmt>) -> (r: WriteTx)
        ensures
            r.wf(),
            r.steps() == plan@,
            r.passed() == 0,
            r.failure_of() is None,
    {
        WriteTx { plan, done: 0, failure: None }
    }

    /// The next step: the first statement that has not run, a commit once
    /// all went through, a rollback once one failed.
    pub fn next_action(&self) -> (a: TxAction)
        requires
            self.wf(),
        ensures
            self.failure_of() is Some ==> a == TxAction::Rollback,
            self.failure_of() is None && self.passed() < self.steps().len() ==> a == TxAction::Run(
                self.steps()[self.passed() as int],
            ),
            self.failure_of() is None && self.passed() == self.steps().len() ==> a == TxAction::Commit,
    {
        if self.failure.is_some() {
            TxAction::Rollback
        } else if self.done < self.plan.len() {
            TxAction::Run(self.plan[self.done])
        } else {
            TxAction::Commit
        }
    }

    /// Records what the store answered to the statement that just ran.
    pub fn record(&mut self, outcome: Outcome)
        requires
            old(self).wf(),
            old(self).failure_of() is None,
            old(self).passed() < old(self).steps().len(),
        ensures
            final(self).wf(),
            final(self).steps() == old(self).steps(),
            final(self).failure_of() == abort_of(old(self).steps()[old(self).passed() as int], outcome),
            final(self).failure_of() is None ==> final(self).passed() == old(self).passed() + 1,
            final(self).failure_of() is Some ==> final(self).passed() == old(self).passed(),
    {
        let n = self.plan.len();
        assert(self.done < n);
        let stmt = self.plan[self.done];
        match judge(stmt, outcome) {
            Next::Continue => {
                self.done = self.done + 1;
            },
            Next::Abort(e) => {
                self.failure = Some(e);
            },
        }
    }

    /// The failure that aborted the transaction; what it is answered with.
    pub fn into_failure(self) -> (r: Option<AppError>)
        ensures
            r == self.failure_of(),
    {
        self.failure
    }
}

/// How a failed read of one product is reported: a missing row is not
/// found, anything else is a store failure.
pub fn read_failure(row_missing: bool, detail: String) -> (r: AppError)
    ensures
        row_missing ==> r is NotFound,
        !row_missing ==> (r matches AppError::DatabaseError(d) && d@ == detail@),
{
    if row_missing {
        AppError::NotFound
    } else {
        AppError::DatabaseError(detail)
    }
}

} // verus!
