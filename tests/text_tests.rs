use crud_proj::health::short_version;
use crud_proj::pagination::{Pagination, TemplateResponse};
use crud_proj::statements::{
    create_plan, delete_plan, judge, list_statement, read_failure, update_plan, Next, Outcome, Stmt,
    TxAction, WriteTx, LIST_SQL, SEARCH_SQL,
};
use crud_proj::error::AppError;
use crud_proj::text::{contains, text_le_exec};

#[test]
fn version_keeps_two_words() {
    assert_eq!(
        short_version("PostgreSQL 16.2 on x86_64-pc-linux-gnu, compiled by gcc"),
        "PostgreSQL 16.2"
    );
    assert_eq!(short_version("  PostgreSQL\t\n16.2  "), "PostgreSQL 16.2");
    assert_eq!(short_version("Single"), "Single");
    assert_eq!(short_version("   "), "");
    assert_eq!(short_version(""), "");
    assert_eq!(short_version("a\u{3000}b c"), "a b");
}

#[test]
fn search_pattern_is_lowercased() {
    let p = Pagination { limit: None, offset: None, search: Some("ApPle".to_string()) };
    assert_eq!(p.search_pattern().unwrap(), "%apple%");
    let q = Pagination { limit: Some(3), offset: Some(4), search: None };
    assert_eq!(q.search_pattern(), None);
    assert_eq!(q.page_limit(), 3);
    assert_eq!(q.page_offset(), 4);
}

#[test]
fn paging_defaults() {
    let p = Pagination { limit: None, offset: None, search: None };
    assert_eq!(p.page_limit(), 10);
    assert_eq!(p.page_offset(), 0);
}

#[test]
fn envelope_counts_the_page() {
    let p = Pagination { limit: None, offset: Some(2), search: None };
    let t = TemplateResponse::from_page(vec![1, 2, 3], &p);
    assert_eq!(t.total, 3);
    assert_eq!(t.limit, 10);
    assert_eq!(t.offset, 2);
    assert_eq!(t.items, vec![1, 2, 3]);
}

#[test]
fn list_statement_binds_the_search() {
    let p = Pagination { limit: Some(5), offset: None, search: Some("Ju'ice".to_string()) };
    let s = list_statement(&p);
    assert_eq!(s.sql, SEARCH_SQL);
    assert!(!s.sql.contains("Ju'ice"));
    assert_eq!(s.pattern.as_deref(), Some("%ju'ice%"));
    assert_eq!(s.limit, 5);
    assert_eq!(s.offset, 0);
    let s = list_statement(&Pagination { limit: None, offset: None, search: None });
    assert_eq!(s.sql, LIST_SQL);
    assert_eq!(s.pattern, None);
    assert_eq!(s.limit, 10);
}

#[test]
fn plans_list_their_statements() {
    assert_eq!(create_plan(2), vec![Stmt::InsertProduct, Stmt::LinkCategory(0), Stmt::LinkCategory(1)]);
    assert_eq!(create_plan(0), vec![Stmt::InsertProduct]);
    assert_eq!(update_plan(0), vec![Stmt::CheckExists, Stmt::UpdateProduct]);
    assert_eq!(
        update_plan(1),
        vec![Stmt::CheckExists, Stmt::UpdateProduct, Stmt::UnlinkCategories, Stmt::LinkCategory(0)]
    );
    assert_eq!(delete_plan(), vec![Stmt::UnlinkCategories, Stmt::DeleteProduct]);
    assert_eq!(Stmt::DeleteProduct.sql(), "DELETE FROM products WHERE id = $1");
}

#[test]
fn judge_decides_aborts() {
    assert!(matches!(judge(Stmt::CheckExists, Outcome::Exists(false)), Next::Abort(AppError::NotFound)));
    assert!(matches!(judge(Stmt::CheckExists, Outcome::Exists(true)), Next::Continue));
    assert!(matches!(judge(Stmt::UpdateProduct, Outcome::Rows(0)), Next::Abort(AppError::NotFound)));
    assert!(matches!(judge(Stmt::UpdateProduct, Outcome::Rows(1)), Next::Continue));
    assert!(matches!(judge(Stmt::DeleteProduct, Outcome::Rows(0)), Next::Continue));
    match judge(Stmt::LinkCategory(0), Outcome::Failed("fk".to_string())) {
        Next::Abort(AppError::DatabaseError(d)) => assert_eq!(d, "fk"),
        _ => panic!("a failed statement aborts"),
    }
    assert!(matches!(read_failure(true, "x".to_string()), AppError::NotFound));
    assert!(matches!(read_failure(false, "x".to_string()), AppError::DatabaseError(_)));
}

#[test]
fn substring_and_order() {
    assert!(contains("apple juice", "le ju"));
    assert!(contains("abc", ""));
    assert!(!contains("ab", "abc"));
    assert!(!contains("apple", "pa"));
    assert!(text_le_exec("Apple", "Apple"));
    assert!(text_le_exec("App", "Apple"));
    assert!(!text_le_exec("Apple", "App"));
    assert!(text_le_exec("Apple", "Banana"));
    assert!(!text_le_exec("b", "B"));
}

#[test]
fn transaction_commits_after_every_step() {
    let mut tx = WriteTx::new(create_plan(1));
    assert_eq!(tx.next_action(), TxAction::Run(Stmt::InsertProduct));
    tx.record(Outcome::Rows(1));
    assert_eq!(tx.next_action(), TxAction::Run(Stmt::LinkCategory(0)));
    tx.record(Outcome::Rows(1));
    assert_eq!(tx.next_action(), TxAction::Commit);
    assert!(tx.into_failure().is_none());
}

#[test]
fn transaction_rolls_back_after_a_failure() {
    let mut tx = WriteTx::new(create_plan(2));
    tx.record(Outcome::Rows(1));
    tx.record(Outcome::Failed("violates foreign key constraint".to_string()));
    assert_eq!(tx.next_action(), TxAction::Rollback);
    assert_eq!(tx.next_action(), TxAction::Rollback);
    match tx.into_failure() {
        Some(AppError::DatabaseError(d)) => assert_eq!(d, "violates foreign key constraint"),
        _ => panic!("the failure is kept"),
    }
}

#[test]
fn update_of_missing_product_rolls_back() {
    let mut tx = WriteTx::new(update_plan(1));
    assert_eq!(tx.next_action(), TxAction::Run(Stmt::CheckExists));
    tx.record(Outcome::Exists(false));
    assert_eq!(tx.next_action(), TxAction::Rollback);
    assert!(matches!(tx.into_failure(), Some(AppError::NotFound)));
    let mut tx = WriteTx::new(update_plan(0));
    tx.record(Outcome::Exists(true));
    tx.record(Outcome::Rows(0));
    assert_eq!(tx.next_action(), TxAction::Rollback);
}

#[test]
fn envelope_echoes_a_given_limit() {
    let p = Pagination { limit: Some(4), offset: None, search: None };
    let t = TemplateResponse::from_page(vec!["a"], &p);
    assert_eq!(t.limit, 4);
    assert_eq!(t.offset, 0);
    assert_eq!(t.total, 1);
}

#[test]
fn search_pattern_escapes_wildcards() {
    let p = Pagination { limit: None, offset: None, search: Some("A%b_C\\".to_string()) };
    assert_eq!(p.search_pattern().unwrap(), "%a\\%b\\_c\\\\%");
    assert_eq!(crud_proj::pagination::escape_like("50%_off"), "50\\%\\_off");
    assert_eq!(crud_proj::pagination::escape_like("plain"), "plain");
}
