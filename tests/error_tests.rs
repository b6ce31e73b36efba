use crud_proj::error::AppError;
use crud_proj::service::{found_or_none, removal_outcome};

#[test]
fn store_failure_is_internal_and_hides_detail() {
    let e = AppError::DatabaseError("relation products does not exist".to_string());
    assert_eq!(e.status_code(), 500);
    assert_eq!(e.client_message(), "Internal server error");
    let reply = e.into_reply();
    assert_eq!(reply.status, 500);
    assert_eq!(reply.message, "Internal server error");
}

#[test]
fn not_found_is_404() {
    let reply = AppError::NotFound.into_reply();
    assert_eq!(reply.status, 404);
    assert_eq!(reply.message, "Resource not found");
}

#[test]
fn validation_echoes_its_message() {
    let e = AppError::ValidationError("bad id".to_string());
    assert_eq!(e.describe(), "Invalid input: bad id");
    let reply = e.into_reply();
    assert_eq!(reply.status, 400);
    assert_eq!(reply.message, "bad id");
}

#[test]
fn descriptions() {
    assert_eq!(AppError::NotFound.describe(), "Not found");
    assert_eq!(AppError::DatabaseError("x".to_string()).describe(), "Database error");
}

#[test]
fn missing_lookup_is_empty_answer() {
    assert!(matches!(found_or_none::<u8>(Err(AppError::NotFound)), Ok(None)));
    assert!(matches!(found_or_none(Ok(3u8)), Ok(Some(3))));
    assert!(matches!(found_or_none::<u8>(Err(AppError::DatabaseError("x".to_string()))), Err(AppError::DatabaseError(_))));
}

#[test]
fn deletion_of_nothing_is_not_found() {
    assert!(matches!(removal_outcome(Ok(0)), Err(AppError::NotFound)));
    assert!(matches!(removal_outcome(Ok(1)), Ok(())));
    assert!(matches!(removal_outcome(Err(AppError::NotFound)), Err(AppError::NotFound)));
}
