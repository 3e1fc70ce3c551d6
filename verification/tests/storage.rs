use kronox::storage::{is_foreign_key_violation, is_unique_violation, sql_state, DbError};

fn database(code: Option<&str>) -> DbError {
    DbError::Database {
        code: code.map(str::to_owned),
    }
}

#[test]
fn reads_the_sqlstate_of_database_errors() {
    assert_eq!(sql_state(&database(Some("23505"))).as_deref(), Some("23505"));
    assert_eq!(sql_state(&database(None)), None);
    assert_eq!(sql_state(&DbError::Other), None);
}

#[test]
fn tells_constraint_violations_apart() {
    assert!(is_unique_violation(&database(Some("23505"))));
    assert!(!is_unique_violation(&database(Some("23503"))));
    assert!(is_foreign_key_violation(&database(Some("23503"))));
    assert!(!is_foreign_key_violation(&database(Some("23505"))));
    assert!(!is_unique_violation(&DbError::Other));
    assert!(!is_foreign_key_violation(&database(None)));
}
