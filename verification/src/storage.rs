//! What the cache database's errors say: the SQLSTATE codes of the failures
//! that the caller may want to tell apart.
use vstd::prelude::*;

verus! {

/// SQLSTATE of a unique-constraint violation.
pub const UNIQUE_VIOLATION: &'static str = "23505";

/// SQLSTATE of a foreign-key violation.
pub const FOREIGN_KEY_VIOLATION: &'static str = "23503";

/// A failure of the cache database, as far as the library reads it: an
/// error the database itself returned, with its SQLSTATE code where it gave
/// one, or any other failure (connection, pool, decoding).
#[derive(Debug)]
pub enum DbError {
    Database { code: Option<String> },
    Other,
}

/// The SQLSTATE code of an error the database returned.
pub open spec fn spec_sql_state(error: DbError) -> Option<Seq<char>> {
    match error {
        DbError::Database { code: Some(c) } => Some(c@),
        _ => None,
    }
}

/// The SQLSTATE code of the error, where the database returned one.
pub fn sql_state(error: &DbError) -> (r: Option<String>)
    ensures
        match r {
            Some(s) => spec_sql_state(*error) == Some(s@),
            None => spec_sql_state(*error) is None,
        },
{
    match error {
        DbError::Database { code: Some(c) } => Some(c.clone()),
        _ => None,
    }
}

/// Whether the database refused a row because it broke a unique constraint.
pub fn is_unique_violation(error: &DbError) -> (r: bool)
    ensures
        r == (spec_sql_state(*error) == Some(UNIQUE_VIOLATION@)),
{
    match sql_state(error) {
        Some(s) => crate::text::str_eq(s.as_str(), UNIQUE_VIOLATION),
        None => false,
    }
}

/// Whether the database refused a row because it broke a foreign key.
pub fn is_foreign_key_violation(error: &DbError) -> (r: bool)
    ensures
        r == (spec_sql_state(*error) == Some(FOREIGN_KEY_VIOLATION@)),
{
    match sql_state(error) {
        Some(s) => crate::text::str_eq(s.as_str(), FOREIGN_KEY_VIOLATION),
        None => false,
    }
}

} // verus!
