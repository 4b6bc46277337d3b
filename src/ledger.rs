//! The SQL through which the ledger table is kept: one row per applied
//! migration, keyed by its identifier.
use vstd::prelude::*;

verus! {

/// The namespace used where none is configured.
pub const DEFAULT_SCHEMA: &'static str = "public";

/// Creates the ledger table where it is missing.
pub const CREATE_LEDGER_SQL: &'static str = "CREATE TABLE IF NOT EXISTS migrations (
            name TEXT PRIMARY KEY,
            applied_at TIMESTAMPTZ NOT NULL DEFAULT now()
        )";

/// The applied names, by name.
pub const APPLIED_BY_NAME_SQL: &'static str = "SELECT name FROM migrations ORDER BY name";

/// The applied names, most recently applied first.
pub const APPLIED_NEWEST_FIRST_SQL: &'static str = "SELECT name FROM migrations ORDER BY applied_at DESC";

/// Whether a name is applied; one parameter, the name.
pub const IS_APPLIED_SQL: &'static str = "SELECT 1 FROM migrations WHERE name = $1";

/// Records a name as applied; one parameter, the name.
pub const RECORD_APPLIED_SQL: &'static str = "INSERT INTO migrations (name) VALUES ($1)";

/// Removes a name from the ledger; one parameter, the name.
pub const RECORD_REVERTED_SQL: &'static str = "DELETE FROM migrations WHERE name = $1";

/// The configured namespace, or the default one.
pub fn schema_or_default(configured: Option<String>) -> (r: String)
    ensures
        configured matches Some(s) ==> r@ == s@,
        configured is None ==> r@ == DEFAULT_SCHEMA@,
{
    match configured {
        Some(s) => s,
        None => DEFAULT_SCHEMA.to_owned(),
    }
}

/// The statements that make the ledger ready, in order: create the namespace,
/// make it the search path, create the ledger table.
pub fn ensure_ready_statements(schema: &str) -> (r: Vec<String>)
    ensures
        r@.len() == 3,
        r@[0]@ == "CREATE SCHEMA IF NOT EXISTS "@ + schema@,
        r@[1]@ == "SET search_path TO "@ + schema@,
        r@[2]@ == CREATE_LEDGER_SQL@,
{
    let mut r: Vec<String> = Vec::new();
    let mut create = String::from_str("CREATE SCHEMA IF NOT EXISTS ");
    create.append(schema);
    r.push(create);
    let mut path = String::from_str("SET search_path TO ");
    path.append(schema);
    r.push(path);
    r.push(CREATE_LEDGER_SQL.to_owned());
    r
}

} // verus!
