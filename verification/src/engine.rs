//! The database engines and the errors that operations on them report.
use vstd::prelude::*;

use crate::dialect::Dialect;

verus! {

/// A database engine, or a hosted provider of one.
#[derive(Clone, Copy, PartialEq, Eq, Structural, Hash, Debug)]
pub enum Engine {
    Postgres,
    Supabase,
    Neon,
    MySql,
    PlanetScale,
    Sqlite,
    Mssql,
    Azure,
    Firestore,
    Convex,
    Cosmos,
}

impl Engine {
    /// The base engine behind a hosted provider; every other engine is its own
    /// family.
    pub open spec fn family_of(self) -> Engine {
        match self {
            Engine::Supabase | Engine::Neon => Engine::Postgres,
            Engine::PlanetScale => Engine::MySql,
            Engine::Azure => Engine::Mssql,
            other => other,
        }
    }

    pub fn family(self) -> (r: Engine)
        ensures
            r == self.family_of(),
    {
        match self {
            Engine::Supabase | Engine::Neon => Engine::Postgres,
            Engine::PlanetScale => Engine::MySql,
            Engine::Azure => Engine::Mssql,
            other => other,
        }
    }

    /// The name of the engine in messages.
    pub open spec fn name(self) -> Seq<char> {
        match self {
            Engine::Postgres => "postgres"@,
            Engine::Supabase => "supabase"@,
            Engine::Neon => "neon"@,
            Engine::MySql => "mysql"@,
            Engine::PlanetScale => "planetscale"@,
            Engine::Sqlite => "sqlite"@,
            Engine::Mssql => "mssql"@,
            Engine::Azure => "azure"@,
            Engine::Firestore => "firestore"@,
            Engine::Convex => "convex"@,
            Engine::Cosmos => "cosmos"@,
        }
    }

    pub fn as_str(self) -> (r: &'static str)
        ensures
            r@ == self.name(),
    {
        match self {
            Engine::Postgres => "postgres",
            Engine::Supabase => "supabase",
            Engine::Neon => "neon",
            Engine::MySql => "mysql",
            Engine::PlanetScale => "planetscale",
            Engine::Sqlite => "sqlite",
            Engine::Mssql => "mssql",
            Engine::Azure => "azure",
            Engine::Firestore => "firestore",
            Engine::Convex => "convex",
            Engine::Cosmos => "cosmos",
        }
    }

    /// The SQL dialect of a relational engine.
    pub open spec fn dialect_of(self) -> Option<Dialect> {
        match self.family_of() {
            Engine::Postgres => Some(Dialect::Postgres),
            Engine::MySql => Some(Dialect::MySql),
            Engine::Sqlite => Some(Dialect::Sqlite),
            Engine::Mssql => Some(Dialect::Mssql),
            _ => None,
        }
    }

    pub fn dialect(self) -> (r: Option<Dialect>)
        ensures
            r == self.dialect_of(),
    {
        match self.family() {
            Engine::Postgres => Some(Dialect::Postgres),
            Engine::MySql => Some(Dialect::MySql),
            Engine::Sqlite => Some(Dialect::Sqlite),
            Engine::Mssql => Some(Dialect::Mssql),
            _ => None,
        }
    }
}

/// An error of an operation on a connection, with the message for the user.
#[derive(Clone, PartialEq, Eq, Debug)]
pub enum CellarError {
    InvalidConfig(String),
    NotConnected(String),
    Query(String),
    Introspection(String),
    Internal(String),
}

/// The model of [`CellarError`].
pub enum ErrorView {
    InvalidConfig(Seq<char>),
    NotConnected(Seq<char>),
    Query(Seq<char>),
    Introspection(Seq<char>),
    Internal(Seq<char>),
}

impl View for CellarError {
    type V = ErrorView;

    open spec fn view(&self) -> ErrorView {
        match self {
            CellarError::InvalidConfig(m) => ErrorView::InvalidConfig(m@),
            CellarError::NotConnected(m) => ErrorView::NotConnected(m@),
            CellarError::Query(m) => ErrorView::Query(m@),
            CellarError::Introspection(m) => ErrorView::Introspection(m@),
            CellarError::Internal(m) => ErrorView::Internal(m@),
        }
    }
}

/// The families are the base engines: taking the family twice changes nothing.
pub proof fn law_family_is_idempotent(engine: Engine)
    ensures
        engine.family_of().family_of() == engine.family_of(),
{
}

/// The hosted providers speak their base engine's dialect: Supabase and Neon
/// Postgres, PlanetScale MySQL, Azure that of SQL Server. The document stores
/// have none.
pub proof fn law_providers_speak_the_dialect_of_their_engine(engine: Engine, r: Option<Dialect>)
    requires
        call_ensures(Engine::dialect, (engine,), r),
    ensures
        r == Some(Dialect::Postgres) <==> engine == Engine::Postgres || engine == Engine::Supabase
            || engine == Engine::Neon,
        r == Some(Dialect::MySql) <==> engine == Engine::MySql || engine == Engine::PlanetScale,
        r == Some(Dialect::Sqlite) <==> engine == Engine::Sqlite,
        r == Some(Dialect::Mssql) <==> engine == Engine::Mssql || engine == Engine::Azure,
        r is None <==> engine == Engine::Firestore || engine == Engine::Convex || engine
            == Engine::Cosmos,
{
}

/// Only hosted providers have another family than themselves, and every engine
/// has the name that its family is told apart by.
pub proof fn law_only_providers_have_another_family(engine: Engine, r: Engine)
    requires
        call_ensures(Engine::family, (engine,), r),
    ensures
        engine == Engine::Supabase || engine == Engine::Neon ==> r == Engine::Postgres,
        engine == Engine::PlanetScale ==> r == Engine::MySql,
        engine == Engine::Azure ==> r == Engine::Mssql,
        engine != Engine::Supabase && engine != Engine::Neon && engine != Engine::PlanetScale
            && engine != Engine::Azure ==> r == engine,
{
}

/// The kind and the message of an error are all that is told of it.
pub proof fn law_errors_are_told_apart(a: CellarError, b: CellarError)
    requires
        a@ == b@,
    ensures
        match a {
            CellarError::InvalidConfig(m) => b matches CellarError::InvalidConfig(n) && n@ == m@,
            CellarError::NotConnected(m) => b matches CellarError::NotConnected(n) && n@ == m@,
            CellarError::Query(m) => b matches CellarError::Query(n) && n@ == m@,
            CellarError::Introspection(m) => b matches CellarError::Introspection(n) && n@ == m@,
            CellarError::Internal(m) => b matches CellarError::Internal(n) && n@ == m@,
        },
{
}

/// Every engine has the name that settings and messages know it by.
pub proof fn law_engines_are_known_by_their_names(engine: Engine, r: &'static str)
    requires
        call_ensures(Engine::as_str, (engine,), r),
    ensures
        r@ == match engine {
            Engine::Postgres => "postgres"@,
            Engine::Supabase => "supabase"@,
            Engine::Neon => "neon"@,
            Engine::MySql => "mysql"@,
            Engine::PlanetScale => "planetscale"@,
            Engine::Sqlite => "sqlite"@,
            Engine::Mssql => "mssql"@,
            Engine::Azure => "azure"@,
            Engine::Firestore => "firestore"@,
            Engine::Convex => "convex"@,
            Engine::Cosmos => "cosmos"@,
        },
{
}

} // verus!
