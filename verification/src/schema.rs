//! The database on disk: which ones are taken over, and how much its outbox
//! holds.
use vstd::prelude::*;

verus! {

/// The version of the tables.
pub const SCHEMA_VERSION: i64 = 2;

/// What marks a database as one of this program.
pub const APPLICATION_ID: i64 = 1_178_946_901;

/// How many events the outbox holds at most.
pub const OUTBOX_CAPACITY: i64 = 4096;

/// What has to be done before a database can be used.
#[derive(Clone, Copy, PartialEq, Eq, Debug, Structural)]
pub enum SchemaPlan {
    /// To make all tables.
    Create,
    /// To add the tables of the second version.
    Upgrade,
    /// Nothing.
    Keep,
}

/// Why a database is not taken over.
#[derive(Clone, Copy, PartialEq, Eq, Debug, Structural)]
pub enum SchemaError {
    Newer(i64),
    Foreign,
}

/// What has to be done with a database of some version, mark and number of
/// tables: an empty one is set up, an older one of this program is brought up
/// to date, and no other is touched.
pub open spec fn schema_spec(version: i64, application_id: i64, tables: i64) -> Result<
    SchemaPlan,
    SchemaError,
> {
    if version > SCHEMA_VERSION {
        Err(SchemaError::Newer(version))
    } else if version == 0 {
        if tables != 0 || (application_id != 0 && application_id != APPLICATION_ID) {
            Err(SchemaError::Foreign)
        } else {
            Ok(SchemaPlan::Create)
        }
    } else if application_id != APPLICATION_ID {
        Err(SchemaError::Foreign)
    } else if version == 1 {
        Ok(SchemaPlan::Upgrade)
    } else {
        Ok(SchemaPlan::Keep)
    }
}

/// Decides what has to be done with a database.
pub fn migrate(version: i64, application_id: i64, tables: i64) -> (r: Result<
    SchemaPlan,
    SchemaError,
>)
    ensures
        r == schema_spec(version, application_id, tables),
{
    if version > SCHEMA_VERSION {
        return Err(SchemaError::Newer(version));
    }
    if version == 0 {
        if tables != 0 || (application_id != 0 && application_id != APPLICATION_ID) {
            return Err(SchemaError::Foreign);
        }
        return Ok(SchemaPlan::Create);
    }
    if application_id != APPLICATION_ID {
        return Err(SchemaError::Foreign);
    }
    if version == 1 {
        Ok(SchemaPlan::Upgrade)
    } else {
        Ok(SchemaPlan::Keep)
    }
}

/// Tables are made only in a database that has none, and nothing is done to
/// one that another program or a newer version made.
pub proof fn foreign_data_is_left_alone(version: i64, application_id: i64, tables: i64)
    ensures
        schema_spec(version, application_id, tables) == Ok::<_, SchemaError>(SchemaPlan::Create)
            ==> tables == 0,
        application_id != 0 && application_id != APPLICATION_ID ==> schema_spec(
            version,
            application_id,
            tables,
        ) is Err,
        version > SCHEMA_VERSION ==> schema_spec(version, application_id, tables) is Err,
{
}

/// Whether the outbox has room for more events.
pub fn outbox_has_room(outstanding: i64, more: usize) -> (r: bool)
    requires
        0 <= outstanding,
    ensures
        r == (outstanding + more <= OUTBOX_CAPACITY),
{
    outstanding <= OUTBOX_CAPACITY && more <= 4096 && (more as i64) <= OUTBOX_CAPACITY - outstanding
}

} // verus!
