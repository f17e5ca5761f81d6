//! The schema of the database that the rows are kept in.
use vstd::prelude::*;

use crate::error::{error, error_view, unit_view, AppError, ErrorView};
use crate::search::{contains, has_text, texts};
use crate::text::{signed_decimal, signed_text, to_uppered, uppered};

verus! {

/// What a database needs before it is used.
#[derive(Clone, Copy, PartialEq, Eq, Structural)]
pub enum SchemaStep {
    Create,
    Migrate,
    Ready,
}

pub open spec fn schema_step_of(version: i64) -> Result<SchemaStep, ErrorView> {
    if version == 0 {
        Ok(SchemaStep::Create)
    } else if version == 4 {
        Ok(SchemaStep::Migrate)
    } else if version == 5 {
        Ok(SchemaStep::Ready)
    } else {
        Err(
            ErrorView {
                code: "STORAGE_SCHEMA_UNSUPPORTED"@,
                message: "database schema version "@ + signed_decimal(version as int)
                    + " is unsupported; CodexBridge currently requires a fresh schema version 5 database"@,
            },
        )
    }
}

/// What to do with a database of the given schema version.
pub fn schema_step(version: i64) -> (result: Result<SchemaStep, AppError>)
    ensures
        match result {
            Ok(step) => schema_step_of(version) == Ok::<SchemaStep, ErrorView>(step),
            Err(e) => schema_step_of(version) == Err::<SchemaStep, ErrorView>(e@),
        },
{
    if version == 0 {
        Ok(SchemaStep::Create)
    } else if version == 4 {
        Ok(SchemaStep::Migrate)
    } else if version == 5 {
        Ok(SchemaStep::Ready)
    } else {
        let mut message = "database schema version ".to_owned();
        message.append(signed_text(version).as_str());
        message.append(
            " is unsupported; CodexBridge currently requires a fresh schema version 5 database",
        );
        Err(AppError::new("STORAGE_SCHEMA_UNSUPPORTED", message))
    }
}

/// The columns that the table of turns must have.
pub open spec fn required_columns() -> Seq<Seq<char>> {
    seq![
        "turn_ref"@,
        "native_key"@,
        "effective_key"@,
        "subject_key"@,
        "parent_turn_ref"@,
        "instruction_hash"@,
        "state_hash"@,
        "brief_snapshot"@,
        "state_snapshot"@,
        "created_at"@,
    ]
}

/// The first required column, from `from` on, that is missing.
pub open spec fn missing_column(columns: Seq<Seq<char>>, from: int) -> Option<Seq<char>>
    decreases required_columns().len() - from,
{
    if from < 0 || from >= required_columns().len() {
        None
    } else if !columns.contains(required_columns()[from]) {
        Some(required_columns()[from])
    } else {
        missing_column(columns, from + 1)
    }
}

/// What is wrong with a database that claims to be up to date.
pub open spec fn schema_refusal(
    columns: Seq<Seq<char>>,
    aliases_schema: Seq<char>,
    archive_tables: i64,
) -> Option<ErrorView> {
    match missing_column(columns, 0) {
        Some(column) => Some(
            ErrorView {
                code: "STORAGE_SCHEMA_UNSUPPORTED"@,
                message: "database reports schema version 5 but is missing required column `"@
                    + column + "`; recreate the development database"@,
            },
        ),
        None => if !contains(uppered(aliases_schema), "COLLATE NOCASE"@) {
            Some(
                error_view(
                    "STORAGE_SCHEMA_UNSUPPORTED",
                    "database reports schema version 5 but aliases are not case-insensitive",
                ),
            )
        } else if archive_tables != 1 {
            Some(
                error_view(
                    "STORAGE_SCHEMA_UNSUPPORTED",
                    "database reports schema version 5 but memory_archive is missing",
                ),
            )
        } else {
            None
        },
    }
}

fn has_column(columns: &Vec<String>, column: &str) -> (r: bool)
    ensures
        r == texts(columns@).contains(column@),
{
    let mut i: usize = 0;
    while i < columns.len()
        invariant
            i <= columns@.len(),
            forall|j: int| 0 <= j < i ==> texts(columns@)[j] != column@,
        decreases columns.len() - i,
    {
        if columns[i].as_str().eq(column) {
            proof {
                assert(texts(columns@)[i as int] == column@);
            }
            return true;
        }
        i += 1;
    }
    false
}

/// The name of a required column.
fn required_column(i: usize) -> (column: &'static str)
    requires
        i < 10,
    ensures
        column@ == required_columns()[i as int],
{
    match i {
        0 => "turn_ref",
        1 => "native_key",
        2 => "effective_key",
        3 => "subject_key",
        4 => "parent_turn_ref",
        5 => "instruction_hash",
        6 => "state_hash",
        7 => "brief_snapshot",
        8 => "state_snapshot",
        _ => "created_at",
    }
}

/// Check a database that claims to be up to date: the columns of its table of
/// turns, the definition of its table of aliases, and how many tables it has
/// for the archive.
pub fn validate_schema_v5(columns: &Vec<String>, aliases_schema: &str, archive_tables: i64) -> (result:
    Result<(), AppError>)
    ensures
        unit_view(result) == match schema_refusal(
            texts(columns@),
            aliases_schema@,
            archive_tables,
        ) {
            Some(e) => Err(e),
            None => Ok(()),
        },
{
    let mut i: usize = 0;
    while i < 10
        invariant
            i <= 10,
            missing_column(texts(columns@), 0) == missing_column(texts(columns@), i as int),
        decreases 10 - i,
    {
        let column = required_column(i);
        if !has_column(columns, column) {
            let mut message =
                "database reports schema version 5 but is missing required column `".to_owned();
            message.append(column);
            message.append("`; recreate the development database");
            return Err(AppError::new("STORAGE_SCHEMA_UNSUPPORTED", message));
        }
        i += 1;
    }
    if !has_text(to_uppered(aliases_schema).as_str(), "COLLATE NOCASE") {
        return Err(
            error(
                "STORAGE_SCHEMA_UNSUPPORTED",
                "database reports schema version 5 but aliases are not case-insensitive",
            ),
        );
    }
    if archive_tables != 1 {
        return Err(
            error(
                "STORAGE_SCHEMA_UNSUPPORTED",
                "database reports schema version 5 but memory_archive is missing",
            ),
        );
    }
    Ok(())
}

/// A new database is created, one of version 4 is migrated, one of version 5 is ready, and
/// every other version is refused.
pub proof fn known_versions_are_taken(version: i64)
    ensures
        schema_step_of(version) is Ok <==> version == 0 || version == 4 || version == 5,
        schema_step_of(0) == Ok::<SchemaStep, ErrorView>(SchemaStep::Create),
        schema_step_of(4) == Ok::<SchemaStep, ErrorView>(SchemaStep::Migrate),
        schema_step_of(5) == Ok::<SchemaStep, ErrorView>(SchemaStep::Ready),
        schema_step_of(version) is Err ==> (schema_step_of(version)->Err_0).code
            == "STORAGE_SCHEMA_UNSUPPORTED"@,
{
}

proof fn lemma_missing_column(columns: Seq<Seq<char>>, from: int)
    requires
        0 <= from <= required_columns().len(),
    ensures
        missing_column(columns, from) is None <==> forall|i: int|
            from <= i < required_columns().len() ==> columns.contains(
                #[trigger] required_columns()[i],
            ),
    decreases required_columns().len() - from,
{
    if from < required_columns().len() && columns.contains(required_columns()[from]) {
        lemma_missing_column(columns, from + 1);
    }
}

/// A database that says it is up to date is taken exactly if its turns have every column,
/// its aliases are told apart without their case, and it has an archive.
pub proof fn whole_schema_is_taken(
    columns: Seq<Seq<char>>,
    aliases_schema: Seq<char>,
    archive_tables: i64,
)
    ensures
        schema_refusal(columns, aliases_schema, archive_tables) is None <==> {
            &&& columns.contains("turn_ref"@)
            &&& columns.contains("native_key"@)
            &&& columns.contains("effective_key"@)
            &&& columns.contains("subject_key"@)
            &&& columns.contains("parent_turn_ref"@)
            &&& columns.contains("instruction_hash"@)
            &&& columns.contains("state_hash"@)
            &&& columns.contains("brief_snapshot"@)
            &&& columns.contains("state_snapshot"@)
            &&& columns.contains("created_at"@)
            &&& contains(uppered(aliases_schema), "COLLATE NOCASE"@)
            &&& archive_tables == 1
        },
        schema_refusal(columns, aliases_schema, archive_tables) is Some ==> (schema_refusal(
            columns,
            aliases_schema,
            archive_tables,
        )->0).code == "STORAGE_SCHEMA_UNSUPPORTED"@,
{
    lemma_missing_column(columns, 0);
    let all = required_columns();
    assert(all.len() == 10);
    assert(all[0] == "turn_ref"@ && all[1] == "native_key"@ && all[2] == "effective_key"@ && all[3]
        == "subject_key"@ && all[4] == "parent_turn_ref"@ && all[5] == "instruction_hash"@ && all[6]
        == "state_hash"@ && all[7] == "brief_snapshot"@ && all[8] == "state_snapshot"@ && all[9]
        == "created_at"@);
}

}
