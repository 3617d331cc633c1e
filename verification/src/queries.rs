//! The fixed catalog query set, and the display formatter for physical
//! column types.
//!
//! Each query names its columns in the exact order the row readers rely on;
//! the readers go by position, never by name.

use vstd::prelude::*;
use crate::text::{dec_str, halve_trunc, halve_i16, i16_to_string, int_dec_str, str_eq,
    u64_to_string};

verus! {

pub const TABLES_AND_COLUMNS_QUERY: &'static str = "
SELECT
    s.name AS schema_name,
    t.name AS table_name,
    c.name AS column_name,
    ty.name AS data_type,
    c.max_length,
    c.precision,
    c.scale,
    c.is_nullable,
    CASE WHEN pk.column_id IS NOT NULL THEN 1 ELSE 0 END AS is_primary_key
FROM sys.tables t
JOIN sys.schemas s ON t.schema_id = s.schema_id
JOIN sys.columns c ON t.object_id = c.object_id
JOIN sys.types ty ON c.user_type_id = ty.user_type_id
LEFT JOIN (
    SELECT ic.object_id, ic.column_id
    FROM sys.indexes i
    JOIN sys.index_columns ic
      ON i.object_id = ic.object_id AND i.index_id = ic.index_id
    WHERE i.is_primary_key = 1
) pk ON pk.object_id = c.object_id AND pk.column_id = c.column_id
WHERE t.is_ms_shipped = 0
ORDER BY s.name, t.name, c.column_id
";

pub const FOREIGN_KEYS_QUERY: &'static str = "
SELECT
    fk.name AS fk_name,
    sch_src.name AS src_schema,
    t_src.name AS src_table,
    c_src.name AS src_column,
    sch_ref.name AS ref_schema,
    t_ref.name AS ref_table,
    c_ref.name AS ref_column
FROM sys.foreign_keys fk
JOIN sys.foreign_key_columns fkc
  ON fk.object_id = fkc.constraint_object_id
JOIN sys.tables t_src
  ON fkc.parent_object_id = t_src.object_id
JOIN sys.schemas sch_src
  ON t_src.schema_id = sch_src.schema_id
JOIN sys.columns c_src
  ON fkc.parent_object_id = c_src.object_id
 AND fkc.parent_column_id = c_src.column_id
JOIN sys.tables t_ref
  ON fkc.referenced_object_id = t_ref.object_id
JOIN sys.schemas sch_ref
  ON t_ref.schema_id = sch_ref.schema_id
JOIN sys.columns c_ref
  ON fkc.referenced_object_id = c_ref.object_id
 AND fkc.referenced_column_id = c_ref.column_id
";

pub const VIEWS_AND_COLUMNS_QUERY: &'static str = "
SELECT
    s.name AS schema_name,
    v.name AS view_name,
    c.name AS column_name,
    ty.name AS data_type,
    c.max_length,
    c.precision,
    c.scale,
    c.is_nullable,
    OBJECT_DEFINITION(v.object_id) AS definition
FROM sys.views v
JOIN sys.schemas s ON v.schema_id = s.schema_id
JOIN sys.columns c ON v.object_id = c.object_id
JOIN sys.types ty ON c.user_type_id = ty.user_type_id
WHERE v.is_ms_shipped = 0
ORDER BY s.name, v.name, c.column_id
";

pub const VIEW_COLUMN_SOURCES_QUERY: &'static str = "
SELECT
    s.name AS schema_name,
    v.name AS view_name,
    re.referenced_minor_name AS column_name,
    re.referenced_entity_name AS source_table,
    re.referenced_minor_name AS source_column
FROM sys.views v
JOIN sys.schemas s ON v.schema_id = s.schema_id
CROSS APPLY sys.dm_sql_referenced_entities(
    QUOTENAME(s.name) + '.' + QUOTENAME(v.name), 'OBJECT') re
WHERE re.referenced_minor_name IS NOT NULL
  AND re.referenced_class_desc = 'OBJECT_OR_COLUMN'
";

pub const TRIGGERS_QUERY: &'static str = "
SELECT
    s.name AS schema_name,
    t.name AS table_name,
    tr.name AS trigger_name,
    CASE WHEN tr.is_instead_of_trigger = 1 THEN 'INSTEAD OF' ELSE 'AFTER' END
        AS trigger_type,
    tr.is_disabled,
    OBJECTPROPERTY(tr.object_id, 'ExecIsInsertTrigger') AS fires_on_insert,
    OBJECTPROPERTY(tr.object_id, 'ExecIsUpdateTrigger') AS fires_on_update,
    OBJECTPROPERTY(tr.object_id, 'ExecIsDeleteTrigger') AS fires_on_delete,
    OBJECT_DEFINITION(tr.object_id) AS definition
FROM sys.triggers tr
JOIN sys.tables t ON tr.parent_id = t.object_id
JOIN sys.schemas s ON t.schema_id = s.schema_id
WHERE tr.is_ms_shipped = 0
ORDER BY s.name, t.name, tr.name
";

pub const STORED_PROCEDURES_QUERY: &'static str = "
SELECT
    s.name AS schema_name,
    p.name AS procedure_name,
    p.type_desc AS procedure_type,
    par.name AS parameter_name,
    ty.name AS parameter_type,
    par.is_output,
    OBJECT_DEFINITION(p.object_id) AS definition
FROM sys.procedures p
JOIN sys.schemas s ON p.schema_id = s.schema_id
LEFT JOIN sys.parameters par
  ON p.object_id = par.object_id AND par.parameter_id > 0
LEFT JOIN sys.types ty ON par.user_type_id = ty.user_type_id
WHERE p.is_ms_shipped = 0
ORDER BY s.name, p.name, par.parameter_id
";

pub const SCALAR_FUNCTIONS_QUERY: &'static str = "
SELECT
    s.name AS schema_name,
    f.name AS function_name,
    f.type_desc AS function_type,
    par.name AS parameter_name,
    ty.name AS parameter_type,
    par.is_output,
    OBJECT_DEFINITION(f.object_id) AS definition,
    rty.name AS return_type
FROM sys.objects f
JOIN sys.schemas s ON f.schema_id = s.schema_id
LEFT JOIN sys.parameters par
  ON f.object_id = par.object_id AND par.parameter_id > 0
LEFT JOIN sys.types ty ON par.user_type_id = ty.user_type_id
LEFT JOIN sys.parameters ret
  ON f.object_id = ret.object_id AND ret.parameter_id = 0
LEFT JOIN sys.types rty ON ret.user_type_id = rty.user_type_id
WHERE f.type = 'FN' AND f.is_ms_shipped = 0
ORDER BY s.name, f.name, par.parameter_id
";

pub const LIST_DATABASES_QUERY: &'static str = "
SELECT name
FROM sys.databases
WHERE state_desc = 'ONLINE' AND database_id > 4 AND HAS_DBACCESS(name) = 1
ORDER BY name
";

/// The display form of a physical column type, given the catalog's raw type
/// name, byte length, precision and scale.
pub open spec fn spec_format_data_type(
    t: Seq<char>,
    max_length: int,
    precision: int,
    scale: int,
) -> Seq<char> {
    if t == "varchar"@ || t == "char"@ || t == "nchar"@ || t == "varbinary"@ || t == "binary"@ {
        if max_length == -1 {
            t + "(max)"@
        } else {
            t + "("@ + int_dec_str(max_length) + ")"@
        }
    } else if t == "nvarchar"@ {
        if max_length == -1 {
            t + "(max)"@
        } else {
            t + "("@ + int_dec_str(halve_trunc(max_length)) + ")"@
        }
    } else if t == "decimal"@ || t == "numeric"@ {
        t + "("@ + dec_str(precision as nat) + ","@ + dec_str(scale as nat) + ")"@
    } else if t == "float"@ {
        if precision > 0 && precision != 53 {
            t + "("@ + dec_str(precision as nat) + ")"@
        } else {
            t
        }
    } else if t == "datetime2"@ || t == "datetimeoffset"@ || t == "time"@ {
        if scale != 7 {
            t + "("@ + dec_str(scale as nat) + ")"@
        } else {
            t
        }
    } else {
        t
    }
}

/// Appends `(n)` to a type name.
fn append_paren_num(s: &mut String, num: &str)
    ensures
        final(s)@ == old(s)@ + "("@ + num@ + ")"@,
{
    s.append("(");
    s.append(num);
    s.append(")");
    proof {
        assert(final(s)@ =~= old(s)@ + "("@ + num@ + ")"@);
    }
}

/// Canonicalises a SQL Server physical type with its length, precision and
/// scale into the display form consumers expect: character and binary types
/// carry their length (`nvarchar` halved, since the catalog stores bytes),
/// `decimal`/`numeric` carry precision and scale, `float` and the
/// fractional-second types only their non-default width.
pub fn format_data_type(ty_name: &str, max_length: i16, precision: u8, scale: u8) -> (r: String)
    ensures
        r@ == spec_format_data_type(ty_name@, max_length as int, precision as int, scale as int),
{
    let char_like = str_eq(ty_name, "varchar") || str_eq(ty_name, "char") || str_eq(
        ty_name,
        "nchar",
    ) || str_eq(ty_name, "varbinary") || str_eq(ty_name, "binary");
    if char_like {
        let mut s = String::from_str(ty_name);
        if max_length == -1 {
            s.append("(max)");
        } else {
            append_paren_num(&mut s, i16_to_string(max_length).as_str());
        }
        return s;
    }
    if str_eq(ty_name, "nvarchar") {
        let mut s = String::from_str(ty_name);
        if max_length == -1 {
            s.append("(max)");
        } else {
            append_paren_num(&mut s, i16_to_string(halve_i16(max_length)).as_str());
        }
        return s;
    }
    if str_eq(ty_name, "decimal") || str_eq(ty_name, "numeric") {
        let mut s = String::from_str(ty_name);
        s.append("(");
        s.append(u64_to_string(precision as u64).as_str());
        s.append(",");
        s.append(u64_to_string(scale as u64).as_str());
        s.append(")");
        proof {
            assert(s@ =~= spec_format_data_type(
                ty_name@,
                max_length as int,
                precision as int,
                scale as int,
            ));
        }
        return s;
    }
    if str_eq(ty_name, "float") {
        let mut s = String::from_str(ty_name);
        if precision > 0 && precision != 53 {
            append_paren_num(&mut s, u64_to_string(precision as u64).as_str());
        }
        return s;
    }
    if str_eq(ty_name, "datetime2") || str_eq(ty_name, "datetimeoffset") || str_eq(
        ty_name,
        "time",
    ) {
        let mut s = String::from_str(ty_name);
        if scale != 7 {
            append_paren_num(&mut s, u64_to_string(scale as u64).as_str());
        }
        return s;
    }
    String::from_str(ty_name)
}

} // verus!
