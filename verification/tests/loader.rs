use schema_graph::schema_loader::{apply_column_sources, load_foreign_keys,
    load_schema_from_connection, load_scalar_functions, load_stored_procedures,
    load_tables_and_columns, load_triggers, load_views_and_columns, parse_bool_text,
    parse_i16_text, parse_u8_text, ForeignKeyRow, RoutineRow, SchemaError, TableColumnRow,
    TriggerRow, ViewColumnRow, ViewColumnSourceRow};
use schema_graph::refs::build_name_index;
use schema_graph::connection::ConnectionError;

fn table_row(schema: &str, table: &str, column: &str, ty: &str, pk: bool) -> TableColumnRow {
    TableColumnRow {
        schema_name: schema.to_string(),
        table_name: table.to_string(),
        column_name: column.to_string(),
        data_type: ty.to_string(),
        max_length: 4,
        precision: 0,
        scale: 0,
        is_nullable: false,
        is_primary_key: pk,
    }
}

fn view_row(schema: &str, view: &str, column: &str, definition: &str) -> ViewColumnRow {
    ViewColumnRow {
        schema_name: schema.to_string(),
        view_name: view.to_string(),
        column_name: column.to_string(),
        data_type: "int".to_string(),
        max_length: 4,
        precision: 0,
        scale: 0,
        is_nullable: false,
        definition: definition.to_string(),
    }
}

#[test]
fn tables_merge_columns_per_object() {
    let rows = vec![
        table_row("dbo", "Orders", "Id", "int", true),
        table_row("dbo", "Orders", "Total", "decimal", false),
        table_row("sales", "Leads", "Id", "int", true),
    ];
    let tables = load_tables_and_columns(&rows);
    assert_eq!(tables.len(), 2);
    assert_eq!(tables[0].id, "dbo.Orders");
    assert_eq!(tables[0].name, "Orders");
    assert_eq!(tables[0].schema, "dbo");
    assert_eq!(tables[0].columns.len(), 2);
    assert_eq!(tables[0].columns[0].name, "Id");
    assert!(tables[0].columns[0].is_primary_key);
    assert_eq!(tables[0].columns[1].name, "Total");
    assert_eq!(tables[1].id, "sales.Leads");
}

#[test]
fn formatted_types_land_on_columns() {
    let mut row = table_row("dbo", "T", "Name", "nvarchar", false);
    row.max_length = 200;
    let tables = load_tables_and_columns(&vec![row]);
    assert_eq!(tables[0].columns[0].data_type, "nvarchar(100)");
}

#[test]
fn foreign_keys_with_unknown_endpoints_are_dropped() {
    let tables = load_tables_and_columns(&vec![
        table_row("dbo", "Orders", "Id", "int", true),
        table_row("dbo", "Customers", "Id", "int", true),
    ]);
    let rows = vec![
        ForeignKeyRow {
            fk_name: "FK_Orders_Customers".to_string(),
            src_schema: "dbo".to_string(),
            src_table: "Orders".to_string(),
            src_column: "CustomerId".to_string(),
            ref_schema: "dbo".to_string(),
            ref_table: "Customers".to_string(),
            ref_column: "Id".to_string(),
        },
        ForeignKeyRow {
            fk_name: "FK_CrossDatabase".to_string(),
            src_schema: "dbo".to_string(),
            src_table: "Orders".to_string(),
            src_column: "RegionId".to_string(),
            ref_schema: "other".to_string(),
            ref_table: "Regions".to_string(),
            ref_column: "Id".to_string(),
        },
    ];
    let edges = load_foreign_keys(&rows, &tables);
    assert_eq!(edges.len(), 1);
    assert_eq!(edges[0].id, "FK_Orders_Customers");
    assert_eq!(edges[0].from, "dbo.Orders");
    assert_eq!(edges[0].to, "dbo.Customers");
}

#[test]
fn triggers_on_unknown_tables_are_dropped() {
    let tables = load_tables_and_columns(&vec![table_row("dbo", "Orders", "Id", "int", true)]);
    let views = load_views_and_columns(&Vec::new());
    let index = build_name_index(&tables, &views);
    let rows = vec![
        TriggerRow {
            schema_name: "dbo".to_string(),
            table_name: "Orders".to_string(),
            trigger_name: "TR_Audit".to_string(),
            trigger_type: "AFTER".to_string(),
            is_disabled: false,
            fires_on_insert: true,
            fires_on_update: true,
            fires_on_delete: false,
            definition: "INSERT INTO dbo.Orders SELECT * FROM dbo.Orders".to_string(),
        },
        TriggerRow {
            schema_name: "dbo".to_string(),
            table_name: "Ghost".to_string(),
            trigger_name: "TR_Gone".to_string(),
            trigger_type: "AFTER".to_string(),
            is_disabled: false,
            fires_on_insert: true,
            fires_on_update: false,
            fires_on_delete: false,
            definition: String::new(),
        },
    ];
    let triggers = load_triggers(&rows, &tables, &index);
    assert_eq!(triggers.len(), 1);
    assert_eq!(triggers[0].id, "dbo.Orders.TR_Audit");
    assert_eq!(triggers[0].table_id, "dbo.Orders");
    assert_eq!(triggers[0].referenced_tables, vec!["dbo.Orders".to_string()]);
    assert_eq!(triggers[0].affected_tables, vec!["dbo.Orders".to_string()]);
}

#[test]
fn procedures_accumulate_parameters_in_order() {
    let tables = load_tables_and_columns(&vec![table_row("dbo", "Orders", "Id", "int", true)]);
    let views = load_views_and_columns(&Vec::new());
    let index = build_name_index(&tables, &views);
    let mk = |param: &str, ty: &str| RoutineRow {
        schema_name: "dbo".to_string(),
        routine_name: "GetOrders".to_string(),
        routine_type: "SQL_STORED_PROCEDURE".to_string(),
        parameter_name: param.to_string(),
        parameter_type: ty.to_string(),
        is_output: false,
        definition: "SELECT * FROM dbo.Orders".to_string(),
        return_type: String::new(),
    };
    let rows = vec![mk("@CustomerId", "int"), mk("@StartDate", "datetime2")];
    let procs = load_stored_procedures(&rows, &index);
    assert_eq!(procs.len(), 1);
    assert_eq!(procs[0].id, "dbo.GetOrders");
    assert_eq!(procs[0].parameters.len(), 2);
    assert_eq!(procs[0].parameters[0].name, "@CustomerId");
    assert_eq!(procs[0].parameters[1].name, "@StartDate");
    assert_eq!(procs[0].referenced_tables, vec!["dbo.Orders".to_string()]);
    assert!(procs[0].affected_tables.is_empty());
}

#[test]
fn parameterless_routine_rows_add_no_parameter() {
    let index = build_name_index(&Vec::new(), &Vec::new());
    let rows = vec![RoutineRow {
        schema_name: "dbo".to_string(),
        routine_name: "GetTotal".to_string(),
        routine_type: "SQL_SCALAR_FUNCTION".to_string(),
        parameter_name: String::new(),
        parameter_type: String::new(),
        is_output: false,
        definition: String::new(),
        return_type: "int".to_string(),
    }];
    let funcs = load_scalar_functions(&rows, &index);
    assert_eq!(funcs.len(), 1);
    assert!(funcs[0].parameters.is_empty());
    assert_eq!(funcs[0].return_type, "int");
}

#[test]
fn lineage_is_applied_to_matching_columns_only() {
    let views = load_views_and_columns(&vec![
        view_row("dbo", "V", "OrderId", "SELECT Id AS OrderId FROM dbo.Orders"),
        view_row("dbo", "V", "Untracked", "SELECT Id AS OrderId FROM dbo.Orders"),
    ]);
    let lineage = vec![ViewColumnSourceRow {
        schema_name: "dbo".to_string(),
        view_name: "V".to_string(),
        column_name: "OrderId".to_string(),
        source_table: "Orders".to_string(),
        source_column: "Id".to_string(),
    }];
    let enriched = apply_column_sources(&views, &lineage);
    assert_eq!(enriched[0].columns[0].source_table.as_deref(), Some("Orders"));
    assert_eq!(enriched[0].columns[0].source_column.as_deref(), Some("Id"));
    assert!(enriched[0].columns[1].source_table.is_none());
    assert!(enriched[0].columns[1].source_column.is_none());
}

#[test]
fn partial_lineage_rows_still_apply() {
    // The lineage query may fail mid-stream; whatever rows arrived before
    // the failure are still applied, and the rest of the view stands.
    let views = load_views_and_columns(&vec![
        view_row("dbo", "V", "A", "SELECT 1 AS A"),
        view_row("dbo", "V", "B", "SELECT 1 AS A"),
        view_row("dbo", "V", "C", "SELECT 1 AS A"),
    ]);
    let all_rows = vec![
        ViewColumnSourceRow {
            schema_name: "dbo".to_string(),
            view_name: "V".to_string(),
            column_name: "A".to_string(),
            source_table: "T".to_string(),
            source_column: "X".to_string(),
        },
        ViewColumnSourceRow {
            schema_name: "dbo".to_string(),
            view_name: "V".to_string(),
            column_name: "B".to_string(),
            source_table: "T".to_string(),
            source_column: "Y".to_string(),
        },
        ViewColumnSourceRow {
            schema_name: "dbo".to_string(),
            view_name: "V".to_string(),
            column_name: "C".to_string(),
            source_table: "T".to_string(),
            source_column: "Z".to_string(),
        },
    ];
    // Only the first two rows arrived before the stream broke.
    let harvested = all_rows[..2].to_vec();
    let enriched = apply_column_sources(&views, &harvested);
    assert_eq!(enriched[0].columns[0].source_column.as_deref(), Some("X"));
    assert_eq!(enriched[0].columns[1].source_column.as_deref(), Some("Y"));
    assert!(enriched[0].columns[2].source_column.is_none());
}

#[test]
fn full_load_assembles_and_closes_the_graph() {
    let table_rows = vec![
        table_row("dbo", "Orders", "Id", "int", true),
        table_row("dbo", "Customers", "Id", "int", true),
    ];
    let view_rows = vec![view_row(
        "dbo",
        "vw_Orders",
        "OrderId",
        "SELECT Id AS OrderId FROM dbo.Orders JOIN dbo.Missing ON 1 = 1",
    )];
    let fk_rows = vec![ForeignKeyRow {
        fk_name: "FK_Orders_Customers".to_string(),
        src_schema: "dbo".to_string(),
        src_table: "Orders".to_string(),
        src_column: "CustomerId".to_string(),
        ref_schema: "dbo".to_string(),
        ref_table: "Customers".to_string(),
        ref_column: "Id".to_string(),
    }];
    let g = load_schema_from_connection(
        &table_rows,
        &view_rows,
        &Vec::new(),
        Some(&fk_rows),
        None,
        None,
        None,
    );
    assert_eq!(g.tables.len(), 2);
    assert_eq!(g.views.len(), 1);
    assert_eq!(g.relationships.len(), 1);
    assert!(g.triggers.is_empty());
    assert!(g.stored_procedures.is_empty());
    assert!(g.scalar_functions.is_empty());
    // The view reads Orders; the unresolved name is discarded.
    assert_eq!(g.views[0].referenced_tables, vec!["dbo.Orders".to_string()]);
}

#[test]
fn view_references_use_only_the_read_patterns() {
    let table_rows = vec![
        table_row("dbo", "Orders", "Id", "int", true),
        table_row("dbo", "Archive", "Id", "int", true),
    ];
    // A view definition never writes; only FROM and JOIN count.
    let view_rows = vec![view_row(
        "dbo",
        "V",
        "A",
        "INSERT INTO dbo.Archive SELECT * FROM dbo.Orders",
    )];
    let g = load_schema_from_connection(
        &table_rows,
        &view_rows,
        &Vec::new(),
        None,
        None,
        None,
        None,
    );
    assert_eq!(g.views[0].referenced_tables, vec!["dbo.Orders".to_string()]);
}

#[test]
fn failed_optional_categories_come_back_empty() {
    let table_rows = vec![table_row("dbo", "Orders", "Id", "int", true)];
    let g = load_schema_from_connection(
        &table_rows,
        &Vec::new(),
        &Vec::new(),
        None,
        None,
        None,
        None,
    );
    assert_eq!(g.tables.len(), 1);
    assert!(g.relationships.is_empty());
    assert!(g.triggers.is_empty());
}

#[test]
fn numeric_cells_parse_like_the_standard_parser() {
    assert_eq!(parse_i16_text("200").unwrap(), 200);
    assert_eq!(parse_i16_text("-1").unwrap(), -1);
    assert_eq!(parse_i16_text("-32768").unwrap(), -32768);
    assert_eq!(parse_u8_text("7").unwrap(), 7);
    assert_eq!(parse_u8_text("+18").unwrap(), 18);
    match parse_i16_text("4x") {
        Err(SchemaError::Parse(msg)) => {
            assert_eq!(msg, "Failed to parse i16 from '4x'");
        },
        other => panic!("expected a parse failure, got {:?}", other),
    }
    match parse_u8_text("256") {
        Err(SchemaError::Parse(msg)) => {
            assert_eq!(msg, "Failed to parse u8 from '256'");
        },
        other => panic!("expected a parse failure, got {:?}", other),
    }
}

#[test]
fn error_messages_name_their_layer() {
    assert_eq!(
        SchemaError::Driver("odbc says no".to_string()).message(),
        "Driver error: odbc says no"
    );
    assert_eq!(
        SchemaError::Connection(ConnectionError::Io("refused".to_string())).message(),
        "Network error: refused"
    );
    assert_eq!(
        ConnectionError::Auth("mode unsupported".to_string()).message(),
        "Authentication error: mode unsupported"
    );
}

#[test]
fn flag_cells_accept_one_and_true() {
    assert!(parse_bool_text("1"));
    assert!(parse_bool_text("true"));
    assert!(parse_bool_text("TRUE"));
    assert!(!parse_bool_text("0"));
    assert!(!parse_bool_text("false"));
    assert!(!parse_bool_text(""));
}
