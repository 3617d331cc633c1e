use schema_graph::format_data_type;

#[test]
fn nvarchar_lengths_are_halved() {
    assert_eq!(format_data_type("nvarchar", 200, 0, 0), "nvarchar(100)");
}

#[test]
fn unbounded_nvarchar_is_max() {
    assert_eq!(format_data_type("nvarchar", -1, 0, 0), "nvarchar(max)");
}

#[test]
fn decimal_carries_precision_and_scale() {
    assert_eq!(format_data_type("decimal", 0, 18, 2), "decimal(18,2)");
}

#[test]
fn default_float_has_no_width() {
    assert_eq!(format_data_type("float", 0, 53, 0), "float");
}

#[test]
fn default_datetime2_has_no_scale() {
    assert_eq!(format_data_type("datetime2", 0, 0, 7), "datetime2");
}

#[test]
fn char_family_carries_byte_length() {
    assert_eq!(format_data_type("varchar", 50, 0, 0), "varchar(50)");
    assert_eq!(format_data_type("char", 10, 0, 0), "char(10)");
    assert_eq!(format_data_type("nchar", 20, 0, 0), "nchar(20)");
    assert_eq!(format_data_type("varchar", -1, 0, 0), "varchar(max)");
    assert_eq!(format_data_type("varbinary", -1, 0, 0), "varbinary(max)");
    assert_eq!(format_data_type("binary", 16, 0, 0), "binary(16)");
}

#[test]
fn sized_float_carries_precision() {
    assert_eq!(format_data_type("float", 0, 24, 0), "float(24)");
    assert_eq!(format_data_type("float", 0, 0, 0), "float");
}

#[test]
fn fractional_second_types_carry_nondefault_scale() {
    assert_eq!(format_data_type("datetime2", 0, 0, 3), "datetime2(3)");
    assert_eq!(format_data_type("time", 0, 0, 0), "time(0)");
    assert_eq!(format_data_type("datetimeoffset", 0, 0, 7), "datetimeoffset");
}

#[test]
fn unknown_types_echo_their_name() {
    assert_eq!(format_data_type("uniqueidentifier", 16, 0, 0), "uniqueidentifier");
    assert_eq!(format_data_type("int", 4, 10, 0), "int");
}

#[test]
fn numeric_is_formatted_like_decimal() {
    assert_eq!(format_data_type("numeric", 0, 10, 4), "numeric(10,4)");
}
