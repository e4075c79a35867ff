use postgres_wire_proxy::table_formatter::{
    pad_or_truncate, unicode_display_width, FieldInfo, TableFormatter, TableState,
};

#[test]
fn pad_or_truncate_pads_short_strings() {
    assert_eq!(pad_or_truncate("hello", 10), "hello     ");
}

#[test]
fn pad_or_truncate_preserves_exact_width() {
    assert_eq!(pad_or_truncate("exactly10!", 10), "exactly10!");
}

#[test]
fn pad_or_truncate_truncates_long_strings() {
    let result = pad_or_truncate("this is a very long string", 10);
    assert_eq!(result.len(), 10);
    assert!(result.ends_with("..."));
}

#[test]
fn unicode_width_counts_chars() {
    assert_eq!(unicode_display_width("hello"), 5);
    assert_eq!(unicode_display_width("hello👋"), 6);
}

#[test]
fn table_formatter_initializes_with_fields() {
    let fields = vec![
        FieldInfo {
            name: "id".to_string(),
            data_type: "int4".to_string(),
        },
        FieldInfo {
            name: "name".to_string(),
            data_type: "text".to_string(),
        },
    ];

    let formatter = TableFormatter::new(fields);
    assert_eq!(formatter.fields.len(), 2);
    assert_eq!(formatter.column_widths[0], 15); // fixed width
    assert_eq!(formatter.column_widths[1], 15); // fixed width
}

#[test]
fn table_formatter_uses_fixed_widths() {
    let fields = vec![FieldInfo {
        name: "col".to_string(),
        data_type: "text".to_string(),
    }];

    let mut formatter = TableFormatter::new(fields);
    assert_eq!(formatter.column_widths[0], 15); // Fixed width

    // Add rows - width should remain fixed
    formatter.print_row(&vec!["short".to_string()], "test");
    assert_eq!(formatter.column_widths[0], 15);

    formatter.print_row(&vec!["much longer value".to_string()], "test");
    assert_eq!(formatter.column_widths[0], 15); // Still fixed
}

#[test]
fn table_state_only_formats_when_enabled() {
    let mut state = TableState::new(false);
    assert!(!state.is_table_mode());

    // Should not panic even when called without setup
    let lines = state.print_data_row(&vec!["value".to_string()], "test");
    assert!(lines.is_empty());
    let lines = state.finish_result_set("test");
    assert!(lines.is_empty());
}

#[test]
fn table_state_formats_when_enabled() {
    let mut state = TableState::new(true);
    assert!(state.is_table_mode());

    let fields = vec![FieldInfo {
        name: "test_col".to_string(),
        data_type: "int4".to_string(),
    }];

    state.set_row_description(fields);
    let lines = state.print_data_row(&vec!["123".to_string()], "test");
    assert_eq!(lines.len(), 4); // three header lines and the data row
    let lines = state.finish_result_set("test");
    assert_eq!(lines.len(), 1); // the footer
}

#[test]
fn table_formatter_handles_null_values() {
    let fields = vec![
        FieldInfo {
            name: "id".to_string(),
            data_type: "int4".to_string(),
        },
        FieldInfo {
            name: "name".to_string(),
            data_type: "text".to_string(),
        },
    ];

    let mut formatter = TableFormatter::new(fields);
    formatter.print_row(&vec!["1".to_string(), "NULL".to_string()], "test");
    formatter.print_row(&vec!["2".to_string(), "Alice".to_string()], "test");
    formatter.print_footer("test");
}

#[test]
fn table_formatter_handles_wide_columns() {
    let fields = vec![
        FieldInfo {
            name: "short".to_string(),
            data_type: "text".to_string(),
        },
        FieldInfo {
            name: "very_long_column_name".to_string(),
            data_type: "text".to_string(),
        },
    ];

    let mut formatter = TableFormatter::new(fields);
    assert_eq!(formatter.column_widths[1], 15); // fixed width

    formatter.print_row(&vec!["a".to_string(), "b".to_string()], "test");
    formatter.print_row(
        &vec![
            "x".to_string(),
            "This is an extremely long value that exceeds the column width".to_string(),
        ],
        "test",
    );
    formatter.print_footer("test");
}

#[test]
fn table_formatter_handles_empty_values() {
    let fields = vec![FieldInfo {
        name: "col".to_string(),
        data_type: "text".to_string(),
    }];

    let mut formatter = TableFormatter::new(fields);
    formatter.print_row(&vec!["".to_string()], "test");
    formatter.print_row(&vec!["value".to_string()], "test");
    formatter.print_footer("test");
}

#[test]
fn table_formatter_handles_multiple_columns() {
    let fields = vec![
        FieldInfo {
            name: "id".to_string(),
            data_type: "int4".to_string(),
        },
        FieldInfo {
            name: "name".to_string(),
            data_type: "text".to_string(),
        },
        FieldInfo {
            name: "email".to_string(),
            data_type: "text".to_string(),
        },
        FieldInfo {
            name: "age".to_string(),
            data_type: "int4".to_string(),
        },
    ];

    let mut formatter = TableFormatter::new(fields);
    formatter.print_row(
        &vec![
            "1".to_string(),
            "Alice".to_string(),
            "alice@example.com".to_string(),
            "30".to_string(),
        ],
        "test",
    );
    formatter.print_row(
        &vec![
            "2".to_string(),
            "Bob".to_string(),
            "bob@example.com".to_string(),
            "25".to_string(),
        ],
        "test",
    );
    formatter.print_footer("test");
}

#[test]
fn pad_or_truncate_handles_very_short_width() {
    // Width 3 results in "..." (ellipsis)
    assert_eq!(pad_or_truncate("hello", 3), "...");
    // Width less than string length but >= 3 adds ellipsis
    assert_eq!(pad_or_truncate("hello", 4), "h...");
    // Width equal or greater than string doesn't truncate
    assert_eq!(pad_or_truncate("hi", 2), "hi");
    assert_eq!(pad_or_truncate("hi", 3), "hi ");
}

#[test]
fn table_formatter_maintains_fixed_column_alignment() {
    let fields = vec![
        FieldInfo {
            name: "num".to_string(),
            data_type: "int4".to_string(),
        },
        FieldInfo {
            name: "text".to_string(),
            data_type: "text".to_string(),
        },
    ];

    let mut formatter = TableFormatter::new(fields);

    // First row with short values
    formatter.print_row(&vec!["1".to_string(), "a".to_string()], "test");
    let widths_after_first = formatter.column_widths.clone();

    // Second row with longer values
    formatter.print_row(&vec!["12345".to_string(), "longer text".to_string()], "test");

    // Column widths should remain fixed
    assert_eq!(formatter.column_widths[0], widths_after_first[0]);
    assert_eq!(formatter.column_widths[1], widths_after_first[1]);
    assert_eq!(formatter.column_widths[0], 15);
    assert_eq!(formatter.column_widths[1], 15);
}

#[test]
fn table_rows_render_at_fixed_width() {
    let fields = vec![FieldInfo {
        name: "col".to_string(),
        data_type: "text".to_string(),
    }];
    let mut formatter = TableFormatter::new(fields);
    let lines = formatter.print_row(&vec!["value".to_string()], "1");
    // Header (three lines) plus the data row.
    assert_eq!(lines.len(), 4);
    assert_eq!(lines[0], format!("[1] ┌{}┐", "─".repeat(15)));
    assert_eq!(lines[1], format!("[1] │{}│", "col            "));
    assert_eq!(lines[2], format!("[1] ├{}┤", "─".repeat(15)));
    assert_eq!(lines[3], format!("[1] │{}│", "value          "));
    let footer = formatter.print_footer("1");
    assert_eq!(footer[0], format!("[1] └{}┘", "─".repeat(15)));
}
