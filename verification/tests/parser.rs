use fde_core::file_parser::read_hex_data_from_text;

#[test]
fn test_parser_with_valid_input() {
    // New test content (including comments)
    let content = r#"
0x0600
0x0000
0x0000
0x0000

0x0000
0x0000
0x0000
0x0000

0x0200
0x0000
0x0000
0x0000

# Pause for one clock cycle
0x0400
0x0000
0x0000
0x0000

# Send '1' to FIFO
0x0C01
0x0000
0x0000
0x0000

# Send '2' to FIFO
0x0C02
0x0000
0x0000
0x0000

# Send '3' to FIFO
0x0C03
0x0000
0x0000
0x0000

# Pause for two clock cycles
0x0400
0x0000
0x0000
0x0000

0x0400
0x0000
0x0000
0x0000

# Read '1' from RX FIFO
0x1400
0x0000
0x0000
0x0000

0x1400
0x0000
0x0000
0x0000

# Read '2' from RX FIFO
0x1400
0x0000
0x0000
0x0000

0x1400
0x0000
0x0000
0x0000

# Read '3' from RX FIFO
0x1400
0x0000
0x0000
0x0000

0x1400
0x0000
0x0000
0x0000

# Pause for one clock cycle
0x0400
0x0000
0x0000
0x0000"#;

    let result = read_hex_data_from_text(content);

    let expected = vec![
        "0x0600".to_string(),
        "0x0000".to_string(),
        "0x0000".to_string(),
        "0x0000".to_string(),

        "0x0000".to_string(),
        "0x0000".to_string(),
        "0x0000".to_string(),
        "0x0000".to_string(),

        "0x0200".to_string(),
        "0x0000".to_string(),
        "0x0000".to_string(),
        "0x0000".to_string(),

        "0x0400".to_string(),
        "0x0000".to_string(),
        "0x0000".to_string(),
        "0x0000".to_string(),

        "0x0C01".to_string(),
        "0x0000".to_string(),
        "0x0000".to_string(),
        "0x0000".to_string(),

        "0x0C02".to_string(),
        "0x0000".to_string(),
        "0x0000".to_string(),
        "0x0000".to_string(),

        "0x0C03".to_string(),
        "0x0000".to_string(),
        "0x0000".to_string(),
        "0x0000".to_string(),

        "0x0400".to_string(),
        "0x0000".to_string(),
        "0x0000".to_string(),
        "0x0000".to_string(),

        "0x0400".to_string(),
        "0x0000".to_string(),
        "0x0000".to_string(),
        "0x0000".to_string(),

        "0x1400".to_string(),
        "0x0000".to_string(),
        "0x0000".to_string(),
        "0x0000".to_string(),

        "0x1400".to_string(),
        "0x0000".to_string(),
        "0x0000".to_string(),
        "0x0000".to_string(),

        "0x1400".to_string(),
        "0x0000".to_string(),
        "0x0000".to_string(),
        "0x0000".to_string(),

        "0x1400".to_string(),
        "0x0000".to_string(),
        "0x0000".to_string(),
        "0x0000".to_string(),

        "0x1400".to_string(),
        "0x0000".to_string(),
        "0x0000".to_string(),
        "0x0000".to_string(),

        "0x1400".to_string(),
        "0x0000".to_string(),
        "0x0000".to_string(),
        "0x0000".to_string(),

        "0x0400".to_string(),
        "0x0000".to_string(),
        "0x0000".to_string(),
        "0x0000".to_string(),
    ];

    assert_eq!(result, expected);
}

#[test]
fn test_parser_with_empty_file() {
    let result = read_hex_data_from_text("");
    assert_eq!(result, Vec::<String>::new());
}

#[test]
fn test_parser_with_file_containing_only_comments() {
    let content = r#"
# This is a comment
# Another comment
# And another comment
"#;

    let result = read_hex_data_from_text(content);

    assert_eq!(result, Vec::<String>::new());
}
