use fde_core::errors::FdeError;
use fde_core::helper::constraints::ConstraintsReader;
use fde_core::ports::{group_ports, new_port, parse::parse_ports, Port};

const FIXTURE_MAP: &str = r#"{
    "input": {
        "p_clk": 40,
        "LCD_E": 9, "LCD_RS": 10, "LCD_RW": 11
    },
    "output": {
        "LCD_DB0": 1, "LCD_DB1": 2, "LCD_DB2": 3, "LCD_DB3": 4,
        "LCD_DB4": 5, "LCD_DB5": 6, "LCD_DB6": 7, "LCD_DB7": 8
    }
}"#;

const FIXTURE_CONS: &str = r#"<?xml version="1.0" encoding="UTF-8"?>
<design>
    <port name="clk" position="p_clk"/>
    <port name="lcd_db[0]" position="LCD_DB0"/>
    <port name="lcd_db[1]" position="LCD_DB1"/>
    <port name="lcd_db[2]" position="LCD_DB2"/>
    <port name="lcd_db[3]" position="LCD_DB3"/>
    <port name="lcd_db[4]" position="LCD_DB4"/>
    <port name="lcd_db[5]" position="LCD_DB5"/>
    <port name="lcd_db[6]" position="LCD_DB6"/>
    <port name="lcd_db[7]" position="LCD_DB7"/>
</design>"#;

#[test]
fn test_constraints() {
    let mut reader = ConstraintsReader::new("name_display_cons.xml".to_string());
    let result = reader.read(FIXTURE_CONS.as_bytes());
    assert!(result.is_ok(), "Expected XML file to be read successfully");
    let ports = reader.get_ports();
    assert_eq!(ports.len(), 9);
    assert_eq!(ports[0].name, "clk");
    assert_eq!(ports[0].port_name, "p_clk");
    assert_eq!(ports[8].name, "lcd_db[7]");
    assert_eq!(ports[8].port_name, "LCD_DB7");
}

#[test]
fn test_constraints_any_element_with_both_attributes() {
    // the element's own name does not matter; carrying both attributes does
    let xml = br#"<top><wire name="a" position="P1"/><port name="b"/><port position="P2"/></top>"#;
    let mut reader = ConstraintsReader::new("x.xml".to_string());
    reader.read(xml).unwrap();
    let ports = reader.get_ports();
    assert_eq!(ports.len(), 1);
    assert_eq!(ports[0].name, "a");
    assert_eq!(ports[0].port_name, "P1");
}

#[test]
fn test_constraints_partial_result_on_error() {
    // a malformed tail aborts the parse but keeps what was collected
    let xml = b"<top><port name=\"a\" position=\"P1\"/><bad";
    let mut reader = ConstraintsReader::new("x.xml".to_string());
    let result = reader.read(xml);
    assert_eq!(result, Err(FdeError::FormatError));
    let ports = reader.get_ports();
    assert_eq!(ports.len(), 1);
    assert_eq!(ports[0].name, "a");
}

#[test]
fn test_ports_from_constraints() {
    let port_mappings = parse_ports(FIXTURE_MAP).unwrap();
    let mut reader = ConstraintsReader::new("name_display_cons.xml".to_string());
    let _ = reader.read(FIXTURE_CONS.as_bytes());
    let constraints = reader.get_ports();
    for constraint in constraints.iter() {
        let port = new_port(constraint.clone(), port_mappings.clone());
        println!("{:?}", port);
    }
}

#[test]
fn test_grouping_groups() {
    let port_mappings = parse_ports(FIXTURE_MAP).unwrap();
    let mut reader = ConstraintsReader::new("name_display_cons.xml".to_string());
    let _ = reader.read(FIXTURE_CONS.as_bytes());
    let constraints = reader.get_ports();

    let mut port_vec: Vec<Port> = Vec::new();
    for constraint in constraints.iter() {
        let port = new_port(constraint.clone(), port_mappings.clone());
        println!("{:?}", port);
        port_vec.push(port);
    }

    let grouped = group_ports(&port_vec, port_mappings);
    for group in &grouped {
        println!("{:#?} {}", group.io_type, group.io_name);
        println!("{:#?}", group.ports);
    }
    assert_eq!(grouped.len(), 2);
    let lcd = grouped.iter().find(|e| e.io_name == "lcd_db").unwrap();
    assert_eq!(lcd.ports.len(), 8);
}

#[test]
fn test_group_data_update() {
    let bit_data: u64 = 0x003ffffffffff628;

    let port_mappings = parse_ports(FIXTURE_MAP).unwrap();
    let mut reader = ConstraintsReader::new("name_display_cons.xml".to_string());
    let _ = reader.read(FIXTURE_CONS.as_bytes());
    let constraints = reader.get_ports();

    let mut port_vec: Vec<Port> = Vec::new();
    for constraint in constraints.iter() {
        let port = new_port(constraint.clone(), port_mappings.clone());
        println!("{:?}", port);
        port_vec.push(port);
    }

    let grouped = group_ports(&port_vec, port_mappings);
    for group in grouped.iter() {
        println!("{:#?} {}", group.io_type, group.io_name);
        println!("{:#?}", group.ports);
    }

    let mut e = grouped.iter().find(|e| e.io_name == "lcd_db").unwrap().clone();
    e.update(bit_data).unwrap();
    println!("{:#?}", e);
    println!("{:04x}", e.data);

    println!("Write data: 0x{:016x}", e.get_write().unwrap());

    assert_eq!(e.data, 0x28);

    // the lcd_db group's base index is 0, so packing the write word back
    // reproduces the same state
    let values: Vec<bool> = e.ports.iter().map(|p| p.value).collect();
    let w2 = e.get_write().unwrap();
    e.change_value(w2).unwrap();
    assert_eq!(e.data, 0x28);
    let values_after: Vec<bool> = e.ports.iter().map(|p| p.value).collect();
    assert_eq!(values, values_after);
}
