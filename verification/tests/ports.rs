use fde_core::errors::FdeError;
use fde_core::ports::parse::{parse_ports, PinEntry, PortMappings};
use fde_core::ports::table::IOPortsTable;
use fde_core::ports::{
    array_base, group_ports, new_port, u16_4_to_u64, u16_4_to_u64_rev, ConstraintPort, IOPort,
    IOType, Port,
};

fn mapping(input: Vec<(&str, i32)>, output: Vec<(&str, i32)>) -> PortMappings {
    PortMappings {
        input: input
            .into_iter()
            .map(|(n, i)| PinEntry { name: n.to_string(), index: i })
            .collect(),
        output: output
            .into_iter()
            .map(|(n, i)| PinEntry { name: n.to_string(), index: i })
            .collect(),
    }
}

fn constraint(name: &str, position: &str) -> ConstraintPort {
    ConstraintPort { name: name.to_string(), port_name: position.to_string() }
}

#[test]
fn test_new_port_resolution() {
    let m = mapping(vec![("I0", 5)], vec![("O0", 9)]);
    // input table wins, index taken as is
    let p = new_port(constraint("clk", "I0"), m.clone());
    assert_eq!(p.name, "clk");
    assert_eq!(p.pin_name, "I0");
    assert_eq!(p.pin_index, 5);
    assert_eq!(p.value, false);
    // output table: the vendor's numbering is off by one
    let p = new_port(constraint("led", "O0"), m.clone());
    assert_eq!(p.pin_index, 8);
    // unmapped: the -1 sentinel
    let p = new_port(constraint("nc", "XX"), m);
    assert_eq!(p.pin_index, -1);
}

#[test]
fn test_array_base() {
    assert_eq!(array_base("lcd_db[3]"), Some("lcd_db".to_string()));
    assert_eq!(array_base("data[15]"), Some("data".to_string()));
    assert_eq!(array_base("clk"), None);
    assert_eq!(array_base("a[b]"), None);
    assert_eq!(array_base("[3]"), None);
    assert_eq!(array_base("x[]"), None);
    assert_eq!(array_base("x[3"), None);
    assert_eq!(array_base("x[3]y"), None);
}

#[test]
fn test_grouping_lcd_db_and_clk() {
    // lcd_db[0]..lcd_db[7] group into one IOPort of 8 Ports in file order;
    // clk makes a singleton group
    let mut input = Vec::new();
    for i in 0..8 {
        input.push((format!("L{}", i), i as i32));
    }
    let input_refs: Vec<(&str, i32)> = input.iter().map(|(n, i)| (n.as_str(), *i)).collect();
    let m = mapping(input_refs, vec![("OC", 20)]);
    let mut ports: Vec<Port> = Vec::new();
    for i in 0..8 {
        ports.push(new_port(
            constraint(&format!("lcd_db[{}]", i), &format!("L{}", i)),
            m.clone(),
        ));
    }
    ports.push(new_port(constraint("clk", "OC"), m.clone()));
    let grouped = group_ports(&ports, m);
    assert_eq!(grouped.len(), 2);
    assert_eq!(grouped[0].io_name, "lcd_db");
    assert_eq!(grouped[0].ports.len(), 8);
    for i in 0..8 {
        assert_eq!(grouped[0].ports[i].name, format!("lcd_db[{}]", i));
        assert_eq!(grouped[0].ports[i].pin_index, i as i64);
    }
    assert_eq!(grouped[0].io_type, IOType::INPUT);
    assert_eq!(grouped[1].io_name, "clk");
    assert_eq!(grouped[1].ports.len(), 1);
    assert_eq!(grouped[1].io_type, IOType::OUTPUT);
}

#[test]
fn test_unmapped_signal_skip() {
    // an unmapped Port resolves to -1, survives grouping, and contributes
    // nothing to either direction of the transform
    let m = mapping(vec![("I0", 0), ("I1", 1)], vec![]);
    let ports = vec![
        new_port(constraint("d[0]", "I0"), m.clone()),
        new_port(constraint("d[1]", "NOPE"), m.clone()),
        new_port(constraint("d[2]", "I1"), m.clone()),
    ];
    assert_eq!(ports[1].pin_index, -1);
    let grouped = group_ports(&ports, m);
    assert_eq!(grouped.len(), 1);
    let mut g = grouped.into_iter().next().unwrap();
    g.update(0xffff_ffff_ffff_ffff).unwrap();
    // the unmapped bit keeps value false and adds nothing to data
    assert_eq!(g.ports[1].value, false);
    assert_eq!(g.data, 0b11);
    assert_eq!(g.get_write().unwrap(), 0b11);
}

#[test]
fn test_update_and_round_trip() {
    let m = mapping(vec![("I0", 4), ("I1", 5), ("I2", 6)], vec![]);
    let ports = vec![
        new_port(constraint("v[0]", "I0"), m.clone()),
        new_port(constraint("v[1]", "I1"), m.clone()),
        new_port(constraint("v[2]", "I2"), m.clone()),
    ];
    let mut g = group_ports(&ports, m).into_iter().next().unwrap();
    let w: u64 = 0b101_0000;
    g.update(w).unwrap();
    assert_eq!(g.data, 0b101);
    assert_eq!(g.ports[0].value, true);
    assert_eq!(g.ports[1].value, false);
    assert_eq!(g.ports[2].value, true);
    // the write word places the values back at the absolute indices, and
    // reading it again reproduces the same state
    let w2 = g.get_write().unwrap();
    assert_eq!(w2, 0b101_0000);
    let data_before = g.data;
    g.update(w2).unwrap();
    assert_eq!(g.data, data_before);
    assert_eq!(g.ports[0].value, true);
    assert_eq!(g.ports[1].value, false);
    assert_eq!(g.ports[2].value, true);
}

#[test]
fn test_change_value_packs_relative_bits() {
    let m = mapping(vec![("I0", 8), ("I1", 9), ("I2", 10)], vec![]);
    let ports = vec![
        new_port(constraint("v[0]", "I0"), m.clone()),
        new_port(constraint("v[1]", "I1"), m.clone()),
        new_port(constraint("v[2]", "I2"), m.clone()),
    ];
    let mut g = group_ports(&ports, m).into_iter().next().unwrap();
    g.change_value(0b110).unwrap();
    assert_eq!(g.data, 0b110);
    assert_eq!(g.ports[0].value, false);
    assert_eq!(g.ports[1].value, true);
    assert_eq!(g.ports[2].value, true);
    assert_eq!(g.get_write().unwrap(), 0b110 << 8);
}

#[test]
fn test_update_rejects_out_of_range_index() {
    let ports = vec![Port {
        name: "x".to_string(),
        pin_name: "P".to_string(),
        pin_index: 64,
        value: false,
    }];
    let mut g = IOPort::new(IOType::INPUT, "x".to_string(), ports);
    assert_eq!(g.update(1), Err(FdeError::RangeError));
    assert_eq!(g.change_value(1), Err(FdeError::RangeError));
    assert_eq!(g.get_write(), Err(FdeError::RangeError));
    // nothing changed
    assert_eq!(g.data, 0);
    assert_eq!(g.ports[0].value, false);
}

#[test]
fn test_u16_4_to_u64() {
    let buf: [u16; 4] = [0x0600, 0x0000, 0x1400, 0x0028];
    assert_eq!(u16_4_to_u64(&buf), 0x0600_0000_1400_0028);
    assert_eq!(u16_4_to_u64_rev(&buf), 0x0028_1400_0000_0600);
}

#[test]
fn test_io_type_as_str() {
    assert_eq!(IOType::DC.as_str(), "DC");
    assert_eq!(IOType::INPUT.as_str(), "INPUT");
    assert_eq!(IOType::OUTPUT.as_str(), "OUTPUT");
}

#[test]
fn test_table_rows_skip_dc() {
    let mk = |name: &str, io_type: IOType, data: u64| IOPort {
        io_type,
        io_name: name.to_string(),
        ports: Vec::new(),
        data,
    };
    let io_ports = vec![
        mk("a", IOType::INPUT, 1),
        mk("b", IOType::DC, 2),
        mk("c", IOType::OUTPUT, 3),
    ];
    let rows = IOPortsTable::from_io(&io_ports);
    assert_eq!(rows.len(), 2);
    assert_eq!(rows[0].port_name, "a");
    assert_eq!(rows[0].io_type, IOType::INPUT);
    assert_eq!(rows[0].data, 1);
    assert_eq!(rows[1].port_name, "c");
    assert_eq!(rows[1].data, 3);
}

#[test]
fn test_ports() {
    let json = r#"{
        "input": {"p_clk": 0, "LCD0": 1},
        "output": {"led": 3}
    }"#;
    let result = parse_ports(json);
    assert!(result.is_ok(), "Expected valid JSON to be parsed successfully");
    let port_mappings = result.unwrap();
    println!("{:?}", port_mappings.input);
    println!("{:?}", port_mappings.output);
    // serde_json keeps object entries in sorted key order
    assert_eq!(port_mappings.input.len(), 2);
    assert_eq!(port_mappings.output.len(), 1);
    assert_eq!(port_mappings.output[0].name, "led");
    assert_eq!(port_mappings.output[0].index, 3);
}

#[test]
fn test_parse_ports_errors() {
    assert_eq!(parse_ports("not json").unwrap_err(), FdeError::FormatError);
    assert_eq!(parse_ports("{\"input\": {}}").unwrap_err(), FdeError::FormatError);
    assert_eq!(parse_ports("{\"input\": {}, \"output\": 3}").unwrap_err(), FdeError::FormatError);
    assert_eq!(
        parse_ports("{\"input\": {\"a\": \"x\"}, \"output\": {}}").unwrap_err(),
        FdeError::FormatError
    );
    assert_eq!(
        parse_ports("{\"input\": {\"a\": 4294967296}, \"output\": {}}").unwrap_err(),
        FdeError::FormatError
    );
    // extra top-level fields are tolerated
    assert!(parse_ports("{\"input\": {}, \"output\": {}, \"note\": 1}").is_ok());
}

#[test]
fn test_error_kinds_are_distinct() {
    let kinds = [
        FdeError::IoError,
        FdeError::FormatError,
        FdeError::InvalidCharacter { ch: b'G', line: 1, column: 3 },
        FdeError::RangeError,
    ];
    for (i, a) in kinds.iter().enumerate() {
        for (j, b) in kinds.iter().enumerate() {
            assert_eq!(i == j, a == b);
        }
    }
}
