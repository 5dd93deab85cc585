use simple_virtual_assembler::components::connection::Connection;

#[test]
fn test_getting_connected_vms_and_ports_list() {
    let port_ids = Vec::from([
        "R0P0", "0P1", "0P2", "0P3", "1P0", "1P1", "1P2", "1P3", "1P3", //
        "10P3", "9993P3",
    ]);
    let mut connection = Connection::new();
    for id in port_ids.iter() {
        connection.add_port_id(id.to_string());
    }
    let result = connection.get_connected_vms_and_ports('P');
    println!("{:?}", result);
}

#[test]
fn test_getting_ram_ports() {
    let port_ids = Vec::from([
        "R0:data",
        "R1:data",
        "R0:index",
        "R1:data",
        "R2223:data",
        "R999134:index",
        "R22:mode",
    ]);
    let mut connection = Connection::new();
    for id in port_ids.iter() {
        connection.add_port_id(id.to_string());
    }
    let result = connection.get_connected_rams();
    println!("{:?}", result);
}

#[test]
fn connection_listing_parses_ids_exactly() {
    let mut connection = Connection::new_with_id(3);
    assert_eq!(connection.get_id(), Some(3));
    connection.add_port_id("0P1".to_string());
    connection.add_port_id("12P5".to_string());
    connection.add_port_id("R7:data".to_string());
    // a repeated id is recorded once
    connection.add_port_id("0P1".to_string());
    assert_eq!(connection.get_connected_ports_ids().len(), 3);

    let vms = connection.get_connected_vms_and_ports('P');
    assert_eq!(vms, vec![(0, 1), (12, 5)]);

    let rams = connection.get_connected_rams();
    assert_eq!(rams, vec![(7, 1)]);

    connection.remove_port_id("0P1".to_string());
    assert_eq!(connection.get_connected_ports_ids().len(), 2);
    let vms = connection.get_connected_vms_and_ports('P');
    assert_eq!(vms, vec![(12, 5)]);
}

#[test]
fn connection_ram_kinds_map_to_port_indexes() {
    let mut connection = Connection::new();
    connection.add_port_id("R1:index".to_string());
    connection.add_port_id("R2:data".to_string());
    connection.add_port_id("R3:mode".to_string());
    connection.add_port_id("R4:other".to_string());
    let rams = connection.get_connected_rams();
    assert_eq!(rams, vec![(1, 0), (2, 1), (3, 2), (4, 0)]);
}
