use simple_virtual_assembler::components::connection::Connection;
use simple_virtual_assembler::components::port::Port;
use simple_virtual_assembler::components::ram::Ram;

#[test]
fn ram_write_mode_stores_the_data_port() {
    let mut ram = Ram::new();
    let mut index = Connection::new();
    let mut data = Connection::new();
    let mut mode = Connection::new();
    ram.connect_index_port(&mut index);
    ram.connect_data_port(&mut data);
    ram.connect_mode_port(&mut mode);

    let mut index_driver = Port::new(0);
    index_driver.connect(&mut index);
    let mut data_driver = Port::new(0);
    data_driver.connect(&mut data);
    let mut mode_driver = Port::new(0);
    mode_driver.connect(&mut mode);

    index_driver.set(3);
    data_driver.set(41);
    mode_driver.set(0);
    ram.refresh();
    assert_eq!(ram.get_data_ref()[3], 41);
}

#[test]
fn ram_read_mode_drives_the_data_port() {
    let mut ram = Ram::new();
    let mut index = Connection::new();
    let mut data = Connection::new();
    let mut mode = Connection::new();
    ram.connect_index_port(&mut index);
    ram.connect_data_port(&mut data);
    ram.connect_mode_port(&mut mode);

    let mut index_driver = Port::new(0);
    index_driver.connect(&mut index);
    let mut data_driver = Port::new(0);
    data_driver.connect(&mut data);
    let mut mode_driver = Port::new(0);
    mode_driver.connect(&mut mode);

    ram.set_value(5, 123);
    index_driver.set(5);
    mode_driver.set(1);
    ram.refresh();
    assert_eq!(data_driver.get(), 123);
}

#[test]
fn ram_clamps_the_index_to_the_memory() {
    let mut ram = Ram::new().with_size(4);
    // out-of-range index readings land on the last cell; negative ones on
    // the first
    ram.set_value(3, 9);
    let mut index = Connection::new();
    ram.connect_index_port(&mut index);
    let mut index_driver = Port::new(0);
    index_driver.connect(&mut index);

    index_driver.set(100);
    let mut data = Connection::new();
    ram.connect_data_port(&mut data);
    let mut data_driver = Port::new(0);
    data_driver.connect(&mut data);
    let mut mode = Connection::new();
    ram.connect_mode_port(&mut mode);
    let mut mode_driver = Port::new(0);
    mode_driver.connect(&mut mode);
    mode_driver.set(1);
    ram.refresh();
    assert_eq!(data_driver.get(), 9);

    index_driver.set(-5);
    mode_driver.set(0);
    data_driver.set(77);
    ram.refresh();
    assert_eq!(ram.get_data_ref()[0], 77);
}

#[test]
fn ram_builders_and_port_accessors() {
    let mut ram = Ram::new().with_id_and_size(2, 8);
    assert_eq!(ram.get_data_ref().len(), 8);
    let mut p = ram.get_index_port();
    assert_eq!(p.get(), 0);
    let mut p = ram.get_data_port();
    assert_eq!(p.get(), 0);
    let mut p = ram.get_mode_port();
    assert_eq!(p.get(), 0);

    // a write past the memory is silently dropped
    ram.set_value(100, 5);
    assert_eq!(ram.get_data_ref().len(), 8);

    let mut conn = Connection::new();
    ram.connect_data_port(&mut conn);
    ram.disconnect_data_port();
    let mut p = ram.get_data_port();
    assert_eq!(p.get(), 0);

    ram.connect_index_port(&mut conn);
    ram.disconnect_index_port();
    ram.connect_mode_port(&mut conn);
    ram.disconnect_mode_port();
}
