use subnet_calculator::calculator::SubnetCalculatorApp;
use subnet_calculator::window::IpAddrValue;
use subnet_calculator::IpVersion;

#[test]
fn starts_without_windows() {
    let app = SubnetCalculatorApp::default();
    assert!(app.window_store.is_empty());
    assert_eq!(app.label, "Subnet Calculator");
}

#[test]
fn new_calculation_window_adds_a_fresh_unit() {
    let mut app = SubnetCalculatorApp::default();
    app.new_calculation_window();
    assert_eq!(app.window_store.len(), 1);
    let unit = &app.window_store[0].1;
    assert_eq!(unit.ip_version, IpVersion::IPv4);
    assert_eq!(unit.mask, 32);
    assert!(unit.is_window_open);
    assert_eq!(unit.addr_slice_store.slice_a, "");
    assert_eq!(unit.ip_addr, IpAddrValue::V4(0, 0, 0, 0));
}

#[test]
fn closed_window_is_swept_and_stays_absent() {
    let mut app = SubnetCalculatorApp::default();
    app.new_calculation_window();
    app.new_calculation_window();
    app.new_calculation_window();
    assert_eq!(app.window_store.len(), 3);
    let closed_id = app.window_store[1].0;
    app.window_store[1].1.is_window_open = false;
    app.run_refresh_cycle();
    assert_eq!(app.window_store.len(), 2);
    assert!(app.window_store.iter().all(|(id, _)| *id != closed_id));
    app.run_refresh_cycle();
    assert_eq!(app.window_store.len(), 2);
    assert!(app.window_store.iter().all(|(id, _)| *id != closed_id));
}

#[test]
fn refresh_cycle_runs_the_pipeline_on_every_open_unit() {
    let mut app = SubnetCalculatorApp::default();
    app.new_calculation_window();
    app.new_calculation_window();
    {
        let unit = &mut app.window_store[0].1;
        unit.addr_slice_store.slice_a = String::from("299");
        unit.addr_slice_store.slice_b = String::from("168");
        unit.addr_slice_store.slice_c = String::from("1");
        unit.addr_slice_store.slice_d = String::from("1");
        unit.mask = 24;
    }
    {
        let unit = &mut app.window_store[1].1;
        unit.ip_version = IpVersion::IPv6;
        unit.addr_slice_store.slice_a = String::from("GfffX");
        unit.mask = 64;
    }
    app.run_refresh_cycle();

    let first = &app.window_store[0].1;
    assert_eq!(first.addr_slice_store.slice_a, "29");
    assert_eq!(first.ip_addr, IpAddrValue::V4(29, 168, 1, 1));
    assert_eq!(first.mask_slice_store.slice_a, "255");
    assert_eq!(first.mask_slice_store.slice_d, "0");
    assert_eq!(first.wildcard_slice_store.slice_d, "255");

    let second = &app.window_store[1].1;
    assert_eq!(second.addr_slice_store.slice_a, "fff");
    assert_eq!(second.ip_addr, IpAddrValue::V6(0xfff, 0, 0, 0, 0, 0, 0, 0));
    assert_eq!(second.mask_slice_store.slice_a, "ffff");
    assert_eq!(second.mask_slice_store.slice_h, "0000");
    assert_eq!(second.wildcard_slice_store.slice_h, "ffff");
}
