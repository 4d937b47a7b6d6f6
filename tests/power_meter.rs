use current_sweep::meter::{MeterError, PowerUnit, MPM210H};

fn text(b: Vec<u8>) -> String {
    String::from_utf8(b).unwrap()
}

#[test]
fn unit_codes() {
    assert_eq!(PowerUnit::DBm.to_command_value(), "0");
    assert_eq!(PowerUnit::MW.to_command_value(), "1");
    let m = MPM210H::new();
    assert_eq!(text(m.set_power_unit(PowerUnit::MW)), "UNIT 1\n");
    assert_eq!(text(m.set_power_unit(PowerUnit::DBm)), "UNIT 0\n");
}

#[test]
fn module_range() {
    let mut m = MPM210H::new();
    assert_eq!(m.set_module(4), Ok(()));
    assert_eq!(m.module, 4);
    assert_eq!(m.set_module(5), Err(MeterError::InvalidInput));
    assert_eq!(m.module, 4);
    assert_eq!(m.set_module(0), Ok(()));
}

#[test]
fn port_range() {
    let mut m = MPM210H::new();
    assert_eq!(m.port, 1);
    assert_eq!(m.set_port(0), Err(MeterError::InvalidInput));
    assert_eq!(m.set_port(5), Err(MeterError::InvalidInput));
    assert_eq!(m.port, 1);
    assert_eq!(m.set_port(4), Ok(()));
    assert_eq!(m.port, 4);
}

#[test]
fn wavelength_command() {
    let mut m = MPM210H::new();
    m.set_module(2).unwrap();
    m.set_port(3).unwrap();
    assert_eq!(text(m.set_wavelength(1_550_000).unwrap()), "DWAV 2,3,1550.000\n");
    assert_eq!(text(m.set_wavelength(1_250_000).unwrap()), "DWAV 2,3,1250.000\n");
    assert_eq!(text(m.set_wavelength(1_310_125).unwrap()), "DWAV 2,3,1310.125\n");
    assert_eq!(m.set_wavelength(1_249_999), Err(MeterError::InvalidInput));
    assert_eq!(m.set_wavelength(1_630_001), Err(MeterError::InvalidInput));
}

#[test]
fn measurement_modes() {
    let m = MPM210H::new();
    for mode in ["CONST1", "CONST2", "SWEEP1", "SWEEP2", "FREERUN"] {
        assert_eq!(text(m.set_measurement_mode(mode.as_bytes()).unwrap()), format!("WMOD {}\n", mode));
    }
    assert_eq!(m.set_measurement_mode(b"CONST3"), Err(MeterError::InvalidInput));
    assert_eq!(m.set_measurement_mode(b"const1"), Err(MeterError::InvalidInput));
    assert_eq!(m.set_measurement_mode(b""), Err(MeterError::InvalidInput));
}

#[test]
fn averaging_time_command() {
    let m = MPM210H::new();
    assert_eq!(text(m.set_averaging_time(1).unwrap()), "AVG 0.01\n");
    assert_eq!(text(m.set_averaging_time(1_000_000).unwrap()), "AVG 10000.00\n");
    assert_eq!(text(m.set_averaging_time(250).unwrap()), "AVG 2.50\n");
    assert_eq!(m.set_averaging_time(0), Err(MeterError::InvalidInput));
    assert_eq!(m.set_averaging_time(1_000_001), Err(MeterError::InvalidInput));
}

#[test]
fn fixed_queries() {
    assert_eq!(text(MPM210H::identity_query()), "*IDN?\n");
    assert_eq!(text(MPM210H::zero()), "ZERO\n");
    assert_eq!(text(MPM210H::check_errors()), "ERR?\n");
    let mut m = MPM210H::new();
    m.set_module(3).unwrap();
    assert_eq!(text(m.read_power()), "READ? 3\n");
}

#[test]
fn power_field_of_port() {
    let mut m = MPM210H::new();
    assert_eq!(m.power_field(b"-10.5,-20.1,-30.2,-40.3\r\n").unwrap(), b"-10.5".to_vec());
    m.set_port(3).unwrap();
    assert_eq!(m.power_field(b"-10.5,-20.1,-30.2,-40.3\r\n").unwrap(), b"-30.2".to_vec());
    m.set_port(4).unwrap();
    assert_eq!(m.power_field(b"-10.5,-20.1"), Err(MeterError::InvalidData));
}
