use sensord::decimal::{parse_millis, parse_reading, ParseError};
use sensord::publish::{
    ambient_line, energy_line, Metric, Publisher, PublisherAction, AMBIENT_PERIOD_MS,
    ENERGY_PERIOD_MS,
};
use sensord::sampler::PowerSampler;
use sensord::sensor::{humidity_path, temp_path, PowerSensor, SensorError, TemperatureSensor};

#[test]
fn reading_parses_signed_integers() {
    assert_eq!(parse_reading("21500\n"), Ok(21500));
    assert_eq!(parse_reading("-42"), Ok(-42));
    assert_eq!(parse_reading("+7 \t\n"), Ok(7));
    assert_eq!(parse_reading("-2147483648"), Ok(i32::MIN));
    assert_eq!(parse_reading("2147483647\n"), Ok(i32::MAX));
}

#[test]
fn reading_rejects_malformed_text() {
    assert_eq!(parse_reading(""), Err(ParseError));
    assert_eq!(parse_reading("\n"), Err(ParseError));
    assert_eq!(parse_reading("abc"), Err(ParseError));
    assert_eq!(parse_reading(" 5"), Err(ParseError));
    assert_eq!(parse_reading("-"), Err(ParseError));
    assert_eq!(parse_reading("12x4"), Err(ParseError));
    assert_eq!(parse_reading("2147483648"), Err(ParseError));
    assert_eq!(parse_reading("-2147483649"), Err(ParseError));
}

#[test]
fn millis_parse_as_unsigned() {
    assert_eq!(parse_millis("10"), Ok(10));
    assert_eq!(parse_millis("+250"), Ok(250));
    assert_eq!(parse_millis("18446744073709551615"), Ok(u64::MAX));
    assert_eq!(parse_millis("18446744073709551616"), Err(ParseError));
    assert_eq!(parse_millis("-1"), Err(ParseError));
    assert_eq!(parse_millis("10\n"), Err(ParseError));
    assert_eq!(parse_millis(""), Err(ParseError));
}

#[test]
fn five_watts_for_one_second_is_five_joules() {
    let mut sampler = PowerSampler::new(0);
    let mut power = PowerSensor::new();
    let mut total: u128 = 0;
    for k in 1..=100u64 {
        let elapsed = sampler.tick(k * 10_000_000);
        assert_eq!(elapsed, 10_000_000);
        total += power.read("5000000\n", elapsed).unwrap();
    }
    assert_eq!(power.energy_fj(), 5_000_000_000_000_000);
    assert_eq!(total, power.energy_fj());
    assert_eq!(power.power_uw(), 5_000_000);
    assert_eq!(energy_line(&power), b"energy=5.000\n".to_vec());
}

#[test]
fn constant_power_integrates_over_wall_clock_time() {
    let mut sampler = PowerSampler::new(1_000);
    let mut power = PowerSensor::new();
    for now in [9_000u64, 21_500, 30_000, 41_000] {
        let elapsed = sampler.tick(now);
        power.sample(2_000, elapsed).unwrap();
    }
    assert_eq!(power.energy_fj(), 2_000 * (41_000 - 1_000));
}

#[test]
fn clock_stepping_back_gives_no_time() {
    let mut sampler = PowerSampler::new(500);
    assert_eq!(sampler.tick(400), 0);
    assert_eq!(sampler.tick(700), 300);
}

#[test]
fn sample_returns_the_increment() {
    let mut power = PowerSensor::new();
    assert_eq!(power.sample(3, 7), Ok(21));
    assert_eq!(power.sample(0, 1_000), Ok(0));
    assert_eq!(power.energy_fj(), 21);
    assert_eq!(power.power_uw(), 0);
}

#[test]
fn power_errors_leave_the_sensor_unchanged() {
    let mut power = PowerSensor::new();
    power.sample(10, 10).unwrap();
    assert_eq!(power.read("oops\n", 5), Err(SensorError::Parse));
    assert_eq!(power.read("-5\n", 5), Err(SensorError::NegativePower));
    assert_eq!(power.sample(-1, 5), Err(SensorError::NegativePower));
    assert_eq!(power.energy_fj(), 100);
    assert_eq!(power.power_uw(), 10);
}

#[test]
fn energy_line_rounds_to_millijoules() {
    let mut power = PowerSensor::new();
    assert_eq!(energy_line(&power), b"energy=0.000\n".to_vec());
    power.sample(1, 499_999_999_999).unwrap();
    assert_eq!(energy_line(&power), b"energy=0.000\n".to_vec());
    power.sample(1, 1).unwrap();
    assert_eq!(energy_line(&power), b"energy=0.001\n".to_vec());
    power.sample(1_000_000, 12_345_000_000).unwrap();
    assert_eq!(energy_line(&power), b"energy=12.346\n".to_vec());
}

#[test]
fn ambient_temperature_line() {
    let mut temp = TemperatureSensor::new();
    assert_eq!(temp.read("21500\n", "45250\n"), Ok(()));
    assert_eq!(temp.temp_milli_celsius(), Some(21500));
    assert_eq!(temp.humidity_milli_percent(), Some(45250));
    assert_eq!(ambient_line(&temp), b"ambient=21.5\n".to_vec());
}

#[test]
fn ambient_line_is_the_shortest_decimal() {
    let cases: [(&str, &[u8]); 7] = [
        ("3000", b"ambient=3\n"),
        ("0", b"ambient=0\n"),
        ("-500", b"ambient=-0.5\n"),
        ("21050", b"ambient=21.05\n"),
        ("21005", b"ambient=21.005\n"),
        ("-12345", b"ambient=-12.345\n"),
        ("-2147483648", b"ambient=-2147483.648\n"),
    ];
    for (text, line) in cases {
        let mut temp = TemperatureSensor::new();
        temp.read(text, "0").unwrap();
        assert_eq!(ambient_line(&temp), line.to_vec());
    }
}

#[test]
fn ambient_line_before_any_read_is_nan() {
    let temp = TemperatureSensor::new();
    assert_eq!(temp.temp_milli_celsius(), None);
    assert_eq!(ambient_line(&temp), b"ambient=NaN\n".to_vec());
}

#[test]
fn temperature_read_keeps_nothing_on_error() {
    let mut temp = TemperatureSensor::new();
    temp.read("20000", "50000").unwrap();
    assert_eq!(temp.read("21000", "wet"), Err(SensorError::Parse));
    assert_eq!(temp.read("warm", "51000"), Err(SensorError::Parse));
    assert_eq!(temp.temp_milli_celsius(), Some(20000));
    assert_eq!(temp.humidity_milli_percent(), Some(50000));
}

#[test]
fn publisher_waits_its_period_and_stops_on_failure() {
    let mut energy = Publisher::new(Metric::Energy);
    let mut ambient = Publisher::new(Metric::Ambient);
    assert_eq!(energy.on_write(true), PublisherAction::Wait(ENERGY_PERIOD_MS));
    assert_eq!(ENERGY_PERIOD_MS, 250);
    assert_eq!(ambient.on_write(true), PublisherAction::Wait(AMBIENT_PERIOD_MS));
    assert_eq!(AMBIENT_PERIOD_MS, 10_000);
    assert_eq!(energy.on_write(false), PublisherAction::Stop);
    assert!(!energy.is_connected());
    assert_eq!(energy.on_write(true), PublisherAction::Stop);
    assert!(!energy.is_connected());
    assert_eq!(energy.metric(), Metric::Energy);
    assert!(ambient.is_connected());
    assert_eq!(ambient.on_write(true), PublisherAction::Wait(10_000));
}

#[test]
fn second_client_is_unaffected_by_a_dead_one() {
    let mut dead = Publisher::new(Metric::Energy);
    let mut live = Publisher::new(Metric::Energy);
    assert_eq!(dead.on_write(false), PublisherAction::Stop);
    for _ in 0..5 {
        assert_eq!(live.on_write(true), PublisherAction::Wait(250));
    }
    assert!(live.is_connected());
}

#[test]
fn sensor_file_paths() {
    assert_eq!(temp_path("/sys/dev0"), "/sys/dev0/in_temp_input");
    assert_eq!(humidity_path("/sys/dev0"), "/sys/dev0/in_humidityrelative_input");
}

#[test]
fn negative_power_over_no_time_is_kept() {
    let mut power = PowerSensor::new();
    power.sample(10, 10).unwrap();
    assert_eq!(power.sample(-7, 0), Ok(0));
    assert_eq!(power.power_uw(), -7);
    assert_eq!(power.energy_fj(), 100);
    assert_eq!(power.read("-3\n", 0), Ok(0));
    assert_eq!(power.power_uw(), -3);
    assert_eq!(power.energy_fj(), 100);
    assert_eq!(power.sample(-1, 1), Err(SensorError::NegativePower));
    assert_eq!(power.power_uw(), -3);
}
