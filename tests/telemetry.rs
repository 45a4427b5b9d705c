use tello::state::{parse_decimal, parse_i32, parse_u32, Decimal, TelemetryError, TelloState};

const RECORD: &str = "mid:-1;x:100;y:-50;z:30;mpry:1,2,3;pitch:10;roll:-5;yaw:20;vgx:0;vgy:0;vgz:0;templ:60;temph:65;tof:80;h:100;bat:87;baro:12.3;time:42;agx:0.1;agy:-0.2;agz:9.8;";

fn chars(s: &str) -> Vec<char> {
    s.chars().collect()
}

fn decimal_value(d: &Decimal) -> f64 {
    let mut text = String::new();
    if d.negative {
        text.push('-');
    }
    for digit in &d.whole {
        text.push((b'0' + digit) as char);
    }
    text.push('.');
    for digit in &d.fraction {
        text.push((b'0' + digit) as char);
    }
    if d.whole.is_empty() {
        text.insert(if d.negative { 1 } else { 0 }, '0');
    }
    text.parse().unwrap()
}

#[test]
fn record_parses_field_by_field() {
    let st = TelloState::new(RECORD).unwrap();
    assert_eq!(st.bat, 87);
    assert_eq!(st.h, 100);
    assert_eq!(decimal_value(&st.baro), 12.3);
    assert_eq!(st.time, 42);
    assert_eq!(st.mid, -1);
    assert_eq!(st.xyz, [100, -50, 30]);
    assert_eq!(st.mpry, [1, 2, 3]);
    assert_eq!((st.pitch, st.roll, st.yaw), (10, -5, 20));
    assert_eq!(st.vg, [0, 0, 0]);
    assert_eq!(st.temp, [60, 65]);
    assert_eq!(st.tof, 80);
    assert_eq!(decimal_value(&st.ag[0]), 0.1);
    assert_eq!(decimal_value(&st.ag[1]), -0.2);
    assert_eq!(decimal_value(&st.ag[2]), 9.8);
}

#[test]
fn decimal_keeps_sign_and_digits() {
    let st = TelloState::new(RECORD).unwrap();
    assert_eq!(st.baro, Decimal { negative: false, whole: vec![1, 2], fraction: vec![3] });
    assert_eq!(st.ag[1], Decimal { negative: true, whole: vec![0], fraction: vec![2] });
}

#[test]
fn trailing_line_break_is_ignored() {
    let text = format!("{}\r\n", RECORD);
    assert_eq!(TelloState::new(&text), TelloState::new(RECORD));
}

#[test]
fn short_record_is_rejected() {
    assert_eq!(TelloState::new("mid:-1;x:100;y:-50"), Err(TelemetryError::MissingFields));
    assert_eq!(TelloState::new(""), Err(TelemetryError::MissingFields));
}

#[test]
fn malformed_field_is_named() {
    let text = RECORD.replace("bat:87", "bat:-87");
    assert_eq!(TelloState::new(&text), Err(TelemetryError::MalformedField(15)));
    let text = RECORD.replace("h:100", "h:");
    assert_eq!(TelloState::new(&text), Err(TelemetryError::MalformedField(14)));
    let text = RECORD.replace("baro:12.3", "baro:1.2.3");
    assert_eq!(TelloState::new(&text), Err(TelemetryError::MalformedField(16)));
}

#[test]
fn first_malformed_field_is_named() {
    let text = RECORD.replace("x:100", "x:1-0").replace("time:42", "time:4.2");
    assert_eq!(TelloState::new(&text), Err(TelemetryError::MalformedField(1)));
}

#[test]
fn attitude_needs_three_numbers() {
    let text = RECORD.replace("mpry:1,2,3", "mpry:1,2");
    assert_eq!(TelloState::new(&text), Err(TelemetryError::MalformedField(4)));
    let text = RECORD.replace("mpry:1,2,3", "mpry:1,2,3,4");
    assert_eq!(TelloState::new(&text), Err(TelemetryError::MalformedField(4)));
}

#[test]
fn comma_in_an_integer_field_is_malformed() {
    let text = RECORD.replace("tof:80", "tof:8,0");
    assert_eq!(TelloState::new(&text), Err(TelemetryError::MalformedField(13)));
}

#[test]
fn letters_inside_a_number_are_stripped() {
    let text = RECORD.replace("tof:80", "tof:8cm0");
    assert_eq!(TelloState::new(&text).unwrap().tof, 80);
}

#[test]
fn integers_read_as_std_reads_them() {
    assert_eq!(parse_i32(&chars("2147483647")), Some(i32::MAX));
    assert_eq!(parse_i32(&chars("-2147483648")), Some(i32::MIN));
    assert_eq!(parse_i32(&chars("2147483648")), None);
    assert_eq!(parse_i32(&chars("-2147483649")), None);
    assert_eq!(parse_i32(&chars("007")), Some(7));
    assert_eq!(parse_i32(&chars("-0")), Some(0));
    assert_eq!(parse_i32(&chars("-")), None);
    assert_eq!(parse_i32(&chars("")), None);
    assert_eq!(parse_i32(&chars("1.5")), None);
    assert_eq!(parse_i32(&chars("99999999999999999999")), None);
    assert_eq!(parse_u32(&chars("4294967295")), Some(u32::MAX));
    assert_eq!(parse_u32(&chars("4294967296")), None);
    assert_eq!(parse_u32(&chars("-1")), None);
}

#[test]
fn decimals_read_as_std_reads_them() {
    let d = |neg: bool, w: Vec<u8>, f: Vec<u8>| Some(Decimal { negative: neg, whole: w, fraction: f });
    assert_eq!(parse_decimal(&chars("12.3")), d(false, vec![1, 2], vec![3]));
    assert_eq!(parse_decimal(&chars("-.5")), d(true, vec![], vec![5]));
    assert_eq!(parse_decimal(&chars("5.")), d(false, vec![5], vec![]));
    assert_eq!(parse_decimal(&chars("42")), d(false, vec![4, 2], vec![]));
    assert_eq!(parse_decimal(&chars(".")), None);
    assert_eq!(parse_decimal(&chars("-")), None);
    assert_eq!(parse_decimal(&chars("")), None);
    assert_eq!(parse_decimal(&chars("1,5")), None);
    assert_eq!(parse_decimal(&chars("1-5")), None);
    for text in ["12.3", "-.5", "5.", "42", "0.001"] {
        let parsed = parse_decimal(&chars(text)).unwrap();
        assert_eq!(decimal_value(&parsed), text.parse::<f64>().unwrap());
    }
}
