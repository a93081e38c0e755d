use monitor_input::{Error, InputSource};
use std::str::FromStr;

const NAMED: [InputSource; 6] = [
    InputSource::DisplayPort1,
    InputSource::DisplayPort2,
    InputSource::Hdmi1,
    InputSource::Hdmi2,
    InputSource::UsbC1,
    InputSource::UsbC2,
];

#[test]
fn input_source_from_str() {
    assert_eq!(InputSource::from_str("Hdmi1"), Ok(InputSource::Hdmi1));
    assert_eq!(InputSource::from_str("hdmi1"), Ok(InputSource::Hdmi1));
    assert_eq!(InputSource::from_str("HDMI1"), Ok(InputSource::Hdmi1));
    assert_eq!(InputSource::from_str("DP1"), Ok(InputSource::DisplayPort1));
    assert_eq!(InputSource::from_str("dp2"), Ok(InputSource::DisplayPort2));
    assert!(InputSource::from_str("xyz").is_err());
}

#[test]
fn as_raw_codes() {
    assert_eq!(InputSource::Hdmi1.as_raw(), 17);
    assert_eq!(InputSource::DisplayPort1.as_raw(), 0x0F);
    assert_eq!(InputSource::DisplayPort2.as_raw(), 0x10);
    assert_eq!(InputSource::Hdmi2.as_raw(), 0x12);
    assert_eq!(InputSource::UsbC1.as_raw(), 0x19);
    assert_eq!(InputSource::UsbC2.as_raw(), 0x1B);
}

#[test]
fn raw_from_str_names_and_numbers() {
    assert_eq!(InputSource::raw_from_str("Hdmi1").unwrap(), InputSource::Hdmi1.as_raw());
    assert_eq!(InputSource::raw_from_str("27").unwrap(), 27);
    assert_eq!(InputSource::raw_from_str("0").unwrap(), 0);
    assert_eq!(InputSource::raw_from_str("255").unwrap(), 255);
    assert_eq!(InputSource::raw_from_str("+7").unwrap(), 7);
    assert_eq!(InputSource::raw_from_str("0017").unwrap(), 17);
    assert_eq!(InputSource::raw_from_str("usbc2").unwrap(), 0x1B);
}

#[test]
fn raw_from_str_rejects_xyz_with_its_text() {
    let e = InputSource::raw_from_str("xyz").unwrap_err();
    assert_eq!(e, Error::InvalidInputSource("xyz".to_string()));
    assert!(e.message().contains("xyz"));
    assert_eq!(e.message(), "\"xyz\" is not a valid input source");
}

#[test]
fn raw_from_str_rejects_out_of_range_and_odd_text() {
    assert!(InputSource::raw_from_str("256").is_err());
    assert!(InputSource::raw_from_str("-1").is_err());
    assert!(InputSource::raw_from_str("").is_err());
    assert!(InputSource::raw_from_str("+").is_err());
    assert!(InputSource::raw_from_str("DisplayPort1").is_err());
    assert!(InputSource::raw_from_str("Hdmi1 ").is_err());
}

#[test]
fn str_from_raw_names_and_decimals() {
    assert_eq!(InputSource::str_from_raw(InputSource::Hdmi1.as_raw()), "Hdmi1");
    assert_eq!(InputSource::str_from_raw(17), "Hdmi1");
    assert_eq!(InputSource::str_from_raw(0x0F), "DP1");
    assert_eq!(InputSource::str_from_raw(255), "255");
    assert_eq!(InputSource::str_from_raw(0), "0");
    assert_eq!(InputSource::str_from_raw(9), "9");
    assert_eq!(InputSource::str_from_raw(100), "100");
}

#[test]
fn named_codes_round_trip() {
    for v in NAMED {
        let text = InputSource::str_from_raw(v.as_raw());
        assert_eq!(InputSource::raw_from_str(&text).unwrap(), v.as_raw());
        assert_eq!(InputSource::from_raw(v.as_raw()), Some(v));
    }
}

#[test]
fn unnamed_codes_round_trip_as_decimal() {
    for v in 0..=255u8 {
        if InputSource::from_raw(v).is_none() {
            let text = InputSource::str_from_raw(v);
            assert_eq!(text, v.to_string());
            assert_eq!(InputSource::raw_from_str(&text).unwrap(), v);
        }
    }
}

#[test]
fn names_ignore_ascii_case() {
    let a = InputSource::raw_from_str("HDMI1").unwrap();
    let b = InputSource::raw_from_str("hdmi1").unwrap();
    let c = InputSource::raw_from_str("Hdmi1").unwrap();
    assert_eq!(a, b);
    assert_eq!(b, c);
    assert_eq!(InputSource::raw_from_str("uSbC1").unwrap(), 0x19);
}
