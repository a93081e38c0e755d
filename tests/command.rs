use monitor_input::{Cli, Command, Error, split_assignment};

fn parts(arg: &str) -> Vec<String> {
    let (name, value) = split_assignment(arg).unwrap();
    vec![name, value]
}

#[test]
fn re_set() {
    assert_eq!(split_assignment("a").is_some(), false);
    assert_eq!(split_assignment("a=").is_some(), false);
    assert_eq!(split_assignment("=a").is_some(), false);
    assert_eq!(parts("a=b"), vec!["a", "b"]);
    assert_eq!(parts("1=23"), vec!["1", "23"]);
    assert_eq!(parts("12=34"), vec!["12", "34"]);
    assert_eq!(parts("12=3,4"), vec!["12", "3,4"]);
}

#[test]
fn assignment_splits_at_first_equals() {
    assert_eq!(parts("a=b=c"), vec!["a", "b=c"]);
    assert!(split_assignment("a=b\nc").is_none());
    assert_eq!(parts("a\nb=c"), vec!["a\nb", "c"]);
}

#[test]
fn compute_toggle_set_index() {
    assert_eq!(Cli::compute_toggle_set_index(1, &[1, 4, 9]), 1);
    assert_eq!(Cli::compute_toggle_set_index(4, &[1, 4, 9]), 2);
    assert_eq!(Cli::compute_toggle_set_index(9, &[1, 4, 9]), 3);
    assert_eq!(Cli::compute_toggle_set_index(0, &[1, 4, 9]), 0);
    assert_eq!(Cli::compute_toggle_set_index(2, &[1, 4, 9]), 0);
    assert_eq!(Cli::compute_toggle_set_index(10, &[1, 4, 9]), 0);
}

#[test]
fn toggle_index_takes_first_position() {
    assert_eq!(Cli::compute_toggle_set_index(4, &[4, 4, 9]), 1);
    assert_eq!(Cli::compute_toggle_set_index(4, &[]), 0);
}

#[test]
fn parse_lookup() {
    match Command::parse("DeskMonitor").unwrap() {
        Command::Lookup(name) => assert_eq!(name, "DeskMonitor"),
        _ => panic!("expected a lookup"),
    }
    match Command::parse("a=").unwrap() {
        Command::Lookup(name) => assert_eq!(name, "a="),
        _ => panic!("expected a lookup"),
    }
}

#[test]
fn parse_assign() {
    match Command::parse("0=Hdmi1").unwrap() {
        Command::Assign(name, code) => {
            assert_eq!(name, "0");
            assert_eq!(code, 0x11);
        }
        _ => panic!("expected an assignment"),
    }
}

#[test]
fn parse_toggle() {
    match Command::parse("Desk=Hdmi1,UsbC1,27").unwrap() {
        Command::Toggle(name, codes) => {
            assert_eq!(name, "Desk");
            assert_eq!(codes, vec![0x11, 0x19, 27]);
        }
        _ => panic!("expected a toggle"),
    }
}

#[test]
fn parse_reports_first_bad_part() {
    let e = Command::parse("Desk=Hdmi1,nope,bad").err().unwrap();
    assert_eq!(e, Error::InvalidInputSource("nope".to_string()));
    let e = Command::parse("Desk=Hdmi1,").err().unwrap();
    assert_eq!(e, Error::InvalidInputSource("".to_string()));
    let e = Command::parse("Desk=xyz").err().unwrap();
    assert!(e.message().contains("xyz"));
}
