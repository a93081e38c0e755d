use monitor_input::{Cli, Error, Monitor, Reply, Request};

struct Hardware {
    current: Vec<u8>,
    fail_reads: bool,
    fail_writes: bool,
    writes: Vec<(usize, u8)>,
    dry_writes: Vec<(usize, u8)>,
    sleeps: Vec<usize>,
    capabilities: Vec<usize>,
    printed: Vec<String>,
}

impl Hardware {
    fn new(current: Vec<u8>) -> Hardware {
        let n = current.len();
        Hardware {
            current,
            fail_reads: false,
            fail_writes: false,
            writes: Vec::new(),
            dry_writes: Vec::new(),
            sleeps: vec![0; n],
            capabilities: vec![0; n],
            printed: Vec::new(),
        }
    }

    fn run(&mut self, cli: &mut Cli) -> Result<(), Error> {
        let mut request = cli.start();
        loop {
            let reply = match request {
                Request::UpdateCapabilities { device } => {
                    self.capabilities[device] += 1;
                    Reply::Done
                }
                Request::ReadInputSource { device } => {
                    if self.fail_reads {
                        Reply::InputSource(Err("read failed".to_string()))
                    } else {
                        Reply::InputSource(Ok(self.current[device]))
                    }
                }
                Request::SetInputSource { device, value } => {
                    if self.fail_writes {
                        Reply::Written(Err("write failed".to_string()))
                    } else {
                        self.current[device] = value;
                        self.writes.push((device, value));
                        Reply::Written(Ok(()))
                    }
                }
                Request::DryRunInputSource { device, value } => {
                    self.dry_writes.push((device, value));
                    Reply::Done
                }
                Request::Describe { device } => Reply::Description {
                    current: Ok(self.current[device]),
                    sources: None,
                    model: None,
                },
                Request::Print(line) => {
                    self.printed.push(line);
                    Reply::Done
                }
                Request::Sleep { device } => {
                    self.sleeps[device] += 1;
                    Reply::Done
                }
                Request::Finished(result) => return result,
            };
            assert!(cli.accepts(&reply));
            request = cli.resume(reply);
        }
    }
}

fn cli_with(ids: &[(&str, &str)], args: &[&str]) -> Cli {
    let mut cli = Cli::new();
    for (i, (id, backend)) in ids.iter().enumerate() {
        cli.monitors.push(Monitor::new(i, id.to_string(), backend.to_string()));
    }
    cli.args = args.iter().map(|a| a.to_string()).collect();
    cli
}

const THREE: [(&str, &str); 3] = [("DeskMonitor A", "i2c-dev"), ("Side", "winapi"), ("DeskMonitor B", "i2c-dev")];

#[test]
fn no_arguments_describe_every_monitor() {
    let mut cli = cli_with(&THREE, &[]);
    let mut hw = Hardware::new(vec![0x11, 0x0F, 0x42]);
    assert_eq!(hw.run(&mut cli), Ok(()));
    assert_eq!(hw.printed.len(), 3);
    assert!(hw.printed[0].starts_with("0: DeskMonitor A"));
    assert!(hw.printed[1].starts_with("1: Side"));
    assert!(hw.printed[2].starts_with("2: DeskMonitor B"));
    assert_eq!(
        hw.printed[0],
        "0: DeskMonitor A\n    Input Source: Hdmi1\n    Backend: i2c-dev"
    );
    assert_eq!(hw.printed[2], "2: DeskMonitor B\n    Input Source: 66\n    Backend: i2c-dev");
    assert!(hw.writes.is_empty());
    assert_eq!(hw.sleeps, vec![0, 0, 0]);
}

#[test]
fn index_assignment_writes_and_settles_once() {
    let mut cli = cli_with(&THREE, &["0=Hdmi1"]);
    let mut hw = Hardware::new(vec![0x0F, 0x0F, 0x0F]);
    assert_eq!(hw.run(&mut cli), Ok(()));
    assert_eq!(hw.writes, vec![(0, 0x11)]);
    assert_eq!(hw.sleeps, vec![1, 0, 0]);
}

#[test]
fn repeated_writes_settle_once() {
    let mut cli = cli_with(&THREE, &["0=Hdmi1", "0=UsbC1"]);
    let mut hw = Hardware::new(vec![0x0F, 0x0F, 0x0F]);
    assert_eq!(hw.run(&mut cli), Ok(()));
    assert_eq!(hw.writes, vec![(0, 0x11), (0, 0x19)]);
    assert_eq!(hw.sleeps, vec![1, 0, 0]);
}

#[test]
fn toggle_reuses_the_first_monitors_position() {
    let mut cli = cli_with(&THREE, &["DeskMonitor=Hdmi1,UsbC1"]);
    let mut hw = Hardware::new(vec![0x11, 0x0F, 0x0F]);
    assert_eq!(hw.run(&mut cli), Ok(()));
    assert_eq!(hw.writes, vec![(0, 0x19), (2, 0x19)]);
    assert_eq!(hw.sleeps, vec![1, 0, 1]);
}

#[test]
fn toggle_past_the_end_picks_the_last() {
    let mut cli = cli_with(&THREE, &["Side=Hdmi1,UsbC1"]);
    let mut hw = Hardware::new(vec![0x11, 0x19, 0x11]);
    assert_eq!(hw.run(&mut cli), Ok(()));
    assert_eq!(hw.writes, vec![(1, 0x19)]);
}

#[test]
fn toggle_from_an_unlisted_code_picks_the_first() {
    let mut cli = cli_with(&THREE, &["Side=Hdmi1,UsbC1"]);
    let mut hw = Hardware::new(vec![0x11, 0x0F, 0x11]);
    assert_eq!(hw.run(&mut cli), Ok(()));
    assert_eq!(hw.writes, vec![(1, 0x11)]);
}

#[test]
fn unmatched_lookup_fails_with_the_token() {
    let mut cli = cli_with(&THREE, &["Nope"]);
    let mut hw = Hardware::new(vec![0x11, 0x0F, 0x11]);
    let e = hw.run(&mut cli).unwrap_err();
    assert_eq!(e, Error::NoMatch("Nope".to_string()));
    assert!(e.message().contains("Nope"));
    assert_eq!(e.message(), "No display monitors found for \"Nope\".");
}

#[test]
fn index_out_of_range_fails() {
    let mut cli = cli_with(&THREE, &["5=Hdmi1"]);
    let mut hw = Hardware::new(vec![0x11, 0x0F, 0x11]);
    let e = hw.run(&mut cli).unwrap_err();
    assert_eq!(e, Error::IndexOutOfRange { index: 5, len: 3 });
    assert_eq!(e.message(), "index out of bounds: the len is 3 but the index is 5");
    assert!(hw.writes.is_empty());
}

#[test]
fn invalid_input_source_fails_before_any_write() {
    let mut cli = cli_with(&THREE, &["0=xyz"]);
    let mut hw = Hardware::new(vec![0x11, 0x0F, 0x11]);
    let e = hw.run(&mut cli).unwrap_err();
    assert_eq!(e, Error::InvalidInputSource("xyz".to_string()));
    assert!(hw.writes.is_empty());
}

#[test]
fn dry_run_makes_no_write_and_no_settle() {
    let mut cli = cli_with(&THREE, &["DeskMonitor=UsbC1"]);
    cli.dry_run = true;
    let mut hw = Hardware::new(vec![0x11, 0x0F, 0x11]);
    assert_eq!(hw.run(&mut cli), Ok(()));
    assert!(hw.writes.is_empty());
    assert_eq!(hw.dry_writes, vec![(0, 0x19), (2, 0x19)]);
    assert_eq!(hw.sleeps, vec![0, 0, 0]);
}

#[test]
fn write_failure_stops_the_run() {
    let mut cli = cli_with(&THREE, &["DeskMonitor=UsbC1", "Side=Hdmi1"]);
    let mut hw = Hardware::new(vec![0x11, 0x0F, 0x11]);
    hw.fail_writes = true;
    let e = hw.run(&mut cli).unwrap_err();
    assert_eq!(e, Error::Device("write failed".to_string()));
    assert_eq!(hw.sleeps, vec![0, 0, 0]);
}

#[test]
fn toggle_read_failure_stops_the_argument() {
    let mut cli = cli_with(&THREE, &["DeskMonitor=Hdmi1,UsbC1"]);
    let mut hw = Hardware::new(vec![0x11, 0x0F, 0x11]);
    hw.fail_reads = true;
    let e = hw.run(&mut cli).unwrap_err();
    assert_eq!(e, Error::Device("read failed".to_string()));
    assert!(hw.writes.is_empty());
}

#[test]
fn backend_filter_renumbers_the_monitors() {
    let mut cli = cli_with(&THREE, &["1=Hdmi2"]);
    cli.backend = Some("i2c".to_string());
    let mut hw = Hardware::new(vec![0x11, 0x0F, 0x11]);
    assert_eq!(hw.run(&mut cli), Ok(()));
    assert_eq!(cli.monitors.len(), 2);
    assert_eq!(hw.writes, vec![(2, 0x12)]);
}

#[test]
fn capabilities_are_fetched_once_and_not_by_index() {
    let mut cli = cli_with(&THREE, &["Side", "DeskMonitor"]);
    cli.needs_capabilities = true;
    let mut hw = Hardware::new(vec![0x11, 0x0F, 0x11]);
    assert_eq!(hw.run(&mut cli), Ok(()));
    assert_eq!(hw.capabilities, vec![1, 1, 1]);
    assert_eq!(hw.printed.len(), 3);

    let mut cli = cli_with(&THREE, &["2"]);
    cli.needs_capabilities = true;
    let mut hw = Hardware::new(vec![0x11, 0x0F, 0x11]);
    assert_eq!(hw.run(&mut cli), Ok(()));
    assert_eq!(hw.capabilities, vec![0, 0, 0]);
    assert_eq!(hw.printed, vec!["2: DeskMonitor B\n    Input Source: Hdmi1\n    Backend: i2c-dev"]);
}

#[test]
fn monitor_description_lists_sources_and_model() {
    let m = Monitor::new(0, "Desk".to_string(), "i2c-dev".to_string());
    let text = m.to_long_string(&Ok(0x11), &Some(vec![0x0F, 0x11, 0x42]), &Some("U2720Q".to_string()));
    assert_eq!(
        text,
        "Desk\n    Input Source: Hdmi1\n    Input Sources: DP1, Hdmi1, 66\n    Model: U2720Q\n    Backend: i2c-dev"
    );
    let text = m.to_long_string(&Err("no reply".to_string()), &None, &None);
    assert_eq!(text, "Desk\n    Input Source: no reply\n    Backend: i2c-dev");
}

#[test]
fn monitor_flags() {
    let mut m = Monitor::new(3, "Desk One".to_string(), "winapi".to_string());
    assert!(m.contains("Desk"));
    assert!(m.contains(""));
    assert!(!m.contains("desk"));
    assert!(m.contains_backend("win"));
    assert!(!m.contains_backend("i2c"));
    assert!(m.update_capabilities());
    assert!(!m.update_capabilities());
    assert!(!m.sleep_if_needed());
    m.record_write();
    assert!(m.sleep_if_needed());
    assert!(!m.sleep_if_needed());
}

#[test]
fn assignment_with_invalid_value_fails_before_any_work() {
    let mut cli = cli_with(&THREE, &["a=b"]);
    let mut hw = Hardware::new(vec![0x11, 0x0F, 0x11]);
    let e = hw.run(&mut cli).unwrap_err();
    assert_eq!(e, Error::InvalidInputSource("b".to_string()));
    assert!(hw.writes.is_empty());
    assert!(hw.printed.is_empty());
}

#[test]
fn each_toggle_argument_fixes_its_own_position() {
    let mut cli = cli_with(&THREE, &["Side=Hdmi1,UsbC1", "Side=DP1,Hdmi2,UsbC1"]);
    let mut hw = Hardware::new(vec![0x11, 0x11, 0x11]);
    assert_eq!(hw.run(&mut cli), Ok(()));
    assert_eq!(hw.writes, vec![(1, 0x19), (1, 0x19)]);
    assert_eq!(hw.sleeps, vec![0, 1, 0]);
}
