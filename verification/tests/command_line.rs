use mousedb::args::{parse_args, take_ms, usage};
use mousedb::filter::Config;
use mousedb::time::Duration;

fn v(s: &str) -> String {
    s.to_string()
}

fn line(args: &[&str]) -> Result<(String, Config), String> {
    let argv: Vec<String> = args.iter().map(|a| a.to_string()).collect();
    parse_args("mousedb", &argv).map_err(|usage| usage.text)
}

fn tuned(args: &[&str]) -> (String, Config) {
    line(args).expect("a usable command line")
}

fn refused(args: &[&str]) {
    assert_eq!(line(args), Err(usage("mousedb").text), "{args:?}");
}

#[test]
fn legacy_positional_and_flags_parse() {
    let (path, c) = parse_args("p", &[v("/dev/input/event7"), v("80")]).unwrap();
    assert_eq!(path, "/dev/input/event7");
    assert_eq!(c.press_window, Duration::from_millis(80));
    assert_eq!(c.release_window, Duration::from_millis(30), "new, much shorter");
    let (path, c) = parse_args(
        "p",
        &[v("-v"), v("/dev/x"), v("--release-ms=15"), v("--no-hold")],
    )
    .unwrap();
    assert_eq!(path, "/dev/x");
    assert!(c.verbose);
    assert_eq!(c.release_window, Duration::zero(), "--no-hold disables the hold");
    let (_, c) = parse_args("p", &[v("/dev/x"), v("--hold-ms"), v("0")]).unwrap();
    assert_eq!(c.hold_threshold, Duration::zero());
}

#[test]
fn defaults_apply_without_options() {
    let (path, c) = tuned(&["/dev/x"]);
    assert_eq!(path, "/dev/x");
    assert_eq!(c.press_window.nanos, 80_000_000);
    assert_eq!(c.release_window.nanos, 30_000_000);
    assert_eq!(c.hold_threshold.nanos, 150_000_000);
    assert!(!c.verbose);
}

#[test]
fn positional_window_is_the_press_window() {
    let (_, c) = tuned(&["/dev/x", "120"]);
    assert_eq!(c, Config { press_window: Duration::from_millis(120), ..Config::default() });
    let (_, c) = tuned(&["/dev/x", "+7"]);
    assert_eq!(c.press_window.as_millis(), 7);
    let (path, c) = tuned(&["/dev/x", "5", "6"]);
    assert_eq!(path, "/dev/x");
    assert_eq!(c.press_window.as_millis(), 6, "the last one counts");
}

#[test]
fn value_may_be_attached_or_apart() {
    for (opt, ms) in [("--press-ms", 11u64), ("--release-ms", 22), ("--hold-ms", 33)] {
        let attached = format!("{opt}={ms}");
        let apart = ms.to_string();
        assert_eq!(tuned(&["/dev/x", &attached]), tuned(&["/dev/x", opt, &apart]));
        assert_eq!(tuned(&[&attached, "/dev/x"]), tuned(&[opt, &apart, "/dev/x"]));
    }
    assert_eq!(tuned(&["/dev/x", "--press-ms=11"]).1.press_window.nanos, 11_000_000);
    assert_eq!(tuned(&["/dev/x", "--release-ms", "22"]).1.release_window.nanos, 22_000_000);
    assert_eq!(tuned(&["/dev/x", "--hold-ms=33"]).1.hold_threshold.nanos, 33_000_000);
}

#[test]
fn first_operand_is_the_device() {
    assert_eq!(tuned(&["--verbose", "/dev/a", "80"]).0, "/dev/a");
    assert_eq!(tuned(&["80"]).0, "80", "a number is a device if it comes first");
    assert_eq!(tuned(&["/dev/a=b"]).0, "/dev/a", "an operand ends at its first equals sign");
    assert_eq!(tuned(&["/dev/a", "80=x"]).1.press_window.as_millis(), 80);
    assert_eq!(tuned(&[""]).0, "");
}

#[test]
fn flags_ignore_an_attached_value() {
    assert!(tuned(&["-v=no", "/dev/x"]).1.verbose);
    assert!(tuned(&["--no-hold=no", "/dev/x"]).1.release_window.is_zero());
}

#[test]
fn later_options_win() {
    let (_, c) = tuned(&["/dev/x", "--no-hold", "--release-ms=9"]);
    assert_eq!(c.release_window, Duration::from_millis(9));
}

#[test]
fn largest_window_is_accepted() {
    let (_, c) = tuned(&["/dev/x", "--release-ms=18446744073709551615"]);
    assert_eq!(c.release_window.as_millis(), u64::MAX as u128);
    let (_, c) = tuned(&["/dev/x", "--hold-ms=0000000000000000000000018446744073709551615"]);
    assert_eq!(c.hold_threshold.as_millis(), u64::MAX as u128);
}

#[test]
fn unusable_lines_are_refused() {
    refused(&[]);
    refused(&["-v"]);
    refused(&["-h", "/dev/x"]);
    refused(&["/dev/x", "--help"]);
    refused(&["/dev/x", "--what"]);
    refused(&["/dev/x", "-"]);
    refused(&["/dev/x", "soon"]);
    refused(&["/dev/x", ""]);
    refused(&["/dev/x", "80ms"]);
    refused(&["/dev/x", "1_000"]);
    refused(&["/dev/x", " 80"]);
    refused(&["/dev/x", "+"]);
    refused(&["/dev/x", "++8"]);
    refused(&["/dev/x", "\u{0668}"]);
    refused(&["/dev/x", "--press-ms"]);
    refused(&["/dev/x", "--press-ms="]);
    refused(&["/dev/x", "--press-ms=-1"]);
    refused(&["/dev/x", "--press-ms", "--no-hold"]);
    refused(&["/dev/x", "--press-ms=18446744073709551616"]);
    refused(&["/dev/x", "--press-ms=99999999999999999999999"]);
}

#[test]
fn values_are_taken_in_turn() {
    let argv = [v("5"), v("x"), v("6")];
    let mut i = 0;
    assert_eq!(take_ms("p", Some("40"), &argv, &mut i).unwrap(), 40);
    assert_eq!(i, 0, "an attached value takes no argument");
    assert_eq!(take_ms("p", None, &argv, &mut i).unwrap(), 5);
    assert_eq!(i, 1);
    assert_eq!(take_ms("p", None, &argv, &mut i).unwrap_err().text, usage("p").text);
    assert_eq!(i, 2);
    assert_eq!(take_ms("p", None, &argv, &mut i).unwrap(), 6);
    assert_eq!(take_ms("p", None, &argv, &mut i).unwrap_err().text, usage("p").text);
    assert_eq!(i, 3);
}

#[test]
fn usage_names_the_program() {
    let text = usage("mdb").text;
    let lines: Vec<&str> = text.lines().collect();
    assert_eq!(lines[0], "Usage: mdb /dev/input/eventX [debounce-ms] [options]");
    assert_eq!(lines[1], "");
    assert_eq!(lines[2], "Options:");
    assert_eq!(
        lines[3],
        "  --press-ms=N     phantom re-press window after an accepted press (default 80)"
    );
    assert_eq!(
        lines[6],
        "                   0 = always hold, which is what a click will also do"
    );
    assert_eq!(lines[8], "  -v, --verbose    log every swallowed edge");
    assert_eq!(lines[11], "  sudo mdb /dev/input/by-id/usb-Your_Mouse-event-mouse 80");
    assert_eq!(lines[15], "program creates.");
    assert_eq!(lines.len(), 16);
    assert!(!text.ends_with('\n'));
}
