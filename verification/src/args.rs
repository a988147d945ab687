//! The command line: which device to read, and how to tune the filter.

use vstd::prelude::*;
use vstd::string::*;

use crate::filter::Config;
use crate::text::{
    begins_with, is_digit, lemma_length_before, number, parse_number, same_text, split, split_once,
    starts_with, without_plus,
};
use crate::time::Duration;

verus! {

/// The command line was of no use; `text` tells the user how to write one.
#[derive(Debug)]
pub struct Usage {
    pub text: String,
}

pub const USAGE_START: &'static str = "Usage: ";

pub const USAGE_OPTIONS: &'static str = " /dev/input/eventX [debounce-ms] [options]\n\n\
Options:\n\
\x20 --press-ms=N     phantom re-press window after an accepted press (default 80)\n\
\x20 --release-ms=N   how long a left release may be held while dragging (default 30)\n\
\x20 --hold-ms=N      hold releases only once the button was down this long (default 150);\n\
\x20                  0 = always hold, which is what a click will also do\n\
\x20 --no-hold        never delay a release (only phantom presses are dropped)\n\
\x20 -v, --verbose    log every swallowed edge\n\n\
Example:\n\
\x20 sudo ";

pub const USAGE_END: &'static str = " /dev/input/by-id/usb-Your_Mouse-event-mouse 80\n\n\
Motion is never buffered, so the pointer stays fluid while a release is being\n\
debounced. Pick the physical mouse event node, not the virtual mouse this\n\
program creates.";

/// The usage text of a program called `program`.
pub open spec fn usage_text(program: Seq<char>) -> Seq<char> {
    USAGE_START@ + program + USAGE_OPTIONS@ + program + USAGE_END@
}

/// The usage text of a program called `program`.
pub fn usage(program: &str) -> (usage: Usage)
    ensures
        usage.text@ == usage_text(program@),
{
    let mut text = String::new();
    text.append(USAGE_START);
    text.append(program);
    text.append(USAGE_OPTIONS);
    text.append(program);
    text.append(USAGE_END);
    assert(text@ =~= usage_text(program@));
    Usage { text }
}

/// One thing the command line says.
pub enum Setting {
    Verbose,
    NoHold,
    PressMs(u64),
    ReleaseMs(u64),
    HoldMs(u64),
    Operand(Seq<char>),
}

/// The characters of each argument.
pub open spec fn texts(argv: Seq<String>) -> Seq<Seq<char>> {
    argv.map_values(|arg: String| arg@)
}

/// The characters of a device path, if there is one.
pub open spec fn path_text(path: Option<String>) -> Option<Seq<char>> {
    match path {
        Some(text) => Some(text@),
        None => None,
    }
}

/// The characters of what follows an equals sign, if there is one.
pub open spec fn inline_text(inline: Option<&str>) -> Option<Seq<char>> {
    match inline {
        Some(text) => Some(text@),
        None => None,
    }
}

/// The text of an option's value: what follows the equals sign, or else the
/// argument `next`, if there is one.
pub open spec fn value_text(inline: Option<Seq<char>>, argv: Seq<Seq<char>>, next: int) -> Option<
    Seq<char>,
> {
    match inline {
        Some(text) => Some(text),
        None => if 0 <= next < argv.len() {
            Some(argv[next])
        } else {
            None
        },
    }
}

/// The value of the option that stands first in `args` and how many arguments
/// the option takes up: `--opt=40` is one, `--opt 40` is two.
pub open spec fn option_value(inline: Option<Seq<char>>, args: Seq<Seq<char>>) -> Option<
    (u64, int),
> {
    match value_text(inline, args, 1) {
        Some(text) => match number(text) {
            Some(ms) => Some(
                (
                    ms,
                    if inline is Some {
                        1
                    } else {
                        2
                    },
                ),
            ),
            None => None,
        },
        None => None,
    }
}

/// What stands first in `args` and how many arguments it takes up; `None` if
/// that is nothing the program knows, a request for help, or an option without
/// a usable value. An argument counts up to its first equals sign only, unless
/// it is an option with a value.
pub open spec fn read_setting(args: Seq<Seq<char>>) -> Option<(Setting, int)> {
    let (key, inline) = split(args[0], '=');
    if key == "-v"@ || key == "--verbose"@ {
        Some((Setting::Verbose, 1))
    } else if key == "--no-hold"@ {
        Some((Setting::NoHold, 1))
    } else if key == "--press-ms"@ {
        match option_value(inline, args) {
            Some((ms, n)) => Some((Setting::PressMs(ms), n)),
            None => None,
        }
    } else if key == "--release-ms"@ {
        match option_value(inline, args) {
            Some((ms, n)) => Some((Setting::ReleaseMs(ms), n)),
            None => None,
        }
    } else if key == "--hold-ms"@ {
        match option_value(inline, args) {
            Some((ms, n)) => Some((Setting::HoldMs(ms), n)),
            None => None,
        }
    } else if begins_with(key, '-') {
        None
    } else {
        Some((Setting::Operand(key), 1))
    }
}

/// A window of `ms` milliseconds.
pub open spec fn window(ms: u64) -> Duration {
    Duration { nanos: (ms * 1_000_000) as u128 }
}

/// The device path and the tuning once `setting` has been taken into account.
/// The first operand is the path; any further one is the press window in
/// milliseconds.
pub open spec fn apply(setting: Setting, path: Option<Seq<char>>, cfg: Config) -> Option<
    (Option<Seq<char>>, Config),
> {
    match setting {
        Setting::Verbose => Some((path, Config { verbose: true, ..cfg })),
        Setting::NoHold => Some((path, Config { release_window: window(0), ..cfg })),
        Setting::PressMs(ms) => Some((path, Config { press_window: window(ms), ..cfg })),
        Setting::ReleaseMs(ms) => Some((path, Config { release_window: window(ms), ..cfg })),
        Setting::HoldMs(ms) => Some((path, Config { hold_threshold: window(ms), ..cfg })),
        Setting::Operand(text) => match path {
            None => Some((Some(text), cfg)),
            Some(_) => match number(text) {
                Some(ms) => Some((path, Config { press_window: window(ms), ..cfg })),
                None => None,
            },
        },
    }
}

/// The device path and the tuning that `args` ask for, on top of `path` and
/// `cfg`; `None` if they do not make sense or no path is given.
pub open spec fn parsed(args: Seq<Seq<char>>, path: Option<Seq<char>>, cfg: Config) -> Option<
    (Seq<char>, Config),
>
    decreases args.len(),
{
    if args.len() == 0 {
        match path {
            Some(text) => Some((text, cfg)),
            None => None,
        }
    } else {
        match read_setting(args) {
            Some((setting, n)) => match apply(setting, path, cfg) {
                Some((path, cfg)) => if 0 < n <= args.len() {
                    parsed(args.skip(n), path, cfg)
                } else {
                    None
                },
                None => None,
            },
            None => None,
        }
    }
}

/// The value of an option, in milliseconds: `--opt=40`, or `--opt 40`, in which
/// case the value is the argument `i` and `i` moves past it. Anything unusable
/// gives the usage text.
pub fn take_ms(prog: &str, inline: Option<&str>, argv: &[String], i: &mut usize) -> (result: Result<
    u64,
    Usage,
>)
    ensures
        ({
            let value = match value_text(inline_text(inline), texts(argv@), *old(i) as int) {
                Some(text) => number(text),
                None => None,
            };
            match value {
                Some(ms) => result == Ok::<u64, Usage>(ms),
                None => result matches Err(usage) && usage.text@ == usage_text(prog@),
            }
        }),
        *final(i) == *old(i) + if inline is None && *old(i) < argv@.len() {
            1int
        } else {
            0int
        },
{
    let raw: &str = match inline {
        Some(text) => text,
        None => if *i < argv.len() {
            let text = argv[*i].as_str();
            *i = *i + 1;
            text
        } else {
            return Err(usage(prog));
        },
    };
    match parse_number(raw) {
        Some(ms) => Ok(ms),
        None => Err(usage(prog)),
    }
}

/// Reads the command line, without the program's own name: the device path and
/// the tuning, or the usage text if the line is of no use.
pub fn parse_args(prog: &str, argv: &[String]) -> (result: Result<(String, Config), Usage>)
    ensures
        match parsed(texts(argv@), None, Config::standard()) {
            Some((path, cfg)) => result matches Ok((p, c)) && p@ == path && c == cfg && c.wf(),
            None => result matches Err(usage) && usage.text@ == usage_text(prog@),
        },
{
    let ghost all = texts(argv@);
    let mut cfg: Config = Default::default();
    let mut path: Option<String> = None;
    let mut i: usize = 0;
    assert(all.skip(0) =~= all);
    while i < argv.len()
        invariant
            i <= argv@.len(),
            all == texts(argv@),
            cfg.wf(),
            parsed(all, None, Config::standard()) == parsed(
                all.skip(i as int),
                path_text(path),
                cfg,
            ),
        decreases argv.len() - i,
    {
        let ghost args = all.skip(i as int);
        let arg = argv[i].as_str();
        i = i + 1;
        let (key, inline) = split_once(arg, '=');
        proof {
            assert(args[0] == arg@);
            assert(args.skip(1) =~= all.skip(i as int));
            assert(i < all.len() ==> args.skip(2) =~= all.skip(i + 1));
            assert(i < all.len() ==> args[1] == all[i as int]);
        }
        if same_text(key, "-v") || same_text(key, "--verbose") {
            cfg.verbose = true;
        } else if same_text(key, "--no-hold") {
            cfg.release_window = Duration::zero();
        } else if same_text(key, "--press-ms") {
            match take_ms(prog, inline, argv, &mut i) {
                Ok(ms) => {
                    cfg.press_window = Duration::from_millis(ms);
                },
                Err(usage) => {
                    return Err(usage);
                },
            }
        } else if same_text(key, "--release-ms") {
            match take_ms(prog, inline, argv, &mut i) {
                Ok(ms) => {
                    cfg.release_window = Duration::from_millis(ms);
                },
                Err(usage) => {
                    return Err(usage);
                },
            }
        } else if same_text(key, "--hold-ms") {
            match take_ms(prog, inline, argv, &mut i) {
                Ok(ms) => {
                    cfg.hold_threshold = Duration::from_millis(ms);
                },
                Err(usage) => {
                    return Err(usage);
                },
            }
        } else if starts_with(key, '-') {
            return Err(usage(prog));
        } else if path.is_none() {
            path = Some(key.to_string());
        } else {
            // Legacy form: `prog /dev/input/eventX 80` is the press window.
            match parse_number(key) {
                Some(ms) => {
                    cfg.press_window = Duration::from_millis(ms);
                },
                None => {
                    return Err(usage(prog));
                },
            }
        }
    }
    match path {
        Some(text) => Ok((text, cfg)),
        None => Err(usage(prog)),
    }
}

/// Whether `opt` is an option that takes a value.
pub open spec fn takes_value(opt: Seq<char>) -> bool {
    opt == "--press-ms"@ || opt == "--release-ms"@ || opt == "--hold-ms"@
}

proof fn lemma_options()
    ensures
        begins_with("-v"@, '-'),
        begins_with("--verbose"@, '-'),
        begins_with("--no-hold"@, '-'),
        begins_with("--press-ms"@, '-'),
        begins_with("--release-ms"@, '-'),
        begins_with("--hold-ms"@, '-'),
        forall|opt: Seq<char>| #[trigger]
            takes_value(opt) ==> opt != "-v"@ && opt != "--verbose"@ && opt != "--no-hold"@,
        forall|opt: Seq<char>, i: int| #[trigger]
            takes_value(opt) && 0 <= i < opt.len() ==> #[trigger] opt[i] != '=',
{
    reveal_strlit("-v");
    reveal_strlit("--verbose");
    reveal_strlit("--no-hold");
    reveal_strlit("--press-ms");
    reveal_strlit("--release-ms");
    reveal_strlit("--hold-ms");
    assert("--no-hold"@[2] == 'n');
    assert("--hold-ms"@[2] == 'h');
    assert("--verbose"@[2] == 'v');
}

/// The value of an option may be attached with an equals sign or follow as an
/// argument of its own; it makes no difference.
pub proof fn law_value_attached_or_apart(
    opt: Seq<char>,
    value: Seq<char>,
    rest: Seq<Seq<char>>,
    path: Option<Seq<char>>,
    cfg: Config,
)
    requires
        takes_value(opt),
    ensures
        parsed(seq![opt + seq!['='] + value] + rest, path, cfg) == parsed(
            seq![opt, value] + rest,
            path,
            cfg,
        ),
{
    lemma_options();
    let attached = seq![opt + seq!['='] + value] + rest;
    let apart = seq![opt, value] + rest;
    lemma_length_before(attached[0], '=', opt.len());
    lemma_length_before(opt, '=', opt.len());
    assert(attached[0].take(opt.len() as int) =~= opt);
    assert(attached[0].skip(opt.len() as int + 1) =~= value);
    assert(attached.skip(1) =~= rest);
    assert(apart.skip(2) =~= rest);
}

/// `PATH MS`: the device, and the press window in milliseconds. Everything else
/// is left as it is.
pub proof fn law_positional_form(path: Seq<char>, ms_text: Seq<char>, ms: u64, cfg: Config)
    requires
        !begins_with(path, '-'),
        !path.contains('='),
        number(ms_text) == Some(ms),
    ensures
        parsed(seq![path, ms_text], None, cfg) == Some(
            (path, Config { press_window: window(ms), ..cfg }),
        ),
{
    lemma_options();
    let args = seq![path, ms_text];
    lemma_length_before(path, '=', path.len());
    assert(args.skip(1) =~= seq![ms_text]);
    let digits = without_plus(ms_text);
    assert(is_digit(digits[0]));
    assert forall|i: int| 0 <= i < ms_text.len() implies ms_text[i] != '=' by {
        if begins_with(ms_text, '+') {
            if i > 0 {
                assert(is_digit(digits[i - 1]));
            }
        } else {
            assert(is_digit(digits[i]));
        }
    }
    lemma_length_before(ms_text, '=', ms_text.len());
    assert(seq![ms_text].skip(1) =~= Seq::empty());
    reveal_with_fuel(parsed, 3);
}

/// An argument that begins with a dash and is no known option makes the whole
/// line useless, a request for help among them.
pub proof fn law_unknown_option_is_refused(
    args: Seq<Seq<char>>,
    path: Option<Seq<char>>,
    cfg: Config,
)
    requires
        args.len() > 0,
        ({
            let key = split(args[0], '=').0;
            begins_with(key, '-') && key != "-v"@ && key != "--verbose"@ && key != "--no-hold"@
                && !takes_value(key)
        }),
    ensures
        parsed(args, path, cfg) is None,
{
}

/// Once a device is given, nothing that follows changes it.
pub proof fn law_first_operand_is_the_device(args: Seq<Seq<char>>, device: Seq<char>, cfg: Config)
    ensures
        parsed(args, Some(device), cfg) matches Some((path, _)) ==> path == device,
    decreases args.len(),
{
    if args.len() > 0 {
        if let Some((setting, n)) = read_setting(args) {
            if let Some((_, tuned)) = apply(setting, Some(device), cfg) {
                if 0 < n <= args.len() {
                    law_first_operand_is_the_device(args.skip(n), device, tuned);
                }
            }
        }
    }
}

/// `--no-hold` takes the release window away, so that no release is delayed
/// unless a later option brings it back.
pub proof fn law_no_hold_takes_the_window_away(
    rest: Seq<Seq<char>>,
    path: Option<Seq<char>>,
    cfg: Config,
)
    ensures
        parsed(seq!["--no-hold"@] + rest, path, cfg) == parsed(
            rest,
            path,
            Config { release_window: Duration { nanos: 0 }, ..cfg },
        ),
{
    let args = seq!["--no-hold"@] + rest;
    reveal_strlit("-v");
    reveal_strlit("--verbose");
    reveal_strlit("--no-hold");
    assert("--no-hold"@[2] == 'n');
    assert("--verbose"@[2] == 'v');
    lemma_length_before("--no-hold"@, '=', "--no-hold"@.len());
    assert(args.skip(1) =~= rest);
}

} // verus!
