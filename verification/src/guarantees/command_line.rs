//! What each argument of the command line does.

use vstd::prelude::*;

use crate::args::{parsed, texts, usage_text, USAGE_END, USAGE_OPTIONS, USAGE_START};
use crate::filter::Config;
use crate::guarantees::words::law_parts_make_up_the_text;
use crate::text::{lemma_length_before, number, split};
use crate::time::Duration;

verus! {

/// The arguments are taken as they were given.
pub proof fn law_arguments_are_taken_as_given(argv: Seq<String>, i: int)
    requires
        0 <= i < argv.len(),
    ensures
        texts(argv).len() == argv.len(),
        texts(argv)[i] == argv[i]@,
{
}

/// Whether `arg` is `key`, alone or with something behind an equals sign.
pub open spec fn is_option(arg: Seq<char>, key: Seq<char>) -> bool {
    arg == key || exists|tail: Seq<char>| arg == #[trigger] (key + seq!['='] + tail)
}

/// Whether `arg` begins with a dash.
pub open spec fn has_a_dash(arg: Seq<char>) -> bool {
    arg.len() > 0 && arg[0] == '-'
}

proof fn lemma_attached(key: Seq<char>, tail: Seq<char>)
    requires
        forall|i: int| 0 <= i < key.len() ==> key[i] != '=',
    ensures
        split(key + seq!['='] + tail, '=') == (key, Some(tail)),
        split(key, '=') == (key, None::<Seq<char>>),
{
    let arg = key + seq!['='] + tail;
    lemma_length_before(arg, '=', key.len());
    lemma_length_before(key, '=', key.len());
    assert(arg.take(key.len() as int) =~= key);
    assert(arg.skip(key.len() as int + 1) =~= tail);
}

proof fn lemma_key(arg: Seq<char>, key: Seq<char>)
    requires
        forall|i: int| 0 <= i < key.len() ==> key[i] != '=',
    ensures
        is_option(arg, key) <==> split(arg, '=').0 == key,
{
    law_parts_make_up_the_text(arg, '=');
    lemma_attached(key, Seq::empty());
    let (first, second) = split(arg, '=');
    if is_option(arg, key) && arg != key {
        let tail = choose|tail: Seq<char>| arg == #[trigger] (key + seq!['='] + tail);
        lemma_attached(key, tail);
    }
    if first == key {
        if let Some(tail) = second {
            assert(arg == key + seq!['='] + tail);
        }
    }
}

proof fn lemma_options()
    ensures
        forall|i: int| 0 <= i < "-v"@.len() ==> "-v"@[i] != '=',
        forall|i: int| 0 <= i < "--verbose"@.len() ==> "--verbose"@[i] != '=',
        forall|i: int| 0 <= i < "--no-hold"@.len() ==> "--no-hold"@[i] != '=',
        forall|i: int| 0 <= i < "--press-ms"@.len() ==> "--press-ms"@[i] != '=',
        forall|i: int| 0 <= i < "--release-ms"@.len() ==> "--release-ms"@[i] != '=',
        forall|i: int| 0 <= i < "--hold-ms"@.len() ==> "--hold-ms"@[i] != '=',
        has_a_dash("-v"@) && has_a_dash("--verbose"@) && has_a_dash("--no-hold"@),
        has_a_dash("--press-ms"@) && has_a_dash("--release-ms"@) && has_a_dash("--hold-ms"@),
        "-v"@.len() == 2,
        "--verbose"@.len() == 9 && "--verbose"@[2] == 'v',
        "--no-hold"@.len() == 9 && "--no-hold"@[2] == 'n',
        "--press-ms"@.len() == 10,
        "--release-ms"@.len() == 12,
        "--hold-ms"@.len() == 9 && "--hold-ms"@[2] == 'h',
{
    reveal_strlit("-v");
    reveal_strlit("--verbose");
    reveal_strlit("--no-hold");
    reveal_strlit("--press-ms");
    reveal_strlit("--release-ms");
    reveal_strlit("--hold-ms");
}

proof fn lemma_rest(first: Seq<Seq<char>>, rest: Seq<Seq<char>>)
    ensures
        (first + rest).skip(first.len() as int) == rest,
{
    assert((first + rest).skip(first.len() as int) =~= rest);
}

/// `--press-ms`, with its value attached or apart, sets the press window to that
/// many milliseconds and nothing else.
pub proof fn law_press_ms_sets_the_press_window_alone(
    value: Seq<char>,
    ms: u64,
    rest: Seq<Seq<char>>,
    path: Option<Seq<char>>,
    cfg: Config,
)
    requires
        number(value) == Some(ms),
    ensures
        ({
            let tuned = Config {
                press_window: Duration { nanos: (ms * 1_000_000) as u128 },
                release_window: cfg.release_window,
                hold_threshold: cfg.hold_threshold,
                verbose: cfg.verbose,
            };
            &&& parsed(seq!["--press-ms"@, value] + rest, path, cfg) == parsed(rest, path, tuned)
            &&& parsed(seq!["--press-ms"@ + seq!['='] + value] + rest, path, cfg) == parsed(
                rest,
                path,
                tuned,
            )
        }),
{
    lemma_options();
    lemma_attached("--press-ms"@, value);
    lemma_rest(seq!["--press-ms"@, value], rest);
    lemma_rest(seq!["--press-ms"@ + seq!['='] + value], rest);
}

/// `--release-ms`, with its value attached or apart, sets the release window to
/// that many milliseconds and nothing else.
pub proof fn law_release_ms_sets_the_release_window_alone(
    value: Seq<char>,
    ms: u64,
    rest: Seq<Seq<char>>,
    path: Option<Seq<char>>,
    cfg: Config,
)
    requires
        number(value) == Some(ms),
    ensures
        ({
            let tuned = Config {
                press_window: cfg.press_window,
                release_window: Duration { nanos: (ms * 1_000_000) as u128 },
                hold_threshold: cfg.hold_threshold,
                verbose: cfg.verbose,
            };
            &&& parsed(seq!["--release-ms"@, value] + rest, path, cfg) == parsed(rest, path, tuned)
            &&& parsed(seq!["--release-ms"@ + seq!['='] + value] + rest, path, cfg) == parsed(
                rest,
                path,
                tuned,
            )
        }),
{
    lemma_options();
    lemma_attached("--release-ms"@, value);
    lemma_rest(seq!["--release-ms"@, value], rest);
    lemma_rest(seq!["--release-ms"@ + seq!['='] + value], rest);
}

/// `--hold-ms`, with its value attached or apart, sets the hold threshold to that
/// many milliseconds and nothing else.
pub proof fn law_hold_ms_sets_the_hold_threshold_alone(
    value: Seq<char>,
    ms: u64,
    rest: Seq<Seq<char>>,
    path: Option<Seq<char>>,
    cfg: Config,
)
    requires
        number(value) == Some(ms),
    ensures
        ({
            let tuned = Config {
                press_window: cfg.press_window,
                release_window: cfg.release_window,
                hold_threshold: Duration { nanos: (ms * 1_000_000) as u128 },
                verbose: cfg.verbose,
            };
            &&& parsed(seq!["--hold-ms"@, value] + rest, path, cfg) == parsed(rest, path, tuned)
            &&& parsed(seq!["--hold-ms"@ + seq!['='] + value] + rest, path, cfg) == parsed(
                rest,
                path,
                tuned,
            )
        }),
{
    lemma_options();
    lemma_attached("--hold-ms"@, value);
    lemma_rest(seq!["--hold-ms"@, value], rest);
    lemma_rest(seq!["--hold-ms"@ + seq!['='] + value], rest);
}

/// An option that takes a number makes the line useless if there is none.
pub proof fn law_option_needs_its_number(
    opt: Seq<char>,
    value: Seq<char>,
    rest: Seq<Seq<char>>,
    path: Option<Seq<char>>,
    cfg: Config,
)
    requires
        opt == "--press-ms"@ || opt == "--release-ms"@ || opt == "--hold-ms"@,
        number(value) is None,
    ensures
        parsed(seq![opt, value] + rest, path, cfg) is None,
        parsed(seq![opt + seq!['='] + value] + rest, path, cfg) is None,
        parsed(seq![opt], path, cfg) is None,
{
    lemma_options();
    lemma_attached(opt, value);
}

/// `-v` and `--verbose` turn the log on and do nothing else, whatever stands
/// behind an equals sign.
pub proof fn law_verbose_turns_on_the_log_alone(
    arg: Seq<char>,
    rest: Seq<Seq<char>>,
    path: Option<Seq<char>>,
    cfg: Config,
)
    requires
        is_option(arg, "-v"@) || is_option(arg, "--verbose"@),
    ensures
        parsed(seq![arg] + rest, path, cfg) == parsed(
            rest,
            path,
            Config {
                press_window: cfg.press_window,
                release_window: cfg.release_window,
                hold_threshold: cfg.hold_threshold,
                verbose: true,
            },
        ),
{
    lemma_options();
    lemma_key(arg, "-v"@);
    lemma_key(arg, "--verbose"@);
    lemma_rest(seq![arg], rest);
}

/// `--no-hold` makes the release window zero and does nothing else, whatever
/// stands behind an equals sign.
pub proof fn law_no_hold_makes_the_release_window_zero_alone(
    arg: Seq<char>,
    rest: Seq<Seq<char>>,
    path: Option<Seq<char>>,
    cfg: Config,
)
    requires
        is_option(arg, "--no-hold"@),
    ensures
        parsed(seq![arg] + rest, path, cfg) == parsed(
            rest,
            path,
            Config {
                press_window: cfg.press_window,
                release_window: Duration { nanos: 0 },
                hold_threshold: cfg.hold_threshold,
                verbose: cfg.verbose,
            },
        ),
{
    lemma_options();
    lemma_key(arg, "--no-hold"@);
    lemma_rest(seq![arg], rest);
}

/// Whatever else begins with a dash makes the line useless.
pub proof fn law_any_other_dash_is_refused(
    arg: Seq<char>,
    rest: Seq<Seq<char>>,
    path: Option<Seq<char>>,
    cfg: Config,
)
    requires
        has_a_dash(arg),
        !is_option(arg, "-v"@) && !is_option(arg, "--verbose"@) && !is_option(arg, "--no-hold"@),
        !is_option(arg, "--press-ms"@) && !is_option(arg, "--release-ms"@),
        !is_option(arg, "--hold-ms"@),
    ensures
        parsed(seq![arg] + rest, path, cfg) is None,
{
    lemma_options();
    lemma_key(arg, "-v"@);
    lemma_key(arg, "--verbose"@);
    lemma_key(arg, "--no-hold"@);
    lemma_key(arg, "--press-ms"@);
    lemma_key(arg, "--release-ms"@);
    lemma_key(arg, "--hold-ms"@);
    law_parts_make_up_the_text(arg, '=');
    let (first, second) = split(arg, '=');
    assert(first.len() > 0 && first[0] == '-') by {
        if let Some(tail) = second {
            assert(arg == first + seq!['='] + tail);
            if first.len() == 0 {
                assert((first + seq!['='] + tail)[0] == '=');
            } else {
                assert((first + seq!['='] + tail)[0] == first[0]);
            }
        }
    }
}

/// The first argument without a dash is the device, up to an equals sign, and
/// changes no window.
pub proof fn law_first_operand_names_the_device(
    device: Seq<char>,
    arg: Seq<char>,
    rest: Seq<Seq<char>>,
    cfg: Config,
)
    requires
        !has_a_dash(device),
        !device.contains('='),
        is_option(arg, device),
    ensures
        parsed(seq![arg] + rest, None, cfg) == parsed(rest, Some(device), cfg),
{
    lemma_options();
    lemma_key(arg, device);
    lemma_rest(seq![arg], rest);
}

/// Any further argument without a dash is the press window in milliseconds, up
/// to an equals sign, and touches nothing else; if it is no number, the line is
/// useless.
pub proof fn law_further_operand_is_the_press_window(
    operand: Seq<char>,
    arg: Seq<char>,
    rest: Seq<Seq<char>>,
    device: Seq<char>,
    cfg: Config,
)
    requires
        !has_a_dash(operand),
        !operand.contains('='),
        is_option(arg, operand),
    ensures
        number(operand) is None ==> parsed(seq![arg] + rest, Some(device), cfg) is None,
        number(operand) matches Some(ms) ==> parsed(seq![arg] + rest, Some(device), cfg) == parsed(
            rest,
            Some(device),
            Config {
                press_window: Duration { nanos: (ms * 1_000_000) as u128 },
                release_window: cfg.release_window,
                hold_threshold: cfg.hold_threshold,
                verbose: cfg.verbose,
            },
        ),
{
    lemma_options();
    lemma_key(arg, operand);
    lemma_rest(seq![arg], rest);
}

/// At the end of the line, what was gathered is the result; without a device
/// there is none.
pub proof fn law_end_of_the_line(device: Seq<char>, cfg: Config)
    ensures
        parsed(Seq::empty(), Some(device), cfg) == Some((device, cfg)),
        parsed(Seq::empty(), None, cfg) is None,
{
}

/// The usage text names the program where it starts and again in the example.
pub proof fn law_usage_names_the_program_twice(program: Seq<char>)
    ensures
        usage_text(program) == "Usage: "@ + program + USAGE_OPTIONS@ + program + USAGE_END@,
        USAGE_START@ == "Usage: "@,
{
}

} // verus!
