use vstd::prelude::*;

use crate::text::{blank, chars_of, is_blank, parse_bounded, parse_unsigned, push_str, str_eq};

verus! {

broadcast use vstd::string::group_string_axioms;

/// The settings of the rolling-mean benchmark run.
#[derive(Debug, Clone)]
pub struct BenchConfig {
    pub len: usize,
    pub window: usize,
    pub repeat: usize,
    pub output: Option<String>,
}

/// A `BenchConfig` with its output path taken as characters.
pub struct BenchConfigView {
    pub len: usize,
    pub window: usize,
    pub repeat: usize,
    pub output: Option<Seq<char>>,
}

impl View for BenchConfig {
    type V = BenchConfigView;

    open spec fn view(&self) -> BenchConfigView {
        BenchConfigView {
            len: self.len,
            window: self.window,
            repeat: self.repeat,
            output: match self.output {
                Some(s) => Some(s@),
                None => None,
            },
        }
    }
}

pub open spec fn default_bench_config() -> BenchConfigView {
    BenchConfigView { len: 200_000, window: 252, repeat: 20, output: None }
}

impl Default for BenchConfig {
    fn default() -> (r: BenchConfig)
        ensures
            r@ == default_bench_config(),
    {
        BenchConfig { len: 200_000, window: 252, repeat: 20, output: None }
    }
}

/// What the command line asks for: the usage text, or a run.
#[derive(Debug, Clone)]
pub enum BenchCommand {
    Help,
    Run(BenchConfig),
}

/// `text` between backquotes, after `before`.
pub open spec fn quoted(before: Seq<char>, text: Seq<char>) -> Seq<char> {
    before + "`"@ + text + "`"@
}

/// Reading the flags `args` on top of `config`: `Ok(None)` asks for the
/// usage text, `Ok(Some(..))` is the configuration read, `Err` the message of
/// the first problem. Each flag but `--help` and `-h` takes the next argument
/// as its value.
pub open spec fn read_flags(args: Seq<Seq<char>>, config: BenchConfigView) -> Result<Option<BenchConfigView>, Seq<char>>
    decreases args.len(),
{
    if args.len() == 0 {
        Ok(Some(config))
    } else {
        let flag = args[0];
        if flag == "--help"@ || flag == "-h"@ {
            Ok(None)
        } else if args.len() < 2 {
            Err(quoted("missing value after "@, flag))
        } else {
            let value = args[1];
            let rest = args.subrange(2, args.len() as int);
            if flag == "--len"@ {
                match parse_unsigned(value, usize::MAX as nat) {
                    None => Err(quoted("invalid --len value "@, value)),
                    Some(v) => read_flags(rest, BenchConfigView { len: v as usize, ..config }),
                }
            } else if flag == "--window"@ {
                match parse_unsigned(value, usize::MAX as nat) {
                    None => Err(quoted("invalid --window value "@, value)),
                    Some(v) => read_flags(rest, BenchConfigView { window: v as usize, ..config }),
                }
            } else if flag == "--repeat"@ {
                match parse_unsigned(value, usize::MAX as nat) {
                    None => Err(quoted("invalid --repeat value "@, value)),
                    Some(v) => read_flags(rest, BenchConfigView { repeat: v as usize, ..config }),
                }
            } else if flag == "--output"@ {
                if is_blank(value) {
                    Err("--output must not be empty"@)
                } else {
                    read_flags(rest, BenchConfigView { output: Some(value), ..config })
                }
            } else {
                Err(quoted("unknown flag "@, flag))
            }
        }
    }
}

/// What the command line `args` (the program name left out) asks for: the
/// flags read over the defaults, then a run refused when its length, window or
/// repeat count is zero.
pub open spec fn bench_command(args: Seq<Seq<char>>) -> Result<Option<BenchConfigView>, Seq<char>> {
    match read_flags(args, default_bench_config()) {
        Ok(Some(c)) => if c.len == 0 {
            Err("--len must be greater than zero"@)
        } else if c.window == 0 {
            Err("--window must be greater than zero"@)
        } else if c.repeat == 0 {
            Err("--repeat must be greater than zero"@)
        } else {
            Ok(Some(c))
        },
        other => other,
    }
}

pub open spec fn args_view(args: Seq<String>) -> Seq<Seq<char>> {
    args.map_values(|a: String| a@)
}

/// Whether `r` is what `bench_command` says of the same arguments.
pub open spec fn command_matches(r: Result<BenchCommand, String>, expected: Result<Option<BenchConfigView>, Seq<char>>) -> bool {
    match expected {
        Ok(None) => r matches Ok(BenchCommand::Help),
        Ok(Some(c)) => r matches Ok(BenchCommand::Run(config)) && config@ == c,
        Err(message) => r matches Err(m) && m@ == message,
    }
}

fn quoted_message(before: &str, text: &str) -> (r: String)
    ensures
        r@ == quoted(before@, text@),
{
    let mut out = String::new();
    push_str(&mut out, before);
    push_str(&mut out, "`");
    push_str(&mut out, text);
    push_str(&mut out, "`");
    assert(out@ =~= quoted(before@, text@));
    out
}

fn read_count(value: &str) -> (r: Option<usize>)
    ensures
        match parse_unsigned(value@, usize::MAX as nat) {
            Some(v) => r == Some(v as usize),
            None => r is None,
        },
{
    let chars = chars_of(value);
    match parse_bounded(&chars, usize::MAX as u64) {
        Some(v) => Some(v as usize),
        None => None,
    }
}

fn message(text: &str) -> (r: String)
    ensures
        r@ == text@,
{
    let mut out = String::new();
    push_str(&mut out, text);
    assert(out@ =~= text@);
    out
}

/// Reads the benchmark's command line (`args` without the program name).
pub fn parse_config(args: &Vec<String>) -> (r: Result<BenchCommand, String>)
    ensures
        command_matches(r, bench_command(args_view(args@))),
{
    let ghost all = args_view(args@);
    let mut config = BenchConfig::default();
    let n = args.len();
    let mut k: usize = 0;
    assert(all.subrange(0, all.len() as int) =~= all);
    while k < n
        invariant
            n == args.len() == all.len(),
            all == args_view(args@),
            k <= n,
            read_flags(all, default_bench_config()) == read_flags(all.subrange(k as int, n as int), config@),
        decreases n - k,
    {
        let ghost rest = all.subrange(k as int, n as int);
        let flag = args[k].as_str();
        assert(rest[0] == flag@);
        if str_eq(flag, "--help") || str_eq(flag, "-h") {
            return Ok(BenchCommand::Help);
        }
        if k + 1 >= n {
            return Err(quoted_message("missing value after ", flag));
        }
        let value = args[k + 1].as_str();
        assert(rest[1] == value@);
        assert(rest.subrange(2, rest.len() as int) =~= all.subrange(k + 2, n as int));
        if str_eq(flag, "--len") {
            match read_count(value) {
                None => return Err(quoted_message("invalid --len value ", value)),
                Some(v) => config.len = v,
            }
        } else if str_eq(flag, "--window") {
            match read_count(value) {
                None => return Err(quoted_message("invalid --window value ", value)),
                Some(v) => config.window = v,
            }
        } else if str_eq(flag, "--repeat") {
            match read_count(value) {
                None => return Err(quoted_message("invalid --repeat value ", value)),
                Some(v) => config.repeat = v,
            }
        } else if str_eq(flag, "--output") {
            if blank(value) {
                return Err(message("--output must not be empty"));
            }
            config.output = Some(args[k + 1].clone());
        } else {
            return Err(quoted_message("unknown flag ", flag));
        }
        k = k + 2;
    }
    assert(all.subrange(n as int, n as int) =~= Seq::<Seq<char>>::empty());
    if config.len == 0 {
        return Err(message("--len must be greater than zero"));
    }
    if config.window == 0 {
        return Err(message("--window must be greater than zero"));
    }
    if config.repeat == 0 {
        return Err(message("--repeat must be greater than zero"));
    }
    Ok(BenchCommand::Run(config))
}

} // verus!
