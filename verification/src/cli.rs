//! The command line of the tool.
use vstd::prelude::*;
use crate::filter::FilterExpr;
use crate::parser::{parse_filter, parse_filter_spec};
use crate::text::{lower_is, lower_is_lit, push_char, push_str, str_chars};

verus! {

broadcast use vstd::string::group_string_axioms;

/// The options of a capture run.
pub struct Config {
    /// The live interface to capture on (empty when none was given).
    pub interface_name: String,
    pub filter: FilterExpr,
    /// Print one JSON object per matched packet instead of the text report.
    pub json_mode: bool,
    /// Print the flow table at the end even when it is empty.
    pub flow_mode: bool,
    /// Where to save the captured packets.
    pub save_path: Option<String>,
    /// The capture file to read instead of a live interface.
    pub read_path: Option<String>,
}

/// What the command line asks for.
pub enum CliOutcome {
    Run(Config),
    /// `--help` or `-h`: print the help text and stop.
    ShowHelp,
    /// A usage error: print the message and stop with failure.
    Fail(String),
}

/// The options as plain values.
pub struct ConfigV {
    pub interface_name: Seq<char>,
    pub filter: FilterExpr,
    pub json_mode: bool,
    pub flow_mode: bool,
    pub save_path: Option<Seq<char>>,
    pub read_path: Option<Seq<char>>,
}

pub enum CliOutcomeV {
    Run(ConfigV),
    ShowHelp,
    Fail(Seq<char>),
}

/// An optional string by its characters.
pub open spec fn opt_view(o: Option<String>) -> Option<Seq<char>> {
    match o {
        Some(s) => Some(s@),
        None => None,
    }
}

impl Config {
    /// The options as plain values.
    pub open spec fn view_cfg(&self) -> ConfigV {
        ConfigV {
            interface_name: self.interface_name@,
            filter: self.filter,
            json_mode: self.json_mode,
            flow_mode: self.flow_mode,
            save_path: opt_view(self.save_path),
            read_path: opt_view(self.read_path),
        }
    }
}

impl CliOutcome {
    /// The outcome as plain values.
    pub open spec fn view_outcome(&self) -> CliOutcomeV {
        match self {
            CliOutcome::Run(c) => CliOutcomeV::Run(c.view_cfg()),
            CliOutcome::ShowHelp => CliOutcomeV::ShowHelp,
            CliOutcome::Fail(m) => CliOutcomeV::Fail(m@),
        }
    }
}

/// The arguments by their characters.
pub open spec fn args_view(args: Seq<String>) -> Seq<Seq<char>> {
    args.map_values(|s: String| s@)
}

/// A filter word that names a condition needing an argument.
pub open spec fn takes_argument(w: Seq<char>) -> bool {
    lower_is(w, "port"@) || lower_is(w, "ip"@) || lower_is(w, "src"@) || lower_is(w, "dst"@)
        || lower_is(w, "sport"@) || lower_is(w, "dport"@) || lower_is(w, "size"@)
}

/// The filter text of `--filter` at `i`: the next argument; when that is a
/// bare condition word (`port`, `ip`, `src`, `dst`, `sport`, `dport`, `size`)
/// the text is that word, a space and the same word again (so
/// `--filter port 443` reads `port port`, which does not parse).
pub open spec fn filter_text_at(a: Seq<Seq<char>>, i: int) -> Seq<char> {
    if takes_argument(a[i + 1]) {
        a[i + 1] + seq![' '] + a[i + 1]
    } else {
        a[i + 1]
    }
}

/// Where reading goes on after `--filter` at `i`: after the filter text, and
/// after one more argument when the filter text is a bare condition word
/// (never past the end).
pub open spec fn filter_next(a: Seq<Seq<char>>, i: int) -> int {
    if takes_argument(a[i + 1]) {
        if i + 3 <= a.len() {
            i + 3
        } else {
            a.len() as int
        }
    } else {
        i + 2
    }
}

/// The message when neither an interface nor a capture file is given.
pub open spec fn no_source_message() -> Seq<char> {
    "[!] Error: No network interface or PCAP file specified.\nRun 'packet-sniffer-engine --help' for complete usage instructions."@
}

/// One step of reading the command line: go on at another argument with
/// updated options, or stop with an outcome.
pub enum StepV {
    Next(int, ConfigV),
    Stop(CliOutcomeV),
}

/// Reads the argument at `i` (and those it takes along). Unknown arguments
/// are skipped.
pub open spec fn cli_step(a: Seq<Seq<char>>, i: int, c: ConfigV) -> StepV {
    let w = a[i];
    if w == "--help"@ || w == "-h"@ {
        StepV::Stop(CliOutcomeV::ShowHelp)
    } else if w == "--flows"@ {
        StepV::Next(i + 1, ConfigV { flow_mode: true, ..c })
    } else if w == "--json"@ || w == "-j"@ {
        StepV::Next(i + 1, ConfigV { json_mode: true, ..c })
    } else if w == "--interface"@ || w == "-i"@ {
        if i + 1 < a.len() {
            StepV::Next(i + 2, ConfigV { interface_name: a[i + 1], ..c })
        } else {
            StepV::Stop(
                CliOutcomeV::Fail(
                    "[!] Error: Option '--interface' requires an interface name argument."@,
                ),
            )
        }
    } else if w == "--save"@ || w == "-s"@ {
        if i + 1 < a.len() {
            StepV::Next(i + 2, ConfigV { save_path: Some(a[i + 1]), ..c })
        } else {
            StepV::Stop(
                CliOutcomeV::Fail("[!] Error: Option '--save' requires a file path argument."@),
            )
        }
    } else if w == "--read"@ || w == "-r"@ {
        if i + 1 < a.len() {
            StepV::Next(i + 2, ConfigV { read_path: Some(a[i + 1]), ..c })
        } else {
            StepV::Stop(
                CliOutcomeV::Fail("[!] Error: Option '--read' requires a PCAP file path argument."@),
            )
        }
    } else if w == "--filter"@ || w == "-f"@ {
        if i + 1 < a.len() {
            let raw = filter_text_at(a, i);
            match parse_filter_spec(raw) {
                Ok(e) => StepV::Next(filter_next(a, i), ConfigV { filter: e, ..c }),
                Err(m) => StepV::Stop(
                    CliOutcomeV::Fail("[!] Error parsing filter expression '"@ + raw + "': "@ + m),
                ),
            }
        } else {
            StepV::Stop(
                CliOutcomeV::Fail(
                    "[!] Error: Option '--filter' requires a filter expression argument."@,
                ),
            )
        }
    } else {
        StepV::Next(i + 1, c)
    }
}

/// The command line from argument `i` on, with the options read so far in
/// `c`: a run needs an interface or a capture file.
pub open spec fn cli_from(a: Seq<Seq<char>>, i: int, c: ConfigV) -> CliOutcomeV
    decreases a.len() - i,
{
    if i < 1 || i >= a.len() {
        if c.read_path is None && c.interface_name.len() == 0 {
            CliOutcomeV::Fail(no_source_message())
        } else {
            CliOutcomeV::Run(c)
        }
    } else {
        match cli_step(a, i, c) {
            StepV::Stop(o) => o,
            StepV::Next(j, c2) => if i < j {
                cli_from(a, j, c2)
            } else {
                CliOutcomeV::Run(c2)
            },
        }
    }
}

/// The options before any argument is read.
pub open spec fn default_config() -> ConfigV {
    ConfigV {
        interface_name: Seq::empty(),
        filter: FilterExpr::Any,
        json_mode: false,
        flow_mode: false,
        save_path: None,
        read_path: None,
    }
}

/// The command line; `a[0]` is the program name.
pub open spec fn cli_spec(a: Seq<Seq<char>>) -> CliOutcomeV {
    cli_from(a, 1, default_config())
}

fn is_arg(a: &String, lit: &str) -> (r: bool)
    ensures
        r == (a@ == lit@),
{
    let v = str_chars(a.as_str());
    crate::text::chars_eq_lit(v.as_slice(), lit)
}

fn takes_argument_exec(w: &String) -> (r: bool)
    ensures
        r == takes_argument(w@),
{
    let v = str_chars(w.as_str());
    let s = v.as_slice();
    lower_is_lit(s, "port") || lower_is_lit(s, "ip") || lower_is_lit(s, "src") || lower_is_lit(s, "dst")
        || lower_is_lit(s, "sport") || lower_is_lit(s, "dport") || lower_is_lit(s, "size")
}

fn clone_string(s: &String) -> (r: String)
    ensures
        r@ == s@,
{
    s.clone()
}

/// Reads the argument at `i`; `Ok` gives where to go on.
fn cli_step_exec(args: &Vec<String>, i: usize, cfg: &mut Config) -> (r: Result<usize, CliOutcome>)
    requires
        1 <= i < args.len(),
    ensures
        match r {
            Ok(j) => cli_step(args_view(args@), i as int, old(cfg).view_cfg()) == StepV::Next(
                j as int,
                final(cfg).view_cfg(),
            ) && i < j,
            Err(o) => cli_step(args_view(args@), i as int, old(cfg).view_cfg()) == StepV::Stop(
                o.view_outcome(),
            ),
        },
{
    let ghost a = args_view(args@);
    let arg = &args[i];
    if is_arg(arg, "--help") || is_arg(arg, "-h") {
        Err(CliOutcome::ShowHelp)
    } else if is_arg(arg, "--flows") {
        cfg.flow_mode = true;
        Ok(i + 1)
    } else if is_arg(arg, "--json") || is_arg(arg, "-j") {
        cfg.json_mode = true;
        Ok(i + 1)
    } else if is_arg(arg, "--interface") || is_arg(arg, "-i") {
        if i + 1 < args.len() {
            cfg.interface_name = clone_string(&args[i + 1]);
            Ok(i + 2)
        } else {
            Err(
                CliOutcome::Fail(
                    String::from_str(
                        "[!] Error: Option '--interface' requires an interface name argument.",
                    ),
                ),
            )
        }
    } else if is_arg(arg, "--save") || is_arg(arg, "-s") {
        if i + 1 < args.len() {
            cfg.save_path = Some(clone_string(&args[i + 1]));
            Ok(i + 2)
        } else {
            Err(
                CliOutcome::Fail(
                    String::from_str("[!] Error: Option '--save' requires a file path argument."),
                ),
            )
        }
    } else if is_arg(arg, "--read") || is_arg(arg, "-r") {
        if i + 1 < args.len() {
            cfg.read_path = Some(clone_string(&args[i + 1]));
            Ok(i + 2)
        } else {
            Err(
                CliOutcome::Fail(
                    String::from_str(
                        "[!] Error: Option '--read' requires a PCAP file path argument.",
                    ),
                ),
            )
        }
    } else if is_arg(arg, "--filter") || is_arg(arg, "-f") {
        if i + 1 < args.len() {
            let mut filter_raw = clone_string(&args[i + 1]);
            let mut next = i + 2;
            if takes_argument_exec(&filter_raw) {
                push_char(&mut filter_raw, ' ');
                push_str(&mut filter_raw, args[i + 1].as_str());
                next = if i + 2 < args.len() {
                    i + 3
                } else {
                    args.len()
                };
            }
            assert(filter_raw@ =~= filter_text_at(a, i as int));
            match parse_filter(filter_raw.as_str()) {
                Ok(e) => {
                    cfg.filter = e;
                    Ok(next)
                },
                Err(err) => {
                    let mut m = String::from_str("[!] Error parsing filter expression '");
                    push_str(&mut m, filter_raw.as_str());
                    push_str(&mut m, "': ");
                    push_str(&mut m, err.as_str());
                    Err(CliOutcome::Fail(m))
                },
            }
        } else {
            Err(
                CliOutcome::Fail(
                    String::from_str(
                        "[!] Error: Option '--filter' requires a filter expression argument.",
                    ),
                ),
            )
        }
    } else {
        Ok(i + 1)
    }
}

/// Reads the command line; `args[0]` is the program name.
pub fn parse_args(args: &Vec<String>) -> (r: CliOutcome)
    ensures
        r.view_outcome() == cli_spec(args_view(args@)),
{
    let ghost a = args_view(args@);
    let mut cfg = Config {
        interface_name: String::new(),
        filter: FilterExpr::Any,
        json_mode: false,
        flow_mode: false,
        save_path: None,
        read_path: None,
    };
    let mut i: usize = 1;
    assert(cfg.view_cfg() == default_config());
    while i < args.len()
        invariant
            1 <= i,
            a == args_view(args@),
            cli_from(a, i as int, cfg.view_cfg()) == cli_spec(a),
        decreases args.len() - i,
    {
        match cli_step_exec(args, i, &mut cfg) {
            Ok(j) => {
                i = j;
            },
            Err(o) => {
                return o;
            },
        }
    }
    match cfg.read_path {
        None => {
            if cfg.interface_name.as_str().unicode_len() == 0 {
                return CliOutcome::Fail(
                    String::from_str(
                        "[!] Error: No network interface or PCAP file specified.\nRun 'packet-sniffer-engine --help' for complete usage instructions.",
                    ),
                );
            }
        },
        Some(_) => {},
    }
    CliOutcome::Run(cfg)
}

// ---------------------------------------------------------------------------
// Laws of the command line.

/// The option words are told apart by their characters.
proof fn lemma_option_words()
    ensures
        "--help"@ =~= seq!['-', '-', 'h', 'e', 'l', 'p'],
        "-h"@ =~= seq!['-', 'h'],
        "--flows"@ =~= seq!['-', '-', 'f', 'l', 'o', 'w', 's'],
        "--json"@ =~= seq!['-', '-', 'j', 's', 'o', 'n'],
        "-j"@ =~= seq!['-', 'j'],
        "--interface"@ =~= seq!['-', '-', 'i', 'n', 't', 'e', 'r', 'f', 'a', 'c', 'e'],
        "-i"@ =~= seq!['-', 'i'],
        "--save"@ =~= seq!['-', '-', 's', 'a', 'v', 'e'],
        "-s"@ =~= seq!['-', 's'],
        "--read"@ =~= seq!['-', '-', 'r', 'e', 'a', 'd'],
        "-r"@ =~= seq!['-', 'r'],
        "--filter"@ =~= seq!['-', '-', 'f', 'i', 'l', 't', 'e', 'r'],
        "-f"@ =~= seq!['-', 'f'],
{
    reveal_strlit("--help");
    reveal_strlit("-h");
    reveal_strlit("--flows");
    reveal_strlit("--json");
    reveal_strlit("-j");
    reveal_strlit("--interface");
    reveal_strlit("-i");
    reveal_strlit("--save");
    reveal_strlit("-s");
    reveal_strlit("--read");
    reveal_strlit("-r");
    reveal_strlit("--filter");
    reveal_strlit("-f");
}

/// `--help` or `-h` stops the command line with the help text.
pub proof fn lemma_help_option(a: Seq<Seq<char>>, i: int, c: ConfigV)
    requires
        0 <= i < a.len(),
        a[i] == "--help"@ || a[i] == "-h"@,
    ensures
        cli_step(a, i, c) == StepV::Stop(CliOutcomeV::ShowHelp),
{
}

/// `--json` or `-j` turns on JSON output, keeping every other option.
pub proof fn lemma_json_option(a: Seq<Seq<char>>, i: int, c: ConfigV)
    requires
        0 <= i < a.len(),
        a[i] == "--json"@ || a[i] == "-j"@,
    ensures
        cli_step(a, i, c) == StepV::Next(i + 1, ConfigV { json_mode: true, ..c }),
{
    lemma_option_words();
    let w = a[i];
    assert(w.len() == 6 || w.len() == 2);
    assert(w.len() == 2 ==> w[1] == 'j');
    assert(w.len() == 6 ==> w[2] == 'j');
}

/// `--interface NAME` (or `-i NAME`) sets the interface to `NAME` and goes
/// on after `NAME`, keeping every other option; with no argument after it
/// the command line fails.
pub proof fn lemma_interface_option(a: Seq<Seq<char>>, i: int, c: ConfigV)
    requires
        0 <= i < a.len(),
        a[i] == "--interface"@ || a[i] == "-i"@,
    ensures
        i + 1 < a.len() ==> cli_step(a, i, c) == StepV::Next(i + 2, ConfigV { interface_name: a[i + 1], ..c }),
        i + 1 >= a.len() ==> cli_step(a, i, c) == StepV::Stop(
            CliOutcomeV::Fail("[!] Error: Option '--interface' requires an interface name argument."@),
        ),
{
    lemma_option_words();
    let w = a[i];
    assert(w.len() == 11 || w.len() == 2);
    assert(w.len() == 2 ==> w[1] == 'i');
    assert(w.len() == 11 ==> w[2] == 'i');
}

/// `--save PATH` (or `-s PATH`) sets where to save the capture and goes on
/// after `PATH`; with no argument after it the command line fails.
pub proof fn lemma_save_option(a: Seq<Seq<char>>, i: int, c: ConfigV)
    requires
        0 <= i < a.len(),
        a[i] == "--save"@ || a[i] == "-s"@,
    ensures
        i + 1 < a.len() ==> cli_step(a, i, c) == StepV::Next(i + 2, ConfigV { save_path: Some(a[i + 1]), ..c }),
        i + 1 >= a.len() ==> cli_step(a, i, c) == StepV::Stop(
            CliOutcomeV::Fail("[!] Error: Option '--save' requires a file path argument."@),
        ),
{
    lemma_option_words();
    let w = a[i];
    assert(w.len() == 6 || w.len() == 2);
    assert(w.len() == 2 ==> w[1] == 's');
    assert(w.len() == 6 ==> w[2] == 's');
}

/// `--read PATH` (or `-r PATH`) sets the capture file to read and goes on
/// after `PATH`; with no argument after it the command line fails.
pub proof fn lemma_read_option(a: Seq<Seq<char>>, i: int, c: ConfigV)
    requires
        0 <= i < a.len(),
        a[i] == "--read"@ || a[i] == "-r"@,
    ensures
        i + 1 < a.len() ==> cli_step(a, i, c) == StepV::Next(i + 2, ConfigV { read_path: Some(a[i + 1]), ..c }),
        i + 1 >= a.len() ==> cli_step(a, i, c) == StepV::Stop(
            CliOutcomeV::Fail("[!] Error: Option '--read' requires a PCAP file path argument."@),
        ),
{
    lemma_option_words();
    let w = a[i];
    assert(w.len() == 6 || w.len() == 2);
    assert(w.len() == 2 ==> w[1] == 'r');
    assert(w.len() == 6 ==> w[2] == 'r');
}

/// `--filter TEXT` (or `-f TEXT`) sets the filter that its text parses to
/// and goes on after it, or fails with the parse error; with no argument
/// after it the command line fails.
pub proof fn lemma_filter_option(a: Seq<Seq<char>>, i: int, c: ConfigV, e: FilterExpr, m: Seq<char>)
    requires
        0 <= i < a.len(),
        a[i] == "--filter"@ || a[i] == "-f"@,
    ensures
        i + 1 < a.len() && parse_filter_spec(filter_text_at(a, i)) == Ok::<FilterExpr, Seq<char>>(e)
            ==> cli_step(a, i, c) == StepV::Next(filter_next(a, i), ConfigV { filter: e, ..c }),
        i + 1 < a.len() && parse_filter_spec(filter_text_at(a, i)) == Err::<FilterExpr, Seq<char>>(m)
            ==> cli_step(a, i, c) == StepV::Stop(
            CliOutcomeV::Fail("[!] Error parsing filter expression '"@ + filter_text_at(a, i) + "': "@ + m),
        ),
        i + 1 >= a.len() ==> cli_step(a, i, c) == StepV::Stop(
            CliOutcomeV::Fail("[!] Error: Option '--filter' requires a filter expression argument."@),
        ),
{
    lemma_option_words();
    let w = a[i];
    assert(w.len() == 8 || w.len() == 2);
    assert(w.len() == 2 ==> w[1] == 'f');
    assert(w.len() == 8 ==> w[2] == 'f');
}

/// Each long option and its short form read the same: with `--interface`
/// or `-i` at `i` (and likewise `--json`/`-j`, `--save`/`-s`, `--read`/`-r`,
/// `--filter`/`-f`, `--help`/`-h`) the step from `i` is the same, whatever
/// the other arguments and the options read so far.
pub proof fn lemma_long_and_short_forms(a: Seq<Seq<char>>, i: int, c: ConfigV)
    requires
        0 <= i < a.len(),
    ensures
        cli_step(a.update(i, "--interface"@), i, c) == cli_step(a.update(i, "-i"@), i, c),
        cli_step(a.update(i, "--json"@), i, c) == cli_step(a.update(i, "-j"@), i, c),
        cli_step(a.update(i, "--save"@), i, c) == cli_step(a.update(i, "-s"@), i, c),
        cli_step(a.update(i, "--read"@), i, c) == cli_step(a.update(i, "-r"@), i, c),
        cli_step(a.update(i, "--filter"@), i, c) == cli_step(a.update(i, "-f"@), i, c),
        cli_step(a.update(i, "--help"@), i, c) == cli_step(a.update(i, "-h"@), i, c),
{
    {
        let al = a.update(i, "--interface"@);
        let as_ = a.update(i, "-i"@);
        if i + 1 < a.len() {
            assert(al[i + 1] == a[i + 1] && as_[i + 1] == a[i + 1]);
        }
        lemma_interface_option(al, i, c); lemma_interface_option(as_, i, c);
    }
    {
        let al = a.update(i, "--json"@);
        let as_ = a.update(i, "-j"@);
        if i + 1 < a.len() {
            assert(al[i + 1] == a[i + 1] && as_[i + 1] == a[i + 1]);
        }
        lemma_json_option(al, i, c); lemma_json_option(as_, i, c);
    }
    {
        let al = a.update(i, "--save"@);
        let as_ = a.update(i, "-s"@);
        if i + 1 < a.len() {
            assert(al[i + 1] == a[i + 1] && as_[i + 1] == a[i + 1]);
        }
        lemma_save_option(al, i, c); lemma_save_option(as_, i, c);
    }
    {
        let al = a.update(i, "--read"@);
        let as_ = a.update(i, "-r"@);
        if i + 1 < a.len() {
            assert(al[i + 1] == a[i + 1] && as_[i + 1] == a[i + 1]);
        }
        lemma_read_option(al, i, c); lemma_read_option(as_, i, c);
    }
    {
        let al = a.update(i, "--help"@);
        let as_ = a.update(i, "-h"@);
        if i + 1 < a.len() {
            assert(al[i + 1] == a[i + 1] && as_[i + 1] == a[i + 1]);
        }
        lemma_help_option(al, i, c); lemma_help_option(as_, i, c);
    }
    {
        let al = a.update(i, "--filter"@);
        let as_ = a.update(i, "-f"@);
        if i + 1 < a.len() {
            assert(al[i + 1] == a[i + 1] && as_[i + 1] == a[i + 1]);
            assert(filter_text_at(al, i) == filter_text_at(as_, i));
            assert(filter_next(al, i) == filter_next(as_, i));
            match parse_filter_spec(filter_text_at(al, i)) {
                Ok(e) => {
                    lemma_filter_option(al, i, c, e, Seq::empty());
                    lemma_filter_option(as_, i, c, e, Seq::empty());
                },
                Err(m) => {
                    lemma_filter_option(al, i, c, FilterExpr::Any, m);
                    lemma_filter_option(as_, i, c, FilterExpr::Any, m);
                },
            }
        } else {
            lemma_filter_option(al, i, c, FilterExpr::Any, Seq::empty());
            lemma_filter_option(as_, i, c, FilterExpr::Any, Seq::empty());
        }
    }
}

/// A command line that names an interface runs on it: `prog --interface
/// NAME` and `prog -i NAME` run on `NAME` with the default options, and
/// `prog --interface NAME --filter F` also with the filter that `F` parses
/// to, for any program name, any non-empty `NAME` and any `F` that parses
/// and is not a bare condition word.
pub proof fn lemma_interface_command_line(prog: Seq<char>, name: Seq<char>, f: Seq<char>, e: FilterExpr)
    requires
        name.len() > 0,
    ensures
        cli_spec(seq![prog, "--interface"@, name]) == CliOutcomeV::Run(
            ConfigV { interface_name: name, ..default_config() },
        ),
        cli_spec(seq![prog, "-i"@, name]) == CliOutcomeV::Run(
            ConfigV { interface_name: name, ..default_config() },
        ),
        parse_filter_spec(f) == Ok::<FilterExpr, Seq<char>>(e) && !takes_argument(f) ==> cli_spec(
            seq![prog, "--interface"@, name, "--filter"@, f],
        ) == CliOutcomeV::Run(ConfigV { interface_name: name, filter: e, ..default_config() }),
{
    let d = default_config();
    let c1 = ConfigV { interface_name: name, ..d };
    let a1 = seq![prog, "--interface"@, name];
    let a2 = seq![prog, "-i"@, name];
    lemma_interface_option(a1, 1, d);
    lemma_interface_option(a2, 1, d);
    assert(cli_from(a1, 3, c1) == CliOutcomeV::Run(c1));
    assert(cli_from(a2, 3, c1) == CliOutcomeV::Run(c1));
    let a3 = seq![prog, "--interface"@, name, "--filter"@, f];
    lemma_interface_option(a3, 1, d);
    if parse_filter_spec(f) == Ok::<FilterExpr, Seq<char>>(e) && !takes_argument(f) {
        let c3 = ConfigV { filter: e, ..c1 };
        assert(filter_text_at(a3, 3) == f);
        assert(filter_next(a3, 3) == 5);
        lemma_filter_option(a3, 3, c1, e, Seq::empty());
        assert(cli_from(a3, 5, c3) == CliOutcomeV::Run(c3));
        assert(cli_from(a3, 3, c1) == CliOutcomeV::Run(c3));
    }
}

/// `--flows` turns on the flow table at the end, keeping every other option.
pub proof fn lemma_flows_option(a: Seq<Seq<char>>, i: int, c: ConfigV)
    requires
        0 <= i < a.len(),
        a[i] == "--flows"@,
    ensures
        cli_step(a, i, c) == StepV::Next(i + 1, ConfigV { flow_mode: true, ..c }),
{
    lemma_option_words();
    assert(a[i].len() == 7);
}

/// An argument that is no option is skipped: reading goes on at the next
/// argument with the options unchanged.
pub proof fn lemma_other_arguments_skipped(a: Seq<Seq<char>>, i: int, c: ConfigV)
    requires
        0 <= i < a.len(),
        !a[i].contains('-'),
    ensures
        cli_step(a, i, c) == StepV::Next(i + 1, c),
{
    lemma_option_words();
    let w = a[i];
    if w.len() >= 2 {
        assert(w[0] != '-');
    }
    assert(w != "--help"@ && w != "-h"@ && w != "--flows"@ && w != "--json"@ && w != "-j"@);
    assert(w != "--interface"@ && w != "-i"@ && w != "--save"@ && w != "-s"@);
    assert(w != "--read"@ && w != "-r"@ && w != "--filter"@ && w != "-f"@);
}

/// Once every argument is read, the command line runs exactly when it named
/// an interface or a capture file, and otherwise fails with the message
/// that neither was given.
pub proof fn lemma_run_needs_a_source(a: Seq<Seq<char>>, c: ConfigV)
    ensures
        cli_from(a, a.len() as int, c) == (if c.read_path is None && c.interface_name.len() == 0 {
            CliOutcomeV::Fail(no_source_message())
        } else {
            CliOutcomeV::Run(c)
        }),
        a.len() <= 1 ==> cli_spec(a) == CliOutcomeV::Fail(no_source_message()),
{
}

} // verus!
