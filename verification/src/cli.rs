//! Command-line decisions: which subcommand, flags and arguments a command
//! line selects, and which lookup mode a command runs in.
//!
//! Reading the raw arguments, printing help and exiting belong to the caller:
//! it hands each argument to these functions and acts on what they decide.
use crate::text::{chars_equal, str_chars};
use vstd::prelude::*;

verus! {

/// How a command finds symbols.
#[derive(Clone, Copy, Debug, PartialEq, Eq)]
pub enum Mode {
    /// Load the cache when available; fall back to rg/fd otherwise.
    Auto,
    /// Always use rg/fd; never load the index.
    Fast,
    /// Use the index; build it when no cache exists.
    Smart,
}

/// Output format of a command.
#[derive(Clone, Copy, Debug, PartialEq, Eq)]
pub enum OutputFmt {
    Text,
    Json,
}

/// A subcommand with its arguments.
#[derive(Debug)]
pub enum Subcommand {
    Find { name: String },
    Refs { name: String },
    Hover { file: String, line: u32, col: u32 },
    Index,
    /// Dump semantic tokens for a file (debug).
    Tokens {
        file: String,
        /// Use CST classification only; skip cross-file index resolution.
        cst_only: bool,
        /// Show per-phase token breakdown before dedup.
        phases: bool,
        /// Also print the tree-sitter parse tree after tokens.
        show_tree: bool,
    },
    /// Dump the tree-sitter parse tree for a file (debug).
    Tree { file: String },
    /// List the detected source roots of the workspace.
    Sources,
    /// Unpack library sources from the Gradle cache.
    ExtractSources,
}

/// A subcommand, with its strings taken as characters.
pub enum SubcommandModel {
    Find(Seq<char>),
    Refs(Seq<char>),
    Hover(Seq<char>, u32, u32),
    Index,
    Tokens(Seq<char>, bool, bool, bool),
    Tree(Seq<char>),
    Sources,
    ExtractSources,
}

impl View for Subcommand {
    type V = SubcommandModel;

    open spec fn view(&self) -> SubcommandModel {
        match self {
            Subcommand::Find { name } => SubcommandModel::Find(name@),
            Subcommand::Refs { name } => SubcommandModel::Refs(name@),
            Subcommand::Hover { file, line, col } => SubcommandModel::Hover(file@, *line, *col),
            Subcommand::Index => SubcommandModel::Index,
            Subcommand::Tokens { file, cst_only, phases, show_tree } => SubcommandModel::Tokens(
                file@,
                *cst_only,
                *phases,
                *show_tree,
            ),
            Subcommand::Tree { file } => SubcommandModel::Tree(file@),
            Subcommand::Sources => SubcommandModel::Sources,
            Subcommand::ExtractSources => SubcommandModel::ExtractSources,
        }
    }
}

/// A parsed command line.
#[derive(Debug)]
pub struct CliArgs {
    pub subcommand: Subcommand,
    pub mode: Mode,
    pub fmt: OutputFmt,
    pub root: Option<String>,
    pub verbose: bool,
}

/// The flags and positional arguments read so far.
#[derive(Debug)]
pub struct ParsedCliFlags {
    pub mode: Mode,
    pub fmt: OutputFmt,
    pub root: Option<String>,
    pub positionals: Vec<String>,
    pub cst_only: bool,
    pub phases: bool,
    pub show_tree: bool,
    pub verbose: bool,
}

/// The flags read so far, with strings taken as characters.
pub struct FlagsModel {
    pub mode: Mode,
    pub fmt: OutputFmt,
    pub root: Option<Seq<char>>,
    pub positionals: Seq<Seq<char>>,
    pub cst_only: bool,
    pub phases: bool,
    pub show_tree: bool,
    pub verbose: bool,
}

/// The strings of `v`, as characters.
pub open spec fn strings_model(v: Seq<String>) -> Seq<Seq<char>> {
    v.map_values(|s: String| s@)
}

/// An optional string, as characters.
pub open spec fn opt_model(o: Option<String>) -> Option<Seq<char>> {
    match o {
        Some(s) => Some(s@),
        None => None,
    }
}

impl View for ParsedCliFlags {
    type V = FlagsModel;

    open spec fn view(&self) -> FlagsModel {
        FlagsModel {
            mode: self.mode,
            fmt: self.fmt,
            root: opt_model(self.root),
            positionals: strings_model(self.positionals@),
            cst_only: self.cst_only,
            phases: self.phases,
            show_tree: self.show_tree,
            verbose: self.verbose,
        }
    }
}

/// One command-line argument: `-c`, `--name`, or a plain value.
#[derive(Debug)]
pub enum CliArg {
    Short(char),
    Long(String),
    Value(String),
}

/// A command-line argument, with strings taken as characters.
pub enum ArgModel {
    Short(char),
    Long(Seq<char>),
    Value(Seq<char>),
}

impl View for CliArg {
    type V = ArgModel;

    open spec fn view(&self) -> ArgModel {
        match self {
            CliArg::Short(c) => ArgModel::Short(*c),
            CliArg::Long(s) => ArgModel::Long(s@),
            CliArg::Value(s) => ArgModel::Value(s@),
        }
    }
}

/// The argument stream, as characters.
pub open spec fn arg_model(a: Option<CliArg>) -> Option<ArgModel> {
    match a {
        Some(x) => Some(x@),
        None => None,
    }
}

/// Whether `s` names a subcommand.
pub open spec fn subcommand_name(s: Seq<char>) -> bool {
    s == "find"@ || s == "refs"@ || s == "hover"@ || s == "index"@ || s == "tokens"@ || s
        == "tree"@ || s == "sources"@ || s == "extract-sources"@
}

/// Whether two string slices hold the same characters.
pub fn text_is(s: &str, lit: &str) -> (r: bool)
    ensures
        r == (s@ == lit@),
{
    chars_equal(&str_chars(s), &str_chars(lit))
}

/// Whether `value` names a subcommand.
pub fn is_subcommand(value: &str) -> (r: bool)
    ensures
        r == subcommand_name(value@),
{
    text_is(value, "find") || text_is(value, "refs") || text_is(value, "hover") || text_is(
        value,
        "index",
    ) || text_is(value, "tokens") || text_is(value, "tree") || text_is(value, "sources") || text_is(
        value,
        "extract-sources",
    )
}

/// What the first argument decides.
#[derive(Debug)]
pub enum FirstArgument {
    /// Not a command-line invocation: run as a language server.
    NoSubcommand,
    /// The named subcommand follows.
    Subcommand(String),
    PrintHelp,
    PrintVersion,
    Error(String),
}

/// What the first argument decides, with strings as characters.
pub enum FirstModel {
    NoSubcommand,
    Subcommand(Seq<char>),
    PrintHelp,
    PrintVersion,
    Error(Seq<char>),
}

impl View for FirstArgument {
    type V = FirstModel;

    open spec fn view(&self) -> FirstModel {
        match self {
            FirstArgument::NoSubcommand => FirstModel::NoSubcommand,
            FirstArgument::Subcommand(s) => FirstModel::Subcommand(s@),
            FirstArgument::PrintHelp => FirstModel::PrintHelp,
            FirstArgument::PrintVersion => FirstModel::PrintVersion,
            FirstArgument::Error(s) => FirstModel::Error(s@),
        }
    }
}

/// The message for a subcommand written as a flag.
pub open spec fn subcommand_flag_message(flag: Seq<char>) -> Seq<char> {
    "'"@ + flag + "' is a subcommand, not a flag — use `kotlin-lsp "@ + flag + "` (without --)"@
}

/// What the first argument (`None` when there is none) decides: a
/// subcommand name selects that subcommand; `-h`/`--help` and
/// `-V`/`--version` ask for help or the version; a subcommand written as
/// `--name` is an error; anything else means no subcommand.
pub open spec fn first_argument(arg: Option<ArgModel>) -> FirstModel {
    match arg {
        None => FirstModel::NoSubcommand,
        Some(ArgModel::Value(v)) => if subcommand_name(v) {
            FirstModel::Subcommand(v)
        } else {
            FirstModel::NoSubcommand
        },
        Some(ArgModel::Short(c)) => if c == 'h' {
            FirstModel::PrintHelp
        } else if c == 'V' {
            FirstModel::PrintVersion
        } else {
            FirstModel::NoSubcommand
        },
        Some(ArgModel::Long(f)) => if f == "help"@ {
            FirstModel::PrintHelp
        } else if f == "version"@ {
            FirstModel::PrintVersion
        } else if subcommand_name(f) {
            FirstModel::Error(subcommand_flag_message(f))
        } else {
            FirstModel::NoSubcommand
        },
    }
}

/// Decides what the first command-line argument asks for.
pub fn parse_first_argument(arg: Option<CliArg>) -> (r: FirstArgument)
    ensures
        r@ == first_argument(arg_model(arg)),
{
    match arg {
        None => FirstArgument::NoSubcommand,
        Some(CliArg::Value(v)) => match parse_subcommand_name(v) {
            Some(s) => FirstArgument::Subcommand(s),
            None => FirstArgument::NoSubcommand,
        },
        Some(CliArg::Short(c)) => {
            if c == 'h' {
                FirstArgument::PrintHelp
            } else if c == 'V' {
                FirstArgument::PrintVersion
            } else {
                FirstArgument::NoSubcommand
            }
        },
        Some(CliArg::Long(f)) => {
            if text_is(f.as_str(), "help") {
                FirstArgument::PrintHelp
            } else if text_is(f.as_str(), "version") {
                FirstArgument::PrintVersion
            } else if is_subcommand(f.as_str()) {
                let mut m = String::from_str("'");
                m.append(f.as_str());
                m.append("' is a subcommand, not a flag — use `kotlin-lsp ");
                m.append(f.as_str());
                m.append("` (without --)");
                FirstArgument::Error(m)
            } else {
                FirstArgument::NoSubcommand
            }
        },
    }
}

/// The subcommand a first argument names, if it names one.
pub fn parse_subcommand_name(first: String) -> (r: Option<String>)
    ensures
        subcommand_name(first@) ==> (r matches Some(s) && s@ == first@),
        !subcommand_name(first@) ==> r is None,
{
    if is_subcommand(first.as_str()) {
        Some(first)
    } else {
        None
    }
}

/// What reading one more argument after the subcommand decides.
#[derive(Debug, PartialEq, Eq)]
pub enum FlagStep {
    /// Read the next argument.
    Continue,
    /// The next raw argument is the value of `--root`.
    NeedRootValue,
    /// No arguments are left.
    Finished,
    PrintHelp,
    PrintVersion,
    Error(String),
}

/// What reading an argument decides, with strings as characters.
pub enum StepModel {
    Continue,
    NeedRootValue,
    Finished,
    PrintHelp,
    PrintVersion,
    Error(Seq<char>),
}

impl View for FlagStep {
    type V = StepModel;

    open spec fn view(&self) -> StepModel {
        match self {
            FlagStep::Continue => StepModel::Continue,
            FlagStep::NeedRootValue => StepModel::NeedRootValue,
            FlagStep::Finished => StepModel::Finished,
            FlagStep::PrintHelp => StepModel::PrintHelp,
            FlagStep::PrintVersion => StepModel::PrintVersion,
            FlagStep::Error(s) => StepModel::Error(s@),
        }
    }
}

/// The flags before any argument is read.
pub open spec fn initial_flags() -> FlagsModel {
    FlagsModel {
        mode: Mode::Auto,
        fmt: OutputFmt::Text,
        root: None,
        positionals: seq![],
        cst_only: false,
        phases: false,
        show_tree: false,
        verbose: false,
    }
}

/// How one argument after the subcommand changes the flags, and what comes next.
pub open spec fn flag_step(p: FlagsModel, arg: Option<ArgModel>) -> (FlagsModel, StepModel) {
    match arg {
        None => (p, StepModel::Finished),
        Some(ArgModel::Long(f)) => if f == "fast"@ {
            (FlagsModel { mode: Mode::Fast, ..p }, StepModel::Continue)
        } else if f == "smart"@ {
            (FlagsModel { mode: Mode::Smart, ..p }, StepModel::Continue)
        } else if f == "json"@ {
            (FlagsModel { fmt: OutputFmt::Json, ..p }, StepModel::Continue)
        } else if f == "cst-only"@ {
            (FlagsModel { cst_only: true, ..p }, StepModel::Continue)
        } else if f == "phases"@ {
            (FlagsModel { phases: true, ..p }, StepModel::Continue)
        } else if f == "tree"@ {
            (FlagsModel { show_tree: true, ..p }, StepModel::Continue)
        } else if f == "verbose"@ {
            (FlagsModel { verbose: true, ..p }, StepModel::Continue)
        } else if f == "root"@ {
            (p, StepModel::NeedRootValue)
        } else if f == "help"@ {
            (p, StepModel::PrintHelp)
        } else if f == "version"@ {
            (p, StepModel::PrintVersion)
        } else {
            (p, StepModel::Error("Unknown flag: --"@ + f))
        },
        Some(ArgModel::Short(c)) => if c == 'v' {
            (FlagsModel { verbose: true, ..p }, StepModel::Continue)
        } else if c == 'h' {
            (p, StepModel::PrintHelp)
        } else if c == 'V' {
            (p, StepModel::PrintVersion)
        } else {
            (p, StepModel::Error("Unknown short flag: -"@ + seq![c]))
        },
        Some(ArgModel::Value(v)) => (
            FlagsModel { positionals: p.positionals.push(v), ..p },
            StepModel::Continue,
        ),
    }
}

impl ParsedCliFlags {
    /// The flags before any argument is read.
    pub fn new() -> (r: ParsedCliFlags)
        ensures
            r@ == initial_flags(),
    {
        let r = ParsedCliFlags {
            mode: Mode::Auto,
            fmt: OutputFmt::Text,
            root: None,
            positionals: Vec::new(),
            cst_only: false,
            phases: false,
            show_tree: false,
            verbose: false,
        };
        assert(strings_model(r.positionals@) =~= Seq::<Seq<char>>::empty());
        r
    }

    /// Applies one argument after the subcommand (`None` when there are no
    /// more) and says what comes next.
    pub fn step(&mut self, arg: Option<CliArg>) -> (r: FlagStep)
        ensures
            (final(self)@, r@) == flag_step(old(self)@, arg_model(arg)),
    {
        match arg {
            None => FlagStep::Finished,
            Some(CliArg::Long(f)) => {
                let f = f.as_str();
                if text_is(f, "fast") {
                    self.mode = Mode::Fast;
                    FlagStep::Continue
                } else if text_is(f, "smart") {
                    self.mode = Mode::Smart;
                    FlagStep::Continue
                } else if text_is(f, "json") {
                    self.fmt = OutputFmt::Json;
                    FlagStep::Continue
                } else if text_is(f, "cst-only") {
                    self.cst_only = true;
                    FlagStep::Continue
                } else if text_is(f, "phases") {
                    self.phases = true;
                    FlagStep::Continue
                } else if text_is(f, "tree") {
                    self.show_tree = true;
                    FlagStep::Continue
                } else if text_is(f, "verbose") {
                    self.verbose = true;
                    FlagStep::Continue
                } else if text_is(f, "root") {
                    FlagStep::NeedRootValue
                } else if text_is(f, "help") {
                    FlagStep::PrintHelp
                } else if text_is(f, "version") {
                    FlagStep::PrintVersion
                } else {
                    let mut m = String::from_str("Unknown flag: --");
                    m.append(f);
                    FlagStep::Error(m)
                }
            },
            Some(CliArg::Short(c)) => {
                if c == 'v' {
                    self.verbose = true;
                    FlagStep::Continue
                } else if c == 'h' {
                    FlagStep::PrintHelp
                } else if c == 'V' {
                    FlagStep::PrintVersion
                } else {
                    let mut m = String::from_str("Unknown short flag: -");
                    let cs = [c];
                    let one = crate::text::chars_to_string(&cs);
                    assert(cs@ =~= seq![c]);
                    m.append(one.as_str());
                    FlagStep::Error(m)
                }
            },
            Some(CliArg::Value(v)) => {
                let ghost before = self.positionals@;
                self.positionals.push(v);
                assert(strings_model(self.positionals@) =~= strings_model(before).push(v@));
                FlagStep::Continue
            },
        }
    }

    /// Records the value that follows `--root`.
    pub fn set_root(&mut self, value: String)
        ensures
            final(self)@ == (FlagsModel { root: Some(value@), ..old(self)@ }),
    {
        self.root = Some(value);
    }
}

/// What `str::parse::<u32>` accepts: an optional `+` and then one or more
/// ASCII digits.
pub open spec fn all_digits(s: Seq<char>) -> bool {
    forall|i: int| 0 <= i < s.len() ==> '0' <= #[trigger] s[i] && s[i] <= '9'
}

/// The value of a string of decimal digits.
pub open spec fn decimal_value(s: Seq<char>) -> int
    decreases s.len(),
{
    if s.len() == 0 {
        0
    } else {
        decimal_value(s.drop_last()) * 10 + (s.last() as int - '0' as int)
    }
}

/// `str::parse::<u32>`: the value of an optional `+` followed by at least one
/// digit, when it fits in `u32`.
pub open spec fn parse_u32_value(s: Seq<char>) -> Option<u32> {
    let digits = if s.len() > 0 && s[0] == '+' {
        s.drop_first()
    } else {
        s
    };
    if digits.len() > 0 && all_digits(digits) && decimal_value(digits) <= u32::MAX {
        Some(decimal_value(digits) as u32)
    } else {
        None
    }
}

proof fn lemma_decimal_value_nonneg(s: Seq<char>)
    requires
        all_digits(s),
    ensures
        decimal_value(s) >= 0,
    decreases s.len(),
{
    if s.len() > 0 {
        lemma_decimal_value_nonneg(s.drop_last());
    }
}

/// Parses a decimal `u32` as `str::parse` does.
pub fn parse_u32(s: &str) -> (r: Option<u32>)
    ensures
        r == parse_u32_value(s@),
{
    let cs = str_chars(s);
    let start: usize = if cs.len() > 0 && cs[0] == '+' {
        1
    } else {
        0
    };
    let ghost digits = cs@.subrange(start as int, cs@.len() as int);
    proof {
        if start == 1 {
            assert(digits =~= cs@.drop_first());
        } else {
            assert(digits =~= cs@);
        }
    }
    if start == cs.len() {
        return None;
    }
    let mut value: u64 = 0;
    let mut i = start;
    while i < cs.len()
        invariant
            start <= i <= cs@.len(),
            cs@ == s@,
            start < cs@.len(),
            digits == cs@.subrange(start as int, cs@.len() as int),
            digits == (if s@.len() > 0 && s@[0] == '+' { s@.drop_first() } else { s@ }),
            all_digits(cs@.subrange(start as int, i as int)),
            value as int == decimal_value(cs@.subrange(start as int, i as int)),
            value <= u32::MAX,
        decreases cs@.len() - i,
    {
        let c = cs[i];
        let ghost prefix = cs@.subrange(start as int, i + 1);
        proof {
            assert(prefix.drop_last() =~= cs@.subrange(start as int, i as int));
            assert(prefix.last() == c);
        }
        if !('0' <= c && c <= '9') {
            proof {
                assert(digits[i - start] == c);
            }
            return None;
        }
        let d = (c as u32 - '0' as u32) as u64;
        value = value * 10 + d;
        proof {
            assert(all_digits(prefix));
            assert(value == decimal_value(prefix));
            assert(digits.take(i + 1 - start) =~= prefix);
        }
        if value > 0xffff_ffff {
            proof {
                // Later digits only make the value larger.
                lemma_decimal_value_grows(digits, i + 1 - start);
            }
            return None;
        }
        i = i + 1;
    }
    proof {
        assert(cs@.subrange(start as int, i as int) =~= digits);
    }
    Some(value as u32)
}

proof fn lemma_decimal_value_grows(s: Seq<char>, n: int)
    requires
        0 <= n <= s.len(),
        all_digits(s.take(n)),
        decimal_value(s.take(n)) > u32::MAX,
    ensures
        !(all_digits(s) && decimal_value(s) <= u32::MAX),
    decreases s.len() - n,
{
    if n < s.len() && all_digits(s) {
        let t = s.take(n + 1);
        assert(t.drop_last() =~= s.take(n));
        assert(all_digits(t));
        lemma_decimal_value_grows(s, n + 1);
    } else if n == s.len() {
        assert(s.take(n) =~= s);
    }
}

/// The first positional argument, or `missing` as an error.
pub open spec fn first_of(pos: Seq<Seq<char>>, missing: Seq<char>) -> Result<Seq<char>, Seq<char>> {
    if pos.len() > 0 {
        Ok(pos[0])
    } else {
        Err(missing)
    }
}

/// A line or column argument (1-based): `missing` when absent, `invalid`
/// when it is not a positive integer that fits in `u32`.
pub open spec fn position_arg(value: Option<Seq<char>>, missing: Seq<char>, invalid: Seq<char>) -> Result<
    u32,
    Seq<char>,
> {
    match value {
        None => Err(missing),
        Some(v) => match parse_u32_value(v) {
            Some(n) => if n > 0 {
                Ok(n)
            } else {
                Err(invalid)
            },
            None => Err(invalid),
        },
    }
}

/// The positional argument at `i`, if there is one.
pub open spec fn nth(pos: Seq<Seq<char>>, i: int) -> Option<Seq<char>> {
    if 0 <= i < pos.len() {
        Some(pos[i])
    } else {
        None
    }
}

/// `hover FILE LINE COL`.
pub open spec fn hover_subcommand(pos: Seq<Seq<char>>) -> Result<SubcommandModel, Seq<char>> {
    if pos.len() == 0 {
        Err("hover requires FILE LINE COL arguments"@)
    } else {
        match position_arg(
            nth(pos, 1),
            "hover requires LINE argument"@,
            "LINE must be a positive integer"@,
        ) {
            Err(e) => Err(e),
            Ok(line) => match position_arg(
                nth(pos, 2),
                "hover requires COL argument"@,
                "COL must be a positive integer"@,
            ) {
                Err(e) => Err(e),
                Ok(col) => Ok(SubcommandModel::Hover(pos[0], line, col)),
            },
        }
    }
}

/// The subcommand `name` with the positional arguments `pos`.
pub open spec fn subcommand_of(
    name: Seq<char>,
    pos: Seq<Seq<char>>,
    cst_only: bool,
    phases: bool,
    show_tree: bool,
) -> Result<SubcommandModel, Seq<char>> {
    if name == "find"@ {
        match first_of(pos, "find requires a NAME argument"@) {
            Ok(n) => Ok(SubcommandModel::Find(n)),
            Err(e) => Err(e),
        }
    } else if name == "refs"@ {
        match first_of(pos, "refs requires a NAME argument"@) {
            Ok(n) => Ok(SubcommandModel::Refs(n)),
            Err(e) => Err(e),
        }
    } else if name == "hover"@ {
        hover_subcommand(pos)
    } else if name == "index"@ {
        Ok(SubcommandModel::Index)
    } else if name == "tokens"@ {
        match first_of(pos, "tokens requires a FILE argument"@) {
            Ok(f) => Ok(SubcommandModel::Tokens(f, cst_only, phases, show_tree)),
            Err(e) => Err(e),
        }
    } else if name == "sources"@ {
        Ok(SubcommandModel::Sources)
    } else if name == "extract-sources"@ {
        Ok(SubcommandModel::ExtractSources)
    } else {
        match first_of(pos, "tree requires a FILE argument"@) {
            Ok(f) => Ok(SubcommandModel::Tree(f)),
            Err(e) => Err(e),
        }
    }
}

/// A subcommand result, with strings as characters.
pub open spec fn subcommand_result(r: Result<Subcommand, String>) -> Result<SubcommandModel, Seq<char>> {
    match r {
        Ok(s) => Ok(s@),
        Err(e) => Err(e@),
    }
}

/// The first positional argument, or the `missing` message.
pub fn first_positional(positionals: Vec<String>, missing_message: &str) -> (r: Result<String, String>)
    ensures
        match r {
            Ok(s) => first_of(strings_model(positionals@), missing_message@) == Ok::<Seq<char>, Seq<char>>(s@),
            Err(e) => first_of(strings_model(positionals@), missing_message@) == Err::<Seq<char>, Seq<char>>(e@),
        },
{
    let mut positionals = positionals;
    if positionals.len() > 0 {
        let first = positionals.remove(0);
        Ok(first)
    } else {
        Err(String::from_str(missing_message))
    }
}

/// A line or column argument of `hover`.
pub fn parse_position_arg(value: Option<String>, missing_message: &str, invalid_message: &str) -> (r:
    Result<u32, String>)
    ensures
        match r {
            Ok(n) => position_arg(opt_model(value), missing_message@, invalid_message@) == Ok::<u32, Seq<char>>(n),
            Err(e) => position_arg(opt_model(value), missing_message@, invalid_message@) == Err::<u32, Seq<char>>(e@),
        },
{
    match value {
        None => Err(String::from_str(missing_message)),
        Some(v) => match parse_u32(v.as_str()) {
            Some(n) => if n > 0 {
                Ok(n)
            } else {
                Err(String::from_str(invalid_message))
            },
            None => Err(String::from_str(invalid_message)),
        },
    }
}

/// `hover FILE LINE COL` from the positional arguments.
pub fn build_hover_subcommand(positionals: Vec<String>) -> (r: Result<Subcommand, String>)
    ensures
        subcommand_result(r) == hover_subcommand(strings_model(positionals@)),
{
    let ghost pos = strings_model(positionals@);
    let mut positionals = positionals;
    if positionals.len() == 0 {
        return Err(String::from_str("hover requires FILE LINE COL arguments"));
    }
    let file = positionals.remove(0);
    let line_arg = if positionals.len() > 0 {
        Some(positionals.remove(0))
    } else {
        None
    };
    proof {
        assert(opt_model(line_arg) == nth(pos, 1));
    }
    let line = match parse_position_arg(
        line_arg,
        "hover requires LINE argument",
        "LINE must be a positive integer",
    ) {
        Ok(n) => n,
        Err(e) => {
            return Err(e);
        },
    };
    let col_arg = if positionals.len() > 0 {
        Some(positionals.remove(0))
    } else {
        None
    };
    proof {
        assert(opt_model(col_arg) == nth(pos, 2));
    }
    let col = match parse_position_arg(
        col_arg,
        "hover requires COL argument",
        "COL must be a positive integer",
    ) {
        Ok(n) => n,
        Err(e) => {
            return Err(e);
        },
    };
    Ok(Subcommand::Hover { file, line, col })
}

/// The subcommand `subcommand` with its positional arguments.
pub fn build_subcommand(
    subcommand: &str,
    positionals: Vec<String>,
    cst_only: bool,
    phases: bool,
    show_tree: bool,
) -> (r: Result<Subcommand, String>)
    requires
        subcommand_name(subcommand@),
    ensures
        subcommand_result(r) == subcommand_of(
            subcommand@,
            strings_model(positionals@),
            cst_only,
            phases,
            show_tree,
        ),
{
    if text_is(subcommand, "find") {
        match first_positional(positionals, "find requires a NAME argument") {
            Ok(name) => Ok(Subcommand::Find { name }),
            Err(e) => Err(e),
        }
    } else if text_is(subcommand, "refs") {
        match first_positional(positionals, "refs requires a NAME argument") {
            Ok(name) => Ok(Subcommand::Refs { name }),
            Err(e) => Err(e),
        }
    } else if text_is(subcommand, "hover") {
        build_hover_subcommand(positionals)
    } else if text_is(subcommand, "index") {
        Ok(Subcommand::Index)
    } else if text_is(subcommand, "tokens") {
        match first_positional(positionals, "tokens requires a FILE argument") {
            Ok(file) => Ok(Subcommand::Tokens { file, cst_only, phases, show_tree }),
            Err(e) => Err(e),
        }
    } else if text_is(subcommand, "sources") {
        Ok(Subcommand::Sources)
    } else if text_is(subcommand, "extract-sources") {
        Ok(Subcommand::ExtractSources)
    } else {
        match first_positional(positionals, "tree requires a FILE argument") {
            Ok(file) => Ok(Subcommand::Tree { file }),
            Err(e) => Err(e),
        }
    }
}

/// The command line that the subcommand `subcommand` and the flags read after it make.
pub fn finish_cli_args(subcommand: &str, parsed: ParsedCliFlags) -> (r: Result<CliArgs, String>)
    requires
        subcommand_name(subcommand@),
    ensures
        match r {
            Ok(a) => subcommand_of(
                subcommand@,
                parsed@.positionals,
                parsed@.cst_only,
                parsed@.phases,
                parsed@.show_tree,
            ) == Ok::<SubcommandModel, Seq<char>>(a.subcommand@) && a.mode == parsed@.mode && a.fmt
                == parsed@.fmt && opt_model(a.root) == parsed@.root && a.verbose == parsed@.verbose,
            Err(e) => subcommand_of(
                subcommand@,
                parsed@.positionals,
                parsed@.cst_only,
                parsed@.phases,
                parsed@.show_tree,
            ) == Err::<SubcommandModel, Seq<char>>(e@),
        },
{
    let ParsedCliFlags { mode, fmt, root, positionals, cst_only, phases, show_tree, verbose } =
        parsed;
    match build_subcommand(subcommand, positionals, cst_only, phases, show_tree) {
        Ok(sc) => Ok(CliArgs { subcommand: sc, mode, fmt, root, verbose }),
        Err(e) => Err(e),
    }
}

/// Which mode a command runs in, given whether an index cache exists.
#[derive(Debug, PartialEq, Eq)]
pub enum ModeDecision {
    /// Run in this mode.
    Run(Mode),
    /// No cache: run with rg/fd (a note may be shown).
    FastWithoutCache,
}

/// The mode a command runs in: `--fast` always runs fast; `--smart` always
/// uses the index (building it when there is no cache); otherwise the index is used when cached, and `hover` (which cannot
/// work without one) builds it; other commands fall back to rg/fd.
pub open spec fn mode_decision(requested: Mode, cache_exists: bool, subcommand: Seq<char>) -> ModeDecision {
    match requested {
        Mode::Fast => ModeDecision::Run(Mode::Fast),
        Mode::Smart => ModeDecision::Run(Mode::Smart),
        Mode::Auto => if cache_exists || subcommand == "hover"@ {
            ModeDecision::Run(Mode::Smart)
        } else {
            ModeDecision::FastWithoutCache
        },
    }
}

/// Decides which mode a command runs in.
pub fn effective_mode(requested: Mode, cache_exists: bool, subcommand: &str) -> (r: ModeDecision)
    ensures
        r == mode_decision(requested, cache_exists, subcommand@),
{
    match requested {
        Mode::Fast => ModeDecision::Run(Mode::Fast),
        Mode::Smart => ModeDecision::Run(Mode::Smart),
        Mode::Auto => {
            if cache_exists || text_is(subcommand, "hover") {
                ModeDecision::Run(Mode::Smart)
            } else {
                ModeDecision::FastWithoutCache
            }
        },
    }
}

/// Law: `--smart` selects the smart mode and `--fast` the fast one, whatever
/// was read before; no other argument changes the mode.
pub proof fn law_mode_flags(p: FlagsModel, arg: Option<ArgModel>)
    ensures
        arg == Some(ArgModel::Long("smart"@)) ==> flag_step(p, arg).0.mode == Mode::Smart,
        arg == Some(ArgModel::Long("fast"@)) ==> flag_step(p, arg).0.mode == Mode::Fast,
        arg != Some(ArgModel::Long("smart"@)) && arg != Some(ArgModel::Long("fast"@)) ==> flag_step(
            p,
            arg,
        ).0.mode == p.mode,
{
    reveal_strlit("smart");
    reveal_strlit("fast");
}

/// Law: each flag sets its own setting and nothing else does: `--json`
/// selects JSON output, `--cst-only`, `--phases` and `--tree` turn on their
/// options, `--verbose` and `-v` turn on progress messages, `--root` asks for
/// its value, and a plain value is appended to the positionals.
pub proof fn law_flag_settings(p: FlagsModel, arg: Option<ArgModel>)
    ensures
        ({
            let q = flag_step(p, arg).0;
            let step = flag_step(p, arg).1;
            &&& arg == Some(ArgModel::Long("json"@)) ==> q.fmt == OutputFmt::Json
            &&& q.fmt != p.fmt ==> arg == Some(ArgModel::Long("json"@))
            &&& arg == Some(ArgModel::Long("cst-only"@)) ==> q.cst_only
            &&& q.cst_only != p.cst_only ==> arg == Some(ArgModel::Long("cst-only"@))
            &&& arg == Some(ArgModel::Long("phases"@)) ==> q.phases
            &&& q.phases != p.phases ==> arg == Some(ArgModel::Long("phases"@))
            &&& arg == Some(ArgModel::Long("tree"@)) ==> q.show_tree
            &&& q.show_tree != p.show_tree ==> arg == Some(ArgModel::Long("tree"@))
            &&& (arg == Some(ArgModel::Long("verbose"@)) || arg == Some(ArgModel::Short('v'))) ==> q.verbose
            &&& q.verbose != p.verbose ==> (arg == Some(ArgModel::Long("verbose"@)) || arg == Some(
                ArgModel::Short('v'),
            ))
            &&& arg == Some(ArgModel::Long("root"@)) ==> step == StepModel::NeedRootValue && q == p
            &&& q.root == p.root
            &&& (arg matches Some(ArgModel::Value(v)) ==> q.positionals == p.positionals.push(v))
            &&& (!(arg is Some && arg->0 is Value) ==> q.positionals == p.positionals)
        }),
{
    reveal_strlit("fast");
    reveal_strlit("smart");
    reveal_strlit("json");
    reveal_strlit("cst-only");
    reveal_strlit("phases");
    reveal_strlit("tree");
    reveal_strlit("verbose");
    reveal_strlit("root");
    reveal_strlit("help");
    reveal_strlit("version");
    assert("verbose"@[3] != "version"@[3]);
    assert("fast"@[0] != "json"@[0]);
    assert("fast"@[0] != "tree"@[0]);
    assert("fast"@[0] != "root"@[0]);
    assert("fast"@[0] != "help"@[0]);
    assert("json"@[0] != "tree"@[0]);
    assert("json"@[0] != "root"@[0]);
    assert("json"@[0] != "help"@[0]);
    assert("tree"@[0] != "root"@[0]);
    assert("tree"@[0] != "help"@[0]);
    assert("root"@[0] != "help"@[0]);
    match arg {
        Some(ArgModel::Long(f)) => {
            if f == "json"@ || f == "cst-only"@ || f == "phases"@ || f == "tree"@ || f == "verbose"@ || f
                == "root"@ {
            }
        },
        _ => {},
    }
}

/// Law: a command given `--smart` uses the index and one given `--fast`
/// never does, whether or not a cache exists and whatever the subcommand;
/// without either flag the index is used exactly when a cache exists or the
/// command is `hover`, and a cache never turns the index off.
pub proof fn law_requested_mode_is_honored(p: FlagsModel, cache_exists: bool, subcommand: Seq<char>)
    ensures
        mode_decision(flag_step(p, Some(ArgModel::Long("smart"@))).0.mode, cache_exists, subcommand)
            == ModeDecision::Run(Mode::Smart),
        mode_decision(flag_step(p, Some(ArgModel::Long("fast"@))).0.mode, cache_exists, subcommand)
            == ModeDecision::Run(Mode::Fast),
        mode_decision(Mode::Auto, cache_exists, subcommand) == ModeDecision::Run(Mode::Smart) <==> (
        cache_exists || subcommand == "hover"@),
        mode_decision(Mode::Auto, false, subcommand) == ModeDecision::Run(Mode::Smart) ==> mode_decision(
            Mode::Auto,
            true,
            subcommand,
        ) == ModeDecision::Run(Mode::Smart),
{
    law_mode_flags(p, Some(ArgModel::Long("smart"@)));
    law_mode_flags(p, Some(ArgModel::Long("fast"@)));
}

} // verus!
