//! The command line of the headless driver: its commands, flags, errors and
//! help text, and the small helpers its commands share.
use vstd::prelude::*;
use crate::text::{
    append, append_str, chars_eq, chars_of, eq_str, find_char, find_char_of, is_ascii_digit, lemma_find_from,
    slice, starts_with, starts_with_of, string_of,
};

verus! {

#[derive(Debug, Clone, Copy, PartialEq, Eq, Structural)]
pub enum Command {
    Serve,
    Import,
    Watch,
    List,
    Export,
    ExportAll,
    Delete,
    Rename,
    Doctor,
    Help,
    Version,
}

/// Whether an import read a single source or a bundle of collections.
#[derive(Debug, Clone, Copy, PartialEq, Eq, Structural)]
pub enum IngestKind {
    Single,
    Bundle,
}

/// Why the command line was refused.
#[derive(Debug, Clone, PartialEq, Eq)]
pub enum CliError {
    UnknownCommand(String),
    UnknownFlag(String),
    MissingValue { flag: String },
    BadValue { flag: String, value: String, reason: String },
}

pub open spec fn cli_error_text(e: CliError) -> Seq<char> {
    match e {
        CliError::UnknownCommand(c) => "unknown command: "@ + c@,
        CliError::UnknownFlag(f) => "unknown flag: "@ + f@,
        CliError::MissingValue { flag } => "flag --"@ + flag@ + " requires a value"@,
        CliError::BadValue { flag, value, reason } => "could not parse --"@ + flag@ + "="@ + value@ + ": "@
            + reason@,
    }
}

impl CliError {
    /// The error's message, as shown to users.
    pub fn message(&self) -> (r: String)
        ensures
            r@ == cli_error_text(*self),
    {
        let mut t: Vec<char>;
        match self {
            CliError::UnknownCommand(c) => {
                t = chars_of("unknown command: ");
                append_str(&mut t, c.as_str());
            },
            CliError::UnknownFlag(f) => {
                t = chars_of("unknown flag: ");
                append_str(&mut t, f.as_str());
            },
            CliError::MissingValue { flag } => {
                t = chars_of("flag --");
                append_str(&mut t, flag.as_str());
                append_str(&mut t, " requires a value");
            },
            CliError::BadValue { flag, value, reason } => {
                t = chars_of("could not parse --");
                append_str(&mut t, flag.as_str());
                append_str(&mut t, "=");
                append_str(&mut t, value.as_str());
                append_str(&mut t, ": ");
                append_str(&mut t, reason.as_str());
            },
        }
        string_of(&t)
    }
}

/// Why `str::parse` refused an unsigned integer.
#[derive(Debug, Clone, Copy, PartialEq, Eq, Structural)]
pub enum IntParseError {
    Empty,
    InvalidDigit,
    Overflow,
}

pub open spec fn int_error_text(e: IntParseError) -> Seq<char> {
    match e {
        IntParseError::Empty => "cannot parse integer from empty string"@,
        IntParseError::InvalidDigit => "invalid digit found in string"@,
        IntParseError::Overflow => "number too large to fit in target type"@,
    }
}

/// Reads the digits `ds[i..]` onto `acc`, failing at the first non-digit or
/// at the first digit that takes the value above `max`.
pub open spec fn scan_digits(ds: Seq<char>, i: int, acc: nat, max: nat) -> Result<nat, IntParseError>
    decreases ds.len() - i,
{
    if i < 0 || i >= ds.len() {
        Ok(acc)
    } else if !is_ascii_digit(ds[i]) {
        Err(IntParseError::InvalidDigit)
    } else if acc * 10 + (ds[i] as nat - 48) > max {
        Err(IntParseError::Overflow)
    } else {
        scan_digits(ds, i + 1, (acc * 10 + (ds[i] as nat - 48)) as nat, max)
    }
}

/// What `str::parse` gives for an unsigned integer type whose largest value
/// is `max`: an optional `+`, then decimal digits.
pub open spec fn parse_unsigned(s: Seq<char>, max: nat) -> Result<nat, IntParseError> {
    if s.len() == 0 {
        Err(IntParseError::Empty)
    } else if s.len() == 1 && (s[0] == '+' || s[0] == '-') {
        Err(IntParseError::InvalidDigit)
    } else if s[0] == '+' {
        scan_digits(s.subrange(1, s.len() as int), 0, 0, max)
    } else {
        scan_digits(s, 0, 0, max)
    }
}

/// A number read within `max` stays within it.
pub proof fn lemma_scan_digits_bound(ds: Seq<char>, i: int, acc: nat, max: nat)
    requires
        acc <= max,
    ensures
        scan_digits(ds, i, acc, max) matches Ok(v) ==> v <= max,
    decreases ds.len() - i,
{
    if 0 <= i < ds.len() && is_ascii_digit(ds[i]) && acc * 10 + (ds[i] as nat - 48) <= max {
        lemma_scan_digits_bound(ds, i + 1, (acc * 10 + (ds[i] as nat - 48)) as nat, max);
    }
}

/// Parses an unsigned integer no larger than `max` as `str::parse` does.
pub fn parse_unsigned_of(s: &[char], max: u64) -> (r: Result<u64, IntParseError>)
    ensures
        match parse_unsigned(s@, max as nat) {
            Ok(v) => r == Ok::<u64, IntParseError>(v as u64) && v <= max,
            Err(e) => r == Err::<u64, IntParseError>(e),
        },
{
    proof {
        lemma_scan_digits_bound(s@, 0, 0, max as nat);
        lemma_scan_digits_bound(s@.subrange(1, s@.len() as int), 0, 0, max as nat);
    }
    if s.len() == 0 {
        return Err(IntParseError::Empty);
    }
    if s.len() == 1 && (s[0] == '+' || s[0] == '-') {
        return Err(IntParseError::InvalidDigit);
    }
    let ds = if s[0] == '+' {
        slice(s, 1, s.len())
    } else {
        let d = slice(s, 0, s.len());
        assert(d@ =~= s@);
        d
    };
    let mut acc: u64 = 0;
    let mut i: usize = 0;
    assert(parse_unsigned(s@, max as nat) == scan_digits(ds@, 0, 0, max as nat));
    while i < ds.len()
        invariant
            i <= ds@.len(),
            acc <= max,
            parse_unsigned(s@, max as nat) == scan_digits(ds@, 0, 0, max as nat),
            scan_digits(ds@, 0, 0, max as nat) == scan_digits(ds@, i as int, acc as nat, max as nat),
        decreases ds.len() - i,
    {
        let c = ds[i];
        if !('0' <= c && c <= '9') {
            return Err(IntParseError::InvalidDigit);
        }
        let d: u64 = (c as u32 - 48) as u64;
        assert(d as nat == ds@[i as int] as nat - 48);
        if d > max {
            return Err(IntParseError::Overflow);
        }
        if acc > (max - d) / 10 {
            assert(acc * 10 + d > max) by (nonlinear_arith)
                requires
                    acc > (max - d) / 10,
                    d <= max,
            ;
            return Err(IntParseError::Overflow);
        }
        assert(acc * 10 + d <= max) by (nonlinear_arith)
            requires
                acc <= (max - d) / 10,
                d <= 9,
        ;
        acc = acc * 10 + d;
        i += 1;
    }
    Ok(acc)
}

/// What `str::parse::<f32>` accepts: an optional sign, then `inf`,
/// `infinity` or `nan` (any case), or digits with an optional fraction and
/// an optional exponent, with at least one digit before the exponent.
pub open spec fn float_literal(s: Seq<char>) -> bool {
    let t = if s.len() > 0 && (s[0] == '+' || s[0] == '-') {
        s.subrange(1, s.len() as int)
    } else {
        s
    };
    crate::text::eq_ignore_case(t, "inf"@) || crate::text::eq_ignore_case(t, "infinity"@)
        || crate::text::eq_ignore_case(t, "nan"@) || decimal_literal(t)
}

/// Length of the leading run of ASCII digits of `s` from `i`.
pub open spec fn digit_run(s: Seq<char>, i: int) -> int
    decreases s.len() - i,
{
    if 0 <= i < s.len() && is_ascii_digit(s[i]) {
        1 + digit_run(s, i + 1)
    } else {
        0
    }
}

/// `Digit* ['.' Digit*] [('e'|'E') [+-] Digit+]` with a digit in the
/// mantissa, and nothing after.
pub open spec fn decimal_literal(t: Seq<char>) -> bool {
    let a = digit_run(t, 0);
    let (b, frac) = if a < t.len() && t[a] == '.' {
        (a + 1 + digit_run(t, a + 1), digit_run(t, a + 1))
    } else {
        (a, 0)
    };
    let e_ok = if b == t.len() {
        true
    } else if t[b] == 'e' || t[b] == 'E' {
        let c = if b + 1 < t.len() && (t[b + 1] == '+' || t[b + 1] == '-') {
            b + 2
        } else {
            b + 1
        };
        digit_run(t, c) > 0 && c + digit_run(t, c) == t.len()
    } else {
        false
    };
    (a > 0 || frac > 0) && e_ok
}

fn digit_run_of(s: &[char], i: usize) -> (r: usize)
    requires
        i <= s@.len(),
    ensures
        r == digit_run(s@, i as int),
        i + r <= s@.len(),
{
    let mut j: usize = i;
    while j < s.len() && '0' <= s[j] && s[j] <= '9'
        invariant
            i <= j <= s@.len(),
            digit_run(s@, i as int) == (j - i) + digit_run(s@, j as int),
        decreases s.len() - j,
    {
        j += 1;
    }
    j - i
}

pub fn float_literal_of(s: &[char]) -> (r: bool)
    ensures
        r == float_literal(s@),
{
    let t = if s.len() > 0 && (s[0] == '+' || s[0] == '-') {
        slice(s, 1, s.len())
    } else {
        let d = slice(s, 0, s.len());
        assert(d@ =~= s@);
        d
    };
    if crate::text::eq_ignore_case_of(&t, &chars_of("inf")) || crate::text::eq_ignore_case_of(&t, &chars_of("infinity"))
        || crate::text::eq_ignore_case_of(&t, &chars_of("nan")) {
        return true;
    }
    let a = digit_run_of(&t, 0);
    let (b, frac) = if a < t.len() && t[a] == '.' {
        let f = digit_run_of(&t, a + 1);
        (a + 1 + f, f)
    } else {
        (a, 0)
    };
    let e_ok = if b == t.len() {
        true
    } else if t[b] == 'e' || t[b] == 'E' {
        let c = if b + 1 < t.len() && (t[b + 1] == '+' || t[b + 1] == '-') {
            b + 2
        } else {
            b + 1
        };
        let run = digit_run_of(&t, c);
        run > 0 && c + run == t.len()
    } else {
        false
    };
    (a > 0 || frac > 0) && e_ok
}

/// The parsed command line. Paths are kept as given; the error rate is
/// kept as the validated text of the last `--error-rate` (the caller reads
/// it as a number clamped to `0..=1`).
#[derive(Debug, Clone, PartialEq)]
pub struct CliArgs {
    pub command: Command,
    pub database_url: String,
    pub host: String,
    pub port: u16,
    pub cors: bool,
    pub default_latency_ms: Option<u64>,
    pub error_rate: Option<String>,
    pub collections: Vec<String>,
    pub import_paths: Vec<String>,
    pub export_output: Option<String>,
    pub export_collection_id: Option<String>,
    pub auto_stop_secs: Option<u64>,
    pub capture_bodies: bool,
    pub new_name: Option<String>,
    pub watch_interval_ms: Option<u64>,
}

/// The settings before any flag: help, `albert.db`, `127.0.0.1:4317`, CORS
/// on, nothing else set.
pub open spec fn default_args(a: CliArgs) -> bool {
    &&& a.command == Command::Help
    &&& a.database_url@ == "albert.db"@
    &&& a.host@ == "127.0.0.1"@
    &&& a.port == 4317
    &&& a.cors
    &&& a.default_latency_ms is None
    &&& a.error_rate is None
    &&& a.collections@.len() == 0
    &&& a.import_paths@.len() == 0
    &&& a.export_output is None
    &&& a.export_collection_id is None
    &&& a.auto_stop_secs is None
    &&& !a.capture_bodies
    &&& a.new_name is None
    &&& a.watch_interval_ms is None
}

impl Default for CliArgs {
    fn default() -> (r: Self)
        ensures
            default_args(r),
    {
        CliArgs {
            command: Command::Help,
            database_url: "albert.db".to_string(),
            host: "127.0.0.1".to_string(),
            port: 4317,
            cors: true,
            default_latency_ms: None,
            error_rate: None,
            collections: Vec::new(),
            import_paths: Vec::new(),
            export_output: None,
            export_collection_id: None,
            auto_stop_secs: None,
            capture_bodies: false,
            new_name: None,
            watch_interval_ms: None,
        }
    }
}

/// The command a first word names.
pub open spec fn command_named(w: Seq<char>) -> Option<Command> {
    if w == "serve"@ {
        Some(Command::Serve)
    } else if w == "import"@ {
        Some(Command::Import)
    } else if w == "watch"@ {
        Some(Command::Watch)
    } else if w == "list"@ {
        Some(Command::List)
    } else if w == "export"@ {
        Some(Command::Export)
    } else if w == "export-all"@ {
        Some(Command::ExportAll)
    } else if w == "delete"@ {
        Some(Command::Delete)
    } else if w == "rename"@ {
        Some(Command::Rename)
    } else if w == "doctor"@ {
        Some(Command::Doctor)
    } else if w == "help"@ || w == "--help"@ || w == "-h"@ {
        Some(Command::Help)
    } else if w == "version"@ || w == "--version"@ || w == "-V"@ {
        Some(Command::Version)
    } else {
        None
    }
}

pub fn command_from_word(w: &str) -> (r: Option<Command>)
    ensures
        r == command_named(w@),
{
    let c = chars_of(w);
    if eq_str(&c, "serve") {
        Some(Command::Serve)
    } else if eq_str(&c, "import") {
        Some(Command::Import)
    } else if eq_str(&c, "watch") {
        Some(Command::Watch)
    } else if eq_str(&c, "list") {
        Some(Command::List)
    } else if eq_str(&c, "export") {
        Some(Command::Export)
    } else if eq_str(&c, "export-all") {
        Some(Command::ExportAll)
    } else if eq_str(&c, "delete") {
        Some(Command::Delete)
    } else if eq_str(&c, "rename") {
        Some(Command::Rename)
    } else if eq_str(&c, "doctor") {
        Some(Command::Doctor)
    } else if eq_str(&c, "help") || eq_str(&c, "--help") || eq_str(&c, "-h") {
        Some(Command::Help)
    } else if eq_str(&c, "version") || eq_str(&c, "--version") || eq_str(&c, "-V") {
        Some(Command::Version)
    } else {
        None
    }
}

/// The parsed command line, as the spec reads it.
#[verifier::ext_equal]
pub struct ArgsView {
    pub command: Command,
    pub database_url: Seq<char>,
    pub host: Seq<char>,
    pub port: u16,
    pub cors: bool,
    pub default_latency_ms: Option<u64>,
    pub error_rate: Option<Seq<char>>,
    pub collections: Seq<Seq<char>>,
    pub import_paths: Seq<Seq<char>>,
    pub export_output: Option<Seq<char>>,
    pub export_collection_id: Option<Seq<char>>,
    pub auto_stop_secs: Option<u64>,
    pub capture_bodies: bool,
    pub new_name: Option<Seq<char>>,
    pub watch_interval_ms: Option<u64>,
}

pub open spec fn opt_view(o: Option<String>) -> Option<Seq<char>> {
    match o {
        Some(s) => Some(s@),
        None => None,
    }
}

pub open spec fn strings_view(v: Seq<String>) -> Seq<Seq<char>> {
    v.map_values(|s: String| s@)
}

pub open spec fn args_view(a: CliArgs) -> ArgsView {
    ArgsView {
        command: a.command,
        database_url: a.database_url@,
        host: a.host@,
        port: a.port,
        cors: a.cors,
        default_latency_ms: a.default_latency_ms,
        error_rate: opt_view(a.error_rate),
        collections: strings_view(a.collections@),
        import_paths: strings_view(a.import_paths@),
        export_output: opt_view(a.export_output),
        export_collection_id: opt_view(a.export_collection_id),
        auto_stop_secs: a.auto_stop_secs,
        capture_bodies: a.capture_bodies,
        new_name: opt_view(a.new_name),
        watch_interval_ms: a.watch_interval_ms,
    }
}

/// A refusal, as the spec reads it.
pub enum CliErrorView {
    UnknownCommand(Seq<char>),
    UnknownFlag(Seq<char>),
    MissingValue(Seq<char>),
    BadValue(Seq<char>, Seq<char>, Seq<char>),
}

pub open spec fn error_view(e: CliError) -> CliErrorView {
    match e {
        CliError::UnknownCommand(c) => CliErrorView::UnknownCommand(c@),
        CliError::UnknownFlag(f) => CliErrorView::UnknownFlag(f@),
        CliError::MissingValue { flag } => CliErrorView::MissingValue(flag@),
        CliError::BadValue { flag, value, reason } => CliErrorView::BadValue(flag@, value@, reason@),
    }
}

/// `--name` or `--name=value`: the flag name and the inline value.
pub open spec fn flag_parts(arg: Seq<char>) -> Option<(Seq<char>, Option<Seq<char>>)> {
    if starts_with(arg, "--"@) {
        let rest = arg.subrange(2, arg.len() as int);
        match find_char(rest, '=') {
            Some(i) => Some((rest.subrange(0, i), Some(rest.subrange(i + 1, rest.len() as int)))),
            None => Some((rest, None)),
        }
    } else {
        None
    }
}

pub open spec fn takes_value(flag: Seq<char>) -> bool {
    flag == "db"@ || flag == "database"@ || flag == "host"@ || flag == "port"@ || flag == "default-latency-ms"@
        || flag == "error-rate"@ || flag == "collection"@ || flag == "c"@ || flag == "output"@ || flag == "o"@
        || flag == "id"@ || flag == "auto-stop-secs"@ || flag == "name"@ || flag == "interval-ms"@
}

pub open spec fn float_error_text(v: Seq<char>) -> Seq<char> {
    if v.len() == 0 {
        "cannot parse float from empty string"@
    } else {
        "invalid float literal"@
    }
}

/// The settings after a flag that takes the value `v`.
pub open spec fn apply_value(st: ArgsView, flag: Seq<char>, v: Seq<char>) -> Result<ArgsView, CliErrorView> {
    if flag == "db"@ || flag == "database"@ {
        Ok(ArgsView { database_url: v, ..st })
    } else if flag == "host"@ {
        Ok(ArgsView { host: v, ..st })
    } else if flag == "port"@ {
        match parse_unsigned(v, 65535) {
            Ok(n) => Ok(ArgsView { port: n as u16, ..st }),
            Err(e) => Err(CliErrorView::BadValue(flag, v, int_error_text(e))),
        }
    } else if flag == "default-latency-ms"@ || flag == "auto-stop-secs"@ || flag == "interval-ms"@ {
        match parse_unsigned(v, u64::MAX as nat) {
            Ok(n) => Ok(
                if flag == "default-latency-ms"@ {
                    ArgsView { default_latency_ms: if n == 0 { None } else { Some(n as u64) }, ..st }
                } else if flag == "auto-stop-secs"@ {
                    ArgsView { auto_stop_secs: Some(n as u64), ..st }
                } else {
                    ArgsView { watch_interval_ms: Some(if n < 100 { 100 } else { n as u64 }), ..st }
                },
            ),
            Err(e) => Err(CliErrorView::BadValue(flag, v, int_error_text(e))),
        }
    } else if flag == "error-rate"@ {
        if float_literal(v) {
            Ok(ArgsView { error_rate: Some(v), ..st })
        } else {
            Err(CliErrorView::BadValue(flag, v, float_error_text(v)))
        }
    } else if flag == "collection"@ || flag == "c"@ {
        Ok(ArgsView { collections: st.collections.push(v), ..st })
    } else if flag == "output"@ || flag == "o"@ {
        Ok(ArgsView { export_output: Some(v), ..st })
    } else if flag == "id"@ {
        Ok(ArgsView { export_collection_id: Some(v), ..st })
    } else {
        Ok(ArgsView { new_name: Some(v), ..st })
    }
}

/// The settings after a flag without a value, or the refusal of an unknown
/// flag.
pub open spec fn apply_switch(st: ArgsView, flag: Seq<char>) -> Result<ArgsView, CliErrorView> {
    if flag == "no-cors"@ {
        Ok(ArgsView { cors: false, ..st })
    } else if flag == "capture-bodies"@ {
        Ok(ArgsView { capture_bodies: true, ..st })
    } else if flag == "help"@ || flag == "h"@ {
        Ok(ArgsView { command: Command::Help, ..st })
    } else if flag == "version"@ || flag == "V"@ {
        Ok(ArgsView { command: Command::Version, ..st })
    } else {
        Err(CliErrorView::UnknownFlag(flag))
    }
}

/// The arguments `argv[i..]` read onto `st`. A word that is not a `--` flag
/// is a file for `import` and `watch` and refused otherwise; a flag that
/// takes a value reads it inline or from the next word.
pub open spec fn scan_args(argv: Seq<Seq<char>>, i: int, st: ArgsView) -> Result<ArgsView, CliErrorView>
    decreases argv.len() - i,
{
    if i < 0 || i >= argv.len() {
        Ok(st)
    } else {
        match flag_parts(argv[i]) {
            None => if st.command == Command::Import || st.command == Command::Watch {
                scan_args(argv, i + 1, ArgsView { import_paths: st.import_paths.push(argv[i]), ..st })
            } else {
                Err(CliErrorView::UnknownFlag(argv[i]))
            },
            Some((flag, inline)) => if takes_value(flag) {
                let (value, next) = match inline {
                    Some(v) => (Some(v), i + 1),
                    None => if i + 1 < argv.len() {
                        (Some(argv[i + 1]), i + 2)
                    } else {
                        (None, i + 1)
                    },
                };
                match value {
                    None => Err(CliErrorView::MissingValue(flag)),
                    Some(v) => match apply_value(st, flag, v) {
                        Err(e) => Err(e),
                        Ok(st2) => scan_args(argv, next, st2),
                    },
                }
            } else {
                match apply_switch(st, flag) {
                    Err(e) => Err(e),
                    Ok(st2) => scan_args(argv, i + 1, st2),
                }
            },
        }
    }
}

pub open spec fn default_view(command: Command) -> ArgsView {
    ArgsView {
        command,
        database_url: "albert.db"@,
        host: "127.0.0.1"@,
        port: 4317,
        cors: true,
        default_latency_ms: None,
        error_rate: None,
        collections: Seq::empty(),
        import_paths: Seq::empty(),
        export_output: None,
        export_collection_id: None,
        auto_stop_secs: None,
        capture_bodies: false,
        new_name: None,
        watch_interval_ms: None,
    }
}

/// The command line read: no words is help; the first word names the
/// command; the rest are flags and files.
pub open spec fn parsed_args(argv: Seq<Seq<char>>) -> Result<ArgsView, CliErrorView> {
    if argv.len() == 0 {
        Ok(default_view(Command::Help))
    } else {
        match command_named(argv[0]) {
            None => Err(CliErrorView::UnknownCommand(argv[0])),
            Some(c) => scan_args(argv.subrange(1, argv.len() as int), 0, default_view(c)),
        }
    }
}

fn bad_value(flag: &Vec<char>, value: &str, reason: &str) -> (e: CliError)
    ensures
        error_view(e) == CliErrorView::BadValue(flag@, value@, reason@),
{
    CliError::BadValue { flag: string_of(flag), value: value.to_string(), reason: reason.to_string() }
}

fn int_reason(e: IntParseError) -> (r: &'static str)
    ensures
        r@ == int_error_text(e),
{
    match e {
        IntParseError::Empty => "cannot parse integer from empty string",
        IntParseError::InvalidDigit => "invalid digit found in string",
        IntParseError::Overflow => "number too large to fit in target type",
    }
}

/// Applies one flag with its value to `out`.
fn set_value(out: &mut CliArgs, flag: &Vec<char>, v: String) -> (r: Result<(), CliError>)
    requires
        takes_value(flag@),
    ensures
        match apply_value(args_view(*old(out)), flag@, v@) {
            Ok(st) => r is Ok && args_view(*final(out)) == st,
            Err(e) => r matches Err(x) && error_view(x) == e,
        },
{
    let vc = chars_of(v.as_str());
    if eq_str(flag, "db") || eq_str(flag, "database") {
        out.database_url = v;
    } else if eq_str(flag, "host") {
        out.host = v;
    } else if eq_str(flag, "port") {
        match parse_unsigned_of(&vc, 65535) {
            Ok(n) => {
                out.port = n as u16;
            },
            Err(e) => return Err(bad_value(flag, v.as_str(), int_reason(e))),
        }
    } else if eq_str(flag, "default-latency-ms") || eq_str(flag, "auto-stop-secs") || eq_str(flag, "interval-ms") {
        match parse_unsigned_of(&vc, 0xFFFF_FFFF_FFFF_FFFFu64) {
            Ok(n) => {
                if eq_str(flag, "default-latency-ms") {
                    out.default_latency_ms = if n == 0 {
                        None
                    } else {
                        Some(n)
                    };
                } else if eq_str(flag, "auto-stop-secs") {
                    out.auto_stop_secs = Some(n);
                } else {
                    out.watch_interval_ms = Some(if n < 100 {
                        100
                    } else {
                        n
                    });
                }
            },
            Err(e) => return Err(bad_value(flag, v.as_str(), int_reason(e))),
        }
    } else if eq_str(flag, "error-rate") {
        if float_literal_of(&vc) {
            out.error_rate = Some(v);
        } else {
            let reason = if vc.len() == 0 {
                "cannot parse float from empty string"
            } else {
                "invalid float literal"
            };
            return Err(bad_value(flag, v.as_str(), reason));
        }
    } else if eq_str(flag, "collection") || eq_str(flag, "c") {
        let ghost before = out.collections@;
        out.collections.push(v);
        proof {
            assert(strings_view(out.collections@) =~= strings_view(before).push(vc@));
        }
    } else if eq_str(flag, "output") || eq_str(flag, "o") {
        out.export_output = Some(v);
    } else if eq_str(flag, "id") {
        out.export_collection_id = Some(v);
    } else {
        out.new_name = Some(v);
    }
    Ok(())
}

/// Applies one flag without a value to `out`.
fn set_switch(out: &mut CliArgs, flag: &Vec<char>) -> (r: Result<(), CliError>)
    ensures
        match apply_switch(args_view(*old(out)), flag@) {
            Ok(st) => r is Ok && args_view(*final(out)) == st,
            Err(e) => r matches Err(x) && error_view(x) == e,
        },
{
    if eq_str(flag, "no-cors") {
        out.cors = false;
    } else if eq_str(flag, "capture-bodies") {
        out.capture_bodies = true;
    } else if eq_str(flag, "help") || eq_str(flag, "h") {
        out.command = Command::Help;
    } else if eq_str(flag, "version") || eq_str(flag, "V") {
        out.command = Command::Version;
    } else {
        return Err(CliError::UnknownFlag(string_of(flag)));
    }
    Ok(())
}

fn takes_value_of(flag: &Vec<char>) -> (r: bool)
    ensures
        r == takes_value(flag@),
{
    eq_str(flag, "db") || eq_str(flag, "database") || eq_str(flag, "host") || eq_str(flag, "port") || eq_str(
        flag,
        "default-latency-ms",
    ) || eq_str(flag, "error-rate") || eq_str(flag, "collection") || eq_str(flag, "c") || eq_str(flag, "output")
        || eq_str(flag, "o") || eq_str(flag, "id") || eq_str(flag, "auto-stop-secs") || eq_str(flag, "name")
        || eq_str(flag, "interval-ms")
}

/// The usage text: commands, then the options of each.
pub open spec fn help_spec() -> Seq<char> {
    "Albert CLI — headless mock gateway driver\n\nUSAGE:\n    albert <COMMAND> [OPTIONS]\n\nCOMMANDS:\n    serve      Start the mock HTTP gateway\n    import     Import an OpenAPI/cURL file into the SQLite store\n    watch      Re-import a file on every change (Ctrl-C to stop)\n    list       List collections stored in the database\n    export     Print a collection snapshot as JSON\n    export-all Print all collections as a JSON array\n    delete     Remove a collection from the database\n    rename     Rename an existing collection\n    doctor     Run health checks (db, env, provider reachability)\n    help       Print this help\n    version    Print the crate version\n\nSHARED OPTIONS:\n    --db <path>              SQLite database path (default: albert.db)\n\nSERVE OPTIONS:\n    --host <ip>              Bind address (default: 127.0.0.1)\n    --port <n>               Bind port (default: 4317, 0 = ephemeral)\n    --no-cors                Disable permissive CORS\n    --default-latency-ms <n> Add a latency floor to every route\n    --error-rate <0..1>      Chance of serving the error example\n    --collection <id>        Only serve the named collection(s)\n    --capture-bodies         Record request bodies in the log (≤4KB)\n    --auto-stop-secs <n>     Stop after N seconds (useful in tests)\n\nDELETE OPTIONS:\n    --id <collection_id>     Collection to remove\n\nWATCH OPTIONS:\n    <file>                   Path to watch (positional, required)\n    --interval-ms <n>        Poll interval in ms (default 1000, min 100)\n    --auto-stop-secs <n>     Exit after N seconds (useful in tests)\n\nRENAME OPTIONS:\n    --id <collection_id>     Collection to rename\n    --name <new_name>        New display name\n\nEXPORT OPTIONS:\n    --id <collection_id>     Collection to export\n    --output <path>          File to write (default: stdout)\n"@
}

/// The usage text printed by `help`.
pub fn help_text() -> (r: String)
    ensures
        r@ == help_spec(),
{
    "Albert CLI — headless mock gateway driver\n\nUSAGE:\n    albert <COMMAND> [OPTIONS]\n\nCOMMANDS:\n    serve      Start the mock HTTP gateway\n    import     Import an OpenAPI/cURL file into the SQLite store\n    watch      Re-import a file on every change (Ctrl-C to stop)\n    list       List collections stored in the database\n    export     Print a collection snapshot as JSON\n    export-all Print all collections as a JSON array\n    delete     Remove a collection from the database\n    rename     Rename an existing collection\n    doctor     Run health checks (db, env, provider reachability)\n    help       Print this help\n    version    Print the crate version\n\nSHARED OPTIONS:\n    --db <path>              SQLite database path (default: albert.db)\n\nSERVE OPTIONS:\n    --host <ip>              Bind address (default: 127.0.0.1)\n    --port <n>               Bind port (default: 4317, 0 = ephemeral)\n    --no-cors                Disable permissive CORS\n    --default-latency-ms <n> Add a latency floor to every route\n    --error-rate <0..1>      Chance of serving the error example\n    --collection <id>        Only serve the named collection(s)\n    --capture-bodies         Record request bodies in the log (≤4KB)\n    --auto-stop-secs <n>     Stop after N seconds (useful in tests)\n\nDELETE OPTIONS:\n    --id <collection_id>     Collection to remove\n\nWATCH OPTIONS:\n    <file>                   Path to watch (positional, required)\n    --interval-ms <n>        Poll interval in ms (default 1000, min 100)\n    --auto-stop-secs <n>     Exit after N seconds (useful in tests)\n\nRENAME OPTIONS:\n    --id <collection_id>     Collection to rename\n    --name <new_name>        New display name\n\nEXPORT OPTIONS:\n    --id <collection_id>     Collection to export\n    --output <path>          File to write (default: stdout)\n".to_string()
}

/// Reads the command line (see `parsed_args`).
#[verifier::loop_isolation(false)]
pub fn parse_args(argv: Vec<String>) -> (r: Result<CliArgs, CliError>)
    ensures
        match parsed_args(strings_view(argv@)) {
            Ok(a) => r matches Ok(x) && args_view(x) == a,
            Err(e) => r matches Err(x) && error_view(x) == e,
        },
{
    let ghost words = strings_view(argv@);
    let mut out = CliArgs::default();
    proof {
        assert(args_view(out).collections =~= Seq::<Seq<char>>::empty());
        assert(args_view(out).import_paths =~= Seq::<Seq<char>>::empty());
        assert(args_view(out) =~= default_view(out.command));
    }
    if argv.len() == 0 {
        return Ok(out);
    }
    let mut argv = argv;
    let ghost argv0 = argv@;
    let first = argv.remove(0);
    proof {
        assert(first@ == words[0]);
        assert(strings_view(argv@) =~= words.subrange(1, words.len() as int));
    }
    out.command = match command_from_word(first.as_str()) {
        None => return Err(CliError::UnknownCommand(first)),
        Some(c) => c,
    };
    let ghost rest = strings_view(argv@);
    proof {
        assert(args_view(out) =~= default_view(out.command));
    }
    let mut i: usize = 0;
    while i < argv.len()
        invariant
            i <= argv@.len() + 1,
            rest == strings_view(argv@),
            parsed_args(words) == scan_args(rest, i as int, args_view(out)),
        decreases argv.len() + 1 - i,
    {
        let ghost st = args_view(out);
        let arg = chars_of(argv[i].as_str());
        assert(arg@ == rest[i as int]);
        let dashes = chars_of("--");
        if !starts_with_of(&arg, &dashes) {
            assert(flag_parts(rest[i as int]) is None);
            if matches!(out.command, Command::Import) || matches!(out.command, Command::Watch) {
                let ghost before = out.import_paths@;
                out.import_paths.push(argv[i].clone());
                proof {
                    assert(strings_view(out.import_paths@) =~= strings_view(before).push(rest[i as int]));
                    assert(args_view(out) =~= ArgsView { import_paths: st.import_paths.push(rest[i as int]), ..st });
                }
                i += 1;
                continue;
            }
            let e = CliError::UnknownFlag(argv[i].clone());
            assert(scan_args(rest, i as int, st) == Err::<ArgsView, CliErrorView>(error_view(e)));
            return Err(e);
        }
        proof {
            reveal_strlit("--");
        }
        let body = slice(&arg, 2, arg.len());
        proof {
            lemma_find_from(body@, seq!['='], 0);
        }
        let (flag, inline) = match find_char_of(&body, '=') {
            Some(k) => {
                assert(k < body.len());
                (slice(&body, 0, k), Some(slice(&body, k + 1, body.len())))
            },
            None => {
                let f = slice(&body, 0, body.len());
                assert(f@ =~= body@);
                (f, None::<Vec<char>>)
            },
        };
        assert(flag_parts(rest[i as int]) == Some((flag@, match inline {
            Some(v) => Some(v@),
            None => None::<Seq<char>>,
        })));
        if takes_value_of(&flag) {
            let ghost i0 = i as int;
            let value: String = match inline {
                Some(v) => {
                    i += 1;
                    string_of(&v)
                },
                None => {
                    if i + 1 >= argv.len() {
                        let e = CliError::MissingValue { flag: string_of(&flag) };
                        assert(scan_args(rest, i as int, st) == Err::<ArgsView, CliErrorView>(error_view(e)));
                        return Err(e);
                    }
                    let v = argv[i + 1].clone();
                    assert(v@ == rest[i + 1]);
                    i += 2;
                    v
                },
            };
            let ghost vv = value@;
            match set_value(&mut out, &flag, value) {
                Err(e) => {
                    assert(apply_value(st, flag@, vv) == Err::<ArgsView, CliErrorView>(error_view(e)));
                    assert(scan_args(rest, i0, st) == Err::<ArgsView, CliErrorView>(error_view(e)));
                    return Err(e);
                },
                Ok(()) => {
                    assert(scan_args(rest, i0, st) == scan_args(rest, i as int, args_view(out)));
                },
            }
        } else {
            match set_switch(&mut out, &flag) {
                Err(e) => {
                    assert(scan_args(rest, i as int, st) == Err::<ArgsView, CliErrorView>(error_view(e)));
                    return Err(e);
                },
                Ok(()) => {},
            }
            i += 1;
        }
    }
    Ok(out)
}

/// A path segment with a concrete value in place of a parameter: `{name}`
/// and `:name` become `_name`; other segments stay.
pub open spec fn concrete_segment(seg: Seq<char>) -> Seq<char> {
    if seg.len() >= 2 && seg[0] == '{' && seg.last() == '}' {
        seq!['_'] + seg.subrange(1, seg.len() - 1)
    } else if seg.len() >= 1 && seg[0] == ':' {
        seq!['_'] + seg.subrange(1, seg.len() as int)
    } else {
        seg
    }
}

fn concrete_segment_of(seg: &Vec<char>) -> (r: Vec<char>)
    ensures
        r@ == concrete_segment(seg@),
{
    let n = seg.len();
    if n >= 2 && seg[0] == '{' && seg[n - 1] == '}' {
        let mut r = vec!['_'];
        append(&mut r, &slice(seg, 1, n - 1));
        r
    } else if n >= 1 && seg[0] == ':' {
        let mut r = vec!['_'];
        append(&mut r, &slice(seg, 1, n));
        r
    } else {
        seg.clone()
    }
}

/// A route path with every parameter segment made concrete, for requests
/// against a running gateway.
pub fn concrete_route_path(path: &str) -> (r: String)
    ensures
        r@ == crate::text::join(
            crate::text::split_char(path@, '/').map_values(|seg: Seq<char>| concrete_segment(seg)),
            "/"@,
        ),
{
    let pieces = crate::gateway::handlers::split_all(&chars_of(path), '/');
    let mut out: Vec<Vec<char>> = Vec::new();
    let mut i: usize = 0;
    while i < pieces.len()
        invariant
            i <= pieces@.len(),
            out@.len() == i,
            forall|k: int| 0 <= k < i ==> (#[trigger] out@[k])@ == concrete_segment(pieces@[k]@),
        decreases pieces.len() - i,
    {
        out.push(concrete_segment_of(&pieces[i]));
        i += 1;
    }
    assert(crate::text::views(out@) =~= crate::text::split_char(path@, '/').map_values(
        |seg: Seq<char>| concrete_segment(seg),
    ));
    string_of(&crate::openai::generate::join_of(&out, "/"))
}

/// Nearest-rank percentile of sorted samples, `0` when there are none.
pub fn percentile_u64(sorted: &[u64], pct: u8) -> (r: u64)
    ensures
        r == crate::gateway::state::percentile_spec(sorted@, pct as int),
{
    crate::gateway::state::percentile(sorted, pct)
}

} // verus!
