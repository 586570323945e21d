//! The command line: `rank-wav [OPTIONS] <DIR>`.
//!
//! Options: `-r/--recursive`, `-s/--sort <best|pleasing>`,
//! `-e/--extended`, `-c/--config <CONFIG>`, `--json`, `-h/--help`,
//! `-V/--version`.  The first argument is the program's name.
//!
//! The grammar follows the usual conventions of long options
//! (`--name`, `--name=value`, `--name value`), clusters of short options
//! (`-re`, `-sbest`, `-s=best`, `-s best`), `--` ending the options, and a
//! single positional directory.  A value named by an option, or the
//! directory, is checked when the next recognised argument (or the end of
//! the line) is reached; an argument that names no option is refused at
//! once.

use vstd::prelude::*;
use crate::text::chars_of;
use vstd::string::*;

verus! {

/// Sort mode for ranking WAV files.
#[derive(Debug, Clone, Copy, PartialEq, Eq)]
pub enum SortMode {
    /// Rank by "best" score (balanced, present, clear).
    Best,
    /// Rank by "pleasing" score (warm, smooth, low harshness).
    Pleasing,
}

impl Default for SortMode {
    /// The default sort mode is `Pleasing`.
    fn default() -> (r: Self)
        ensures
            r == SortMode::Pleasing,
    {
        SortMode::Pleasing
    }
}

/// Scan WAV files and rank them by acoustic features.
#[derive(Debug)]
pub struct Cli {
    /// Directory to scan for WAV files.
    pub dir: String,
    /// Recurse into subdirectories.
    pub recursive: bool,
    /// Sort mode for ranking.
    pub sort: SortMode,
    /// Enable extended metrics (rolloff, flatness, crest factor).
    pub extended: bool,
    /// Configuration file path.
    pub config: String,
    /// Output results as JSON instead of a table.
    pub json: bool,
}

/// A command line as plain values.
pub struct CliView {
    pub dir: Seq<char>,
    pub recursive: bool,
    pub sort: SortMode,
    pub extended: bool,
    pub config: Seq<char>,
    pub json: bool,
}

impl View for Cli {
    type V = CliView;

    open spec fn view(&self) -> CliView {
        CliView {
            dir: self.dir@,
            recursive: self.recursive,
            sort: self.sort,
            extended: self.extended,
            config: self.config@,
            json: self.json,
        }
    }
}

/// Why a command line gives no run.  `DisplayHelp` and `DisplayVersion`
/// are requests rather than faults: the caller prints the help or the
/// version.
#[derive(Debug, Clone, Copy, PartialEq, Eq)]
pub enum CliError {
    /// An argument shaped like an option names none.
    UnknownArgument,
    /// A flag was given a value (`--json=yes`).
    UnexpectedValue,
    /// An option that takes a value was given none.
    MissingValue,
    /// The sort mode is neither `best` nor `pleasing`.
    InvalidValue,
    /// A path (directory or configuration file) is empty.
    EmptyValue,
    /// An argument was given twice.
    ArgumentConflict,
    /// A second directory was given.
    UnexpectedPositional,
    /// No directory was given.
    MissingDirectory,
    /// `-h` or `--help`.
    DisplayHelp,
    /// `-V` or `--version`.
    DisplayVersion,
}

/// The options of the command line.
#[derive(Debug, Clone, Copy, PartialEq, Eq)]
pub enum ArgId {
    Recursive,
    Sort,
    Extended,
    Config,
    Json,
    Help,
    Version,
}

/// The arguments that carry a value.
#[derive(Debug, Clone, Copy, PartialEq, Eq)]
pub enum Target {
    Dir,
    Sort,
    Config,
}

/// What has been read of a command line so far.  `pending` is a valued
/// argument whose value (if any yet) is not checked yet.
pub struct Progress {
    pub dir: Option<Seq<char>>,
    pub recursive: bool,
    pub sort: Option<SortMode>,
    pub extended: bool,
    pub config: Option<Seq<char>>,
    pub json: bool,
    pub trailing: bool,
    pub pending: Option<(Target, Option<Seq<char>>)>,
}

pub open spec fn initial_progress() -> Progress {
    Progress {
        dir: None,
        recursive: false,
        sort: None,
        extended: false,
        config: None,
        json: false,
        trailing: false,
        pending: None,
    }
}

/// The option a long name (the text after `--`, up to any `=`) names.
pub open spec fn long_arg(name: Seq<char>) -> Option<ArgId> {
    if name == "recursive"@ {
        Some(ArgId::Recursive)
    } else if name == "sort"@ {
        Some(ArgId::Sort)
    } else if name == "extended"@ {
        Some(ArgId::Extended)
    } else if name == "config"@ {
        Some(ArgId::Config)
    } else if name == "json"@ {
        Some(ArgId::Json)
    } else if name == "help"@ {
        Some(ArgId::Help)
    } else if name == "version"@ {
        Some(ArgId::Version)
    } else {
        None
    }
}

/// The option a short letter names.
pub open spec fn short_arg(c: char) -> Option<ArgId> {
    if c == 'r' {
        Some(ArgId::Recursive)
    } else if c == 's' {
        Some(ArgId::Sort)
    } else if c == 'e' {
        Some(ArgId::Extended)
    } else if c == 'c' {
        Some(ArgId::Config)
    } else if c == 'h' {
        Some(ArgId::Help)
    } else if c == 'V' {
        Some(ArgId::Version)
    } else {
        None
    }
}

/// The valued argument an option sets, if it takes a value.
pub open spec fn value_target(id: ArgId) -> Option<Target> {
    match id {
        ArgId::Sort => Some(Target::Sort),
        ArgId::Config => Some(Target::Config),
        _ => None,
    }
}

/// The sort mode a value names.
pub open spec fn sort_value(v: Seq<char>) -> Option<SortMode> {
    if v == "best"@ {
        Some(SortMode::Best)
    } else if v == "pleasing"@ {
        Some(SortMode::Pleasing)
    } else {
        None
    }
}

/// `--` alone: every later argument is positional.
pub open spec fn is_escape(t: Seq<char>) -> bool {
    t.len() == 2 && t[0] == '-' && t[1] == '-'
}

/// `--name` or `--name=value`.
pub open spec fn is_long(t: Seq<char>) -> bool {
    t.len() > 2 && t[0] == '-' && t[1] == '-'
}

/// `-x...`: a cluster of short options.  A lone `-` is positional.
pub open spec fn is_short(t: Seq<char>) -> bool {
    t.len() >= 2 && t[0] == '-' && t[1] != '-'
}

/// `k` is the first `=` in `body`.
pub open spec fn is_first_eq(body: Seq<char>, k: int) -> bool {
    &&& 0 <= k < body.len()
    &&& body[k] == '='
    &&& forall|j: int| 0 <= j < k ==> body[j] != '='
}

/// The name of a long option: the text up to the first `=`.
pub open spec fn long_name(body: Seq<char>) -> Seq<char> {
    if exists|k: int| is_first_eq(body, k) {
        body.take(choose|k: int| is_first_eq(body, k))
    } else {
        body
    }
}

/// The value attached to a long option: the text after the first `=`.
pub open spec fn long_value(body: Seq<char>) -> Option<Seq<char>> {
    if exists|k: int| is_first_eq(body, k) {
        Some(body.skip((choose|k: int| is_first_eq(body, k)) + 1))
    } else {
        None
    }
}

/// The directory has been given (checked or pending).
pub open spec fn dir_taken(p: Progress) -> bool {
    p.dir is Some || p.pending matches Some((Target::Dir, _))
}

/// Give `v` to a valued argument.
pub open spec fn assign(p: Progress, target: Target, v: Seq<char>) -> Result<Progress, CliError> {
    match target {
        Target::Dir => if v.len() == 0 {
            Err(CliError::EmptyValue)
        } else {
            Ok(Progress { dir: Some(v), ..p })
        },
        Target::Sort => if p.sort is Some {
            Err(CliError::ArgumentConflict)
        } else {
            match sort_value(v) {
                Some(m) => Ok(Progress { sort: Some(m), ..p }),
                None => Err(CliError::InvalidValue),
            }
        },
        Target::Config => if p.config is Some {
            Err(CliError::ArgumentConflict)
        } else if v.len() == 0 {
            Err(CliError::EmptyValue)
        } else {
            Ok(Progress { config: Some(v), ..p })
        },
    }
}

/// Check the pending valued argument, if any.
pub open spec fn resolve(p: Progress) -> Result<Progress, CliError> {
    match p.pending {
        None => Ok(p),
        Some((_, None)) => Err(CliError::MissingValue),
        Some((t, Some(v))) => assign(Progress { pending: None, ..p }, t, v),
    }
}

/// A recognised flag (an option without a value).
pub open spec fn react_flag(p: Progress, id: ArgId) -> Result<Progress, CliError> {
    match resolve(p) {
        Err(e) => Err(e),
        Ok(q) => match id {
            ArgId::Help => Err(CliError::DisplayHelp),
            ArgId::Version => Err(CliError::DisplayVersion),
            ArgId::Recursive => if q.recursive {
                Err(CliError::ArgumentConflict)
            } else {
                Ok(Progress { recursive: true, ..q })
            },
            ArgId::Extended => if q.extended {
                Err(CliError::ArgumentConflict)
            } else {
                Ok(Progress { extended: true, ..q })
            },
            _ => if q.json {
                Err(CliError::ArgumentConflict)
            } else {
                Ok(Progress { json: true, ..q })
            },
        },
    }
}

/// A recognised option that takes a value, with the value if attached.
pub open spec fn react_option(p: Progress, target: Target, val: Option<Seq<char>>) -> Result<
    Progress,
    CliError,
> {
    match resolve(p) {
        Err(e) => Err(e),
        Ok(q) => match val {
            Some(v) => assign(q, target, v),
            None => Ok(Progress { pending: Some((target, None)), ..q }),
        },
    }
}

/// A positional argument.
pub open spec fn positional(p: Progress, t: Seq<char>) -> Result<Progress, CliError> {
    if dir_taken(p) {
        Err(CliError::UnexpectedPositional)
    } else {
        match resolve(p) {
            Err(e) => Err(e),
            Ok(q) => Ok(Progress { pending: Some((Target::Dir, Some(t))), ..q }),
        }
    }
}

/// The short options of the cluster `t`, from its `j`-th character on.
pub open spec fn short_step(p: Progress, t: Seq<char>, j: int) -> Result<Progress, CliError>
    decreases t.len() - j,
{
    if j < 1 || j >= t.len() {
        Ok(p)
    } else {
        match short_arg(t[j]) {
            None => Err(CliError::UnknownArgument),
            Some(id) => match value_target(id) {
                Some(target) => {
                    let rest = t.skip(j + 1);
                    if rest.len() > 0 {
                        let v = if rest[0] == '=' {
                            rest.skip(1)
                        } else {
                            rest
                        };
                        react_option(p, target, Some(v))
                    } else {
                        react_option(p, target, None)
                    }
                },
                None => match react_flag(p, id) {
                    Ok(q) => short_step(q, t, j + 1),
                    Err(e) => Err(e),
                },
            },
        }
    }
}

/// One argument of the command line.
pub open spec fn token_step(p: Progress, t: Seq<char>) -> Result<Progress, CliError> {
    if p.trailing {
        positional(p, t)
    } else if is_escape(t) {
        Ok(Progress { trailing: true, ..p })
    } else if is_long(t) {
        let body = t.skip(2);
        match long_arg(long_name(body)) {
            None => Err(CliError::UnknownArgument),
            Some(id) => match value_target(id) {
                Some(target) => react_option(p, target, long_value(body)),
                None => if long_value(body) is Some {
                    Err(CliError::UnexpectedValue)
                } else {
                    react_flag(p, id)
                },
            },
        }
    } else if is_short(t) {
        short_step(p, t, 1)
    } else {
        match p.pending {
            Some((target, None)) => Ok(Progress { pending: Some((target, Some(t))), ..p }),
            _ => positional(p, t),
        }
    }
}

/// The arguments from the `i`-th on.
pub open spec fn run(p: Progress, toks: Seq<Seq<char>>, i: int) -> Result<Progress, CliError>
    decreases toks.len() - i,
{
    if i < 0 || i >= toks.len() {
        Ok(p)
    } else {
        match token_step(p, toks[i]) {
            Ok(q) => run(q, toks, i + 1),
            Err(e) => Err(e),
        }
    }
}

/// The end of the command line: check what is pending, require the
/// directory, and fill in the defaults.
pub open spec fn finish(r: Result<Progress, CliError>) -> Result<CliView, CliError> {
    match r {
        Err(e) => Err(e),
        Ok(p) => match resolve(p) {
            Err(e) => Err(e),
            Ok(q) => match q.dir {
                None => Err(CliError::MissingDirectory),
                Some(d) => Ok(
                    CliView {
                        dir: d,
                        recursive: q.recursive,
                        sort: match q.sort {
                            Some(m) => m,
                            None => SortMode::Pleasing,
                        },
                        extended: q.extended,
                        config: match q.config {
                            Some(c) => c,
                            None => "config.toml"@,
                        },
                        json: q.json,
                    },
                ),
            },
        },
    }
}

/// What a command line (program name first) asks for.
pub open spec fn parse_args(args: Seq<Seq<char>>) -> Result<CliView, CliError> {
    finish(run(initial_progress(), args, 1))
}

/// The arguments as character sequences.
pub open spec fn args_view(args: &[&str]) -> Seq<Seq<char>> {
    args@.map_values(|s: &str| s@)
}

/// Parsing state of the executable parser.
struct State {
    dir: Option<String>,
    recursive: bool,
    sort: Option<SortMode>,
    extended: bool,
    config: Option<String>,
    json: bool,
    trailing: bool,
    pending: Option<(Target, Option<String>)>,
}

spec fn opt_view(o: Option<String>) -> Option<Seq<char>> {
    match o {
        Some(s) => Some(s@),
        None => None,
    }
}

spec fn pending_view(o: Option<(Target, Option<String>)>) -> Option<(Target, Option<Seq<char>>)> {
    match o {
        Some((t, v)) => Some((t, opt_view(v))),
        None => None,
    }
}

impl State {
    spec fn progress(&self) -> Progress {
        Progress {
            dir: opt_view(self.dir),
            recursive: self.recursive,
            sort: self.sort,
            extended: self.extended,
            config: opt_view(self.config),
            json: self.json,
            trailing: self.trailing,
            pending: pending_view(self.pending),
        }
    }
}

spec fn result_view(r: Result<State, CliError>) -> Result<Progress, CliError> {
    match r {
        Ok(s) => Ok(s.progress()),
        Err(e) => Err(e),
    }
}

/// The characters `a[from..to]` spell `word`.
fn seq_equals(a: &Vec<char>, from: usize, to: usize, word: &str) -> (r: bool)
    requires
        from <= to <= a.len(),
    ensures
        r == (a@.subrange(from as int, to as int) == word@),
{
    let n = word.unicode_len();
    if to - from != n {
        return false;
    }
    let mut k: usize = 0;
    while k < n
        invariant
            from <= to <= a.len(),
            to - from == n,
            n == word@.len(),
            k <= n,
            forall|m: int| 0 <= m < k ==> a@[from + m] == word@[m],
        decreases n - k,
    {
        if a[from + k] != word.get_char(k) {
            assert(a@.subrange(from as int, to as int)[k as int] != word@[k as int]);
            return false;
        }
        k = k + 1;
    }
    assert(a@.subrange(from as int, to as int) =~= word@);
    true
}

/// The sort mode a value names.
fn sort_of(v: &str) -> (r: Option<SortMode>)
    ensures
        r == sort_value(v@),
{
    let chars = chars_of(v);
    let n = chars.len();
    assert(chars@.subrange(0, n as int) =~= v@);
    if seq_equals(&chars, 0, n, "best") {
        Some(SortMode::Best)
    } else if seq_equals(&chars, 0, n, "pleasing") {
        Some(SortMode::Pleasing)
    } else {
        None
    }
}

/// The option that `a[from..to]` names as a long option.
fn long_arg_of(a: &Vec<char>, from: usize, to: usize) -> (r: Option<ArgId>)
    requires
        from <= to <= a.len(),
    ensures
        r == long_arg(a@.subrange(from as int, to as int)),
{
    if seq_equals(a, from, to, "recursive") {
        Some(ArgId::Recursive)
    } else if seq_equals(a, from, to, "sort") {
        Some(ArgId::Sort)
    } else if seq_equals(a, from, to, "extended") {
        Some(ArgId::Extended)
    } else if seq_equals(a, from, to, "config") {
        Some(ArgId::Config)
    } else if seq_equals(a, from, to, "json") {
        Some(ArgId::Json)
    } else if seq_equals(a, from, to, "help") {
        Some(ArgId::Help)
    } else if seq_equals(a, from, to, "version") {
        Some(ArgId::Version)
    } else {
        None
    }
}

/// The option a short letter names.
fn short_arg_of(c: char) -> (r: Option<ArgId>)
    ensures
        r == short_arg(c),
{
    if c == 'r' {
        Some(ArgId::Recursive)
    } else if c == 's' {
        Some(ArgId::Sort)
    } else if c == 'e' {
        Some(ArgId::Extended)
    } else if c == 'c' {
        Some(ArgId::Config)
    } else if c == 'h' {
        Some(ArgId::Help)
    } else if c == 'V' {
        Some(ArgId::Version)
    } else {
        None
    }
}

fn target_of(id: ArgId) -> (r: Option<Target>)
    ensures
        r == value_target(id),
{
    match id {
        ArgId::Sort => Some(Target::Sort),
        ArgId::Config => Some(Target::Config),
        _ => None,
    }
}

fn assign_value(st: State, target: Target, v: String) -> (r: Result<State, CliError>)
    ensures
        result_view(r) == assign(st.progress(), target, v@),
{
    let mut st = st;
    match target {
        Target::Dir => {
            if v.as_str().is_empty() {
                Err(CliError::EmptyValue)
            } else {
                st.dir = Some(v);
                Ok(st)
            }
        },
        Target::Sort => {
            if st.sort.is_some() {
                Err(CliError::ArgumentConflict)
            } else {
                match sort_of(v.as_str()) {
                    Some(m) => {
                        st.sort = Some(m);
                        Ok(st)
                    },
                    None => Err(CliError::InvalidValue),
                }
            }
        },
        Target::Config => {
            if st.config.is_some() {
                Err(CliError::ArgumentConflict)
            } else if v.as_str().is_empty() {
                Err(CliError::EmptyValue)
            } else {
                st.config = Some(v);
                Ok(st)
            }
        },
    }
}

fn resolve_pending(st: State) -> (r: Result<State, CliError>)
    ensures
        result_view(r) == resolve(st.progress()),
{
    let mut st = st;
    let p = st.pending.take();
    match p {
        None => Ok(st),
        Some((_, None)) => Err(CliError::MissingValue),
        Some((t, Some(v))) => assign_value(st, t, v),
    }
}

fn flag_reaction(st: State, id: ArgId) -> (r: Result<State, CliError>)
    requires
        value_target(id) is None,
    ensures
        result_view(r) == react_flag(st.progress(), id),
{
    let mut q = match resolve_pending(st) {
        Ok(q) => q,
        Err(e) => return Err(e),
    };
    match id {
        ArgId::Help => Err(CliError::DisplayHelp),
        ArgId::Version => Err(CliError::DisplayVersion),
        ArgId::Recursive => {
            if q.recursive {
                Err(CliError::ArgumentConflict)
            } else {
                q.recursive = true;
                Ok(q)
            }
        },
        ArgId::Extended => {
            if q.extended {
                Err(CliError::ArgumentConflict)
            } else {
                q.extended = true;
                Ok(q)
            }
        },
        _ => {
            if q.json {
                Err(CliError::ArgumentConflict)
            } else {
                q.json = true;
                Ok(q)
            }
        },
    }
}

fn option_reaction(st: State, target: Target, val: Option<String>) -> (r: Result<State, CliError>)
    ensures
        result_view(r) == react_option(st.progress(), target, opt_view(val)),
{
    let mut q = match resolve_pending(st) {
        Ok(q) => q,
        Err(e) => return Err(e),
    };
    match val {
        Some(v) => assign_value(q, target, v),
        None => {
            q.pending = Some((target, None));
            Ok(q)
        },
    }
}

fn positional_argument(st: State, t: &str) -> (r: Result<State, CliError>)
    ensures
        result_view(r) == positional(st.progress(), t@),
{
    let taken = st.dir.is_some() || match &st.pending {
        Some((Target::Dir, _)) => true,
        _ => false,
    };
    if taken {
        return Err(CliError::UnexpectedPositional);
    }
    let mut q = match resolve_pending(st) {
        Ok(q) => q,
        Err(e) => return Err(e),
    };
    q.pending = Some((Target::Dir, Some(t.to_owned())));
    Ok(q)
}

/// A cluster of short options.
#[verifier::loop_isolation(false)]
fn short_cluster(st: State, t: &str, chars: &Vec<char>) -> (r: Result<State, CliError>)
    requires
        chars@ == t@,
    ensures
        result_view(r) == short_step(st.progress(), t@, 1),
{
    let n = chars.len();
    if n <= 1 {
        return Ok(st);
    }
    let ghost start = st.progress();
    let mut st = st;
    let mut j: usize = 1;
    while j < n
        invariant
            chars@ == t@,
            n == chars.len(),
            1 <= j <= n,
            short_step(start, t@, 1) == short_step(st.progress(), t@, j as int),
        decreases n - j,
    {
        let ghost cur = st.progress();
        let id = match short_arg_of(chars[j]) {
            Some(id) => id,
            None => {
                assert(short_step(cur, t@, j as int) == Err::<Progress, CliError>(
                    CliError::UnknownArgument,
                ));
                return Err(CliError::UnknownArgument);
            },
        };
        match target_of(id) {
            Some(target) => {
                if j + 1 < n {
                    let v = if chars[j + 1] == '=' {
                        t.substring_char(j + 2, n)
                    } else {
                        t.substring_char(j + 1, n)
                    };
                    assert(t@.skip(j + 1) =~= t@.subrange(j + 1, n as int));
                    assert(t@.skip(j + 1).skip(1) =~= t@.subrange(j + 2, n as int));
                    return option_reaction(st, target, Some(v.to_owned()));
                } else {
                    assert(t@.skip(j + 1).len() == 0);
                    return option_reaction(st, target, None);
                }
            },
            None => {
                st = match flag_reaction(st, id) {
                    Ok(q) => q,
                    Err(e) => {
                        assert(short_step(cur, t@, j as int) == Err::<Progress, CliError>(e));
                        return Err(e);
                    },
                };
            },
        }
        j = j + 1;
    }
    Ok(st)
}

proof fn lemma_first_eq_unique(body: Seq<char>, m: int)
    requires
        is_first_eq(body, m),
    ensures
        (choose|k: int| is_first_eq(body, k)) == m,
{
    let c = choose|k: int| is_first_eq(body, k);
    assert(is_first_eq(body, c));
    if c < m {
        assert(body[c] == '=');
    } else if c > m {
        assert(body[m] == '=');
    }
}

/// One argument of the command line.
fn token(st: State, t: &str) -> (r: Result<State, CliError>)
    ensures
        result_view(r) == token_step(st.progress(), t@),
{
    if st.trailing {
        return positional_argument(st, t);
    }
    let chars = chars_of(t);
    let n = chars.len();
    if n == 2 && chars[0] == '-' && chars[1] == '-' {
        let mut st = st;
        st.trailing = true;
        return Ok(st);
    }
    if n > 2 && chars[0] == '-' && chars[1] == '-' {
        let ghost body = t@.skip(2);
        let mut k: usize = 2;
        while k < n && chars[k] != '='
            invariant
                chars@ == t@,
                n == chars.len(),
                2 <= k <= n,
                forall|m: int| 2 <= m < k ==> chars@[m] != '=',
            decreases n - k,
        {
            k = k + 1;
        }
        let val = if k < n {
            proof {
                assert(is_first_eq(body, k - 2));
                lemma_first_eq_unique(body, k - 2);
                assert(body.take(k - 2) =~= t@.subrange(2, k as int));
                assert(body.skip(k - 2 + 1) =~= t@.subrange(k + 1, n as int));
            }
            Some(t.substring_char(k + 1, n).to_owned())
        } else {
            proof {
                assert forall|m: int| !is_first_eq(body, m) by {
                    if 0 <= m < body.len() {
                        assert(body[m] == chars@[m + 2]);
                    }
                }
                assert(body =~= t@.subrange(2, k as int));
            }
            None
        };
        let id = match long_arg_of(&chars, 2, k) {
            Some(id) => id,
            None => return Err(CliError::UnknownArgument),
        };
        return match target_of(id) {
            Some(target) => option_reaction(st, target, val),
            None => if val.is_some() {
                Err(CliError::UnexpectedValue)
            } else {
                flag_reaction(st, id)
            },
        };
    }
    if n >= 2 && chars[0] == '-' && chars[1] != '-' {
        return short_cluster(st, t, &chars);
    }
    let waiting = match &st.pending {
        Some((_, None)) => true,
        _ => false,
    };
    if waiting {
        let mut st = st;
        let target = match st.pending {
            Some((target, _)) => target,
            None => Target::Dir,
        };
        st.pending = Some((target, Some(t.to_owned())));
        Ok(st)
    } else {
        positional_argument(st, t)
    }
}

impl Cli {
    /// Parse a command line whose first argument is the program's name.
    pub fn try_parse_from(args: &[&str]) -> (r: Result<Cli, CliError>)
        ensures
            match r {
                Ok(c) => parse_args(args_view(args)) == Ok::<CliView, CliError>(c@),
                Err(e) => parse_args(args_view(args)) == Err::<CliView, CliError>(e),
            },
    {
        let ghost toks = args_view(args);
        let mut st = State {
            dir: None,
            recursive: false,
            sort: None,
            extended: false,
            config: None,
            json: false,
            trailing: false,
            pending: None,
        };
        let n = args.len();
        let mut i: usize = if n == 0 {
            0
        } else {
            1
        };
        assert(run(initial_progress(), toks, 1) == run(st.progress(), toks, i as int));
        while i < n
            invariant
                n == args.len(),
                toks == args_view(args),
                toks.len() == n,
                i <= n,
                run(initial_progress(), toks, 1) == run(st.progress(), toks, i as int),
            decreases n - i,
        {
            assert(toks[i as int] == args[i as int]@);
            st = match token(st, args[i]) {
                Ok(q) => q,
                Err(e) => return Err(e),
            };
            i = i + 1;
        }
        let q = match resolve_pending(st) {
            Ok(q) => q,
            Err(e) => return Err(e),
        };
        let dir = match q.dir {
            Some(d) => d,
            None => return Err(CliError::MissingDirectory),
        };
        let sort = match q.sort {
            Some(m) => m,
            None => SortMode::Pleasing,
        };
        let config = match q.config {
            Some(c) => c,
            None => "config.toml".to_owned(),
        };
        Ok(Cli { dir, recursive: q.recursive, sort, extended: q.extended, config, json: q.json })
    }

    /// Parse a command line that is known to give a run.
    pub fn parse_from(args: &[&str]) -> (c: Cli)
        requires
            parse_args(args_view(args)) is Ok,
        ensures
            parse_args(args_view(args)) == Ok::<CliView, CliError>(c@),
    {
        match Cli::try_parse_from(args) {
            Ok(c) => c,
            Err(e) => {
                assert(false);
                Cli {
                    dir: "".to_owned(),
                    recursive: false,
                    sort: SortMode::Pleasing,
                    extended: false,
                    config: "".to_owned(),
                    json: false,
                }
            },
        }
    }
}

} // verus!

verus! {

/// Two spellings of one argument: a short option and its long form,
/// bare (`-r` / `--recursive`, `-s` / `--sort`, ...) or with a value
/// attached (`-sVALUE` / `--sort=VALUE`, `-s=VALUE` / `--sort=VALUE`).
pub open spec fn same_option(x: Seq<char>, y: Seq<char>) -> bool {
    ||| x == "-r"@ && y == "--recursive"@
    ||| x == "-e"@ && y == "--extended"@
    ||| x == "-h"@ && y == "--help"@
    ||| x == "-V"@ && y == "--version"@
    ||| x == "-s"@ && y == "--sort"@
    ||| x == "-c"@ && y == "--config"@
    ||| x.len() > 2 && x.take(2) == "-s"@ && x[2] != '=' && y == "--sort="@ + x.skip(2)
    ||| x.len() >= 3 && x.take(3) == "-s="@ && y == "--sort="@ + x.skip(3)
    ||| x.len() > 2 && x.take(2) == "-c"@ && x[2] != '=' && y == "--config="@ + x.skip(2)
    ||| x.len() >= 3 && x.take(3) == "-c="@ && y == "--config="@ + x.skip(3)
}

proof fn lemma_long_parts(t: Seq<char>, k: int)
    requires
        is_long(t),
        2 <= k < t.len(),
        t[k] == '=',
        forall|m: int| 2 <= m < k ==> t[m] != '=',
    ensures
        long_name(t.skip(2)) == t.subrange(2, k),
        long_value(t.skip(2)) == Some(t.subrange(k + 1, t.len() as int)),
{
    let body = t.skip(2);
    assert(is_first_eq(body, k - 2));
    lemma_first_eq_unique(body, k - 2);
    assert(body.take(k - 2) =~= t.subrange(2, k));
    assert(body.skip(k - 2 + 1) =~= t.subrange(k + 1, t.len() as int));
}

proof fn lemma_long_bare(t: Seq<char>)
    requires
        is_long(t),
        forall|m: int| 2 <= m < t.len() ==> t[m] != '=',
    ensures
        long_name(t.skip(2)) == t.skip(2),
        long_value(t.skip(2)) is None,
{
    let body = t.skip(2);
    assert forall|m: int| !is_first_eq(body, m) by {
        if 0 <= m < body.len() {
            assert(body[m] == t[m + 2]);
        }
    }
}

proof fn lemma_bare_pair(p: Progress, x: Seq<char>, y: Seq<char>)
    requires
        x == "-r"@ && y == "--recursive"@ || x == "-e"@ && y == "--extended"@ || x == "-h"@
            && y == "--help"@ || x == "-V"@ && y == "--version"@ || x == "-s"@ && y == "--sort"@
            || x == "-c"@ && y == "--config"@,
        !p.trailing,
    ensures
        token_step(p, x) == token_step(p, y),
{
    reveal_strlit("-r");
    reveal_strlit("--recursive");
    reveal_strlit("recursive");
    reveal_strlit("-e");
    reveal_strlit("--extended");
    reveal_strlit("extended");
    reveal_strlit("-h");
    reveal_strlit("--help");
    reveal_strlit("help");
    reveal_strlit("-V");
    reveal_strlit("--version");
    reveal_strlit("version");
    reveal_strlit("-s");
    reveal_strlit("--sort");
    reveal_strlit("sort");
    reveal_strlit("-c");
    reveal_strlit("--config");
    reveal_strlit("config");
    reveal_strlit("json");
    lemma_long_bare(y);
    let name = y.skip(2);
    if y == "--recursive"@ {
        assert(name =~= "recursive"@);
    } else if y == "--extended"@ {
        assert(name =~= "extended"@);
    } else if y == "--help"@ {
        assert(name =~= "help"@);
    } else if y == "--version"@ {
        assert(name =~= "version"@);
    } else if y == "--sort"@ {
        assert(name =~= "sort"@);
    } else {
        assert(name =~= "config"@);
    }
    let id = short_arg(x[1])->Some_0;
    assert(long_arg(name) == Some(id));
    assert(token_step(p, x) == short_step(p, x, 1));
    if value_target(id) is None {
        let r = react_flag(p, id);
        if r is Ok {
            assert(short_step(r->Ok_0, x, 2) == r);
        }
    } else {
        assert(x.skip(2).len() == 0);
    }
}

proof fn lemma_attached_pair(p: Progress, x: Seq<char>, y: Seq<char>)
    requires
        x.len() > 2 && x.take(2) == "-s"@ && x[2] != '=' && y == "--sort="@ + x.skip(2)
            || x.len() >= 3 && x.take(3) == "-s="@ && y == "--sort="@ + x.skip(3)
            || x.len() > 2 && x.take(2) == "-c"@ && x[2] != '=' && y == "--config="@ + x.skip(2)
            || x.len() >= 3 && x.take(3) == "-c="@ && y == "--config="@ + x.skip(3),
        !p.trailing,
    ensures
        token_step(p, x) == token_step(p, y),
{
    reveal_strlit("-s");
    reveal_strlit("-s=");
    reveal_strlit("--sort=");
    reveal_strlit("sort");
    reveal_strlit("-c");
    reveal_strlit("-c=");
    reveal_strlit("--config=");
    reveal_strlit("config");
    reveal_strlit("recursive");
    reveal_strlit("extended");
    reveal_strlit("json");
    reveal_strlit("help");
    reveal_strlit("version");
    assert(x.take(2)[0] == x[0] && x.take(2)[1] == x[1]);
    assert(x.len() >= 3 ==> x.take(3)[0] == x[0] && x.take(3)[1] == x[1] && x.take(3)[2]
        == x[2]);
    let is_sort = x[1] == 's';
    assert(x[0] == '-' && (x[1] == 's' || x[1] == 'c'));
    let pre = if is_sort {
        "--sort="@
    } else {
        "--config="@
    };
    assert(y.take(pre.len() as int) =~= pre);
    assert forall|m: int| 0 <= m < pre.len() implies y[m] == pre[m] by {
        assert(y.take(pre.len() as int)[m] == y[m]);
    }
    let v = if x[2] == '=' {
        x.skip(3)
    } else {
        x.skip(2)
    };
    assert(x.skip(2).skip(1) =~= x.skip(3));
    let k: int = if is_sort {
        6
    } else {
        8
    };
    assert(y[k] == '=');
    assert forall|m: int| 2 <= m < k implies y[m] != '=' by {}
    lemma_long_parts(y, k);
    assert(y.subrange(k + 1, y.len() as int) =~= v);
    if is_sort {
        assert(y.subrange(2, k) =~= "sort"@);
    } else {
        assert(y.subrange(2, k) =~= "config"@);
    }
}

/// A short option and its long form have the same effect in every state
/// of the parse before `--`.
pub proof fn lemma_same_option_step(p: Progress, x: Seq<char>, y: Seq<char>)
    requires
        same_option(x, y),
        !p.trailing,
    ensures
        token_step(p, x) == token_step(p, y),
{
    if x == "-r"@ && y == "--recursive"@ || x == "-e"@ && y == "--extended"@ || x == "-h"@ && y
        == "--help"@ || x == "-V"@ && y == "--version"@ || x == "-s"@ && y == "--sort"@ || x
        == "-c"@ && y == "--config"@ {
        lemma_bare_pair(p, x, y);
    } else {
        lemma_attached_pair(p, x, y);
    }
}

proof fn lemma_short_keeps_trailing(p: Progress, t: Seq<char>, j: int)
    ensures
        short_step(p, t, j) matches Ok(q) ==> q.trailing == p.trailing,
    decreases t.len() - j,
{
    if 1 <= j < t.len() {
        if let Some(id) = short_arg(t[j]) {
            if value_target(id) is None {
                let r = react_flag(p, id);
                if r is Ok {
                    lemma_short_keeps_trailing(r->Ok_0, t, j + 1);
                }
            }
        }
    }
}

proof fn lemma_step_trailing(p: Progress, t: Seq<char>)
    ensures
        token_step(p, t) matches Ok(q) ==> q.trailing == (p.trailing || is_escape(t)),
{
    if !p.trailing && !is_escape(t) && !is_long(t) && is_short(t) {
        lemma_short_keeps_trailing(p, t, 1);
    }
}

/// The command lines `a` and `b` differ only in spelling options before
/// the first `--`: short forms in one where the other has long forms.
pub open spec fn spelled_alike(a: Seq<Seq<char>>, b: Seq<Seq<char>>) -> bool {
    &&& a.len() == b.len()
    &&& forall|k: int|
        0 <= k < a.len() ==> #[trigger] a[k] == b[k] || (k >= 1 && same_option(a[k], b[k])
            && forall|j: int| 1 <= j < k ==> !is_escape(a[j]))
}

proof fn lemma_run_alike(p: Progress, a: Seq<Seq<char>>, b: Seq<Seq<char>>, i: int)
    requires
        spelled_alike(a, b),
        1 <= i,
        p.trailing ==> exists|j: int| 1 <= j < i && is_escape(a[j]),
    ensures
        run(p, a, i) == run(p, b, i),
    decreases a.len() - i,
{
    if i < a.len() {
        if a[i] != b[i] {
            if p.trailing {
                let j = choose|j: int| 1 <= j < i && is_escape(a[j]);
                assert(!is_escape(a[j]));
            }
            lemma_same_option_step(p, a[i], b[i]);
        }
        lemma_step_trailing(p, a[i]);
        let r = token_step(p, a[i]);
        if r is Ok {
            let q = r->Ok_0;
            if q.trailing {
                if !p.trailing {
                    assert(is_escape(a[i]));
                }
            }
            lemma_run_alike(q, a, b, i + 1);
        }
    }
}

/// Short and long spellings of an option are interchangeable: two command
/// lines that differ only in that respect (before `--`) ask for the same
/// thing.
pub proof fn lemma_spellings_interchangeable(a: Seq<Seq<char>>, b: Seq<Seq<char>>)
    requires
        spelled_alike(a, b),
    ensures
        parse_args(a) == parse_args(b),
{
    lemma_run_alike(initial_progress(), a, b, 1);
}

/// A directory alone gives the defaults: not recursive, sorted by the
/// pleasing score, basic metrics only, configuration from `config.toml`,
/// table output.
pub proof fn lemma_parse_defaults(prog: Seq<char>, dir: Seq<char>)
    requires
        dir.len() > 0,
        !(dir.len() >= 2 && dir[0] == '-'),
    ensures
        parse_args(seq![prog, dir]) == Ok::<CliView, CliError>(
            CliView {
                dir: dir,
                recursive: false,
                sort: SortMode::Pleasing,
                extended: false,
                config: "config.toml"@,
                json: false,
            },
        ),
{
    let toks = seq![prog, dir];
    let p0 = initial_progress();
    let p1 = Progress { pending: Some((Target::Dir, Some(dir))), ..p0 };
    assert(toks[1] == dir);
    assert(token_step(p0, dir) == Ok::<Progress, CliError>(p1));
    assert(run(p1, toks, 2) == Ok::<Progress, CliError>(p1));
    assert(run(p0, toks, 1) == Ok::<Progress, CliError>(p1));
}

/// Help asked for first is always given, whatever follows.
pub proof fn lemma_help_first(args: Seq<Seq<char>>)
    requires
        args.len() >= 2,
        args[1] == "-h"@ || args[1] == "--help"@,
    ensures
        parse_args(args) == Err::<CliView, CliError>(CliError::DisplayHelp),
{
    reveal_strlit("-h");
    reveal_strlit("--help");
    reveal_strlit("help");
    reveal_strlit("recursive");
    reveal_strlit("sort");
    reveal_strlit("extended");
    reveal_strlit("config");
    reveal_strlit("json");
    let p0 = initial_progress();
    let t = args[1];
    if t == "--help"@ {
        lemma_long_bare(t);
        assert(t.skip(2) =~= "help"@);
    }
    assert(token_step(p0, t) == Err::<Progress, CliError>(CliError::DisplayHelp));
}

/// The version asked for first is always given, whatever follows.
pub proof fn lemma_version_first(args: Seq<Seq<char>>)
    requires
        args.len() >= 2,
        args[1] == "-V"@ || args[1] == "--version"@,
    ensures
        parse_args(args) == Err::<CliView, CliError>(CliError::DisplayVersion),
{
    reveal_strlit("-V");
    reveal_strlit("--version");
    reveal_strlit("version");
    reveal_strlit("recursive");
    reveal_strlit("sort");
    reveal_strlit("extended");
    reveal_strlit("config");
    reveal_strlit("json");
    reveal_strlit("help");
    let p0 = initial_progress();
    let t = args[1];
    if t == "--version"@ {
        lemma_long_bare(t);
        assert(t.skip(2) =~= "version"@);
    }
    assert(token_step(p0, t) == Err::<Progress, CliError>(CliError::DisplayVersion));
}

/// An argument that is neither an option nor `--`: a value or the
/// directory.
pub open spec fn is_plain(t: Seq<char>) -> bool {
    !(t.len() >= 2 && t[0] == '-')
}

proof fn lemma_long_option_token(p: Progress, t: Seq<char>, name: Seq<char>, target: Target)
    requires
        t == "--"@ + name,
        name == "config"@ && target == Target::Config || name == "sort"@ && target == Target::Sort,
        !p.trailing,
    ensures
        token_step(p, t) == react_option(p, target, None),
{
    reveal_strlit("--");
    reveal_strlit("config");
    reveal_strlit("sort");
    reveal_strlit("recursive");
    reveal_strlit("extended");
    reveal_strlit("json");
    reveal_strlit("help");
    reveal_strlit("version");
    assert(t[0] == '-' && t[1] == '-');
    assert forall|m: int| 2 <= m < t.len() implies t[m] != '=' by {
        assert(t[m] == name[m - 2]);
    }
    lemma_long_bare(t);
    assert(t.skip(2) =~= name);
}

/// The single positional argument is the directory, and a configuration
/// file named once after it is the one used; everything else keeps its
/// default.
pub proof fn lemma_config_value(prog: Seq<char>, dir: Seq<char>, v: Seq<char>)
    requires
        dir.len() > 0,
        is_plain(dir),
        v.len() > 0,
        is_plain(v),
    ensures
        parse_args(seq![prog, dir, "--config"@, v]) == Ok::<CliView, CliError>(
            CliView {
                dir: dir,
                recursive: false,
                sort: SortMode::Pleasing,
                extended: false,
                config: v,
                json: false,
            },
        ),
{
    reveal_strlit("--config");
    let toks = seq![prog, dir, "--config"@, v];
    let p0 = initial_progress();
    let p1 = Progress { pending: Some((Target::Dir, Some(dir))), ..p0 };
    let q1 = Progress { dir: Some(dir), ..p0 };
    let p2 = Progress { pending: Some((Target::Config, None)), ..q1 };
    let p3 = Progress { pending: Some((Target::Config, Some(v))), ..q1 };
    assert(toks[1] == dir && toks[2] == "--config"@ && toks[3] == v);
    assert(token_step(p0, dir) == Ok::<Progress, CliError>(p1));
    assert("--config"@ =~= "--"@ + "config"@) by {
        reveal_strlit("--");
        reveal_strlit("config");
    }
    lemma_long_option_token(p1, "--config"@, "config"@, Target::Config);
    assert(resolve(p1) == Ok::<Progress, CliError>(q1));
    assert(token_step(p1, "--config"@) == Ok::<Progress, CliError>(p2));
    assert(token_step(p2, v) == Ok::<Progress, CliError>(p3));
    assert(run(p3, toks, 4) == Ok::<Progress, CliError>(p3));
    assert(run(p2, toks, 3) == Ok::<Progress, CliError>(p3));
    assert(run(p1, toks, 2) == Ok::<Progress, CliError>(p3));
    assert(run(p0, toks, 1) == Ok::<Progress, CliError>(p3));
}

/// A sort mode named once after the directory is the one used; everything
/// else keeps its default.
pub proof fn lemma_sort_value(prog: Seq<char>, dir: Seq<char>, v: Seq<char>, m: SortMode)
    requires
        dir.len() > 0,
        is_plain(dir),
        sort_value(v) == Some(m),
    ensures
        parse_args(seq![prog, dir, "--sort"@, v]) == Ok::<CliView, CliError>(
            CliView {
                dir: dir,
                recursive: false,
                sort: m,
                extended: false,
                config: "config.toml"@,
                json: false,
            },
        ),
{
    reveal_strlit("--sort");
    reveal_strlit("best");
    reveal_strlit("pleasing");
    let toks = seq![prog, dir, "--sort"@, v];
    let p0 = initial_progress();
    let p1 = Progress { pending: Some((Target::Dir, Some(dir))), ..p0 };
    let q1 = Progress { dir: Some(dir), ..p0 };
    let p2 = Progress { pending: Some((Target::Sort, None)), ..q1 };
    let p3 = Progress { pending: Some((Target::Sort, Some(v))), ..q1 };
    assert(toks[1] == dir && toks[2] == "--sort"@ && toks[3] == v);
    assert(v[0] != '-');
    assert(token_step(p0, dir) == Ok::<Progress, CliError>(p1));
    assert("--sort"@ =~= "--"@ + "sort"@) by {
        reveal_strlit("--");
        reveal_strlit("sort");
    }
    lemma_long_option_token(p1, "--sort"@, "sort"@, Target::Sort);
    assert(resolve(p1) == Ok::<Progress, CliError>(q1));
    assert(token_step(p1, "--sort"@) == Ok::<Progress, CliError>(p2));
    assert(token_step(p2, v) == Ok::<Progress, CliError>(p3));
    assert(run(p3, toks, 4) == Ok::<Progress, CliError>(p3));
    assert(run(p2, toks, 3) == Ok::<Progress, CliError>(p3));
    assert(run(p1, toks, 2) == Ok::<Progress, CliError>(p3));
    assert(run(p0, toks, 1) == Ok::<Progress, CliError>(p3));
}

/// `--json` before `--` checks what is pending, as every recognised
/// option does, and then turns JSON output on, whatever has or has not been
/// read before it (a directory or not); only a second `--json` is refused.
pub proof fn lemma_json_step(p: Progress)
    requires
        !p.trailing,
    ensures
        token_step(p, "--json"@) == match resolve(p) {
            Err(e) => Err(e),
            Ok(q) => if q.json {
                Err(CliError::ArgumentConflict)
            } else {
                Ok(Progress { json: true, ..q })
            },
        },
        (resolve(p) is Ok && !resolve(p)->Ok_0.json) ==> (token_step(p, "--json"@) matches Ok(r)
            && r.json && r.dir == resolve(p)->Ok_0.dir && r.sort == resolve(p)->Ok_0.sort),
{
    reveal_strlit("--json");
    reveal_strlit("json");
    reveal_strlit("recursive");
    reveal_strlit("sort");
    reveal_strlit("extended");
    reveal_strlit("config");
    reveal_strlit("help");
    reveal_strlit("version");
    let t = "--json"@;
    lemma_long_bare(t);
    assert(t.skip(2) =~= "json"@);
}

/// `--json` asks for JSON output wherever it stands around the directory:
/// before it or after it, the result is the defaults with JSON output.
pub proof fn lemma_json_either_side(prog: Seq<char>, dir: Seq<char>)
    requires
        dir.len() > 0,
        is_plain(dir),
    ensures
        parse_args(seq![prog, "--json"@, dir]) == Ok::<CliView, CliError>(
            CliView {
                dir: dir,
                recursive: false,
                sort: SortMode::Pleasing,
                extended: false,
                config: "config.toml"@,
                json: true,
            },
        ),
        parse_args(seq![prog, dir, "--json"@]) == parse_args(seq![prog, "--json"@, dir]),
{
    reveal_strlit("--json");
    let p0 = initial_progress();
    let pj = Progress { json: true, ..p0 };
    // `--json` first, then the directory.
    let a = seq![prog, "--json"@, dir];
    assert(a[1] == "--json"@ && a[2] == dir);
    lemma_json_step(p0);
    assert(token_step(p0, "--json"@) == Ok::<Progress, CliError>(pj));
    let pa = Progress { pending: Some((Target::Dir, Some(dir))), ..pj };
    assert(token_step(pj, dir) == Ok::<Progress, CliError>(pa));
    assert(run(pa, a, 3) == Ok::<Progress, CliError>(pa));
    assert(run(pj, a, 2) == Ok::<Progress, CliError>(pa));
    assert(run(p0, a, 1) == Ok::<Progress, CliError>(pa));
    // The directory first, then `--json`.
    let b = seq![prog, dir, "--json"@];
    assert(b[1] == dir && b[2] == "--json"@);
    let p1 = Progress { pending: Some((Target::Dir, Some(dir))), ..p0 };
    assert(token_step(p0, dir) == Ok::<Progress, CliError>(p1));
    let q1 = Progress { dir: Some(dir), ..p0 };
    assert(resolve(p1) == Ok::<Progress, CliError>(q1));
    lemma_json_step(p1);
    let pb = Progress { json: true, ..q1 };
    assert(token_step(p1, "--json"@) == Ok::<Progress, CliError>(pb));
    assert(run(pb, b, 3) == Ok::<Progress, CliError>(pb));
    assert(run(p1, b, 2) == Ok::<Progress, CliError>(pb));
    assert(run(p0, b, 1) == Ok::<Progress, CliError>(pb));
}

/// `p` with JSON output on.
pub open spec fn json_on(p: Progress) -> Progress {
    Progress { json: true, ..p }
}

pub open spec fn json_on_result(r: Result<Progress, CliError>) -> Result<Progress, CliError> {
    match r {
        Ok(p) => Ok(json_on(p)),
        Err(e) => Err(e),
    }
}

/// The token is a long option naming `--json`.
pub open spec fn names_json(t: Seq<char>) -> bool {
    is_long(t) && long_arg(long_name(t.skip(2))) == Some(ArgId::Json)
}

proof fn lemma_short_json_passive(p: Progress, t: Seq<char>, j: int)
    ensures
        short_step(json_on(p), t, j) == json_on_result(short_step(p, t, j)),
    decreases t.len() - j,
{
    if 1 <= j < t.len() {
        if let Some(id) = short_arg(t[j]) {
            if value_target(id) is None {
                let r = react_flag(p, id);
                if r is Ok {
                    lemma_short_json_passive(r->Ok_0, t, j + 1);
                }
            }
        }
    }
}

/// Every step except one naming `--json` leaves the JSON switch alone.
proof fn lemma_step_json_passive(p: Progress, t: Seq<char>)
    requires
        !(!p.trailing && !is_escape(t) && names_json(t)),
    ensures
        token_step(json_on(p), t) == json_on_result(token_step(p, t)),
{
    if !p.trailing && !is_escape(t) && !is_long(t) && is_short(t) {
        lemma_short_json_passive(p, t, 1);
    }
}

proof fn lemma_short_keeps_json(p: Progress, t: Seq<char>, j: int)
    ensures
        short_step(p, t, j) matches Ok(q) ==> (p.json ==> q.json),
    decreases t.len() - j,
{
    if 1 <= j < t.len() {
        if let Some(id) = short_arg(t[j]) {
            if value_target(id) is None {
                let r = react_flag(p, id);
                if r is Ok {
                    lemma_short_keeps_json(r->Ok_0, t, j + 1);
                }
            }
        }
    }
}

proof fn lemma_run_keeps_json(p: Progress, a: Seq<Seq<char>>, i: int)
    ensures
        run(p, a, i) matches Ok(q) ==> (p.json ==> q.json),
    decreases a.len() - i,
{
    if 0 <= i < a.len() {
        let t = a[i];
        if !p.trailing && !is_escape(t) && !is_long(t) && is_short(t) {
            lemma_short_keeps_json(p, t, 1);
        }
        let r = token_step(p, t);
        if r is Ok {
            lemma_run_keeps_json(r->Ok_0, a, i + 1);
        }
    }
}

/// A value already given to an option may be checked at once instead of
/// at the next argument: the outcome is the same, except across `--`.
proof fn lemma_short_early_resolve(p: Progress, r: Progress, t: Seq<char>)
    requires
        p.pending matches Some((_, Some(_))),
        resolve(p) == Ok::<Progress, CliError>(r),
        t.len() >= 2,
    ensures
        short_step(p, t, 1) == short_step(r, t, 1),
{
}

proof fn lemma_step_early_resolve(p: Progress, r: Progress, t: Seq<char>)
    requires
        p.pending matches Some((_, Some(_))),
        resolve(p) == Ok::<Progress, CliError>(r),
        p.trailing || !is_escape(t),
    ensures
        token_step(p, t) == token_step(r, t),
{
    if !p.trailing && !is_escape(t) && !is_long(t) && is_short(t) {
        lemma_short_early_resolve(p, r, t);
    }
}

/// A value given to an option that will be refused stays refused: every
/// later step fails or keeps it pending.
proof fn lemma_step_bad_pending(p: Progress, t: Seq<char>)
    requires
        p.pending matches Some((_, Some(_))),
        resolve(p) is Err,
    ensures
        token_step(p, t) matches Ok(q) ==> (q.pending == p.pending && q.trailing && resolve(q) is Err
            && q == (Progress { trailing: true, ..p })),
{
    if !p.trailing && !is_escape(t) && !is_long(t) && is_short(t) {
        assert(t.len() >= 2);
    }
}

proof fn lemma_run_bad_pending(p: Progress, a: Seq<Seq<char>>, i: int)
    requires
        p.pending matches Some((_, Some(_))),
        resolve(p) is Err,
    ensures
        finish(run(p, a, i)) is Err,
    decreases a.len() - i,
{
    if 0 <= i < a.len() {
        lemma_step_bad_pending(p, a[i]);
        let r = token_step(p, a[i]);
        if r is Ok {
            let q = r->Ok_0;
            assert(resolve(q) is Err) by {
                assert(resolve(q) == match resolve(p) {
                    Ok(x) => Ok(Progress { trailing: true, ..x }),
                    Err(e) => Err::<Progress, CliError>(e),
                });
            }
            lemma_run_bad_pending(q, a, i + 1);
        }
    }
}

/// The simulation: `q` is `p` with JSON on, and with a value pending in `p`
/// possibly checked already.
pub open spec fn json_ahead(p: Progress, q: Progress) -> bool {
    &&& !p.json
    &&& (q == json_on(p) || (p.pending matches Some((_, Some(_))) && resolve(p) is Ok && q
        == json_on(resolve(p)->Ok_0)))
}

proof fn lemma_run_json_ahead(
    p: Progress,
    q: Progress,
    a: Seq<Seq<char>>,
    i: int,
    b: Seq<Seq<char>>,
    d: int,
)
    requires
        json_ahead(p, q),
        0 <= i <= a.len(),
        0 <= d,
        b.len() == a.len() + d,
        forall|j: int| i <= j < a.len() ==> b[j + d] == a[j],
        run(p, a, i) matches Ok(pf) && !pf.json,
    ensures
        run(q, b, i + d) matches Ok(qf) && json_ahead(run(p, a, i)->Ok_0, qf),
    decreases a.len() - i,
{
    if i < a.len() {
        let t = a[i];
        assert(b[i + d] == t);
        let rp = token_step(p, t);
        assert(rp is Ok);
        let p2 = rp->Ok_0;
        lemma_run_keeps_json(p2, a, i + 1);
        assert(!p2.json);
        if names_json(t) && !p.trailing && !is_escape(t) {
            // naming --json would switch it on in p
            reveal_strlit("json");
            assert(false) by {
                assert(long_arg(long_name(t.skip(2))) == Some(ArgId::Json));
                assert(value_target(ArgId::Json) is None);
            }
        }
        if q == json_on(p) {
            lemma_step_json_passive(p, t);
            assert(token_step(q, t) == Ok::<Progress, CliError>(json_on(p2)));
            lemma_run_json_ahead(p2, json_on(p2), a, i + 1, b, d);
        } else {
            let r = resolve(p)->Ok_0;
            if !p.trailing && is_escape(t) {
                assert(p2 == Progress { trailing: true, ..p });
                let q2 = Progress { trailing: true, ..q };
                assert(token_step(q, t) == Ok::<Progress, CliError>(q2));
                assert(resolve(p2) == Ok::<Progress, CliError>(Progress { trailing: true, ..r }));
                assert(q2 == json_on(resolve(p2)->Ok_0));
                lemma_run_json_ahead(p2, q2, a, i + 1, b, d);
            } else {
                lemma_step_early_resolve(p, r, t);
                assert(!r.json);
                assert(r.pending is None);
                assert(!(!r.trailing && !is_escape(t) && names_json(t)));
                lemma_step_json_passive(r, t);
                assert(token_step(q, t) == Ok::<Progress, CliError>(json_on(p2)));
                lemma_run_json_ahead(p2, json_on(p2), a, i + 1, b, d);
            }
        }
    }
}

/// The arguments from the `i`-th up to (not including) the `k`-th.
pub open spec fn run_to(p: Progress, a: Seq<Seq<char>>, i: int, k: int) -> Result<Progress, CliError>
    decreases k - i,
{
    if i < 0 || i >= k || i >= a.len() {
        Ok(p)
    } else {
        match token_step(p, a[i]) {
            Ok(q) => run_to(q, a, i + 1, k),
            Err(e) => Err(e),
        }
    }
}

proof fn lemma_run_split(p: Progress, a: Seq<Seq<char>>, b: Seq<Seq<char>>, i: int, k: int)
    requires
        0 <= i <= k <= a.len(),
        k <= b.len(),
        forall|j: int| i <= j < k ==> b[j] == a[j],
        run_to(p, a, i, k) is Ok,
    ensures
        run_to(p, b, i, k) == run_to(p, a, i, k),
        run(p, a, i) == run(run_to(p, a, i, k)->Ok_0, a, k),
        run(p, b, i) == run(run_to(p, a, i, k)->Ok_0, b, k),
    decreases k - i,
{
    if i < k {
        assert(b[i] == a[i]);
        let r = token_step(p, a[i]);
        lemma_run_split(r->Ok_0, a, b, i + 1, k);
    }
}

/// `--json` may be added at any point of a command line that gives a run
/// without JSON output, other than after `--` or where an option still
/// awaits its value: the run is the same, with JSON output on.
pub proof fn lemma_json_insertion(a: Seq<Seq<char>>, k: int)
    requires
        1 <= k <= a.len(),
        run_to(initial_progress(), a, 1, k) matches Ok(p) && !p.trailing && !(p.pending matches Some(
            (_, None),
        )),
        parse_args(a) matches Ok(v) && !v.json,
    ensures
        parse_args(a.insert(k, "--json"@)) matches Ok(w) && w == (CliView {
            json: true,
            ..parse_args(a)->Ok_0
        }),
{
    let b = a.insert(k, "--json"@);
    let p0 = initial_progress();
    a.insert_ensures(k, "--json"@);
    let p = run_to(p0, a, 1, k)->Ok_0;
    lemma_run_split(p0, a, b, 1, k);
    // Without JSON output, p has not switched it on.
    assert(run(p0, a, 1) == run(p, a, k));
    let pf = run(p, a, k)->Ok_0;
    lemma_run_keeps_json(p, a, k);
    assert(!pf.json);
    assert(!p.json);
    // A pending value in p is accepted, else `a` would fail.
    if p.pending matches Some((_, Some(_))) {
        if resolve(p) is Err {
            lemma_run_bad_pending(p, a, k);
        }
    }
    assert(resolve(p) is Ok);
    let r = resolve(p)->Ok_0;
    assert(!r.json);
    lemma_json_step(p);
    let q = json_on(r);
    assert(token_step(p, "--json"@) == Ok::<Progress, CliError>(q));
    assert(b[k] == "--json"@);
    assert(run(p, b, k) == run(q, b, k + 1));
    assert(json_ahead(p, q));
    lemma_run_json_ahead(p, q, a, k, b, 1);
    let qf = run(q, b, k + 1)->Ok_0;
    assert(json_ahead(pf, qf));
    assert(resolve(pf) is Ok);
    assert(resolve(qf) == Ok::<Progress, CliError>(json_on(resolve(pf)->Ok_0)));
}

} // verus!
