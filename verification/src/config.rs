use vstd::prelude::*;

pub mod action;
pub mod text;
pub mod toml_bridge;

use crate::config::action::Action;
use crate::config::action::SpecialEntry;
use crate::config::toml_bridge::{
    toml_parse, toml_get, toml_as_str, toml_as_integer, toml_table_entries,
};
use crate::config::text::{
    strip_spaces, lemma_strip_spaces_mono, lines_of, split_lines, decimal_digits, to_decimal,
};
use vstd::string::StrSliceExecFns;
use vstd::string::StringExecFns;

verus! {

/// The two directions a run can take: applying actions forward or reverting
/// them backward.
#[derive(Clone, Copy, PartialEq, Eq, Structural, Debug)]
pub enum Direction {
    Do,
    Undo,
}

/// Whether a configuration line sets `current_action`: ignoring spaces, the
/// line begins with the key's name.
pub fn is_current_action(string: &str) -> (r: bool)
    ensures
        r == "current_action"@.is_prefix_of(strip_spaces(string@)),
{
    let pattern = "current_action";
    let plen = pattern.unicode_len();
    let len = string.unicode_len();
    let mut i: usize = 0;
    let mut j: usize = 0;
    proof {
        assert(string@.take(0int) =~= Seq::<char>::empty());
        assert(pattern@.take(0int) =~= Seq::<char>::empty());
    }
    while i < len
        invariant
            i <= len,
            j <= plen,
            len == string@.len(),
            plen == pattern@.len(),
            pattern@ == "current_action"@,
            j < plen ==> strip_spaces(string@.take(i as int)) == pattern@.take(j as int),
            j == plen ==> pattern@.is_prefix_of(strip_spaces(string@.take(i as int))),
        decreases len - i,
    {
        let c = string.get_char(i);
        proof {
            assert(string@.take(i + 1).drop_last() =~= string@.take(i as int));
            assert(string@.take(i + 1).last() == string@[i as int]);
        }
        if c == ' ' {
        } else if j < plen {
            if c == pattern.get_char(j) {
                proof {
                    assert(strip_spaces(string@.take(i + 1)) =~= pattern@.take(j + 1));
                }
                j += 1;
                if j == plen {
                    proof {
                        assert(pattern@.take(plen as int) =~= pattern@);
                        assert(pattern@.is_prefix_of(strip_spaces(string@.take(i + 1))));
                    }
                }
            } else {
                proof {
                    let si = strip_spaces(string@.take(i + 1));
                    let sf = strip_spaces(string@);
                    assert(si == pattern@.take(j as int).push(c));
                    assert(si[j as int] == c);
                    lemma_strip_spaces_mono(string@, i + 1);
                    assert(si.is_prefix_of(sf));
                    assert(sf[j as int] == si[j as int]);
                    if pattern@.is_prefix_of(sf) {
                        assert(sf[j as int] == pattern@[j as int]);
                        assert(false);
                    }
                }
                return false;
            }
        } else {
            proof {
                let si = strip_spaces(string@.take(i as int));
                let s1 = strip_spaces(string@.take(i + 1));
                assert(s1 == si.push(c));
                assert(pattern@ =~= si.subrange(0, plen as int));
                assert(pattern@ =~= s1.subrange(0, plen as int));
            }
        }
        i += 1;
    }
    proof {
        assert(string@.take(len as int) =~= string@);
    }
    j == plen
}

/// The configuration line that records the cursor.
pub open spec fn ca_line(n: nat) -> Seq<char> {
    "current_action = "@ + decimal_digits(n) + "\n"@
}

/// Whether a line sets `current_action`, spaces ignored.
pub open spec fn spec_is_current_action(l: Seq<char>) -> bool {
    "current_action"@.is_prefix_of(strip_spaces(l))
}

/// The rewritten configuration lines: every line that sets `current_action`
/// is replaced by the fresh cursor line, every other line is kept, each with
/// a trailing newline.
pub open spec fn render_lines(ls: Seq<Seq<char>>, n: nat) -> Seq<char>
    decreases ls.len(),
{
    if ls.len() == 0 {
        Seq::empty()
    } else {
        render_lines(ls.drop_last(), n) + (if spec_is_current_action(ls.last()) {
            ca_line(n)
        } else {
            ls.last().push('\n')
        })
    }
}

/// Whether some line sets `current_action`.
pub open spec fn has_current_action(ls: Seq<Seq<char>>) -> bool
    decreases ls.len(),
{
    if ls.len() == 0 {
        false
    } else {
        has_current_action(ls.drop_last()) || spec_is_current_action(ls.last())
    }
}

/// The configuration text with the cursor recorded as `n`: every line that
/// set `current_action` is replaced, and where none did, the cursor line is
/// appended.
pub open spec fn spec_updated_config(content: Seq<char>, n: nat) -> Seq<char> {
    let ls = lines_of(content);
    render_lines(ls, n) + (if has_current_action(ls) {
        Seq::<char>::empty()
    } else {
        ca_line(n)
    })
}

/// Rewrites the configuration text so that it records `current_action` as
/// `n`: lines that set it are replaced in place, other lines are kept, and
/// the setting is appended where no line carried it.
pub fn updated_config(content: &str, n: u64) -> (r: String)
    ensures
        r@ == spec_updated_config(content@, n as nat),
{
    let lines = split_lines(content);
    let mut ca = String::from_str("current_action = ");
    let dec = to_decimal(n as u128);
    ca.append(dec.as_str());
    ca.append("\n");
    proof {
        assert(ca@ =~= ca_line(n as nat));
    }
    let mut out = String::new();
    let mut exists = false;
    let mut i: usize = 0;
    let ghost ls = lines.deep_view();
    proof {
        assert(out@ =~= render_lines(ls.take(0int), n as nat));
    }
    while i < lines.len()
        invariant
            i <= lines@.len(),
            ls == lines.deep_view(),
            ls.len() == lines@.len(),
            ca@ == ca_line(n as nat),
            out@ == render_lines(ls.take(i as int), n as nat),
            exists == has_current_action(ls.take(i as int)),
        decreases lines@.len() - i,
    {
        proof {
            assert(ls.take(i + 1).drop_last() =~= ls.take(i as int));
            assert(ls.take(i + 1).last() == ls[i as int]);
            assert(ls[i as int] == lines@[i as int]@);
        }
        if is_current_action(lines[i].as_str()) {
            out.append(ca.as_str());
            exists = true;
        } else {
            out.append(lines[i].as_str());
            out.append("\n");
            proof {
                assert(ls[i as int].push('\n') =~= ls[i as int] + "\n"@) by {
                    reveal_strlit("\n");
                }
            }
        }
        i += 1;
    }
    proof {
        assert(ls.take(ls.len() as int) =~= ls);
    }
    if !exists {
        out.append(ca.as_str());
    }
    proof {
        assert(out@ =~= spec_updated_config(content@, n as nat));
    }
    out
}

/// Why a run could not start.
#[derive(Clone, Copy, PartialEq, Eq, Structural, Debug)]
pub enum RunError {
    /// The persisted cursor is greater than the number of actions.
    CursorRange,
    /// The cursor already sits at the boundary for the requested direction:
    /// there is nothing to do. Informational, not fatal.
    NothingToDo,
}

/// The sequence a process works on: the sorted action list and the cursor.
/// Actions with index below the cursor count as applied, the rest as not yet
/// applied.
pub struct Config {
    pub actions: Vec<Action>,
    pub current_action: usize,
}

/// Whether a pass in `direction` still has an action to perform when the
/// cursor stands at `cursor` of `n` actions.
pub open spec fn spec_pending(cursor: int, direction: Direction, n: int) -> bool {
    match direction {
        Direction::Do => cursor < n,
        Direction::Undo => cursor > 0,
    }
}

/// Where the cursor moves after one successful step.
pub open spec fn step_cursor(cursor: int, direction: Direction) -> int {
    match direction {
        Direction::Do => cursor + 1,
        Direction::Undo => cursor - 1,
    }
}

/// The cursor a pass reaches, given the outcome of each step it would take:
/// the cursor advances one action at a time while steps succeed, and the
/// pass stops at the first failure or when no action is pending.
pub open spec fn run_cursor(cursor: int, direction: Direction, n: int, outcomes: Seq<bool>) -> int
    decreases outcomes.len(),
{
    if outcomes.len() == 0 || !spec_pending(cursor, direction, n) {
        cursor
    } else if !outcomes[0] {
        cursor
    } else {
        run_cursor(step_cursor(cursor, direction), direction, n, outcomes.drop_first())
    }
}

/// An in-progress pass over a sequence: how many actions there are, where
/// the cursor stands, which direction the pass takes, and whether a failing
/// step has stopped it.
#[derive(Clone, Copy, PartialEq, Eq, Structural, Debug)]
pub struct Run {
    pub n: usize,
    pub cursor: usize,
    pub direction: Direction,
    pub stopped: bool,
}

impl Run {
    /// The cursor never passes the ends of the action list.
    pub open spec fn wf(&self) -> bool {
        self.cursor <= self.n
    }

    /// The index of the next action to perform: the action at the cursor for
    /// a forward pass, the one just below it for a backward pass; `None`
    /// once the pass has stopped or reached its boundary.
    pub fn pending(&self) -> (r: Option<usize>)
        requires
            self.wf(),
        ensures
            if !self.stopped && spec_pending(self.cursor as int, self.direction, self.n as int) {
                r == Some(
                    match self.direction {
                        Direction::Do => self.cursor,
                        Direction::Undo => (self.cursor - 1) as usize,
                    },
                )
            } else {
                r == None::<usize>
            },
    {
        if self.stopped {
            return None;
        }
        match self.direction {
            Direction::Do => {
                if self.cursor < self.n {
                    Some(self.cursor)
                } else {
                    None
                }
            },
            Direction::Undo => {
                if self.cursor > 0 {
                    Some(self.cursor - 1)
                } else {
                    None
                }
            },
        }
    }

    /// Records the outcome of the pending action's step: on success the
    /// cursor moves one action in the pass's direction; on failure it stays
    /// where it is and the pass stops, leaving the remaining actions
    /// untouched.
    pub fn record(&mut self, success: bool)
        requires
            old(self).wf(),
            !old(self).stopped,
            spec_pending(old(self).cursor as int, old(self).direction, old(self).n as int),
        ensures
            final(self).n == old(self).n,
            final(self).direction == old(self).direction,
            final(self).wf(),
            success ==> final(self).cursor == step_cursor(
                old(self).cursor as int,
                old(self).direction,
            ) && !final(self).stopped,
            !success ==> final(self).cursor == old(self).cursor && final(self).stopped,
    {
        if success {
            match self.direction {
                Direction::Do => {
                    self.cursor = self.cursor + 1;
                },
                Direction::Undo => {
                    self.cursor = self.cursor - 1;
                },
            }
        } else {
            self.stopped = true;
        }
    }
}

impl Config {
    /// Starts a pass in the given direction. Aborts with `CursorRange` where
    /// the persisted cursor lies beyond the action count, and with
    /// `NothingToDo` where the cursor already sits at the boundary for the
    /// direction; in both cases no action is performed. Otherwise the pass
    /// begins at the cursor with at least one action pending.
    pub fn start_run(&self, direction: Direction) -> (r: Result<Run, RunError>)
        ensures
            (self.current_action > self.actions.len()) <==> r == Err::<Run, RunError>(
                RunError::CursorRange,
            ),
            (self.current_action <= self.actions.len() && !spec_pending(
                self.current_action as int,
                direction,
                self.actions.len() as int,
            )) <==> r == Err::<Run, RunError>(RunError::NothingToDo),
            match r {
                Ok(run) => run == (Run {
                    n: self.actions.len(),
                    cursor: self.current_action,
                    direction: direction,
                    stopped: false,
                }) && run.wf() && spec_pending(run.cursor as int, direction, run.n as int),
                Err(_) => true,
            },
    {
        let n = self.actions.len();
        if self.current_action > n {
            return Err(RunError::CursorRange);
        }
        let pending = match direction {
            Direction::Do => self.current_action < n,
            Direction::Undo => self.current_action > 0,
        };
        if !pending {
            return Err(RunError::NothingToDo);
        }
        Ok(Run { n: n, cursor: self.current_action, direction: direction, stopped: false })
    }
}

/// A pass with nothing pending leaves the cursor exactly where it was,
/// whatever outcomes its steps would have had: it performs zero executions.
pub proof fn lemma_run_noop(cursor: int, direction: Direction, n: int, outcomes: Seq<bool>)
    requires
        !spec_pending(cursor, direction, n),
    ensures
        run_cursor(cursor, direction, n, outcomes) == cursor,
{
}

/// Resuming after a partial failure: a forward pass from cursor `c` whose
/// first `k` steps succeed and whose next step fails leaves the cursor at
/// `c + k`; that is what is persisted, and a subsequent forward pass starts
/// with the action at index `c + k` pending.
pub proof fn lemma_run_resume(c: int, n: int, k: nat, outcomes: Seq<bool>)
    requires
        0 <= c,
        c + k < n,
        outcomes.len() == k + 1,
        forall|i: int| 0 <= i < k ==> outcomes[i],
        !outcomes[k as int],
    ensures
        run_cursor(c, Direction::Do, n, outcomes) == c + k,
        spec_pending(c + k, Direction::Do, n),
    decreases k,
{
    if k > 0 {
        lemma_run_resume(c + 1, n, (k - 1) as nat, outcomes.drop_first());
    }
}

/// A forward pass from `c` whose steps all succeed carries the cursor to the
/// end of the list.
pub proof fn lemma_run_do_all(c: int, n: int, outcomes: Seq<bool>)
    requires
        0 <= c <= n,
        outcomes.len() == n - c,
        forall|i: int| 0 <= i < outcomes.len() ==> outcomes[i],
    ensures
        run_cursor(c, Direction::Do, n, outcomes) == n,
    decreases n - c,
{
    if c < n {
        lemma_run_do_all(c + 1, n, outcomes.drop_first());
    }
}

/// A backward pass from `c` whose steps all succeed carries the cursor back
/// to zero.
pub proof fn lemma_run_undo_all(c: int, n: int, outcomes: Seq<bool>)
    requires
        0 <= c <= n,
        outcomes.len() == c,
        forall|i: int| 0 <= i < outcomes.len() ==> outcomes[i],
    ensures
        run_cursor(c, Direction::Undo, n, outcomes) == 0,
    decreases c,
{
    if c > 0 {
        lemma_run_undo_all(c - 1, n, outcomes.drop_first());
    }
}

/// Round trip: a forward pass from zero with every step succeeding reaches
/// the action count, and a backward pass from there with every step
/// succeeding returns the cursor to zero.
pub proof fn lemma_round_trip(n: int, outcomes: Seq<bool>)
    requires
        0 <= n,
        outcomes.len() == n,
        forall|i: int| 0 <= i < outcomes.len() ==> outcomes[i],
    ensures
        run_cursor(0, Direction::Do, n, outcomes) == n,
        run_cursor(run_cursor(0, Direction::Do, n, outcomes), Direction::Undo, n, outcomes) == 0,
{
    lemma_run_do_all(0, n, outcomes);
    lemma_run_undo_all(n, n, outcomes);
}

/// Why a configuration could not be turned into a usable sequence.
#[derive(Clone, Copy, PartialEq, Eq, Structural, Debug)]
pub enum ConfigError {
    /// The configuration text is not well-formed.
    InvalidToml,
    /// `root` is present but not a string.
    InvalidRoot,
    /// `current_action` is present but not a non-negative integer in range.
    InvalidCurrentAction,
    /// `command` is absent.
    MissingCommand,
    /// `command` is present but not a string.
    InvalidCommand,
    /// An override entry matched an action's sort key but supplies no usable
    /// `command` string, or `special` is present but not a table.
    InvalidSpecial,
    /// No configuration path was given and none was found in the current
    /// directory.
    MissingConfig,
}

/// Settles where the configuration lives: an explicit path is taken as it
/// is; otherwise the default file is used when the current directory has
/// one, and its absence is an error.
pub fn decide_config_path(path: Option<String>, default_exists: bool) -> (r: Result<
    String,
    ConfigError,
>)
    ensures
        match path {
            Some(p) => r == Ok::<String, ConfigError>(p),
            None => if default_exists {
                (r matches Ok(s) && s@ == "./in-order.toml"@)
            } else {
                r == Err::<String, ConfigError>(ConfigError::MissingConfig)
            },
        },
{
    match path {
        Some(p) => Ok(p),
        None => {
            if default_exists {
                Ok(String::from_str("./in-order.toml"))
            } else {
                Err(ConfigError::MissingConfig)
            }
        },
    }
}

/// Settles the `root` field: absent means the current directory, a string
/// names the root, a value of any other kind is invalid.
pub fn decide_root(field: Option<Option<String>>) -> (r: Result<String, ConfigError>)
    ensures
        match field {
            None => (r matches Ok(s) && s@ == "."@),
            Some(None) => r == Err::<String, ConfigError>(ConfigError::InvalidRoot),
            Some(Some(s)) => r == Ok::<String, ConfigError>(s),
        },
{
    match field {
        None => Ok(String::from_str(".")),
        Some(None) => Err(ConfigError::InvalidRoot),
        Some(Some(s)) => Ok(s),
    }
}

/// Settles the `current_action` field: absent means zero, a non-negative
/// integer that fits the platform's size type is the cursor, anything else
/// is invalid.
pub fn decide_current_action(field: Option<Option<i64>>) -> (r: Result<usize, ConfigError>)
    ensures
        match field {
            None => r == Ok::<usize, ConfigError>(0usize),
            Some(None) => r == Err::<usize, ConfigError>(ConfigError::InvalidCurrentAction),
            Some(Some(i)) => if 0 <= i && i <= usize::MAX as int {
                (r matches Ok(c) && c as int == i)
            } else {
                r == Err::<usize, ConfigError>(ConfigError::InvalidCurrentAction)
            },
        },
{
    match field {
        None => Ok(0),
        Some(None) => Err(ConfigError::InvalidCurrentAction),
        Some(Some(i)) => {
            if i >= 0 && (i as u64) <= (usize::MAX as u64) {
                Ok(i as usize)
            } else {
                Err(ConfigError::InvalidCurrentAction)
            }
        },
    }
}

/// Settles the `command` field: it is required, and must be a string.
pub fn decide_command(field: Option<Option<String>>) -> (r: Result<String, ConfigError>)
    ensures
        match field {
            None => r == Err::<String, ConfigError>(ConfigError::MissingCommand),
            Some(None) => r == Err::<String, ConfigError>(ConfigError::InvalidCommand),
            Some(Some(s)) => r == Ok::<String, ConfigError>(s),
        },
{
    match field {
        None => Err(ConfigError::MissingCommand),
        Some(None) => Err(ConfigError::InvalidCommand),
        Some(Some(s)) => Ok(s),
    }
}

/// Reads `root` out of the parsed configuration and settles it.
pub fn lookup_root(v: &toml::Value) -> (r: Result<String, ConfigError>)
    ensures
        r matches Ok(_) || r == Err::<String, ConfigError>(ConfigError::InvalidRoot),
{
    let field = match toml_get(v, "root") {
        None => None,
        Some(x) => Some(toml_as_str(x)),
    };
    decide_root(field)
}

/// Reads `current_action` out of the parsed configuration and settles it.
pub fn lookup_current_action(v: &toml::Value) -> (r: Result<usize, ConfigError>)
    ensures
        r matches Ok(_) || r == Err::<usize, ConfigError>(ConfigError::InvalidCurrentAction),
{
    let field = match toml_get(v, "current_action") {
        None => None,
        Some(x) => Some(toml_as_integer(x)),
    };
    decide_current_action(field)
}

/// Reads `command` out of the parsed configuration and settles it.
pub fn lookup_command(v: &toml::Value) -> (r: Result<String, ConfigError>)
    ensures
        r matches Ok(_) || r == Err::<String, ConfigError>(ConfigError::MissingCommand) || r
            == Err::<String, ConfigError>(ConfigError::InvalidCommand),
{
    let field = match toml_get(v, "command") {
        None => None,
        Some(x) => Some(toml_as_str(x)),
    };
    decide_command(field)
}

/// Reads the `special` override table out of the parsed configuration:
/// absent means an empty table, a non-table value is invalid, and each
/// entry keeps its key and whatever usable `command` string it supplies.
pub fn lookup_special(v: &toml::Value) -> (r: Result<Vec<SpecialEntry>, ConfigError>)
    ensures
        r matches Ok(_) || r == Err::<Vec<SpecialEntry>, ConfigError>(ConfigError::InvalidSpecial),
{
    let table = match toml_get(v, "special") {
        None => {
            return Ok(Vec::new());
        },
        Some(x) => x,
    };
    let mut pairs = match toml_table_entries(table) {
        None => {
            return Err(ConfigError::InvalidSpecial);
        },
        Some(p) => p,
    };
    let mut entries: Vec<SpecialEntry> = Vec::new();
    while pairs.len() > 0
        decreases pairs@.len(),
    {
        let (key, val) = pairs.remove(0);
        let command = match toml_get(&val, "command") {
            None => None,
            Some(c) => toml_as_str(c),
        };
        entries.push(SpecialEntry { key: key, command: command });
    }
    Ok(entries)
}

/// Every field the sequencer needs, settled from the configuration text.
#[derive(Clone, Debug, PartialEq)]
pub struct ConfigValues {
    pub root: String,
    pub current_action: usize,
    pub command: String,
    pub special: Vec<SpecialEntry>,
}

/// Parses configuration text and settles every field: the root directory to
/// scan, the default command, the override table, and the starting cursor.
pub fn parse_config_values(text: &str) -> (r: Result<ConfigValues, ConfigError>)
    ensures
        match r {
            Ok(_) => true,
            Err(e) => e != ConfigError::MissingConfig,
        },
{
    let v = match toml_parse(text) {
        Err(_) => {
            return Err(ConfigError::InvalidToml);
        },
        Ok(v) => v,
    };
    let root = match lookup_root(&v) {
        Err(e) => {
            return Err(e);
        },
        Ok(x) => x,
    };
    let current_action = match lookup_current_action(&v) {
        Err(e) => {
            return Err(e);
        },
        Ok(x) => x,
    };
    let command = match lookup_command(&v) {
        Err(e) => {
            return Err(e);
        },
        Ok(x) => x,
    };
    let special = match lookup_special(&v) {
        Err(e) => {
            return Err(e);
        },
        Ok(x) => x,
    };
    Ok(ConfigValues { root: root, current_action: current_action, command: command, special: special })
}

} // verus!
