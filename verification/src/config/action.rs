use vstd::prelude::*;
use vstd::string::StrSliceExecFns;
use crate::config::text::{
    is_digit_char, digit_value, leading_digit_sum, decimal_digits, to_decimal, starts_with,
    words_of, split_words,
};
use crate::config::ConfigError;

verus! {

/// One reversible unit of work: a numbered directory holding an optional
/// `do`-prefixed entry and an optional `undo`-prefixed entry.
#[derive(Clone, Debug, PartialEq)]
pub struct Action {
    /// Base name of the action's directory; non-empty, starts with a digit.
    pub name: String,
    /// Ordering and override-lookup key: the sum of the face values of the
    /// maximal leading digit run of `name`.
    pub sort_key: u128,
    /// The interpreter command line used to run this action's entries.
    pub command: String,
    /// Base name of the `do`-prefixed entry within the directory, if any.
    pub do_file: Option<String>,
    /// Base name of the `undo`-prefixed entry within the directory, if any.
    pub undo_file: Option<String>,
}

impl Action {
    /// A well-formed action carries the sort key of its own name.
    pub open spec fn wf(&self) -> bool {
        self.sort_key as nat == leading_digit_sum(self.name@)
    }
}

/// One immediate entry of the root directory, as the scanner reports it.
#[derive(Clone, Debug, PartialEq)]
pub struct DirEntry {
    pub name: String,
    pub is_dir: bool,
}

/// One candidate action directory together with the names of its entries,
/// in discovery order.
#[derive(Clone, Debug, PartialEq)]
pub struct ScannedDir {
    pub name: String,
    pub entries: Vec<String>,
}

/// One entry of the override table: a sort-key string mapped to the command
/// it carries, or `None` where the entry supplies no usable command string.
#[derive(Clone, Debug, PartialEq)]
pub struct SpecialEntry {
    pub key: String,
    pub command: Option<String>,
}

/// The sort key of an action directory name: the sum of the face values of
/// its maximal leading run of decimal digits.
pub fn number(name: &String) -> (r: u128)
    ensures
        r as nat == leading_digit_sum(name@),
{
    let s = name.as_str();
    let len = s.unicode_len();
    let mut sum: u128 = 0;
    let mut i: usize = 0;
    proof {
        assert(s@.skip(0int) =~= s@);
    }
    while i < len
        invariant
            i <= len,
            len == s@.len(),
            s@ == name@,
            sum <= 9 * (i as int),
            i <= usize::MAX,
            forall|k: int| 0 <= k < i ==> is_digit_char(s@[k]),
            leading_digit_sum(s@) == sum + leading_digit_sum(s@.skip(i as int)),
        decreases len - i,
    {
        let c = s.get_char(i);
        if !('0' <= c && c <= '9') {
            proof {
                assert(s@.skip(i as int)[0] == c);
                assert(leading_digit_sum(s@.skip(i as int)) == 0);
            }
            return sum;
        }
        proof {
            assert(s@.skip(i as int)[0] == c);
            assert(s@.skip(i as int).drop_first() =~= s@.skip(i + 1));
            assert(leading_digit_sum(s@.skip(i as int)) == digit_value(c) + leading_digit_sum(
                s@.skip(i + 1),
            ));
        }
        let d: u128 = (c as u32 - '0' as u32) as u128;
        sum = sum + d;
        i += 1;
    }
    proof {
        assert(s@.skip(len as int) =~= Seq::<char>::empty());
        assert(leading_digit_sum(s@.skip(len as int)) == 0);
    }
    sum
}

/// Whether a root entry qualifies as an action directory: it is a directory
/// and its base name starts with a decimal digit.
pub fn valid_action_dir(entry: &DirEntry) -> (r: bool)
    ensures
        r == (entry.is_dir && entry.name@.len() > 0 && is_digit_char(entry.name@[0])),
{
    if !entry.is_dir {
        return false;
    }
    let s = entry.name.as_str();
    if s.unicode_len() == 0 {
        return false;
    }
    let c = s.get_char(0);
    '0' <= c && c <= '9'
}

/// The names a scan of the root keeps, in order: directories whose base
/// name's first character is a decimal digit.
pub open spec fn spec_action_dir_names(entries: Seq<DirEntry>) -> Seq<String> {
    entries.filter(|e: DirEntry| e.is_dir && e.name@.len() > 0 && is_digit_char(e.name@[0])).map_values(
        |e: DirEntry| e.name,
    )
}

/// Keeps exactly the root entries that qualify as action directories,
/// in discovery order, and hands back their names.
pub fn select_action_dirs(entries: &Vec<DirEntry>) -> (r: Vec<String>)
    ensures
        r@ == spec_action_dir_names(entries@),
{
    let mut r: Vec<String> = Vec::new();
    let mut i: usize = 0;
    proof {
        assert(entries@.take(0int) =~= Seq::<DirEntry>::empty());
        reveal_with_fuel(Seq::filter, 2);
    }
    while i < entries.len()
        invariant
            i <= entries@.len(),
            r@ == spec_action_dir_names(entries@.take(i as int)),
        decreases entries@.len() - i,
    {
        let e = &entries[i];
        proof {
            assert(entries@.take(i + 1).drop_last() =~= entries@.take(i as int));
            assert(entries@.take(i + 1).last() == entries@[i as int]);
            reveal_with_fuel(Seq::filter, 2);
        }
        if valid_action_dir(e) {
            r.push(e.name.clone());
        }
        proof {
            let keep = |x: DirEntry| x.is_dir && x.name@.len() > 0 && is_digit_char(x.name@[0]);
            assert(entries@.take(i + 1).filter(keep) == if keep(entries@[i as int]) {
                entries@.take(i as int).filter(keep).push(entries@[i as int])
            } else {
                entries@.take(i as int).filter(keep)
            });
            assert(r@ =~= spec_action_dir_names(entries@.take(i + 1)));
        }
        i += 1;
    }
    proof {
        assert(entries@.take(entries@.len() as int) =~= entries@);
    }
    r
}

/// The first of `entries`, in order, whose name begins with `prefix`.
pub open spec fn first_with_prefix(entries: Seq<String>, prefix: Seq<char>) -> Option<String>
    decreases entries.len(),
{
    if entries.len() == 0 {
        None
    } else if prefix.is_prefix_of(entries[0]@) {
        Some(entries[0])
    } else {
        first_with_prefix(entries.drop_first(), prefix)
    }
}

/// Picks the first entry whose name begins with `prefix`, if any.
pub fn select_first_prefix(entries: &Vec<String>, prefix: &str) -> (r: Option<String>)
    ensures
        r == first_with_prefix(entries@, prefix@),
{
    let mut i: usize = 0;
    proof {
        assert(entries@.skip(0int) =~= entries@);
    }
    while i < entries.len()
        invariant
            i <= entries@.len(),
            first_with_prefix(entries@, prefix@) == first_with_prefix(
                entries@.skip(i as int),
                prefix@,
            ),
        decreases entries@.len() - i,
    {
        proof {
            assert(entries@.skip(i as int)[0] == entries@[i as int]);
            assert(entries@.skip(i as int).drop_first() =~= entries@.skip(i + 1));
        }
        if starts_with(entries[i].as_str(), prefix) {
            return Some(entries[i].clone());
        }
        i += 1;
    }
    proof {
        assert(entries@.skip(entries@.len() as int) =~= Seq::<String>::empty());
    }
    None
}

/// The first override entry whose key is the canonical decimal rendering of
/// the sort key `k`, if any.
pub open spec fn find_override(entries: Seq<SpecialEntry>, k: nat) -> Option<SpecialEntry>
    decreases entries.len(),
{
    if entries.len() == 0 {
        None
    } else if entries[0].key@ == decimal_digits(k) {
        Some(entries[0])
    } else {
        find_override(entries.drop_first(), k)
    }
}

/// The command an action with sort key `k` runs with: the matching override
/// entry's command where one exists, else the default; `None` where the
/// matching entry carries no usable command string.
pub open spec fn resolved_command(
    special: Seq<SpecialEntry>,
    k: nat,
    default: String,
) -> Option<String> {
    match find_override(special, k) {
        None => Some(default),
        Some(e) => e.command,
    }
}

/// Resolves the command for an action with the given sort key against the
/// override table, falling back to the default command.
pub fn resolve_command(special: &Vec<SpecialEntry>, sort_key: u128, default: &String) -> (r: Result<
    String,
    ConfigError,
>)
    ensures
        match resolved_command(special@, sort_key as nat, *default) {
            Some(c) => r == Ok::<String, ConfigError>(c),
            None => r == Err::<String, ConfigError>(ConfigError::InvalidSpecial),
        },
{
    let target = to_decimal(sort_key);
    let mut i: usize = 0;
    proof {
        assert(special@.skip(0int) =~= special@);
    }
    while i < special.len()
        invariant
            i <= special@.len(),
            target@ == decimal_digits(sort_key as nat),
            find_override(special@, sort_key as nat) == find_override(
                special@.skip(i as int),
                sort_key as nat,
            ),
        decreases special@.len() - i,
    {
        proof {
            assert(special@.skip(i as int)[0] == special@[i as int]);
            assert(special@.skip(i as int).drop_first() =~= special@.skip(i + 1));
        }
        if special[i].key == target {
            match &special[i].command {
                Some(c) => {
                    return Ok(c.clone());
                },
                None => {
                    return Err(ConfigError::InvalidSpecial);
                },
            }
        }
        i += 1;
    }
    proof {
        assert(special@.skip(special@.len() as int) =~= Seq::<SpecialEntry>::empty());
    }
    Ok(default.clone())
}

/// Stable insertion of `a` into `s`: `a` goes after every element whose sort
/// key is less than or equal to its own.
pub open spec fn insert_stable(s: Seq<Action>, a: Action) -> Seq<Action>
    decreases s.len(),
{
    if s.len() == 0 {
        seq![a]
    } else if s.last().sort_key <= a.sort_key {
        s.push(a)
    } else {
        insert_stable(s.drop_last(), a).push(s.last())
    }
}

/// The stable sort of `s` ascending by sort key: equal keys keep their
/// relative order.
pub open spec fn stable_sorted(s: Seq<Action>) -> Seq<Action>
    decreases s.len(),
{
    if s.len() == 0 {
        Seq::empty()
    } else {
        insert_stable(stable_sorted(s.drop_last()), s.last())
    }
}

fn insert_action(out: &mut Vec<Action>, a: Action)
    ensures
        final(out)@ == insert_stable(old(out)@, a),
{
    let mut p: usize = out.len();
    proof {
        assert(out@.take(p as int) =~= out@);
        assert(insert_stable(out@.take(p as int), a) + out@.skip(p as int) =~= insert_stable(
            out@,
            a,
        ));
    }
    while p > 0 && out[p - 1].sort_key > a.sort_key
        invariant
            p <= out@.len(),
            insert_stable(out@, a) == insert_stable(out@.take(p as int), a) + out@.skip(p as int),
        decreases p,
    {
        proof {
            let t = out@.take(p as int);
            assert(t.last() == out@[p - 1]);
            assert(t.drop_last() =~= out@.take(p - 1));
            assert(insert_stable(t, a) == insert_stable(out@.take(p - 1), a).push(out@[p - 1]));
            assert(insert_stable(out@.take(p - 1), a).push(out@[p - 1]) + out@.skip(p as int)
                =~= insert_stable(out@.take(p - 1), a) + out@.skip(p - 1));
        }
        p -= 1;
    }
    proof {
        if p > 0 {
            let t = out@.take(p as int);
            assert(t.last() == out@[p - 1]);
            assert(insert_stable(t, a) == t.push(a));
        }
        assert(insert_stable(out@.take(p as int), a) + out@.skip(p as int) =~= out@.insert(
            p as int,
            a,
        ));
    }
    out.insert(p, a);
}

/// Sorts actions ascending by sort key with a stable insertion sort:
/// actions with equal keys keep their discovery order.
pub fn sort_actions(actions: Vec<Action>) -> (r: Vec<Action>)
    ensures
        r@ == stable_sorted(actions@),
{
    let ghost orig = actions@;
    let mut rest = actions;
    let mut out: Vec<Action> = Vec::new();
    proof {
        assert(orig.take(0int) =~= Seq::<Action>::empty());
    }
    while rest.len() > 0
        invariant
            rest@.len() <= orig.len(),
            rest@ == orig.skip(orig.len() - rest@.len()),
            out@ == stable_sorted(orig.take(orig.len() - rest@.len())),
        decreases rest@.len(),
    {
        let ghost i = orig.len() - rest@.len();
        proof {
            assert(0 <= i < orig.len());
            assert(rest@ == orig.skip(i));
            assert(rest@[0] == orig.skip(i)[0]);
            assert(orig.skip(i)[0] == orig[i + 0]);
            orig.skip(i).remove_ensures(0int);
        }
        let a = rest.remove(0);
        proof {
            assert(a == orig[i]);
            assert(rest@ == orig.skip(i).remove(0int));
            assert forall|j: int| 0 <= j < rest@.len() implies rest@[j] == orig.skip(i + 1)[j] by {
                assert(orig.skip(i).remove(0int)[j] == orig.skip(i)[j + 1]);
                assert(orig.skip(i)[j + 1] == orig[i + j + 1]);
                assert(orig.skip(i + 1)[j] == orig[i + 1 + j]);
            }
            assert(rest@ =~= orig.skip(i + 1));
            assert(orig.take(i + 1).drop_last() =~= orig.take(i));
            assert(orig.take(i + 1).last() == orig[i]);
        }
        insert_action(&mut out, a);
    }
    proof {
        assert(orig.take(orig.len() as int) =~= orig);
    }
    out
}

/// What a single action's run in one direction amounts to: either the
/// relevant entry is absent and the run succeeds at once with a fixed
/// informational message, or a command line is to be executed, with the
/// action's own directory as working directory.
#[derive(Clone, Debug, PartialEq)]
pub enum CommandPlan {
    /// No entry for this direction: success, no process invocation.
    Skip(String),
    /// The argument list to execute: the action's command split on
    /// whitespace, with the entry's base name appended.
    Run(Vec<String>),
}

/// A command line: the interpreter command split into whitespace-separated
/// words, with the entry file's base name appended as the final argument.
pub fn parse_command(cmd: &str, file: &str) -> (r: Vec<String>)
    ensures
        r.deep_view() == words_of(cmd@).push(file@),
{
    let mut words = split_words(cmd);
    let ghost old_dv = words.deep_view();
    words.push(file.to_owned());
    proof {
        assert(words.deep_view() =~= old_dv.push(file@));
    }
    words
}

impl Action {
    fn plan(file: &Option<String>, cmd: &String, missing: &str) -> (r: CommandPlan)
        ensures
            match file {
                None => (r matches CommandPlan::Skip(m) && m@ == missing@),
                Some(f) => (r matches CommandPlan::Run(argv) && argv.deep_view() == words_of(
                    cmd@,
                ).push(f@)),
            },
    {
        match file {
            None => CommandPlan::Skip(missing.to_owned()),
            Some(f) => CommandPlan::Run(parse_command(cmd.as_str(), f.as_str())),
        }
    }

    /// The plan for running this action forward: skip with the fixed message
    /// where there is no `do` entry, else the command line to execute.
    pub fn do_command(&self) -> (r: CommandPlan)
        ensures
            match self.do_file {
                None => (r matches CommandPlan::Skip(m) && m@ == "No 'do' file"@),
                Some(f) => (r matches CommandPlan::Run(argv) && argv.deep_view() == words_of(
                    self.command@,
                ).push(f@)),
            },
    {
        Self::plan(&self.do_file, &self.command, "No 'do' file")
    }

    /// The plan for running this action backward: skip with the fixed message
    /// where there is no `undo` entry, else the command line to execute.
    pub fn undo_command(&self) -> (r: CommandPlan)
        ensures
            match self.undo_file {
                None => (r matches CommandPlan::Skip(m) && m@ == "No 'undo' file"@),
                Some(f) => (r matches CommandPlan::Run(argv) && argv.deep_view() == words_of(
                    self.command@,
                ).push(f@)),
            },
    {
        Self::plan(&self.undo_file, &self.command, "No 'undo' file")
    }
}

/// What a finished process reported: whether it exited successfully, what it
/// wrote to standard output, and what it wrote to standard error.
#[derive(Clone, Debug, PartialEq)]
pub struct ExitData {
    pub success: bool,
    pub output: String,
    pub error: String,
}

/// Classifies a process's outcome: a failure to wait for the process carries
/// its description, a successful exit carries the captured output, and a
/// non-zero exit carries the captured error text.
pub fn handle_output(result: Result<ExitData, String>) -> (r: Result<String, String>)
    ensures
        match result {
            Err(d) => r == Err::<String, String>(d),
            Ok(e) => if e.success {
                r == Ok::<String, String>(e.output)
            } else {
                r == Err::<String, String>(e.error)
            },
        },
{
    match result {
        Err(d) => Err(d),
        Ok(e) => {
            if e.success {
                Ok(e.output)
            } else {
                Err(e.error)
            }
        },
    }
}

/// An action list ascending by sort key.
pub open spec fn sorted_by_key(s: Seq<Action>) -> bool {
    forall|i: int, j: int| 0 <= i < j < s.len() ==> s[i].sort_key <= s[j].sort_key
}

proof fn lemma_insert_stable_bound(s: Seq<Action>, a: Action, b: u128)
    requires
        forall|i: int| 0 <= i < s.len() ==> s[i].sort_key <= b,
        a.sort_key <= b,
    ensures
        forall|i: int|
            0 <= i < insert_stable(s, a).len() ==> insert_stable(s, a)[i].sort_key <= b,
    decreases s.len(),
{
    if s.len() > 0 && s.last().sort_key > a.sort_key {
        lemma_insert_stable_bound(s.drop_last(), a, b);
    }
}

proof fn lemma_insert_stable_sorted(s: Seq<Action>, a: Action)
    requires
        sorted_by_key(s),
    ensures
        sorted_by_key(insert_stable(s, a)),
    decreases s.len(),
{
    if s.len() == 0 {
    } else if s.last().sort_key <= a.sort_key {
    } else {
        lemma_insert_stable_sorted(s.drop_last(), a);
        lemma_insert_stable_bound(s.drop_last(), a, s.last().sort_key);
    }
}

/// The stable sort's output is ascending by sort key.
pub proof fn lemma_stable_sorted_ordered(s: Seq<Action>)
    ensures
        sorted_by_key(stable_sorted(s)),
    decreases s.len(),
{
    if s.len() > 0 {
        lemma_stable_sorted_ordered(s.drop_last());
        lemma_insert_stable_sorted(stable_sorted(s.drop_last()), s.last());
    }
}

proof fn lemma_insert_stable_filter(s: Seq<Action>, a: Action, k: u128)
    ensures
        insert_stable(s, a).filter(|x: Action| x.sort_key == k) == if a.sort_key == k {
            s.filter(|x: Action| x.sort_key == k).push(a)
        } else {
            s.filter(|x: Action| x.sort_key == k)
        },
    decreases s.len(),
{
    reveal_with_fuel(Seq::filter, 2);
    let p = |x: Action| x.sort_key == k;
    if s.len() == 0 {
        assert(seq![a].drop_last() =~= Seq::<Action>::empty());
        assert(Seq::<Action>::empty().filter(p) =~= Seq::<Action>::empty());
        if a.sort_key == k {
            assert(seq![a].filter(p) =~= Seq::<Action>::empty().push(a));
            assert(s.filter(p) =~= Seq::<Action>::empty());
        }
    } else if s.last().sort_key <= a.sort_key {
        assert(s.push(a).drop_last() =~= s);
        assert(s.push(a).last() == a);
    } else {
        lemma_insert_stable_filter(s.drop_last(), a, k);
        let inner = insert_stable(s.drop_last(), a);
        assert(inner.push(s.last()).drop_last() =~= inner);
        assert(inner.push(s.last()).last() == s.last());
        assert(s.drop_last().push(s.last()) =~= s);
    }
}

/// Ties preserve discovery order: for every key, the subsequence of actions
/// carrying that key is the same before and after the stable sort.
pub proof fn lemma_stable_sorted_ties(s: Seq<Action>, k: u128)
    ensures
        stable_sorted(s).filter(|x: Action| x.sort_key == k) == s.filter(
            |x: Action| x.sort_key == k,
        ),
    decreases s.len(),
{
    reveal_with_fuel(Seq::filter, 2);
    let p = |x: Action| x.sort_key == k;
    if s.len() == 0 {
        assert(stable_sorted(s) =~= s);
    } else {
        lemma_stable_sorted_ties(s.drop_last(), k);
        lemma_insert_stable_filter(stable_sorted(s.drop_last()), s.last(), k);
        assert(s.drop_last().push(s.last()) =~= s);
    }
}

proof fn lemma_insert_stable_multiset(s: Seq<Action>, a: Action)
    ensures
        insert_stable(s, a).to_multiset() == s.to_multiset().insert(a),
    decreases s.len(),
{
    if s.len() == 0 {
        assert(s =~= Seq::<Action>::empty());
        assert(insert_stable(s, a) =~= s.push(a));
        s.to_multiset_ensures();
        assert(s.push(a).to_multiset() =~= s.to_multiset().insert(a));
    } else if s.last().sort_key <= a.sort_key {
        s.to_multiset_ensures();
        assert(s.push(a).to_multiset() =~= s.to_multiset().insert(a));
    } else {
        let dl = s.drop_last();
        let last = s.last();
        let inner = insert_stable(dl, a);
        lemma_insert_stable_multiset(dl, a);
        inner.to_multiset_ensures();
        dl.to_multiset_ensures();
        assert(dl.push(last) =~= s);
        assert(insert_stable(s, a) == inner.push(last));
        assert(inner.push(last).to_multiset() =~= inner.to_multiset().insert(last));
        assert(s.to_multiset() == dl.push(last).to_multiset());
        assert(dl.push(last).to_multiset() =~= dl.to_multiset().insert(last));
        assert(insert_stable(s, a).to_multiset() =~= dl.to_multiset().insert(a).insert(last));
        assert(dl.to_multiset().insert(a).insert(last) =~= dl.to_multiset().insert(last).insert(
            a,
        ));
    }
}

/// The stable sort only reorders: the sorted list holds exactly the actions
/// the discovery produced.
pub proof fn lemma_stable_sorted_permutes(s: Seq<Action>)
    ensures
        stable_sorted(s).to_multiset() == s.to_multiset(),
    decreases s.len(),
{
    if s.len() > 0 {
        let dl = s.drop_last();
        let last = s.last();
        lemma_stable_sorted_permutes(dl);
        lemma_insert_stable_multiset(stable_sorted(dl), last);
        dl.to_multiset_ensures();
        assert(dl.push(last) =~= s);
        assert(s.to_multiset() == dl.push(last).to_multiset());
        assert(dl.push(last).to_multiset() =~= dl.to_multiset().insert(last));
        assert(stable_sorted(s).to_multiset() =~= s.to_multiset());
    } else {
        assert(s =~= Seq::<Action>::empty());
        assert(stable_sorted(s) == s);
    }
}

proof fn lemma_insert_stable_wf(s: Seq<Action>, a: Action)
    requires
        forall|i: int| 0 <= i < s.len() ==> s[i].wf(),
        a.wf(),
    ensures
        forall|i: int| 0 <= i < insert_stable(s, a).len() ==> insert_stable(s, a)[i].wf(),
    decreases s.len(),
{
    if s.len() > 0 && s.last().sort_key > a.sort_key {
        assert(forall|i: int|
            0 <= i < s.drop_last().len() ==> s.drop_last()[i] == s[i] && s[i].wf());
        lemma_insert_stable_wf(s.drop_last(), a);
        let r = insert_stable(s.drop_last(), a).push(s.last());
        assert(r.last() == s.last());
        assert forall|i: int| 0 <= i < r.len() implies r[i].wf() by {
            if i < r.len() - 1 {
                assert(r[i] == insert_stable(s.drop_last(), a)[i]);
            }
        }
    }
}

/// A stable sort keeps every action well-formed.
pub proof fn lemma_stable_sorted_wf(s: Seq<Action>)
    requires
        forall|i: int| 0 <= i < s.len() ==> s[i].wf(),
    ensures
        forall|i: int| 0 <= i < stable_sorted(s).len() ==> stable_sorted(s)[i].wf(),
    decreases s.len(),
{
    if s.len() > 0 {
        assert(forall|i: int| 0 <= i < s.drop_last().len() ==> s.drop_last()[i].wf());
        lemma_stable_sorted_wf(s.drop_last());
        lemma_insert_stable_wf(stable_sorted(s.drop_last()), s.last());
    }
}

/// The action a scanned directory resolves to, once its command is known.
pub open spec fn spec_action(d: ScannedDir, command: String) -> Action {
    Action {
        name: d.name,
        sort_key: leading_digit_sum(d.name@) as u128,
        command: command,
        do_file: first_with_prefix(d.entries@, "do"@),
        undo_file: first_with_prefix(d.entries@, "undo"@),
    }
}

/// The actions the scanned directories resolve to, in discovery order;
/// `None` where some directory's matching override entry is unusable.
pub open spec fn spec_build_actions(
    dirs: Seq<ScannedDir>,
    cmd: String,
    special: Seq<SpecialEntry>,
) -> Option<Seq<Action>>
    decreases dirs.len(),
{
    if dirs.len() == 0 {
        Some(Seq::empty())
    } else {
        match spec_build_actions(dirs.drop_last(), cmd, special) {
            None => None,
            Some(pre) => match resolved_command(
                special,
                leading_digit_sum(dirs.last().name@),
                cmd,
            ) {
                None => None,
                Some(c) => Some(pre.push(spec_action(dirs.last(), c))),
            },
        }
    }
}

proof fn lemma_build_none(dirs: Seq<ScannedDir>, cmd: String, special: Seq<SpecialEntry>, i: int)
    requires
        0 <= i < dirs.len(),
        resolved_command(special, leading_digit_sum(dirs[i].name@), cmd) is None,
    ensures
        spec_build_actions(dirs, cmd, special) is None,
    decreases dirs.len(),
{
    if i < dirs.len() - 1 {
        assert(dirs.drop_last()[i] == dirs[i]);
        lemma_build_none(dirs.drop_last(), cmd, special, i);
    }
}

impl Action {
    /// Builds the action list from the scanned directories: resolves each
    /// directory's sort key, command and do/undo entries, then sorts the
    /// list ascending by sort key, stably, so that equal keys keep their
    /// discovery order.
    pub fn find_actions(
        dirs: &Vec<ScannedDir>,
        cmd: &String,
        special: &Vec<SpecialEntry>,
    ) -> (r: Result<Vec<Action>, ConfigError>)
        ensures
            match spec_build_actions(dirs@, *cmd, special@) {
                Some(b) => (r matches Ok(v) && v@ == stable_sorted(b)),
                None => r == Err::<Vec<Action>, ConfigError>(ConfigError::InvalidSpecial),
            },
            match r {
                Ok(v) => forall|i: int| 0 <= i < v@.len() ==> v@[i].wf(),
                Err(_) => true,
            },
    {
        let mut built: Vec<Action> = Vec::new();
        let mut i: usize = 0;
        proof {
            assert(dirs@.take(0int) =~= Seq::<ScannedDir>::empty());
        }
        while i < dirs.len()
            invariant
                i <= dirs@.len(),
                spec_build_actions(dirs@.take(i as int), *cmd, special@) matches Some(b)
                    && built@ == b,
                forall|k: int| 0 <= k < built@.len() ==> built@[k].wf(),
            decreases dirs@.len() - i,
        {
            let d = &dirs[i];
            proof {
                assert(dirs@.take(i + 1).drop_last() =~= dirs@.take(i as int));
                assert(dirs@.take(i + 1).last() == dirs@[i as int]);
            }
            let sort_key = number(&d.name);
            proof {
                assert(sort_key == leading_digit_sum(d.name@) as u128);
            }
            let command = match resolve_command(special, sort_key, cmd) {
                Ok(c) => c,
                Err(e) => {
                    proof {
                        lemma_build_none(dirs@, *cmd, special@, i as int);
                    }
                    return Err(e);
                },
            };
            let do_file = select_first_prefix(&d.entries, "do");
            let undo_file = select_first_prefix(&d.entries, "undo");
            built.push(
                Action {
                    name: d.name.clone(),
                    sort_key: sort_key,
                    command: command,
                    do_file: do_file,
                    undo_file: undo_file,
                },
            );
            proof {
                assert(built@.last() == spec_action(dirs@[i as int], built@.last().command));
            }
            i += 1;
        }
        proof {
            assert(dirs@.take(dirs@.len() as int) =~= dirs@);
            lemma_stable_sorted_wf(built@);
        }
        Ok(sort_actions(built))
    }
}

} // verus!
