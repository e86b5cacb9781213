//! The decisions of the dispatch loop: what each command of a line does,
//! and how the shell's state follows what came of it.
use vstd::prelude::*;
use vstd::string::*;
use crate::builtin::{builtin_named, Builtin};
use crate::index::ExecutableIndex;
use crate::tokenizer::{command_store, parse_to_command_store};

verus! {

/// What the shell is to do for one command.
pub enum Action {
    /// Leave the loop, with a success status.
    Exit,
    /// Change the working directory to `path`.
    ChangeDirectory { path: String },
    /// `cd` was given other than exactly one argument.
    ChangeDirectoryUsage,
    /// Run the `export` builtin on the command's words, its name first.
    Export { argv: Vec<String> },
    /// Launch the program at `program` with `args`, and wait for it.
    Launch { program: String, args: Vec<String> },
    /// Tell the user that the command is not known.
    Unknown { message: String },
}

/// An `Action` with its strings seen as character sequences.
pub enum ActionView {
    Exit,
    ChangeDirectory(Seq<char>),
    ChangeDirectoryUsage,
    Export(Seq<Seq<char>>),
    Launch(Seq<char>, Seq<Seq<char>>),
    Unknown(Seq<char>),
}

impl View for Action {
    type V = ActionView;

    open spec fn view(&self) -> ActionView {
        match self {
            Action::Exit => ActionView::Exit,
            Action::ChangeDirectory { path } => ActionView::ChangeDirectory(path@),
            Action::ChangeDirectoryUsage => ActionView::ChangeDirectoryUsage,
            Action::Export { argv } => ActionView::Export(argv.deep_view()),
            Action::Launch { program, args } => ActionView::Launch(program@, args.deep_view()),
            Action::Unknown { message } => ActionView::Unknown(message@),
        }
    }
}

/// The notice for a command name that is neither a builtin nor indexed.
pub open spec fn unknown_message(name: Seq<char>) -> Seq<char> {
    "rash: Unknown command: "@ + name
}

/// What a non-empty command does: a builtin if its first word names one,
/// else the indexed program of that name, else an unknown-command notice.
pub open spec fn plan_command(cmd: Seq<Seq<char>>, idx: Map<Seq<char>, Seq<char>>) -> ActionView {
    match builtin_named(cmd[0]) {
        Some(Builtin::Exit) => ActionView::Exit,
        Some(Builtin::CD) => if cmd.len() == 2 {
            ActionView::ChangeDirectory(cmd[1])
        } else {
            ActionView::ChangeDirectoryUsage
        },
        Some(Builtin::Export) => ActionView::Export(cmd),
        None => if idx.contains_key(cmd[0]) {
            ActionView::Launch(idx[cmd[0]], cmd.drop_first())
        } else {
            ActionView::Unknown(unknown_message(cmd[0]))
        },
    }
}

pub open spec fn has_exit(s: Seq<ActionView>) -> bool {
    exists|i: int| 0 <= i < s.len() && #[trigger] s[i] is Exit
}

/// The actions in order, up to and including the first `Exit`.
pub open spec fn through_exit(s: Seq<ActionView>) -> Seq<ActionView>
    decreases s.len(),
{
    if s.len() == 0 {
        s
    } else {
        let p = through_exit(s.drop_last());
        if has_exit(p) {
            p
        } else {
            p.push(s.last())
        }
    }
}

/// The actions that a line asks for: one per command, in order, none after
/// an `exit`.
pub open spec fn line_plan(line: Seq<char>, idx: Map<Seq<char>, Seq<char>>) -> Seq<ActionView> {
    through_exit(command_store(line).map_values(|c: Seq<Seq<char>>| plan_command(c, idx)))
}

pub open spec fn views(s: Seq<Action>) -> Seq<ActionView> {
    s.map_values(|a: Action| a@)
}

/// The status byte of a process that ended: the low byte of its exit code,
/// or 1 where it ended without one (killed by a signal).
pub open spec fn status_byte(code: Option<i32>) -> u8 {
    match code {
        Some(c) => (c as int % 256) as u8,
        None => 1,
    }
}

/// Maps the exit code of a finished process to a status byte.
pub fn exit_code_of(code: Option<i32>) -> (r: u8)
    ensures
        r == status_byte(code),
{
    match code {
        Some(c) => {
            if c >= 0 {
                (c % 256) as u8
            } else {
                let n: i64 = c as i64 + 4294967296i64;
                assert(n % 256 == c as int % 256) by (nonlinear_arith)
                    requires
                        n == c + 4294967296,
                ;
                (n % 256) as u8
            }
        },
        None => 1,
    }
}

/// The words of `v` after the first.
fn tail_of(v: &Vec<String>) -> (r: Vec<String>)
    requires
        v.len() > 0,
    ensures
        r.deep_view() == v.deep_view().drop_first(),
{
    let mut r: Vec<String> = Vec::new();
    let mut i: usize = 1;
    while i < v.len()
        invariant
            1 <= i <= v.len(),
            r.deep_view() == v.deep_view().subrange(1, i as int),
        decreases v.len() - i,
    {
        let ghost before = r.deep_view();
        r.push(v[i].clone());
        assert(r.deep_view() =~= before.push(v[i as int]@));
        assert(v.deep_view().subrange(1, i + 1) =~= v.deep_view().subrange(1, i as int).push(
            v[i as int]@,
        ));
        i = i + 1;
    }
    assert(v.deep_view().subrange(1, v.len() as int) =~= v.deep_view().drop_first());
    r
}

/// All words of `v`.
fn copy_words(v: &Vec<String>) -> (r: Vec<String>)
    ensures
        r.deep_view() == v.deep_view(),
{
    let mut r: Vec<String> = Vec::new();
    let mut i: usize = 0;
    while i < v.len()
        invariant
            i <= v.len(),
            r.deep_view() == v.deep_view().subrange(0, i as int),
        decreases v.len() - i,
    {
        let ghost before = r.deep_view();
        r.push(v[i].clone());
        assert(r.deep_view() =~= before.push(v[i as int]@));
        assert(v.deep_view().subrange(0, i + 1) =~= v.deep_view().subrange(0, i as int).push(
            v[i as int]@,
        ));
        i = i + 1;
    }
    assert(v.deep_view().subrange(0, v.len() as int) =~= v.deep_view());
    r
}

/// Decides what one command does: builtins are looked up first, then the
/// executable index; a name found in neither gives an unknown-command
/// notice that names it.
pub fn resolve_command(command: &Vec<String>, index: &ExecutableIndex) -> (r: Action)
    requires
        command.len() > 0,
    ensures
        r@ == plan_command(command.deep_view(), index@),
{
    let name = command[0].as_str();
    assert(command.deep_view()[0] == name@);
    match Builtin::classify(name) {
        Ok(Builtin::Exit) => Action::Exit,
        Ok(Builtin::CD) => {
            if command.len() == 2 {
                Action::ChangeDirectory { path: command[1].clone() }
            } else {
                Action::ChangeDirectoryUsage
            }
        },
        Ok(Builtin::Export) => Action::Export { argv: copy_words(command) },
        Err(_) => match index.resolve(name) {
            Some(program) => Action::Launch { program, args: tail_of(command) },
            None => Action::Unknown {
                message: String::from_str("rash: Unknown command: ").concat(name),
            },
        },
    }
}

/// What came of an action that app/ carried out.
pub enum Outcome {
    /// `cd` changed the working directory to `dir`.
    DirectoryChanged { dir: String },
    /// `cd` failed (no such directory, or not a directory); nothing changed.
    DirectoryUnchanged,
    /// A launched program ended, with its exit code if it had one.
    ProcessEnded { code: Option<i32> },
    /// A program could not be started.
    NotStarted,
    /// A notice was shown or a builtin ran without changing the shell.
    Reported,
}

/// The state that the dispatch loop keeps from line to line.
pub struct Shell {
    /// The working directory, as far as the shell has changed it.
    pub cwd: String,
    /// Whether the loop goes on reading lines.
    pub running: bool,
    /// The status byte of the last program that ended.
    pub last_status: u8,
}

impl Shell {
    /// A running shell in `cwd` whose last status is success.
    pub fn new(cwd: String) -> (r: Shell)
        ensures
            r.cwd == cwd,
            r.running,
            r.last_status == 0,
    {
        Shell { cwd, running: true, last_status: 0 }
    }

    /// Decides what a line does: one action per command, in order, up to
    /// and including the first `exit`, which stops the loop. A line with no
    /// command asks for nothing.
    pub fn handle_line(&mut self, line: &str, index: &ExecutableIndex) -> (r: Vec<Action>)
        requires
            old(self).running,
        ensures
            views(r@) == line_plan(line@, index@),
            final(self).running == !has_exit(views(r@)),
            final(self).cwd == old(self).cwd,
            final(self).last_status == old(self).last_status,
    {
        let store = parse_to_command_store(line);
        let ghost plans = store.deep_view().map_values(
            |c: Seq<Seq<char>>| plan_command(c, index@),
        );
        let mut actions: Vec<Action> = Vec::new();
        let mut stopped = false;
        let mut i: usize = 0;
        assert(views(actions@) =~= through_exit(plans.subrange(0, 0)));
        while i < store.len()
            invariant
                i <= store.len(),
                plans == store.deep_view().map_values(
                    |c: Seq<Seq<char>>| plan_command(c, index@),
                ),
                forall|k: int| 0 <= k < store.len() ==> #[trigger] store[k].len() > 0,
                views(actions@) == through_exit(plans.subrange(0, i as int)),
                stopped == has_exit(views(actions@)),
            decreases store.len() - i,
        {
            let ghost before = views(actions@);
            assert(plans.subrange(0, i + 1).drop_last() =~= plans.subrange(0, i as int));
            if !stopped {
                let a = resolve_command(&store[i], index);
                assert(store.deep_view()[i as int] == store[i as int].deep_view());
                stopped = matches!(a, Action::Exit);
                actions.push(a);
                assert(views(actions@) =~= before.push(plans[i as int]));
                if stopped {
                    assert(views(actions@)[before.len() as int] is Exit);
                } else {
                    assert forall|k: int| 0 <= k < views(actions@).len() implies !(
                    #[trigger] views(actions@)[k] is Exit) by {
                        if k < before.len() {
                            assert(views(actions@)[k] == before[k]);
                        }
                    }
                }
            }
            i = i + 1;
        }
        assert(plans.subrange(0, store.len() as int) =~= plans);
        self.running = !stopped;
        actions
    }

    /// Takes in what came of an action: a changed directory or the status of
    /// a program that ended. A failed `cd` and every notice leave the shell as
    /// it was, and no outcome stops the loop.
    pub fn record(&mut self, outcome: Outcome)
        ensures
            final(self).running == old(self).running,
            match outcome {
                Outcome::DirectoryChanged { dir } => final(self).cwd == dir && final(self).last_status
                    == old(self).last_status,
                Outcome::ProcessEnded { code } => final(self).cwd == old(self).cwd
                    && final(self).last_status == status_byte(code),
                _ => final(self).cwd == old(self).cwd && final(self).last_status
                    == old(self).last_status,
            },
    {
        match outcome {
            Outcome::DirectoryChanged { dir } => {
                self.cwd = dir;
            },
            Outcome::ProcessEnded { code } => {
                self.last_status = exit_code_of(code);
            },
            _ => {},
        }
    }
}

/// A line whose one command names neither a builtin nor an indexed program
/// gives the unknown-command notice naming it and nothing else, and leaves
/// the loop running to read the next line.
pub proof fn lemma_unknown_command(line: Seq<char>, idx: Map<Seq<char>, Seq<char>>)
    requires
        command_store(line).len() == 1,
        builtin_named(command_store(line)[0][0]) is None,
        !idx.contains_key(command_store(line)[0][0]),
    ensures
        line_plan(line, idx) == seq![ActionView::Unknown(unknown_message(command_store(line)[0][0]))],
        !has_exit(line_plan(line, idx)),
{
    let plans = command_store(line).map_values(|c: Seq<Seq<char>>| plan_command(c, idx));
    assert(plans.drop_last() =~= Seq::empty());
    assert(through_exit(Seq::<ActionView>::empty()) =~= Seq::empty());
    assert(line_plan(line, idx) =~= seq![plans[0]]);
}

} // verus!
