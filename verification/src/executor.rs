//! Token execution: a directory of discovered commands, and the dispatch of
//! each token to either a print action or an external command run.

use vstd::prelude::*;

verus! {

/// One decoded token: a command name, its arguments, and the source line it
/// came from.
pub struct RachetToken {
    pub command: String,
    pub args: Vec<String>,
    pub line: i32,
}

/// What a directory listing reports of one entry, as plain values: its file
/// name, whether it is a regular file, and whether it is executable.
pub struct DirEntry {
    pub name: String,
    pub is_file: bool,
    pub is_executable: bool,
}

/// Why a token could not be turned into an action, or a run went wrong.
pub enum ExecError {
    /// The commands directory does not exist.
    MissingCommandsDir { dir: String },
    /// The commands directory path names something other than a directory.
    NotADirectory { dir: String },
    /// A `print` token carried no argument.
    PrintRequiresArgument { line: i32 },
    /// A token named a command that was not discovered.
    UnknownCommand { line: i32, command: String },
    /// A discovered command ran and exited with failure.
    CommandFailed { line: i32, command: String },
}

impl ExecError {
    /// The text reporting this error.
    pub open spec fn message_rep(&self) -> Seq<char> {
        match self {
            ExecError::MissingCommandsDir { dir } => "Commands directory '"@ + dir@
                + "' not found"@,
            ExecError::NotADirectory { dir } => "'"@ + dir@ + "' is not a directory"@,
            ExecError::PrintRequiresArgument { .. } => "print command requires an argument"@,
            ExecError::UnknownCommand { command, .. } => "Unknown command '"@ + command@ + "'"@,
            ExecError::CommandFailed { command, .. } => "Command '"@ + command@ + "' failed"@,
        }
    }

    /// Renders the text reporting this error.
    pub fn message(&self) -> (r: String)
        ensures
            r@ == self.message_rep(),
    {
        match self {
            ExecError::MissingCommandsDir { dir } => {
                let mut out = String::from_str("Commands directory '");
                out.append(dir.as_str());
                out.append("' not found");
                proof {
                    assert(out@ =~= self.message_rep());
                }
                out
            },
            ExecError::NotADirectory { dir } => {
                let mut out = String::from_str("'");
                out.append(dir.as_str());
                out.append("' is not a directory");
                proof {
                    assert(out@ =~= self.message_rep());
                }
                out
            },
            ExecError::PrintRequiresArgument { .. } => {
                String::from_str("print command requires an argument")
            },
            ExecError::UnknownCommand { command, .. } => {
                let mut out = String::from_str("Unknown command '");
                out.append(command.as_str());
                out.append("'");
                proof {
                    assert(out@ =~= self.message_rep());
                }
                out
            },
            ExecError::CommandFailed { command, .. } => {
                let mut out = String::from_str("Command '");
                out.append(command.as_str());
                out.append("' failed");
                proof {
                    assert(out@ =~= self.message_rep());
                }
                out
            },
        }
    }
}

/// What the caller must do for one token: print a string, or run the
/// executable at `path` with `args`.
pub enum Action {
    Print(String),
    Run { path: String, args: Vec<String> },
}

/// Whether the command table holds `name`.
pub open spec fn table_has(cmds: Seq<(String, String)>, name: Seq<char>) -> bool {
    exists|i: int| 0 <= i < cmds.len() && #[trigger] cmds[i].0@ == name
}

/// The path the command table holds for `name`.
pub open spec fn table_get(cmds: Seq<(String, String)>, name: Seq<char>) -> Seq<char> {
    cmds[choose|i: int| 0 <= i < cmds.len() && #[trigger] cmds[i].0@ == name].1@
}

/// Whether no two rows of the command table share a name.
pub open spec fn table_unique(cmds: Seq<(String, String)>) -> bool {
    forall|i: int, j: int|
        0 <= i < j < cmds.len() ==> (#[trigger] cmds[i].0@) != (#[trigger] cmds[j].0@)
}

/// Whether the directory listing holds an executable regular file named `n`.
pub open spec fn listed_command(entries: Seq<DirEntry>, n: Seq<char>) -> bool {
    exists|k: int|
        0 <= k < entries.len() && (#[trigger] entries[k].name@) == n && entries[k].is_file
            && entries[k].is_executable
}

/// Executes tokens against the commands discovered in one directory.
pub struct CommandExecutor {
    pub commands_dir: String,
    pub available_commands: Vec<(String, String)>,
}

impl CommandExecutor {
    /// No two discovered commands share a name.
    pub open spec fn wf(&self) -> bool {
        table_unique(self.available_commands@)
    }

    /// Whether `name` was discovered as a command.
    pub open spec fn has_command(&self, name: Seq<char>) -> bool {
        table_has(self.available_commands@, name)
    }

    /// The path discovered for the command `name`.
    pub open spec fn path_of(&self, name: Seq<char>) -> Seq<char> {
        table_get(self.available_commands@, name)
    }

    /// The path under which a file of the commands directory would run.
    pub open spec fn entry_path(&self, name: Seq<char>) -> Seq<char> {
        self.commands_dir@ + "/"@ + name
    }
}

/// Pushing a fresh name onto a duplicate-free command table keeps it
/// duplicate-free, keeps every old row's lookup, and makes the new name look
/// up to the new path.
proof fn lemma_table_push(cmds: Seq<(String, String)>, row: (String, String))
    requires
        table_unique(cmds),
        !table_has(cmds, row.0@),
    ensures
        table_unique(cmds.push(row)),
        forall|n: Seq<char>|
            #[trigger] table_has(cmds, n) ==> table_has(cmds.push(row), n) && table_get(
                cmds.push(row),
                n,
            ) == table_get(cmds, n),
        table_has(cmds.push(row), row.0@),
        table_get(cmds.push(row), row.0@) == row.1@,
        forall|n: Seq<char>|
            #[trigger] table_has(cmds.push(row), n) ==> n == row.0@ || table_has(cmds, n),
{
    let ext = cmds.push(row);
    assert(ext[cmds.len() as int].0@ == row.0@);
    assert forall|n: Seq<char>| #[trigger] table_has(cmds, n) implies table_has(ext, n)
        && table_get(ext, n) == table_get(cmds, n) by {
        let i = choose|i: int| 0 <= i < cmds.len() && #[trigger] cmds[i].0@ == n;
        assert(ext[i].0@ == n);
        let j = choose|j: int| 0 <= j < ext.len() && #[trigger] ext[j].0@ == n;
        if j == cmds.len() {
            assert(n == row.0@);
            assert(cmds[i].0@ == n);
            assert(false);
        }
        assert(ext[j] == cmds[j]);
        let k = choose|k: int| 0 <= k < cmds.len() && #[trigger] cmds[k].0@ == n;
        if j != k {
            assert(cmds[j].0@ == cmds[k].0@);
            assert(false);
        }
    }
    let j = choose|j: int| 0 <= j < ext.len() && #[trigger] ext[j].0@ == row.0@;
    if j < cmds.len() {
        assert(cmds[j].0@ == row.0@);
        assert(false);
    }
}

/// Overwriting the row at `i` with one of the same name keeps the table
/// duplicate-free, keeps every other row's lookup, keeps every name, and
/// makes that name look up to the new path.
proof fn lemma_table_update(cmds: Seq<(String, String)>, i: int, row: (String, String))
    requires
        table_unique(cmds),
        0 <= i < cmds.len(),
        cmds[i].0@ == row.0@,
    ensures
        table_unique(cmds.update(i, row)),
        table_has(cmds.update(i, row), row.0@),
        table_get(cmds.update(i, row), row.0@) == row.1@,
        forall|n: Seq<char>|
            table_has(cmds, n) ==> #[trigger] table_has(cmds.update(i, row), n),
        forall|n: Seq<char>|
            #[trigger] table_has(cmds.update(i, row), n) ==> table_has(cmds, n),
        forall|n: Seq<char>|
            (#[trigger] table_has(cmds, n)) && n != row.0@ ==> table_get(cmds.update(i, row), n)
                == table_get(cmds, n),
{
    let upd = cmds.update(i, row);
    assert forall|a: int, b: int| 0 <= a < b < upd.len() implies (#[trigger] upd[a].0@)
        != (#[trigger] upd[b].0@) by {
        assert(upd[a].0@ == cmds[a].0@);
        assert(upd[b].0@ == cmds[b].0@);
    }
    assert(upd[i].0@ == row.0@);
    let j = choose|j: int| 0 <= j < upd.len() && #[trigger] upd[j].0@ == row.0@;
    if j != i {
        assert(cmds[j].0@ == cmds[i].0@);
        assert(false);
    }
    assert forall|n: Seq<char>| table_has(cmds, n) implies #[trigger] table_has(upd, n) by {
        let w = choose|w: int| 0 <= w < cmds.len() && #[trigger] cmds[w].0@ == n;
        assert(upd[w].0@ == n);
    }
    assert forall|n: Seq<char>| #[trigger] table_has(upd, n) implies table_has(cmds, n) by {
        let w = choose|w: int| 0 <= w < upd.len() && #[trigger] upd[w].0@ == n;
        assert(cmds[w].0@ == n);
    }
    assert forall|n: Seq<char>| (#[trigger] table_has(cmds, n)) && n != row.0@ implies table_get(
        upd,
        n,
    ) == table_get(cmds, n) by {
        let b = choose|b: int| 0 <= b < cmds.len() && #[trigger] cmds[b].0@ == n;
        if b == i {
            assert(false);
        }
        assert(upd[b].0@ == n);
        let a = choose|a: int| 0 <= a < upd.len() && #[trigger] upd[a].0@ == n;
        if a != b {
            assert(upd[a].0@ == upd[b].0@);
            assert(false);
        }
        assert(upd[b] == cmds[b]);
    }
}

/// The row of the command table that holds `name`, if any.
fn find_command(cmds: &Vec<(String, String)>, name: &String) -> (r: Option<usize>)
    ensures
        match r {
            Some(i) => i < cmds.len() && cmds@[i as int].0@ == name@,
            None => !table_has(cmds@, name@),
        },
{
    let mut i: usize = 0;
    while i < cmds.len()
        invariant
            i <= cmds.len(),
            forall|k: int| 0 <= k < i ==> (#[trigger] cmds@[k].0@) != name@,
        decreases cmds.len() - i,
    {
        if cmds[i].0 == *name {
            return Some(i);
        }
        i = i + 1;
    }
    None
}

/// Inserts `name -> path` into the command table: an existing row of that
/// name is overwritten, any other row is untouched, and a new name is added.
fn table_insert(table: &mut Vec<(String, String)>, name: String, path: String)
    requires
        table_unique(old(table)@),
    ensures
        table_unique(final(table)@),
        table_has(final(table)@, name@),
        table_get(final(table)@, name@) == path@,
        forall|n: Seq<char>|
            table_has(old(table)@, n) ==> #[trigger] table_has(final(table)@, n),
        forall|n: Seq<char>|
            #[trigger] table_has(final(table)@, n) ==> n == name@ || table_has(old(table)@, n),
        forall|n: Seq<char>|
            (#[trigger] table_has(old(table)@, n)) && n != name@ ==> table_get(final(table)@, n)
                == table_get(old(table)@, n),
{
    let row = (name, path);
    match find_command(table, &row.0) {
        Some(i) => {
            proof {
                lemma_table_update(table@, i as int, row);
            }
            table[i] = row;
        },
        None => {
            proof {
                lemma_table_push(table@, row);
            }
            table.push(row);
        },
    }
}

/// A copy of a vector of strings, element by element.
fn clone_strings(v: &Vec<String>) -> (r: Vec<String>)
    ensures
        r@ == v@,
{
    let mut out: Vec<String> = Vec::new();
    let mut i: usize = 0;
    while i < v.len()
        invariant
            i <= v.len(),
            out@ == v@.subrange(0, i as int),
        decreases v.len() - i,
    {
        out.push(v[i].clone());
        proof {
            assert(out@ =~= v@.subrange(0, i + 1));
        }
        i = i + 1;
    }
    proof {
        assert(out@ =~= v@);
    }
    out
}

impl CommandExecutor {
    /// Inserts every regular, executable file of one listing of the commands
    /// directory into the command table, named by its file name and run from
    /// the directory joined with that name; a name already in the table is
    /// overwritten with that path, and every other command survives
    /// untouched. A missing or non-directory path is reported instead, with
    /// the table unchanged.
    pub fn discover_commands(
        &mut self,
        dir_exists: bool,
        dir_is_dir: bool,
        entries: &Vec<DirEntry>,
    ) -> (r: Result<(), ExecError>)
        requires
            old(self).wf(),
        ensures
            final(self).commands_dir == old(self).commands_dir,
            match r {
                Ok(()) => {
                    &&& dir_exists
                    &&& dir_is_dir
                    &&& final(self).wf()
                    &&& forall|k: int|
                        0 <= k < entries@.len() && entries@[k].is_file
                            && entries@[k].is_executable ==> final(self).has_command(
                            #[trigger] entries@[k].name@,
                        ) && final(self).path_of(entries@[k].name@) == final(self).entry_path(
                            entries@[k].name@,
                        )
                    &&& forall|n: Seq<char>|
                        old(self).has_command(n) ==> #[trigger] final(self).has_command(n)
                    &&& forall|n: Seq<char>|
                        #[trigger] final(self).has_command(n) ==> old(self).has_command(n)
                            || listed_command(entries@, n)
                    &&& forall|n: Seq<char>|
                        (#[trigger] old(self).has_command(n)) && !listed_command(entries@, n)
                            ==> final(self).path_of(n) == old(self).path_of(n)
                },
                Err(ExecError::MissingCommandsDir { dir }) => {
                    &&& !dir_exists
                    &&& dir@ == old(self).commands_dir@
                    &&& *final(self) == *old(self)
                },
                Err(ExecError::NotADirectory { dir }) => {
                    &&& dir_exists
                    &&& !dir_is_dir
                    &&& dir@ == old(self).commands_dir@
                    &&& *final(self) == *old(self)
                },
                Err(_) => false,
            },
    {
        if !dir_exists {
            return Err(ExecError::MissingCommandsDir { dir: self.commands_dir.clone() });
        }
        if !dir_is_dir {
            return Err(ExecError::NotADirectory { dir: self.commands_dir.clone() });
        }
        let mut k: usize = 0;
        while k < entries.len()
            invariant
                k <= entries@.len(),
                self.commands_dir == old(self).commands_dir,
                table_unique(self.available_commands@),
                forall|j: int|
                    0 <= j < k && entries@[j].is_file && entries@[j].is_executable
                        ==> self.has_command(#[trigger] entries@[j].name@) && self.path_of(
                        entries@[j].name@,
                    ) == self.entry_path(entries@[j].name@),
                forall|n: Seq<char>|
                    old(self).has_command(n) ==> #[trigger] self.has_command(n),
                forall|n: Seq<char>|
                    #[trigger] self.has_command(n) ==> old(self).has_command(n)
                        || listed_command(entries@.subrange(0, k as int), n),
                forall|n: Seq<char>|
                    (#[trigger] old(self).has_command(n)) && !listed_command(
                        entries@.subrange(0, k as int),
                        n,
                    ) ==> self.path_of(n) == old(self).path_of(n),
            decreases entries@.len() - k,
        {
            let ghost prev = entries@.subrange(0, k as int);
            let ghost next = entries@.subrange(0, k + 1);
            let ghost before = *self;
            proof {
                assert(next =~= prev.push(entries@[k as int]));
                assert forall|n: Seq<char>| listed_command(prev, n) implies listed_command(
                    next,
                    n,
                ) by {
                    let w = choose|w: int|
                        0 <= w < prev.len() && (#[trigger] prev[w].name@) == n && prev[w].is_file
                            && prev[w].is_executable;
                    assert(next[w].name@ == n && next[w].is_file && next[w].is_executable);
                }
            }
            let entry = &entries[k];
            let inserted = entry.is_file && entry.is_executable;
            if inserted {
                let mut path = self.commands_dir.clone();
                path.append("/");
                path.append(entry.name.as_str());
                proof {
                    assert(next[k as int] == entries@[k as int]);
                    assert(listed_command(next, entries@[k as int].name@));
                }
                table_insert(&mut self.available_commands, entry.name.clone(), path);
            }
            proof {
                let ghost name_k = entries@[k as int].name@;
                assert forall|n: Seq<char>| old(self).has_command(n) implies
                    #[trigger] self.has_command(n) by {
                    assert(before.has_command(n));
                }
                assert forall|n: Seq<char>| #[trigger] self.has_command(n) implies old(
                    self,
                ).has_command(n) || listed_command(next, n) by {
                    if !(inserted && n == name_k) {
                        assert(before.has_command(n));
                        if listed_command(prev, n) {
                            assert(listed_command(next, n));
                        }
                    }
                }
                assert forall|n: Seq<char>| (#[trigger] old(self).has_command(n))
                    && !listed_command(next, n) implies self.path_of(n) == old(self).path_of(
                    n,
                ) by {
                    assert(before.has_command(n));
                    if listed_command(prev, n) {
                        assert(listed_command(next, n));
                    }
                    assert(before.path_of(n) == old(self).path_of(n));
                    if inserted {
                        assert(n != name_k);
                    }
                }
                assert forall|j: int|
                    0 <= j < k + 1 && entries@[j].is_file && entries@[j].is_executable implies
                    self.has_command(#[trigger] entries@[j].name@) && self.path_of(
                    entries@[j].name@,
                ) == self.entry_path(entries@[j].name@) by {
                    if j < k {
                        assert(before.has_command(entries@[j].name@));
                        assert(before.path_of(entries@[j].name@) == before.entry_path(
                            entries@[j].name@,
                        ));
                    }
                }
            }
            k = k + 1;
        }
        proof {
            assert(entries@.subrange(0, k as int) =~= entries@);
        }
        Ok(())
    }

    /// Builds an executor for `commands_dir` from one listing of it, as
    /// `discover_commands` reads that listing.
    pub fn new(
        commands_dir: String,
        dir_exists: bool,
        dir_is_dir: bool,
        entries: &Vec<DirEntry>,
    ) -> (r: Result<CommandExecutor, ExecError>)
        ensures
            match r {
                Ok(ex) => {
                    &&& dir_exists
                    &&& dir_is_dir
                    &&& ex.commands_dir == commands_dir
                    &&& ex.wf()
                    &&& forall|k: int|
                        0 <= k < entries@.len() && entries@[k].is_file
                            && entries@[k].is_executable ==> ex.has_command(
                            #[trigger] entries@[k].name@,
                        )
                    &&& forall|n: Seq<char>|
                        #[trigger] ex.has_command(n) ==> listed_command(entries@, n)
                            && ex.path_of(n) == ex.entry_path(n)
                },
                Err(ExecError::MissingCommandsDir { dir }) => !dir_exists && dir@
                    == commands_dir@,
                Err(ExecError::NotADirectory { dir }) => dir_exists && !dir_is_dir && dir@
                    == commands_dir@,
                Err(_) => false,
            },
    {
        let mut executor = CommandExecutor { commands_dir, available_commands: Vec::new() };
        match executor.discover_commands(dir_exists, dir_is_dir, entries) {
            Ok(()) => {
                proof {
                    assert forall|n: Seq<char>| #[trigger] executor.has_command(n) implies
                        listed_command(entries@, n) && executor.path_of(n) == executor.entry_path(
                        n,
                    ) by {
                        let w = choose|w: int|
                            0 <= w < entries@.len() && (#[trigger] entries@[w].name@) == n
                                && entries@[w].is_file && entries@[w].is_executable;
                        assert(executor.path_of(entries@[w].name@) == executor.entry_path(
                            entries@[w].name@,
                        ));
                    }
                }
                Ok(executor)
            },
            Err(e) => Err(e),
        }
    }

    /// Turns a token into the action it calls for: a `print` token becomes a
    /// `Print` of its first argument, and any other command name becomes a
    /// `Run` of the discovered executable with the token's arguments.
    pub fn execute_token(&self, token: &RachetToken) -> (r: Result<Action, ExecError>)
        requires
            self.wf(),
        ensures
            match r {
                Ok(Action::Print(s)) => token.command@ == "print"@ && token.args@.len() > 0 && s
                    == token.args@[0],
                Ok(Action::Run { path, args }) => token.command@ != "print"@ && self.has_command(
                    token.command@,
                ) && path@ == self.path_of(token.command@) && args@ == token.args@,
                Err(ExecError::PrintRequiresArgument { line }) => token.command@ == "print"@
                    && token.args@.len() == 0 && line == token.line,
                Err(ExecError::UnknownCommand { line, command }) => token.command@ != "print"@
                    && !self.has_command(token.command@) && line == token.line && command@
                    == token.command@,
                Err(_) => false,
            },
    {
        let print_name = String::from_str("print");
        if token.command == print_name {
            self.handle_print(&token.args, token.line)
        } else {
            self.execute_external_command(&token.command, &token.args, token.line)
        }
    }

    /// The print action for a `print` token's arguments: its first argument,
    /// or an error when there is none.
    pub fn handle_print(&self, args: &Vec<String>, line: i32) -> (r: Result<Action, ExecError>)
        ensures
            match r {
                Ok(Action::Print(s)) => args@.len() > 0 && s == args@[0],
                Ok(_) => false,
                Err(ExecError::PrintRequiresArgument { line: l }) => args@.len() == 0 && l
                    == line,
                Err(_) => false,
            },
    {
        if args.len() == 0 {
            return Err(ExecError::PrintRequiresArgument { line });
        }
        Ok(Action::Print(args[0].clone()))
    }

    /// The run action for a command token: the discovered path for
    /// `command_name` with `args`, or an error when no such command was
    /// discovered.
    pub fn execute_external_command(
        &self,
        command_name: &String,
        args: &Vec<String>,
        line: i32,
    ) -> (r: Result<Action, ExecError>)
        requires
            self.wf(),
        ensures
            match r {
                Ok(Action::Run { path, args: run_args }) => self.has_command(command_name@)
                    && path@ == self.path_of(command_name@) && run_args@ == args@,
                Ok(_) => false,
                Err(ExecError::UnknownCommand { line: l, command }) => !self.has_command(
                    command_name@,
                ) && l == line && command@ == command_name@,
                Err(_) => false,
            },
    {
        match find_command(&self.available_commands, command_name) {
            Some(i) => {
                proof {
                    let j = choose|j: int|
                        0 <= j < self.available_commands@.len()
                            && #[trigger] self.available_commands@[j].0@ == command_name@;
                    if i as int != j {
                        assert(self.available_commands@[i as int].0@
                            == self.available_commands@[j].0@);
                        assert(false);
                    }
                }
                let path = self.available_commands[i].1.clone();
                Ok(Action::Run { path, args: clone_strings(args) })
            },
            None => Err(ExecError::UnknownCommand { line, command: command_name.clone() }),
        }
    }

    /// The names of all discovered commands, in table order.
    pub fn command_names(&self) -> (r: Vec<String>)
        ensures
            r@.len() == self.available_commands@.len(),
            forall|i: int|
                0 <= i < r@.len() ==> (#[trigger] r@[i]) == self.available_commands@[i].0,
    {
        let mut out: Vec<String> = Vec::new();
        let mut i: usize = 0;
        while i < self.available_commands.len()
            invariant
                i <= self.available_commands@.len(),
                out@.len() == i,
                forall|k: int|
                    0 <= k < i ==> (#[trigger] out@[k]) == self.available_commands@[k].0,
            decreases self.available_commands@.len() - i,
        {
            out.push(self.available_commands[i].0.clone());
            i = i + 1;
        }
        out
    }
}

/// Whether `c` has the Unicode `White_Space` property, the set
/// `char::is_whitespace` accepts.
pub open spec fn is_whitespace_char(c: char) -> bool {
    ('\u{0009}' <= c && c <= '\u{000D}') || c == ' ' || c == '\u{0085}' || c == '\u{00A0}' || c
        == '\u{1680}' || ('\u{2000}' <= c && c <= '\u{200A}') || c == '\u{2028}' || c == '\u{2029}'
        || c == '\u{202F}' || c == '\u{205F}' || c == '\u{3000}'
}

/// Whether `s` holds nothing but whitespace, so that trimming it would leave
/// it empty.
pub fn is_blank(s: &str) -> (r: bool)
    ensures
        r == forall|i: int| 0 <= i < s@.len() ==> is_whitespace_char(#[trigger] s@[i]),
{
    let len = s.unicode_len();
    let mut i: usize = 0;
    while i < len
        invariant
            i <= len,
            len == s@.len(),
            forall|k: int| 0 <= k < i ==> is_whitespace_char(#[trigger] s@[k]),
        decreases len - i,
    {
        let c = s.get_char(i);
        let ws = ('\u{0009}' <= c && c <= '\u{000D}') || c == ' ' || c == '\u{0085}' || c
            == '\u{00A0}' || c == '\u{1680}' || ('\u{2000}' <= c && c <= '\u{200A}') || c
            == '\u{2028}' || c == '\u{2029}' || c == '\u{202F}' || c == '\u{205F}' || c
            == '\u{3000}';
        if !ws {
            return false;
        }
        i = i + 1;
    }
    true
}

/// The verdict on a finished command run: success passes, and failure is
/// reported against the token's line and command name.
pub fn command_outcome(command_name: &String, line: i32, success: bool) -> (r: Result<
    (),
    ExecError,
>)
    ensures
        match r {
            Ok(()) => success,
            Err(ExecError::CommandFailed { line: l, command }) => !success && l == line
                && command@ == command_name@,
            Err(_) => false,
        },
{
    if success {
        Ok(())
    } else {
        Err(ExecError::CommandFailed { line, command: command_name.clone() })
    }
}

} // verus!
