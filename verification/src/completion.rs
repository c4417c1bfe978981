//! Shell completion for the launcher: a state machine over the arguments
//! typed so far. Each argument moves the state through global options, user
//! commands, supervise commands with their options and children, and
//! builtin commands with their options; `complete` then lists what may
//! follow. Options marked single are offered only until they were used.

use vstd::prelude::*;
use vstd::string::StringExecFns;
use crate::strutil::str_eq;
use crate::strutil::starts_with;
use crate::strutil::vec_contains_str;

verus! {

/// One option of a command: its spellings, help text, whether it takes an
/// argument, and whether it may be given only once.
pub struct CommandOption {
    pub names: Vec<String>,
    pub description: String,
    pub has_args: bool,
    pub single: bool,
}

/// One builtin command with its options.
pub struct BuiltinCommand {
    pub name: String,
    pub description: String,
    pub accept_container: bool,
    pub options: Vec<CommandOption>,
}

/// One option of a supervise command; some accept child names as argument.
pub struct SuperviseOption {
    pub opt: CommandOption,
    pub accept_children: bool,
}

/// One child process of a supervise command: its help text and tags.
pub struct ChildCommand {
    pub description: Option<String>,
    pub tags: Vec<String>,
}

/// What a user command of the configuration is.
pub enum MainCommand {
    /// An ordinary command; the flag says whether it accepts arguments.
    Command(Option<String>, bool),
    /// A supervise command with its children.
    Supervise(Option<String>, Vec<(String, ChildCommand)>),
}

/// Where the argument scan currently stands; indices point into the
/// command list or the option tables of the state.
#[derive(Debug, Clone, Copy, PartialEq, Eq, Structural)]
pub enum State {
    GlobalCmd,
    GlobalOption(usize),
    GlobalOptionArg(usize),
    UserCmd(usize),
    SuperviseCmd(usize),
    SuperviseOption(usize, usize),
    SuperviseOptionArg(usize, usize),
    BuiltinCmd(usize),
    BuiltinOption(usize, usize),
    BuiltinOptionArg(usize, usize),
    ContainerCmd,
}

/// The value of an option, for value-based set membership.
pub open spec fn opt_abs(o: CommandOption) -> (Seq<Seq<char>>, Seq<char>, bool, bool) {
    (o.names.deep_view(), o.description@, o.has_args, o.single)
}

/// Two options are the same when all their fields agree.
pub open spec fn opts_eq(a: CommandOption, b: CommandOption) -> bool {
    opt_abs(a) == opt_abs(b)
}

/// Compares two options field by field.
pub fn opt_eq(a: &CommandOption, b: &CommandOption) -> (r: bool)
    ensures
        r == opts_eq(*a, *b),
{
    if a.has_args != b.has_args || a.single != b.single {
        return false;
    }
    if !str_eq(a.description.as_str(), b.description.as_str()) {
        return false;
    }
    let n = a.names.len();
    if n != b.names.len() {
        proof {
            assert(a.names.deep_view().len() != b.names.deep_view().len());
        }
        return false;
    }
    let mut i: usize = 0;
    while i < n
        invariant
            0 <= i <= n == a.names@.len(),
            n == b.names@.len(),
            forall|j: int| 0 <= j < i ==> a.names.deep_view()[j] == b.names.deep_view()[j],
        decreases n - i,
    {
        if !str_eq(a.names[i].as_str(), b.names[i].as_str()) {
            proof {
                assert(a.names.deep_view()[i as int] != b.names.deep_view()[i as int]);
            }
            return false;
        }
        i += 1;
    }
    proof {
        assert(a.names.deep_view() =~= b.names.deep_view());
    }
    true
}

/// Whether the set (compared by value) holds the option.
pub open spec fn opt_set_has(set: Seq<CommandOption>, o: CommandOption) -> bool {
    exists|i: int| 0 <= i < set.len() && opts_eq(set[i], o)
}

/// Tests membership of an option in a value-based set.
pub fn opt_set_contains(set: &Vec<CommandOption>, o: &CommandOption) -> (r: bool)
    ensures
        r == opt_set_has(set@, *o),
{
    let n = set.len();
    let mut i: usize = 0;
    while i < n
        invariant
            0 <= i <= n == set@.len(),
            forall|j: int| 0 <= j < i ==> !opts_eq(set@[j], *o),
        decreases n - i,
    {
        if opt_eq(&set[i], o) {
            return true;
        }
        i += 1;
    }
    false
}

/// Index of the first option one of whose names is `arg`, or -1.
pub open spec fn find_opt(opts: Seq<CommandOption>, arg: Seq<char>) -> int
    decreases opts.len(),
{
    if opts.len() == 0 {
        -1
    } else if opts[0].names.deep_view().contains(arg) {
        0
    } else {
        let r = find_opt(opts.drop_first(), arg);
        if r < 0 {
            -1
        } else {
            r + 1
        }
    }
}

/// Index of the first supervise option one of whose names is `arg`, or -1.
pub open spec fn find_sopt(opts: Seq<SuperviseOption>, arg: Seq<char>) -> int
    decreases opts.len(),
{
    if opts.len() == 0 {
        -1
    } else if opts[0].opt.names.deep_view().contains(arg) {
        0
    } else {
        let r = find_sopt(opts.drop_first(), arg);
        if r < 0 {
            -1
        } else {
            r + 1
        }
    }
}

/// Index of the first user command named `arg`, or -1.
pub open spec fn find_cmd(cmds: Seq<(String, MainCommand)>, arg: Seq<char>) -> int
    decreases cmds.len(),
{
    if cmds.len() == 0 {
        -1
    } else if cmds[0].0@ == arg {
        0
    } else {
        let r = find_cmd(cmds.drop_first(), arg);
        if r < 0 {
            -1
        } else {
            r + 1
        }
    }
}

/// Index of the first builtin command named `arg`, or -1.
pub open spec fn find_builtin(cmds: Seq<BuiltinCommand>, arg: Seq<char>) -> int
    decreases cmds.len(),
{
    if cmds.len() == 0 {
        -1
    } else if cmds[0].name@ == arg {
        0
    } else {
        let r = find_builtin(cmds.drop_first(), arg);
        if r < 0 {
            -1
        } else {
            r + 1
        }
    }
}

/// The completion state machine with its owned tables.
pub struct CompletionState {
    pub commands: Vec<(String, MainCommand)>,
    pub containers: Vec<String>,
    pub state: State,
    pub single_global_options: Vec<CommandOption>,
    pub single_command_options: Vec<CommandOption>,
    pub supervise_single_options: Vec<CommandOption>,
    pub supervise_chosen_children: Vec<String>,
    pub global_options: Vec<CommandOption>,
    pub supervise_options: Vec<SuperviseOption>,
    pub builtin_commands: Vec<BuiltinCommand>,
}

/// What a user or builtin command name, or a global option, makes of one
/// argument seen in command position: a user command wins over a global
/// option, which wins over a builtin command.
pub open spec fn global_step(s: CompletionState, arg: Seq<char>) -> Option<State> {
    let uc = find_cmd(s.commands@, arg);
    if uc >= 0 {
        match s.commands@[uc].1 {
            MainCommand::Command(_, _) => Some(State::UserCmd(uc as usize)),
            MainCommand::Supervise(_, _) => Some(State::SuperviseCmd(uc as usize)),
        }
    } else {
        let go = find_opt(s.global_options@, arg);
        if go >= 0 {
            Some(State::GlobalOption(go as usize))
        } else {
            let bc = find_builtin(s.builtin_commands@, arg);
            if bc >= 0 {
                Some(State::BuiltinCmd(bc as usize))
            } else {
                None
            }
        }
    }
}

/// The next state one argument produces, or `None` when the state is kept.
pub open spec fn next_state_spec(s: CompletionState, arg: Seq<char>) -> Option<State> {
    match s.state {
        State::GlobalCmd => global_step(s, arg),
        State::GlobalOptionArg(_) => global_step(s, arg),
        State::GlobalOption(k) => {
            if k < s.global_options@.len() && s.global_options@[k as int].has_args {
                Some(State::GlobalOptionArg(k))
            } else {
                match global_step(s, arg) {
                    Some(st) => Some(st),
                    None => Some(State::GlobalCmd),
                }
            }
        },
        State::UserCmd(_) => None,
        State::SuperviseCmd(c) => {
            let so = find_sopt(s.supervise_options@, arg);
            if so >= 0 {
                Some(State::SuperviseOption(c, so as usize))
            } else {
                None
            }
        },
        State::SuperviseOptionArg(c, _) => {
            let so = find_sopt(s.supervise_options@, arg);
            if so >= 0 {
                Some(State::SuperviseOption(c, so as usize))
            } else {
                None
            }
        },
        State::SuperviseOption(c, o) => {
            if o < s.supervise_options@.len() && s.supervise_options@[o as int].opt.has_args {
                Some(State::SuperviseOptionArg(c, o))
            } else {
                let so = find_sopt(s.supervise_options@, arg);
                if so >= 0 {
                    Some(State::SuperviseOption(c, so as usize))
                } else {
                    Some(State::SuperviseCmd(c))
                }
            }
        },
        State::BuiltinCmd(c) => {
            if c < s.builtin_commands@.len() {
                let bo = find_opt(s.builtin_commands@[c as int].options@, arg);
                if bo >= 0 {
                    Some(State::BuiltinOption(c, bo as usize))
                } else {
                    Some(State::ContainerCmd)
                }
            } else {
                Some(State::ContainerCmd)
            }
        },
        State::BuiltinOptionArg(c, _) => {
            if c < s.builtin_commands@.len() {
                let bo = find_opt(s.builtin_commands@[c as int].options@, arg);
                if bo >= 0 {
                    Some(State::BuiltinOption(c, bo as usize))
                } else {
                    Some(State::ContainerCmd)
                }
            } else {
                Some(State::ContainerCmd)
            }
        },
        State::BuiltinOption(c, o) => {
            if c < s.builtin_commands@.len() && o < s.builtin_commands@[c as int].options@.len() && s.builtin_commands@[c as int].options@[o as int].has_args {
                Some(State::BuiltinOptionArg(c, o))
            } else {
                if c < s.builtin_commands@.len() {
                    let bo = find_opt(s.builtin_commands@[c as int].options@, arg);
                    if bo >= 0 {
                        Some(State::BuiltinOption(c, bo as usize))
                    } else {
                        Some(State::BuiltinCmd(c))
                    }
                } else {
                    Some(State::BuiltinCmd(c))
                }
            }
        },
        State::ContainerCmd => None,
    }
}

/// The option values a set of options stands for.
pub open spec fn opt_views(set: Seq<CommandOption>) -> Seq<(Seq<Seq<char>>, Seq<char>, bool, bool)> {
    set.map_values(|o: CommandOption| opt_abs(o))
}

/// A value-based set insertion: a value already present leaves the set
/// alone.
pub open spec fn record_val<A>(set: Seq<A>, v: A) -> Seq<A> {
    if set.contains(v) {
        set
    } else {
        set.push(v)
    }
}

/// What `trans` records into the single-global-options set.
pub open spec fn sgo_after(s: CompletionState, arg: Seq<char>) -> Seq<(Seq<Seq<char>>, Seq<char>, bool, bool)> {
    let cur = opt_views(s.single_global_options@);
    match next_state_spec(s, arg) {
        Some(st) => match st {
            State::GlobalOption(o) => {
                if o < s.global_options@.len() && s.global_options@[o as int].single {
                    record_val(cur, opt_abs(s.global_options@[o as int]))
                } else {
                    cur
                }
            },
            _ => cur,
        },
        None => cur,
    }
}

/// What `trans` records into the single-command-options set.
pub open spec fn sco_after(s: CompletionState, arg: Seq<char>) -> Seq<(Seq<Seq<char>>, Seq<char>, bool, bool)> {
    let cur = opt_views(s.single_command_options@);
    match next_state_spec(s, arg) {
        Some(st) => match st {
            State::BuiltinOption(c, o) => {
                if c < s.builtin_commands@.len() && o < s.builtin_commands@[c as int].options@.len() && s.builtin_commands@[c as int].options@[o as int].single {
                    record_val(cur, opt_abs(s.builtin_commands@[c as int].options@[o as int]))
                } else {
                    cur
                }
            },
            _ => cur,
        },
        None => cur,
    }
}

/// What `trans` records into the supervise-single-options set.
pub open spec fn sso_after(s: CompletionState, arg: Seq<char>) -> Seq<(Seq<Seq<char>>, Seq<char>, bool, bool)> {
    let cur = opt_views(s.supervise_single_options@);
    match next_state_spec(s, arg) {
        Some(st) => match st {
            State::SuperviseOption(_, o) => {
                if o < s.supervise_options@.len() && s.supervise_options@[o as int].opt.single {
                    record_val(cur, opt_abs(s.supervise_options@[o as int].opt))
                } else {
                    cur
                }
            },
            _ => cur,
        },
        None => cur,
    }
}

/// What `trans` records into the chosen-children set: the argument, when a
/// child-accepting supervise option received a child name or tag.
pub open spec fn children_after(s: CompletionState, arg: Seq<char>) -> Seq<Seq<char>> {
    let cur = s.supervise_chosen_children.deep_view();
    match next_state_spec(s, arg) {
        Some(st) => match st {
            State::SuperviseOptionArg(c, o) => {
                if c < s.commands@.len() && o < s.supervise_options@.len() && s.supervise_options@[o as int].accept_children && (match s.commands@[c as int].1 {
                    MainCommand::Supervise(_, children) => child_matches(children@, arg),
                    MainCommand::Command(_, _) => false,
                }) {
                    record_val(cur, arg)
                } else {
                    cur
                }
            },
            _ => cur,
        },
        None => cur,
    }
}

/// Whether `arg` names or tags a child of the supervise command's children.
pub open spec fn child_matches(children: Seq<(String, ChildCommand)>, arg: Seq<char>) -> bool {
    exists|i: int| 0 <= i < children.len() && (children[i].0@ == arg || children[i].1.tags.deep_view().contains(arg))
}

impl CompletionState {
    /// A fresh state over the given user commands and container names,
    /// with the builtin tables installed and nothing chosen yet.
    pub fn new(commands: Vec<(String, MainCommand)>, containers: Vec<String>) -> (r: CompletionState)
        ensures
            r.commands@ == commands@,
            r.containers@ == containers@,
            r.state == State::GlobalCmd,
            r.single_global_options@.len() == 0,
            r.single_command_options@.len() == 0,
            r.supervise_single_options@.len() == 0,
            r.supervise_chosen_children@.len() == 0,
    {
        CompletionState {
            commands,
            containers,
            state: State::GlobalCmd,
            single_global_options: Vec::new(),
            single_command_options: Vec::new(),
            supervise_single_options: Vec::new(),
            supervise_chosen_children: Vec::new(),
            global_options: global_options(),
            supervise_options: supervise_options(),
            builtin_commands: builtin_commands(),
        }
    }

    /// Feeds one already-typed argument into the machine: the state moves
    /// as `next_state_spec` says, a single option that was chosen is
    /// recorded, and a child name or tag given to a child-accepting
    /// supervise option is recorded.
    pub fn trans(&mut self, arg: &str)
        ensures
            final(self).commands@ == old(self).commands@,
            final(self).containers@ == old(self).containers@,
            final(self).global_options@ == old(self).global_options@,
            final(self).supervise_options@ == old(self).supervise_options@,
            final(self).builtin_commands@ == old(self).builtin_commands@,
            final(self).state == (match next_state_spec(*old(self), arg@) {
                Some(st) => st,
                None => old(self).state,
            }),
            opt_views(final(self).single_global_options@) == sgo_after(*old(self), arg@),
            opt_views(final(self).single_command_options@) == sco_after(*old(self), arg@),
            opt_views(final(self).supervise_single_options@) == sso_after(*old(self), arg@),
            final(self).supervise_chosen_children.deep_view() == children_after(*old(self), arg@),
    {
        let next: Option<State> = self.next_state(arg);
        match next {
            None => {},
            Some(st) => {
                match st {
                    State::SuperviseOption(_, o) => {
                        if o < self.supervise_options.len() && self.supervise_options[o].opt.single {
                            let chosen = clone_option(&self.supervise_options[o].opt);
                            let ghost pre = opt_views(self.supervise_single_options@);
                            let ghost target = opt_abs(self.supervise_options@[o as int].opt);
                            proof {
                                lemma_opt_views_contains(self.supervise_single_options@, chosen);
                            }
                            if !opt_set_contains(&self.supervise_single_options, &chosen) {
                                self.supervise_single_options.push(chosen);
                                proof {
                                    assert(opt_views(self.supervise_single_options@) =~= pre.push(target));
                                }
                            }
                        }
                    },
                    State::SuperviseOptionArg(c, o) => {
                        if c < self.commands.len() && o < self.supervise_options.len() {
                            let accept = self.supervise_options[o].accept_children;
                            let mut is_child: bool = false;
                            match &self.commands[c].1 {
                                MainCommand::Command(_, _) => {},
                                MainCommand::Supervise(_, children) => {
                                    if accept {
                                        let nc = children.len();
                                        let mut ci: usize = 0;
                                        while ci < nc
                                            invariant
                                                0 <= ci <= nc == children@.len(),
                                                is_child == (exists|k: int| 0 <= k < ci && (children@[k].0@ == arg@ || children@[k].1.tags.deep_view().contains(arg@))),
                                            decreases nc - ci,
                                        {
                                            if str_eq(children[ci].0.as_str(), arg) {
                                                is_child = true;
                                            }
                                            if vec_contains_str(&children[ci].1.tags, arg) {
                                                is_child = true;
                                            }
                                            ci += 1;
                                        }
                                        proof {
                                            assert(is_child == child_matches(children@, arg@));
                                        }
                                    }
                                },
                            }
                            let ghost pre = self.supervise_chosen_children.deep_view();
                            if is_child {
                                if !vec_contains_str(&self.supervise_chosen_children, arg) {
                                    self.supervise_chosen_children.push(arg.to_owned());
                                    proof {
                                        assert(self.supervise_chosen_children.deep_view() =~= pre.push(arg@));
                                    }
                                }
                            }
                        }
                    },
                    State::GlobalOption(o) => {
                        if o < self.global_options.len() && self.global_options[o].single {
                            let chosen = clone_option(&self.global_options[o]);
                            let ghost pre = opt_views(self.single_global_options@);
                            let ghost target = opt_abs(self.global_options@[o as int]);
                            proof {
                                lemma_opt_views_contains(self.single_global_options@, chosen);
                            }
                            if !opt_set_contains(&self.single_global_options, &chosen) {
                                self.single_global_options.push(chosen);
                                proof {
                                    assert(opt_views(self.single_global_options@) =~= pre.push(target));
                                }
                            }
                        }
                    },
                    State::BuiltinOption(c, o) => {
                        if c < self.builtin_commands.len() && o < self.builtin_commands[c].options.len() && self.builtin_commands[c].options[o].single {
                            let chosen = clone_option(&self.builtin_commands[c].options[o]);
                            let ghost pre = opt_views(self.single_command_options@);
                            let ghost target = opt_abs(self.builtin_commands@[c as int].options@[o as int]);
                            proof {
                                lemma_opt_views_contains(self.single_command_options@, chosen);
                            }
                            if !opt_set_contains(&self.single_command_options, &chosen) {
                                self.single_command_options.push(chosen);
                                proof {
                                    assert(opt_views(self.single_command_options@) =~= pre.push(target));
                                }
                            }
                        }
                    },
                    _ => {},
                }
                self.state = st;
            },
        }
    }

    /// Computes the next state for one argument, as `next_state_spec`
    /// describes, without recording anything.
    fn next_state(&self, arg: &str) -> (r: Option<State>)
        ensures
            r == next_state_spec(*self, arg@),
    {
        match self.state {
            State::GlobalCmd => self.global_step_exec(arg),
            State::GlobalOptionArg(_) => self.global_step_exec(arg),
            State::GlobalOption(k) => {
                if k < self.global_options.len() && self.global_options[k].has_args {
                    Some(State::GlobalOptionArg(k))
                } else {
                    match self.global_step_exec(arg) {
                        Some(st) => Some(st),
                        None => Some(State::GlobalCmd),
                    }
                }
            },
            State::UserCmd(_) => None,
            State::SuperviseCmd(c) => {
                match self.find_sopt_exec(arg) {
                    Some(so) => Some(State::SuperviseOption(c, so)),
                    None => None,
                }
            },
            State::SuperviseOptionArg(c, _) => {
                match self.find_sopt_exec(arg) {
                    Some(so) => Some(State::SuperviseOption(c, so)),
                    None => None,
                }
            },
            State::SuperviseOption(c, o) => {
                if o < self.supervise_options.len() && self.supervise_options[o].opt.has_args {
                    Some(State::SuperviseOptionArg(c, o))
                } else {
                    match self.find_sopt_exec(arg) {
                        Some(so) => Some(State::SuperviseOption(c, so)),
                        None => Some(State::SuperviseCmd(c)),
                    }
                }
            },
            State::BuiltinCmd(c) => {
                if c < self.builtin_commands.len() {
                    match find_opt_exec(&self.builtin_commands[c].options, arg) {
                        Some(bo) => Some(State::BuiltinOption(c, bo)),
                        None => Some(State::ContainerCmd),
                    }
                } else {
                    Some(State::ContainerCmd)
                }
            },
            State::BuiltinOptionArg(c, _) => {
                if c < self.builtin_commands.len() {
                    match find_opt_exec(&self.builtin_commands[c].options, arg) {
                        Some(bo) => Some(State::BuiltinOption(c, bo)),
                        None => Some(State::ContainerCmd),
                    }
                } else {
                    Some(State::ContainerCmd)
                }
            },
            State::BuiltinOption(c, o) => {
                if c < self.builtin_commands.len() && o < self.builtin_commands[c].options.len() && self.builtin_commands[c].options[o].has_args {
                    Some(State::BuiltinOptionArg(c, o))
                } else {
                    if c < self.builtin_commands.len() {
                        match find_opt_exec(&self.builtin_commands[c].options, arg) {
                            Some(bo) => Some(State::BuiltinOption(c, bo)),
                            None => Some(State::BuiltinCmd(c)),
                        }
                    } else {
                        Some(State::BuiltinCmd(c))
                    }
                }
            },
            State::ContainerCmd => None,
        }
    }

    /// Resolves an argument in command position, as `global_step` says.
    fn global_step_exec(&self, arg: &str) -> (r: Option<State>)
        ensures
            r == global_step(*self, arg@),
    {
        let n = self.commands.len();
        let mut i: usize = 0;
        proof {
            assert(self.commands@.subrange(0, n as int) =~= self.commands@);
        }
        while i < n
            invariant
                0 <= i <= n == self.commands@.len(),
                find_cmd(self.commands@, arg@) == lift_find(find_cmd(self.commands@.subrange(i as int, n as int), arg@), i as int),
            decreases n - i,
        {
            proof {
                let sub = self.commands@.subrange(i as int, n as int);
                assert(sub[0] == self.commands@[i as int]);
                assert(sub.drop_first() =~= self.commands@.subrange(i + 1, n as int));
            }
            if str_eq(self.commands[i].0.as_str(), arg) {
                match &self.commands[i].1 {
                    MainCommand::Command(_, _) => {
                        return Some(State::UserCmd(i));
                    },
                    MainCommand::Supervise(_, _) => {
                        return Some(State::SuperviseCmd(i));
                    },
                }
            }
            i += 1;
        }
        match find_opt_exec(&self.global_options, arg) {
            Some(go) => Some(State::GlobalOption(go)),
            None => {
                let nb = self.builtin_commands.len();
                let mut k: usize = 0;
                proof {
                    assert(self.builtin_commands@.subrange(0, nb as int) =~= self.builtin_commands@);
                }
                while k < nb
                    invariant
                        0 <= k <= nb == self.builtin_commands@.len(),
                        find_cmd(self.commands@, arg@) == -1,
                        find_opt(self.global_options@, arg@) == -1,
                        find_builtin(self.builtin_commands@, arg@) == lift_find(find_builtin(self.builtin_commands@.subrange(k as int, nb as int), arg@), k as int),
                    decreases nb - k,
                {
                    proof {
                        let sub = self.builtin_commands@.subrange(k as int, nb as int);
                        assert(sub[0] == self.builtin_commands@[k as int]);
                        assert(sub.drop_first() =~= self.builtin_commands@.subrange(k + 1, nb as int));
                    }
                    if str_eq(self.builtin_commands[k].name.as_str(), arg) {
                        proof {
                            assert(find_cmd(self.commands@, arg@) == -1);
                            assert(find_opt(self.global_options@, arg@) == -1);
                            assert(find_builtin(self.builtin_commands@, arg@) == k as int);
                            assert(global_step(*self, arg@) == Some(State::BuiltinCmd(k)));
                        }
                        return Some(State::BuiltinCmd(k));
                    }
                    k += 1;
                }
                None
            },
        }
    }

    /// Finds the supervise option an argument names, as `find_sopt` says.
    fn find_sopt_exec(&self, arg: &str) -> (r: Option<usize>)
        ensures
            match r {
                Some(k) => find_sopt(self.supervise_options@, arg@) == k,
                None => find_sopt(self.supervise_options@, arg@) == -1,
            },
    {
        let n = self.supervise_options.len();
        let mut i: usize = 0;
        proof {
            assert(self.supervise_options@.subrange(0, n as int) =~= self.supervise_options@);
        }
        while i < n
            invariant
                0 <= i <= n == self.supervise_options@.len(),
                find_sopt(self.supervise_options@, arg@) == lift_find(find_sopt(self.supervise_options@.subrange(i as int, n as int), arg@), i as int),
            decreases n - i,
        {
            proof {
                let sub = self.supervise_options@.subrange(i as int, n as int);
                assert(sub[0] == self.supervise_options@[i as int]);
                assert(sub.drop_first() =~= self.supervise_options@.subrange(i + 1, n as int));
            }
            if vec_contains_str(&self.supervise_options[i].opt.names, arg) {
                return Some(i);
            }
            i += 1;
        }
        None
    }
}

/// Shifts a find result from a suffix back to the whole sequence.
pub open spec fn lift_find(r: int, base: int) -> int {
    if r < 0 {
        -1
    } else {
        r + base
    }
}

/// Finds the option an argument names, as `find_opt` says.
fn find_opt_exec(opts: &Vec<CommandOption>, arg: &str) -> (r: Option<usize>)
    ensures
        match r {
            Some(k) => find_opt(opts@, arg@) == k,
            None => find_opt(opts@, arg@) == -1,
        },
{
    let n = opts.len();
    let mut i: usize = 0;
    proof {
        assert(opts@.subrange(0, n as int) =~= opts@);
    }
    while i < n
        invariant
            0 <= i <= n == opts@.len(),
            find_opt(opts@, arg@) == lift_find(find_opt(opts@.subrange(i as int, n as int), arg@), i as int),
        decreases n - i,
    {
        proof {
            let sub = opts@.subrange(i as int, n as int);
            assert(sub[0] == opts@[i as int]);
            assert(sub.drop_first() =~= opts@.subrange(i + 1, n as int));
        }
        if vec_contains_str(&opts[i].names, arg) {
            return Some(i);
        }
        i += 1;
    }
    None
}

/// A value-based membership test agrees with membership among the views.
proof fn lemma_opt_views_contains(set: Seq<CommandOption>, o: CommandOption)
    ensures
        opt_set_has(set, o) <==> opt_views(set).contains(opt_abs(o)),
{
    if opt_set_has(set, o) {
        let i = choose|i: int| 0 <= i < set.len() && opts_eq(set[i], o);
        assert(opt_views(set)[i] == opt_abs(o));
    }
    if opt_views(set).contains(opt_abs(o)) {
        let i = choose|i: int| 0 <= i < opt_views(set).len() && opt_views(set)[i] == opt_abs(o);
        assert(opts_eq(set[i], o));
    }
}

/// Copies an option value.
fn clone_option(o: &CommandOption) -> (r: CommandOption)
    ensures
        opts_eq(r, *o),
        r.names.deep_view() == o.names.deep_view(),
        r.description@ == o.description@,
        r.has_args == o.has_args,
        r.single == o.single,
{
    let n = o.names.len();
    let mut names: Vec<String> = Vec::new();
    let mut i: usize = 0;
    while i < n
        invariant
            0 <= i <= n == o.names@.len(),
            names@.len() == i,
            forall|j: int| 0 <= j < i ==> names.deep_view()[j] == o.names.deep_view()[j],
        decreases n - i,
    {
        let s = o.names[i].clone();
        let ghost pre = names.deep_view();
        names.push(s);
        proof {
            assert(names.deep_view() =~= pre.push(o.names@[i as int]@));
        }
        i += 1;
    }
    proof {
        assert(names.deep_view() =~= o.names.deep_view());
    }
    CommandOption {
        names,
        description: o.description.clone(),
        has_args: o.has_args,
        single: o.single,
    }
}

/// Builds one option value.
fn mk_opt(names: Vec<String>, description: &str, has_args: bool, single: bool) -> (r: CommandOption)
    ensures
        r.names@ == names@,
        r.description@ == description@,
        r.has_args == has_args,
        r.single == single,
{
    CommandOption { names, description: description.to_owned(), has_args, single }
}

/// The option that suppresses downloading container images.
fn no_image_download_opt() -> (r: CommandOption)
    ensures
        !r.has_args && r.single,
{
    let mut names: Vec<String> = Vec::new();
    names.push("--no-image-download".to_owned());
    mk_opt(names, "Do not download container image from image index", false, true)
}

/// The option that suppresses building containers.
fn no_build_opt() -> (r: CommandOption)
    ensures
        !r.has_args && r.single,
{
    let mut names: Vec<String> = Vec::new();
    names.push("--no-build".to_owned());
    mk_opt(names, "Do not build container even if it is out of date", false, true)
}

/// The option that suppresses the container version check.
fn no_version_check_opt() -> (r: CommandOption)
    ensures
        !r.has_args && r.single,
{
    let mut names: Vec<String> = Vec::new();
    names.push("--no-version-check".to_owned());
    mk_opt(names, "Do not check container version", false, true)
}

/// The launcher's global options.
pub fn global_options() -> (r: Vec<CommandOption>) {
    let mut r: Vec<CommandOption> = Vec::new();
    let mut names: Vec<String> = Vec::new();
    names.push("-V".to_owned());
    names.push("--version".to_owned());
    r.push(mk_opt(names, "Show vagga version and exit", false, true));
    let mut names2: Vec<String> = Vec::new();
    names2.push("-E".to_owned());
    names2.push("--env".to_owned());
    names2.push("--environ".to_owned());
    r.push(mk_opt(names2, "Set environment variable for running command", true, false));
    let mut names3: Vec<String> = Vec::new();
    names3.push("-e".to_owned());
    names3.push("--use-env".to_owned());
    r.push(mk_opt(names3, "Propagate variable VAR into command environment", true, false));
    let mut names4: Vec<String> = Vec::new();
    names4.push("--ignore-owner-check".to_owned());
    r.push(mk_opt(names4, "Ignore checking owner of the project directory", false, true));
    r.push(no_image_download_opt());
    r.push(no_build_opt());
    r.push(no_version_check_opt());
    r
}

/// The options a supervise command accepts.
pub fn supervise_options() -> (r: Vec<SuperviseOption>) {
    let mut r: Vec<SuperviseOption> = Vec::new();
    let mut names: Vec<String> = Vec::new();
    names.push("--only".to_owned());
    r.push(SuperviseOption { opt: mk_opt(names, "", true, true), accept_children: true });
    let mut names2: Vec<String> = Vec::new();
    names2.push("--exclude".to_owned());
    r.push(SuperviseOption { opt: mk_opt(names2, "", true, true), accept_children: true });
    r.push(SuperviseOption { opt: no_image_download_opt(), accept_children: false });
    r.push(SuperviseOption { opt: no_build_opt(), accept_children: false });
    r.push(SuperviseOption { opt: no_version_check_opt(), accept_children: false });
    r
}

/// One builtin command without options.
fn mk_builtin(name: &str, description: &str, accept_container: bool, options: Vec<CommandOption>) -> (r: BuiltinCommand)
    ensures
        r.name@ == name@,
        r.accept_container == accept_container,
{
    BuiltinCommand { name: name.to_owned(), description: description.to_owned(), accept_container, options }
}

/// The builtin commands of the launcher, with their options.
pub fn builtin_commands() -> (r: Vec<BuiltinCommand>) {
    let mut r: Vec<BuiltinCommand> = Vec::new();
    let mut o1: Vec<CommandOption> = Vec::new();
    let mut n1: Vec<String> = Vec::new();
    n1.push("--force".to_owned());
    o1.push(mk_opt(n1, "", false, true));
    r.push(mk_builtin("_build", "Builds container without running a command", true, o1));
    r.push(mk_builtin("_build_shell", "", false, Vec::new()));
    let mut o2: Vec<CommandOption> = Vec::new();
    let mut n2a: Vec<String> = Vec::new();
    n2a.push("--tmp".to_owned());
    n2a.push("--tmp-folders".to_owned());
    o2.push(mk_opt(n2a, "", false, true));
    let mut n2b: Vec<String> = Vec::new();
    n2b.push("--old".to_owned());
    n2b.push("--old-containers".to_owned());
    o2.push(mk_opt(n2b, "", false, true));
    let mut n2c: Vec<String> = Vec::new();
    n2c.push("--unused".to_owned());
    o2.push(mk_opt(n2c, "", false, true));
    let mut n2d: Vec<String> = Vec::new();
    n2d.push("--transient".to_owned());
    o2.push(mk_opt(n2d, "", false, true));
    let mut n2e: Vec<String> = Vec::new();
    n2e.push("--global".to_owned());
    o2.push(mk_opt(n2e, "", false, true));
    let mut n2f: Vec<String> = Vec::new();
    n2f.push("-n".to_owned());
    n2f.push("--dry-run".to_owned());
    o2.push(mk_opt(n2f, "", false, true));
    r.push(mk_builtin("_clean", "Removes images and temporary files created by vagga", false, o2));
    let mut o3: Vec<CommandOption> = Vec::new();
    let mut n3a: Vec<String> = Vec::new();
    n3a.push("--dry-run".to_owned());
    o3.push(mk_opt(n3a, "", false, true));
    let mut n3b: Vec<String> = Vec::new();
    n3b.push("--no-iptables".to_owned());
    o3.push(mk_opt(n3b, "", false, true));
    r.push(mk_builtin("_create_netns", "Setups network namespace", false, o3));
    let mut o4: Vec<CommandOption> = Vec::new();
    let mut n4a: Vec<String> = Vec::new();
    n4a.push("--dry-run".to_owned());
    o4.push(mk_opt(n4a, "", false, true));
    let mut n4b: Vec<String> = Vec::new();
    n4b.push("--no-iptables".to_owned());
    o4.push(mk_opt(n4b, "", false, true));
    r.push(mk_builtin("_destroy_netns", "Destroys network namespace", false, o4));
    r.push(mk_builtin("_init_storage_dir", "", false, Vec::new()));
    r.push(mk_builtin("_list", "List of commands (similar to running vagga without command)", false, Vec::new()));
    let mut o5: Vec<CommandOption> = Vec::new();
    let mut n5a: Vec<String> = Vec::new();
    n5a.push("-f".to_owned());
    n5a.push("--file".to_owned());
    o5.push(mk_opt(n5a, "", true, true));
    let mut n5b: Vec<String> = Vec::new();
    n5b.push("-z".to_owned());
    n5b.push("--gzip".to_owned());
    o5.push(mk_opt(n5b, "", false, true));
    let mut n5c: Vec<String> = Vec::new();
    n5c.push("-j".to_owned());
    n5c.push("--bzip2".to_owned());
    o5.push(mk_opt(n5c, "", false, true));
    let mut n5d: Vec<String> = Vec::new();
    n5d.push("-J".to_owned());
    n5d.push("--xz".to_owned());
    o5.push(mk_opt(n5d, "", false, true));
    o5.push(no_image_download_opt());
    o5.push(no_build_opt());
    o5.push(no_version_check_opt());
    r.push(mk_builtin("_pack_image", "Pack image into the tar archive, optionally compressing it", true, o5));
    let mut o6: Vec<CommandOption> = Vec::new();
    o6.push(no_image_download_opt());
    o6.push(no_build_opt());
    o6.push(no_version_check_opt());
    r.push(mk_builtin("_push_image", "Push container image into the image cache", true, o6));
    let mut o7: Vec<CommandOption> = Vec::new();
    let mut n7a: Vec<String> = Vec::new();
    n7a.push("-W".to_owned());
    n7a.push("--writable".to_owned());
    o7.push(mk_opt(n7a, "Create transient writeable container for running the command", false, true));
    o7.push(no_image_download_opt());
    o7.push(no_build_opt());
    o7.push(no_version_check_opt());
    r.push(mk_builtin("_run", "Runs arbitrary command in container defined in vagga.yaml", true, o7));
    let mut o8: Vec<CommandOption> = Vec::new();
    let mut n8a: Vec<String> = Vec::new();
    n8a.push("--pid".to_owned());
    o8.push(mk_opt(n8a, "Run in the namespace of the process with PID", true, true));
    o8.push(no_image_download_opt());
    o8.push(no_build_opt());
    o8.push(no_version_check_opt());
    r.push(mk_builtin("_run_in_netns", "Runs arbitrary command inside network namespace", true, o8));
    let mut o9: Vec<CommandOption> = Vec::new();
    let mut n9a: Vec<String> = Vec::new();
    n9a.push("-s".to_owned());
    n9a.push("--short".to_owned());
    o9.push(mk_opt(n9a, "Print short container version, like used in directory names 8 chars", false, true));
    let mut n9b: Vec<String> = Vec::new();
    n9b.push("-fd3".to_owned());
    o9.push(mk_opt(n9b, "Print into file descriptor #3 instead of stdout", false, true));
    r.push(mk_builtin("_version_hash", "Prints version hash for the container", true, o9));
    r.push(mk_builtin("_check_overlayfs_support", "", false, Vec::new()));
    r
}

/// One offered command-like completion.
pub struct CommandCompletion {
    pub name: String,
    pub description: Option<String>,
}

/// One offered option completion, with all its spellings.
pub struct OptionCompletion {
    pub names: Vec<String>,
    pub description: Option<String>,
}

/// One completion: a command or an option.
pub enum Completion {
    Cmd(CommandCompletion),
    Opt(OptionCompletion),
}

/// A named group of completions.
pub struct CompletionGroup {
    pub name: String,
    pub completions: Vec<Completion>,
}

/// The value of one completion.
pub ghost enum CompletionAbs {
    Cmd(Seq<char>, Option<Seq<char>>),
    Opt(Seq<Seq<char>>, Option<Seq<char>>),
}

/// The value of one completion entry.
pub open spec fn comp_abs(c: Completion) -> CompletionAbs {
    match c {
        Completion::Cmd(cc) => CompletionAbs::Cmd(cc.name@, match cc.description {
            Some(d) => Some(d@),
            None => None,
        }),
        Completion::Opt(oc) => CompletionAbs::Opt(oc.names.deep_view(), match oc.description {
            Some(d) => Some(d@),
            None => None,
        }),
    }
}

/// The value of a completion group.
pub open spec fn group_abs(g: CompletionGroup) -> (Seq<char>, Seq<CompletionAbs>) {
    (g.name@, g.completions@.map_values(|c: Completion| comp_abs(c)))
}

/// The values of a list of groups.
pub open spec fn groups_abs(v: Seq<CompletionGroup>) -> Seq<(Seq<char>, Seq<CompletionAbs>)> {
    v.map_values(|g: CompletionGroup| group_abs(g))
}

/// A description turned into a completion annotation: the empty text means
/// no annotation.
pub open spec fn nonempty_desc(d: Seq<char>) -> Option<Seq<char>> {
    if d.len() == 0 {
        None
    } else {
        Some(d)
    }
}

/// The description a user command carries.
pub open spec fn cmd_desc(c: MainCommand) -> Option<Seq<char>> {
    match c {
        MainCommand::Command(d, _) => match d {
            Some(t) => Some(t@),
            None => None,
        },
        MainCommand::Supervise(d, _) => match d {
            Some(t) => Some(t@),
            None => None,
        },
    }
}

/// The user-command completions, one per configured command, in order.
pub open spec fn user_group_spec(cmds: Seq<(String, MainCommand)>, i: int) -> Seq<CompletionAbs>
    decreases cmds.len() - i,
{
    if i < 0 || i >= cmds.len() {
        Seq::<CompletionAbs>::empty()
    } else {
        seq![CompletionAbs::Cmd(cmds[i].0@, cmd_desc(cmds[i].1))] + user_group_spec(cmds, i + 1)
    }
}

/// The builtin-command completions, in table order.
pub open spec fn builtin_group_spec(cmds: Seq<BuiltinCommand>, i: int) -> Seq<CompletionAbs>
    decreases cmds.len() - i,
{
    if i < 0 || i >= cmds.len() {
        Seq::<CompletionAbs>::empty()
    } else {
        seq![CompletionAbs::Cmd(cmds[i].name@, nonempty_desc(cmds[i].description@))] + builtin_group_spec(cmds, i + 1)
    }
}

/// The option completions not yet used up from the given single-set.
pub open spec fn opts_group_spec(opts: Seq<CommandOption>, singles: Seq<CommandOption>, i: int) -> Seq<CompletionAbs>
    decreases opts.len() - i,
{
    if i < 0 || i >= opts.len() {
        Seq::<CompletionAbs>::empty()
    } else {
        let rest = opts_group_spec(opts, singles, i + 1);
        if opt_set_has(singles, opts[i]) {
            rest
        } else {
            seq![CompletionAbs::Opt(opts[i].names.deep_view(), nonempty_desc(opts[i].description@))] + rest
        }
    }
}

/// The supervise-option completions not yet used up; the used-set checked
/// is the single global options one.
pub open spec fn sopts_group_spec(opts: Seq<SuperviseOption>, singles: Seq<CommandOption>, i: int) -> Seq<CompletionAbs>
    decreases opts.len() - i,
{
    if i < 0 || i >= opts.len() {
        Seq::<CompletionAbs>::empty()
    } else {
        let rest = sopts_group_spec(opts, singles, i + 1);
        if opt_set_has(singles, opts[i].opt) {
            rest
        } else {
            seq![CompletionAbs::Opt(opts[i].opt.names.deep_view(), nonempty_desc(opts[i].opt.description@))] + rest
        }
    }
}

/// The not-yet-chosen tags of one child.
pub open spec fn child_tags_spec(tags: Seq<String>, chosen: Seq<Seq<char>>, j: int) -> Seq<CompletionAbs>
    decreases tags.len() - j,
{
    if j < 0 || j >= tags.len() {
        Seq::<CompletionAbs>::empty()
    } else {
        let rest = child_tags_spec(tags, chosen, j + 1);
        if chosen.contains(tags[j]@) {
            rest
        } else {
            seq![CompletionAbs::Cmd(tags[j]@, None)] + rest
        }
    }
}

/// The not-yet-chosen children and tags of a supervise command.
pub open spec fn children_group_spec(children: Seq<(String, ChildCommand)>, chosen: Seq<Seq<char>>, i: int) -> Seq<CompletionAbs>
    decreases children.len() - i,
{
    if i < 0 || i >= children.len() {
        Seq::<CompletionAbs>::empty()
    } else {
        let rest = children_group_spec(children, chosen, i + 1);
        let head = if chosen.contains(children[i].0@) {
            Seq::<CompletionAbs>::empty()
        } else {
            seq![CompletionAbs::Cmd(children[i].0@, match children[i].1.description {
                Some(d) => Some(d@),
                None => None,
            })]
        };
        head + child_tags_spec(children[i].1.tags@, chosen, 0) + rest
    }
}

/// The container-name completions.
pub open spec fn containers_group_spec(names: Seq<String>, i: int) -> Seq<CompletionAbs>
    decreases names.len() - i,
{
    if i < 0 || i >= names.len() {
        Seq::<CompletionAbs>::empty()
    } else {
        seq![CompletionAbs::Cmd(names[i]@, None)] + containers_group_spec(names, i + 1)
    }
}

/// What completing in command position offers: the user commands, the
/// builtin commands when the current word starts with an underscore, and
/// the unused global options.
pub open spec fn complete_global_spec(s: CompletionState, cur: Seq<char>) -> Seq<(Seq<char>, Seq<CompletionAbs>)> {
    let user = ("user command"@, user_group_spec(s.commands@, 0));
    let glob = ("global option"@, opts_group_spec(s.global_options@, s.single_global_options@, 0));
    if cur.len() > 0 && cur[0] == '_' {
        seq![user, ("builtin command"@, builtin_group_spec(s.builtin_commands@, 0)), glob]
    } else {
        seq![user, glob]
    }
}

/// What completing after a builtin command offers: its containers when it
/// takes one, and its unused options when the current word looks like one.
pub open spec fn complete_builtin_spec(s: CompletionState, cur: Seq<char>, c: usize) -> Seq<(Seq<char>, Seq<CompletionAbs>)> {
    let conts = ("container"@, containers_group_spec(s.containers@, 0));
    let copts = (
        "command option"@,
        if c < s.builtin_commands@.len() {
            opts_group_spec(s.builtin_commands@[c as int].options@, s.single_command_options@, 0)
        } else {
            Seq::<CompletionAbs>::empty()
        },
    );
    let with_cont = c < s.builtin_commands@.len() && s.builtin_commands@[c as int].accept_container;
    let with_opts = cur.len() > 0 && cur[0] == '-';
    if with_cont && with_opts {
        seq![conts, copts]
    } else if with_cont {
        seq![conts]
    } else if with_opts {
        seq![copts]
    } else {
        Seq::<(Seq<char>, Seq<CompletionAbs>)>::empty()
    }
}

/// The supervise-option group of a state.
pub open spec fn sgroup(s: CompletionState) -> (Seq<char>, Seq<CompletionAbs>) {
    ("supervise option"@, sopts_group_spec(s.supervise_options@, s.single_global_options@, 0))
}

/// The supervise-children group of a state, for command `c` and option `o`.
pub open spec fn cgroup(s: CompletionState, c: usize, o: usize) -> (Seq<char>, Seq<CompletionAbs>) {
    let comps = if c < s.commands@.len() && o < s.supervise_options@.len() && s.supervise_options@[o as int].accept_children {
        match s.commands@[c as int].1 {
            MainCommand::Supervise(_, children) => children_group_spec(children@, s.supervise_chosen_children.deep_view(), 0),
            MainCommand::Command(_, _) => Seq::<CompletionAbs>::empty(),
        }
    } else {
        Seq::<CompletionAbs>::empty()
    };
    ("supervise child"@, comps)
}

/// Everything the machine offers for the current word, grouped, given the
/// state the already-typed arguments produced.
pub open spec fn complete_spec(s: CompletionState, cur: Seq<char>) -> Seq<(Seq<char>, Seq<CompletionAbs>)> {
    match s.state {
        State::GlobalCmd => complete_global_spec(s, cur),
        State::GlobalOptionArg(_) => complete_global_spec(s, cur),
        State::GlobalOption(k) => {
            if k < s.global_options@.len() && !s.global_options@[k as int].has_args {
                complete_global_spec(s, cur)
            } else {
                Seq::<(Seq<char>, Seq<CompletionAbs>)>::empty()
            }
        },
        State::UserCmd(c) => {
            if c < s.commands@.len() && (match s.commands@[c as int].1 {
                MainCommand::Command(_, has_args) => has_args,
                MainCommand::Supervise(_, _) => false,
            }) {
                seq![("file"@, Seq::<CompletionAbs>::empty())]
            } else {
                Seq::<(Seq<char>, Seq<CompletionAbs>)>::empty()
            }
        },
        State::SuperviseCmd(_) => seq![sgroup(s)],
        State::SuperviseOption(c, o) => {
            if cur.len() > 0 && cur[0] == '-' || !(o < s.supervise_options@.len() && s.supervise_options@[o as int].opt.has_args) {
                seq![cgroup(s, c, o), sgroup(s)]
            } else {
                seq![cgroup(s, c, o)]
            }
        },
        State::SuperviseOptionArg(c, o) => {
            if cur.len() > 0 && cur[0] == '-' || !(o < s.supervise_options@.len() && s.supervise_options@[o as int].opt.has_args) {
                seq![cgroup(s, c, o), sgroup(s)]
            } else {
                seq![cgroup(s, c, o)]
            }
        },
        State::BuiltinCmd(c) => complete_builtin_spec(s, cur, c),
        State::BuiltinOptionArg(c, _) => complete_builtin_spec(s, cur, c),
        State::BuiltinOption(c, o) => {
            if c < s.builtin_commands@.len() && o < s.builtin_commands@[c as int].options@.len() && !s.builtin_commands@[c as int].options@[o as int].has_args {
                complete_builtin_spec(s, cur, c)
            } else {
                Seq::<(Seq<char>, Seq<CompletionAbs>)>::empty()
            }
        },
        State::ContainerCmd => Seq::<(Seq<char>, Seq<CompletionAbs>)>::empty(),
    }
}

impl CompletionState {
    /// Lists, grouped, everything that may complete the current word in
    /// the state the already-typed arguments produced.
    pub fn complete(&self, cur: &str) -> (r: Vec<CompletionGroup>)
        ensures
            groups_abs(r@) == complete_spec(*self, cur@),
    {
        let mut r: Vec<CompletionGroup> = Vec::new();
        match self.state {
            State::GlobalCmd => {
                r = self.complete_global(cur);
            },
            State::GlobalOptionArg(_) => {
                r = self.complete_global(cur);
            },
            State::GlobalOption(k) => {
                if k < self.global_options.len() && !self.global_options[k].has_args {
                    r = self.complete_global(cur);
                }
            },
            State::UserCmd(c) => {
                if c < self.commands.len() {
                    match &self.commands[c].1 {
                        MainCommand::Command(_, has_args) => {
                            if *has_args {
                                r.push(CompletionGroup { name: "file".to_owned(), completions: Vec::new() });
                                proof {
                                    assert(groups_abs(r@) =~~= complete_spec(*self, cur@));
                                }
                            }
                        },
                        MainCommand::Supervise(_, _) => {},
                    }
                }
            },
            State::SuperviseCmd(_) => {
                let sg = self.supervise_options_group();
                r.push(sg);
                proof {
                    assert(groups_abs(r@) =~~= complete_spec(*self, cur@));
                }
            },
            State::SuperviseOption(c, o) => {
                let chg = self.supervise_children_group(c, o);
                r.push(chg);
                let dash = starts_with(cur, "-");
                proof {
                    reveal_strlit("-");
                    assert("-"@ =~= seq!['-']);
                    if cur@.len() > 0 && cur@[0] == '-' {
                        assert(cur@.subrange(0, 1) =~= seq!['-']);
                    }
                    if crate::strutil::is_prefix("-"@, cur@) {
                        assert(cur@[0] == cur@.subrange(0, 1)[0]);
                    }
                    assert(dash == (cur@.len() > 0 && cur@[0] == '-'));
                }
                if dash || !(o < self.supervise_options.len() && self.supervise_options[o].opt.has_args) {
                    let sg = self.supervise_options_group();
                    r.push(sg);
                }
                proof {
                    assert(groups_abs(r@) =~~= complete_spec(*self, cur@));
                }
            },
            State::SuperviseOptionArg(c, o) => {
                let chg = self.supervise_children_group(c, o);
                r.push(chg);
                let dash = starts_with(cur, "-");
                proof {
                    reveal_strlit("-");
                    assert("-"@ =~= seq!['-']);
                    if cur@.len() > 0 && cur@[0] == '-' {
                        assert(cur@.subrange(0, 1) =~= seq!['-']);
                    }
                    if crate::strutil::is_prefix("-"@, cur@) {
                        assert(cur@[0] == cur@.subrange(0, 1)[0]);
                    }
                    assert(dash == (cur@.len() > 0 && cur@[0] == '-'));
                }
                if dash || !(o < self.supervise_options.len() && self.supervise_options[o].opt.has_args) {
                    let sg = self.supervise_options_group();
                    r.push(sg);
                }
                proof {
                    assert(groups_abs(r@) =~~= complete_spec(*self, cur@));
                }
            },
            State::BuiltinCmd(c) => {
                r = self.complete_builtin(cur, c);
            },
            State::BuiltinOptionArg(c, _) => {
                r = self.complete_builtin(cur, c);
            },
            State::BuiltinOption(c, o) => {
                if c < self.builtin_commands.len() && o < self.builtin_commands[c].options.len() && !self.builtin_commands[c].options[o].has_args {
                    r = self.complete_builtin(cur, c);
                }
            },
            State::ContainerCmd => {},
        }
        proof {
            assert(groups_abs(r@) =~~= complete_spec(*self, cur@));
        }
        r
    }

    /// The groups offered in command position.
    fn complete_global(&self, cur: &str) -> (r: Vec<CompletionGroup>)
        ensures
            groups_abs(r@) == complete_global_spec(*self, cur@),
    {
        let mut r: Vec<CompletionGroup> = Vec::new();
        let ug = self.user_group();
        r.push(ug);
        let under = starts_with(cur, "_");
        proof {
            reveal_strlit("_");
            assert("_"@ =~= seq!['_']);
            if cur@.len() > 0 && cur@[0] == '_' {
                assert(cur@.subrange(0, 1) =~= seq!['_']);
            }
            if crate::strutil::is_prefix("_"@, cur@) {
                assert(cur@[0] == cur@.subrange(0, 1)[0]);
            }
            assert(under == (cur@.len() > 0 && cur@[0] == '_'));
        }
        if under {
            let bg = self.builtin_group();
            r.push(bg);
        }
        let gg = self.global_options_group();
        r.push(gg);
        proof {
            assert(groups_abs(r@) =~~= complete_global_spec(*self, cur@));
        }
        r
    }

    /// The groups offered after a builtin command.
    fn complete_builtin(&self, cur: &str, c: usize) -> (r: Vec<CompletionGroup>)
        ensures
            groups_abs(r@) == complete_builtin_spec(*self, cur@, c),
    {
        let mut r: Vec<CompletionGroup> = Vec::new();
        if c < self.builtin_commands.len() && self.builtin_commands[c].accept_container {
            let cg = self.containers_group();
            r.push(cg);
        }
        let dash = starts_with(cur, "-");
        proof {
            reveal_strlit("-");
            assert("-"@ =~= seq!['-']);
            if cur@.len() > 0 && cur@[0] == '-' {
                assert(cur@.subrange(0, 1) =~= seq!['-']);
            }
            if crate::strutil::is_prefix("-"@, cur@) {
                assert(cur@[0] == cur@.subrange(0, 1)[0]);
            }
            assert(dash == (cur@.len() > 0 && cur@[0] == '-'));
        }
        if dash {
            let og = self.command_options_group(c);
            r.push(og);
        }
        proof {
            assert(groups_abs(r@) =~~= complete_builtin_spec(*self, cur@, c));
        }
        r
    }

    /// The user-command group.
    fn user_group(&self) -> (r: CompletionGroup)
        ensures
            group_abs(r) == ("user command"@, user_group_spec(self.commands@, 0)),
    {
        let mut comps: Vec<Completion> = Vec::new();
        let n = self.commands.len();
        let mut i: usize = 0;
        while i < n
            invariant
                0 <= i <= n == self.commands@.len(),
                comps@.map_values(|c: Completion| comp_abs(c)) + user_group_spec(self.commands@, i as int) =~= user_group_spec(self.commands@, 0),
            decreases n - i,
        {
            let description: Option<String> = match &self.commands[i].1 {
                MainCommand::Command(d, _) => match d {
                    Some(t) => Some(t.clone()),
                    None => None,
                },
                MainCommand::Supervise(d, _) => match d {
                    Some(t) => Some(t.clone()),
                    None => None,
                },
            };
            let name = self.commands[i].0.clone();
            comps.push(Completion::Cmd(CommandCompletion { name, description }));
            proof {
                assert(comps@.map_values(|c: Completion| comp_abs(c)) + user_group_spec(self.commands@, i + 1) =~= user_group_spec(self.commands@, 0));
            }
            i += 1;
        }
        let g = CompletionGroup { name: "user command".to_owned(), completions: comps };
        proof {
            assert(user_group_spec(self.commands@, n as int) =~= Seq::<CompletionAbs>::empty());
            assert(group_abs(g) =~= ("user command"@, user_group_spec(self.commands@, 0)));
        }
        g
    }

    /// The builtin-command group.
    fn builtin_group(&self) -> (r: CompletionGroup)
        ensures
            group_abs(r) == ("builtin command"@, builtin_group_spec(self.builtin_commands@, 0)),
    {
        let mut comps: Vec<Completion> = Vec::new();
        let n = self.builtin_commands.len();
        let mut i: usize = 0;
        while i < n
            invariant
                0 <= i <= n == self.builtin_commands@.len(),
                comps@.map_values(|c: Completion| comp_abs(c)) + builtin_group_spec(self.builtin_commands@, i as int) =~= builtin_group_spec(self.builtin_commands@, 0),
            decreases n - i,
        {
            let bc = &self.builtin_commands[i];
            let description: Option<String> = if bc.description.as_str().unicode_len() == 0 {
                None
            } else {
                Some(bc.description.clone())
            };
            let name = bc.name.clone();
            comps.push(Completion::Cmd(CommandCompletion { name, description }));
            proof {
                assert(comps@.map_values(|c: Completion| comp_abs(c)) + builtin_group_spec(self.builtin_commands@, i + 1) =~= builtin_group_spec(self.builtin_commands@, 0));
            }
            i += 1;
        }
        let g = CompletionGroup { name: "builtin command".to_owned(), completions: comps };
        proof {
            assert(builtin_group_spec(self.builtin_commands@, n as int) =~= Seq::<CompletionAbs>::empty());
            assert(group_abs(g) =~= ("builtin command"@, builtin_group_spec(self.builtin_commands@, 0)));
        }
        g
    }

    /// The unused global options, as a group.
    fn global_options_group(&self) -> (r: CompletionGroup)
        ensures
            group_abs(r) == ("global option"@, opts_group_spec(self.global_options@, self.single_global_options@, 0)),
    {
        let comps = opts_completions(&self.global_options, &self.single_global_options);
        let g = CompletionGroup { name: "global option".to_owned(), completions: comps };
        proof {
            assert(group_abs(g) =~= ("global option"@, opts_group_spec(self.global_options@, self.single_global_options@, 0)));
        }
        g
    }

    /// The unused options of a builtin command, as a group.
    fn command_options_group(&self, c: usize) -> (r: CompletionGroup)
        ensures
            group_abs(r) == (
                "command option"@,
                if c < self.builtin_commands@.len() {
                    opts_group_spec(self.builtin_commands@[c as int].options@, self.single_command_options@, 0)
                } else {
                    Seq::<CompletionAbs>::empty()
                },
            ),
    {
        let comps: Vec<Completion> = if c < self.builtin_commands.len() {
            opts_completions(&self.builtin_commands[c].options, &self.single_command_options)
        } else {
            Vec::new()
        };
        let g = CompletionGroup { name: "command option".to_owned(), completions: comps };
        proof {
            if c < self.builtin_commands.len() {
                assert(group_abs(g) =~= ("command option"@, opts_group_spec(self.builtin_commands@[c as int].options@, self.single_command_options@, 0)));
            } else {
                assert(group_abs(g) =~= ("command option"@, Seq::<CompletionAbs>::empty()));
            }
        }
        g
    }

    /// The unused supervise options, as a group.
    fn supervise_options_group(&self) -> (r: CompletionGroup)
        ensures
            group_abs(r) == sgroup(*self),
    {
        let mut comps: Vec<Completion> = Vec::new();
        let n = self.supervise_options.len();
        let mut i: usize = 0;
        while i < n
            invariant
                0 <= i <= n == self.supervise_options@.len(),
                comps@.map_values(|c: Completion| comp_abs(c)) + sopts_group_spec(self.supervise_options@, self.single_global_options@, i as int) =~= sopts_group_spec(self.supervise_options@, self.single_global_options@, 0),
            decreases n - i,
        {
            let so = &self.supervise_options[i];
            if !opt_set_contains(&self.single_global_options, &so.opt) {
                let description: Option<String> = if so.opt.description.as_str().unicode_len() == 0 {
                    None
                } else {
                    Some(so.opt.description.clone())
                };
                let names = clone_names(&so.opt.names);
                comps.push(Completion::Opt(OptionCompletion { names, description }));
            }
            proof {
                assert(comps@.map_values(|c: Completion| comp_abs(c)) + sopts_group_spec(self.supervise_options@, self.single_global_options@, i + 1) =~= sopts_group_spec(self.supervise_options@, self.single_global_options@, 0));
            }
            i += 1;
        }
        let g = CompletionGroup { name: "supervise option".to_owned(), completions: comps };
        proof {
            assert(sopts_group_spec(self.supervise_options@, self.single_global_options@, n as int) =~= Seq::<CompletionAbs>::empty());
            assert(group_abs(g) =~= sgroup(*self));
        }
        g
    }

    /// The not-yet-chosen children of the supervise command, as a group.
    fn supervise_children_group(&self, c: usize, o: usize) -> (r: CompletionGroup)
        ensures
            group_abs(r) == cgroup(*self, c, o),
    {
        let mut comps: Vec<Completion> = Vec::new();
        if c < self.commands.len() && o < self.supervise_options.len() && self.supervise_options[o].accept_children {
            match &self.commands[c].1 {
                MainCommand::Command(_, _) => {},
                MainCommand::Supervise(_, children) => {
                    let n = children.len();
                    let mut i: usize = 0;
                    while i < n
                        invariant
                            0 <= i <= n == children@.len(),
                            comps@.map_values(|x: Completion| comp_abs(x)) + children_group_spec(children@, self.supervise_chosen_children.deep_view(), i as int) =~= children_group_spec(children@, self.supervise_chosen_children.deep_view(), 0),
                        decreases n - i,
                    {
                        if !vec_contains_str(&self.supervise_chosen_children, children[i].0.as_str()) {
                            let description: Option<String> = match &children[i].1.description {
                                Some(d) => Some(d.clone()),
                                None => None,
                            };
                            let name = children[i].0.clone();
                            comps.push(Completion::Cmd(CommandCompletion { name, description }));
                        }
                        let tags = &children[i].1.tags;
                        let nt = tags.len();
                        let mut j: usize = 0;
                        while j < nt
                            invariant
                                0 <= j <= nt == tags@.len(),
                                0 <= i < n == children@.len(),
                                tags == &children@[i as int].1.tags,
                                comps@.map_values(|x: Completion| comp_abs(x)) + child_tags_spec(tags@, self.supervise_chosen_children.deep_view(), j as int) + children_group_spec(children@, self.supervise_chosen_children.deep_view(), i + 1) =~= children_group_spec(children@, self.supervise_chosen_children.deep_view(), 0),
                            decreases nt - j,
                        {
                            if !vec_contains_str(&self.supervise_chosen_children, tags[j].as_str()) {
                                let name = tags[j].clone();
                                comps.push(Completion::Cmd(CommandCompletion { name, description: None }));
                            }
                            proof {
                                assert(comps@.map_values(|x: Completion| comp_abs(x)) + child_tags_spec(tags@, self.supervise_chosen_children.deep_view(), j + 1) + children_group_spec(children@, self.supervise_chosen_children.deep_view(), i + 1) =~= children_group_spec(children@, self.supervise_chosen_children.deep_view(), 0));
                            }
                            j += 1;
                        }
                        proof {
                            assert(child_tags_spec(tags@, self.supervise_chosen_children.deep_view(), nt as int) =~= Seq::<CompletionAbs>::empty());
                            assert(comps@.map_values(|x: Completion| comp_abs(x)) + children_group_spec(children@, self.supervise_chosen_children.deep_view(), i + 1) =~= children_group_spec(children@, self.supervise_chosen_children.deep_view(), 0));
                        }
                        i += 1;
                    }
                    proof {
                        assert(children_group_spec(children@, self.supervise_chosen_children.deep_view(), n as int) =~= Seq::<CompletionAbs>::empty());
                    }
                },
            }
        }
        let g = CompletionGroup { name: "supervise child".to_owned(), completions: comps };
        proof {
            assert(group_abs(g) =~= cgroup(*self, c, o));
        }
        g
    }

    /// The container names, as a group.
    fn containers_group(&self) -> (r: CompletionGroup)
        ensures
            group_abs(r) == ("container"@, containers_group_spec(self.containers@, 0)),
    {
        let mut comps: Vec<Completion> = Vec::new();
        let n = self.containers.len();
        let mut i: usize = 0;
        while i < n
            invariant
                0 <= i <= n == self.containers@.len(),
                comps@.map_values(|c: Completion| comp_abs(c)) + containers_group_spec(self.containers@, i as int) =~= containers_group_spec(self.containers@, 0),
            decreases n - i,
        {
            let name = self.containers[i].clone();
            comps.push(Completion::Cmd(CommandCompletion { name, description: None }));
            proof {
                assert(comps@.map_values(|c: Completion| comp_abs(c)) + containers_group_spec(self.containers@, i + 1) =~= containers_group_spec(self.containers@, 0));
            }
            i += 1;
        }
        let g = CompletionGroup { name: "container".to_owned(), completions: comps };
        proof {
            assert(containers_group_spec(self.containers@, n as int) =~= Seq::<CompletionAbs>::empty());
            assert(group_abs(g) =~= ("container"@, containers_group_spec(self.containers@, 0)));
        }
        g
    }
}

/// Copies a list of option names.
fn clone_names(v: &Vec<String>) -> (r: Vec<String>)
    ensures
        r.deep_view() == v.deep_view(),
{
    let n = v.len();
    let mut r: Vec<String> = Vec::new();
    let mut i: usize = 0;
    while i < n
        invariant
            0 <= i <= n == v@.len(),
            r@.len() == i,
            forall|j: int| 0 <= j < i ==> r.deep_view()[j] == v.deep_view()[j],
        decreases n - i,
    {
        let s = v[i].clone();
        let ghost pre = r.deep_view();
        r.push(s);
        proof {
            assert(r.deep_view() =~= pre.push(v@[i as int]@));
        }
        i += 1;
    }
    proof {
        assert(r.deep_view() =~= v.deep_view());
    }
    r
}

/// The unused options of a table, as completion entries.
fn opts_completions(opts: &Vec<CommandOption>, singles: &Vec<CommandOption>) -> (r: Vec<Completion>)
    ensures
        r@.map_values(|c: Completion| comp_abs(c)) == opts_group_spec(opts@, singles@, 0),
{
    let mut comps: Vec<Completion> = Vec::new();
    let n = opts.len();
    let mut i: usize = 0;
    while i < n
        invariant
            0 <= i <= n == opts@.len(),
            comps@.map_values(|c: Completion| comp_abs(c)) + opts_group_spec(opts@, singles@, i as int) =~= opts_group_spec(opts@, singles@, 0),
        decreases n - i,
    {
        let o = &opts[i];
        if !opt_set_contains(singles, o) {
            let description: Option<String> = if o.description.as_str().unicode_len() == 0 {
                None
            } else {
                Some(o.description.clone())
            };
            let names = clone_names(&o.names);
            comps.push(Completion::Opt(OptionCompletion { names, description }));
        }
        proof {
            assert(comps@.map_values(|c: Completion| comp_abs(c)) + opts_group_spec(opts@, singles@, i + 1) =~= opts_group_spec(opts@, singles@, 0));
        }
        i += 1;
    }
    proof {
        assert(opts_group_spec(opts@, singles@, n as int) =~= Seq::<CompletionAbs>::empty());
        assert(comps@.map_values(|c: Completion| comp_abs(c)) =~= opts_group_spec(opts@, singles@, 0));
    }
    comps
}

} // verus!
