//! The commands that run processes and hooks.

use crate::browser_reload::{
    apply_browser_reload_env, env_of, pointee, set_variable, with_reload_env, BrowserReloadEnvironment,
};
use crate::env_expand::{
    expand_map, expand_vec, expansion, indexed_field, keyed_field, ExpandError,
    ReferenceDefect,
};
use crate::external_events::{
    apply_external_event_env, law_only_event_variables_are_told, with_event_env,
    ExternalEventEnvironment,
};
use crate::json::{json_list, json_list_text};
use crate::name_map::NameMap;
use crate::paths::{
    absolute, begins_with_dot, components, components_of, file_name, is_absolute, is_written_out,
    join, law_files_have_their_name_and_directory, law_joined_paths_stand_below_their_base,
    law_names_are_one_component, lemma_has_components, name_of_file, path_join,
};
use crate::text::{decimal, texts};
use vstd::prelude::*;

verus! {

/// What a command is run for.
#[derive(Debug)]
pub struct CommandContext<'a> {
    pub env: &'a NameMap<String>,
    pub external_event_env: Option<&'a ExternalEventEnvironment>,
    pub browser_reload_env: Option<&'a BrowserReloadEnvironment>,
    pub root: &'a str,
    pub state_path: &'a str,
    pub changed_files: &'a Vec<String>,
    pub workflow: &'a str,
}

/// What a command is run for.
pub struct RunContext {
    pub env: NameMap<String>,
    pub event_env: Option<ExternalEventEnvironment>,
    pub reload_env: Option<BrowserReloadEnvironment>,
    pub root: Seq<char>,
    pub state_path: Seq<char>,
    pub files: Seq<Seq<char>>,
    pub workflow: Seq<char>,
}

impl<'a> CommandContext<'a> {
    /// What the command is run for.
    pub open spec fn view(&self) -> RunContext {
        RunContext {
            env: *self.env,
            event_env: pointee(self.external_event_env),
            reload_env: pointee(self.browser_reload_env),
            root: self.root@,
            state_path: self.state_path@,
            files: texts(self.changed_files@),
            workflow: self.workflow@,
        }
    }
}

/// A command that is ready to run. Its environment is what it has besides the supervisor's own.
#[derive(Debug)]
pub struct CommandPlan {
    pub program: String,
    pub args: Vec<String>,
    pub cwd: String,
    pub env: NameMap<String>,
}

/// Why a command cannot be run.
#[derive(Debug, Clone, PartialEq, Eq)]
pub enum CommandError {
    /// A reference to the environment cannot be expanded.
    Expand(ExpandError),
    /// There is no program.
    Empty,
}

impl CommandError {
    /// The text of the error.
    pub fn message(&self) -> (text: String)
        ensures
            text@ == match *self {
                CommandError::Expand(error) => crate::env_expand::expand_message(
                    error.field@,
                    error.problem@,
                ),
                CommandError::Empty => "command must not be empty"@,
            },
    {
        match self {
            CommandError::Expand(error) => error.message(),
            CommandError::Empty => "command must not be empty".to_owned(),
        }
    }
}

/// The program of a command: a path with more than one component is seen from the root.
pub open spec fn program_path(root: Seq<char>, program: Seq<char>) -> Seq<char> {
    if absolute(program) || components(program).len() == 1 {
        program
    } else {
        path_join(root, program)
    }
}

/// The program of a command: a path with more than one component is seen from the root.
pub fn resolve_program(root: &str, program: &str) -> (path: String)
    ensures
        path@ == program_path(root@, program@),
{
    let parts = components_of(program);
    assert(texts(parts@).len() == parts@.len());
    if is_absolute(program) || parts.len() == 1 {
        program.to_owned()
    } else {
        join(root, program)
    }
}

/// The working directory of a command.
pub open spec fn working_directory(root: Seq<char>, cwd: Option<String>) -> Seq<char> {
    match cwd {
        Some(path) => path_join(root, path@),
        None => root,
    }
}

/// The working directory of a command.
pub fn resolve_cwd(root: &str, cwd: &Option<String>) -> (path: String)
    ensures
        path@ == working_directory(root@, *cwd),
{
    match cwd {
        Some(path) => join(root, path.as_str()),
        None => root.to_owned(),
    }
}

/// How an executable is shown: the name of its file, or as it is written.
pub open spec fn display_name(program: Seq<char>) -> Seq<char> {
    match name_of_file(program) {
        Some(name) => name,
        None => program,
    }
}

/// How an executable is shown.
pub fn executable_display_name(program: &str) -> (name: String)
    ensures
        name@ == display_name(program@),
{
    match file_name(program) {
        Some(name) => name,
        None => program.to_owned(),
    }
}

/// The label of the output of a process or a hook: its executable, then its name.
pub open spec fn output_label(name: Seq<char>, command: Seq<String>) -> Seq<char> {
    (if command.len() > 0 {
        display_name(command[0]@)
    } else {
        "unknown"@
    }) + " "@ + name
}

/// The label of the output of a process or a hook.
pub fn process_output_source_label(name: &str, command: &Vec<String>) -> (label: String)
    ensures
        label@ == output_label(name@, command@),
{
    let executable = if command.len() > 0 {
        executable_display_name(command[0].as_str())
    } else {
        "unknown".to_owned()
    };
    executable.concat(" ").concat(name)
}

/// What is wrong with the first text of a list that cannot be expanded.
pub open spec fn list_error(
    env: Map<Seq<char>, String>,
    values: Seq<String>,
    field: Seq<char>,
    error: ExpandError,
) -> bool {
    exists|i: int|
        0 <= i < values.len() && expansion(env, (#[trigger] values[i])@, 0) == Err::<Seq<char>, _>(
            error.problem@,
        ) && error.field@ == indexed_field(field, i) && forall|k: int|
            0 <= k < i ==> expansion(env, (#[trigger] values[k])@, 0) is Ok
}

/// What is wrong with the first value of a map that cannot be expanded.
pub open spec fn map_error(
    env: Map<Seq<char>, String>,
    values: NameMap<String>,
    field: Seq<char>,
    error: ExpandError,
) -> bool {
    exists|i: int|
        0 <= i < values.keys().len() && expansion(env, (#[trigger] values.values()[i])@, 0) == Err::<
            Seq<char>,
            _,
        >(error.problem@) && error.field@ == keyed_field(field, values.keys()[i]) && forall|k: int|
            0 <= k < i ==> expansion(env, (#[trigger] values.values()[k])@, 0) is Ok
}

/// Whether every text of a list can be expanded.
pub open spec fn list_expands(env: Map<Seq<char>, String>, values: Seq<String>) -> bool {
    forall|i: int| 0 <= i < values.len() ==> expansion(env, (#[trigger] values[i])@, 0) is Ok
}

/// Whether every value of a map can be expanded.
pub open spec fn map_expands(env: Map<Seq<char>, String>, values: NameMap<String>) -> bool {
    forall|key: Seq<char>| #[trigger]
        values@.contains_key(key) ==> expansion(env, values@[key]@, 0) is Ok
}

/// The value of a text that can be expanded.
pub open spec fn expanded(env: Map<Seq<char>, String>, text: Seq<char>) -> Seq<char> {
    expansion(env, text, 0)->Ok_0
}

/// The values of an environment, each expanded.
pub open spec fn expanded_env(env: Map<Seq<char>, String>, values: NameMap<String>) -> Map<
    Seq<char>,
    Seq<char>,
> {
    values@.map_values(|value: String| expanded(env, value@))
}

/// What a command finds in its environment: what is configured for it, then what the servers and
/// the supervisor tell it.
pub open spec fn command_env(env: Map<Seq<char>, String>, context: RunContext) -> Map<
    Seq<char>,
    Seq<char>,
> {
    with_reload_env(
        with_event_env(expanded_env(env, context.env), context.event_env),
        context.reload_env,
    ).insert("DEVLOOP_ROOT"@, context.root).insert("DEVLOOP_STATE"@, context.state_path).insert(
        "DEVLOOP_WORKFLOW"@,
        context.workflow,
    )
}

/// What comes of planning a command in a context: the program and the arguments, expanded, the
/// working directory, and the environment `full_env`; or the first reference that cannot be
/// expanded, in the command, then in its environment; or that there is no program.
pub open spec fn is_planned(
    env: Map<Seq<char>, String>,
    command: Seq<String>,
    cwd: Seq<char>,
    context: RunContext,
    full_env: Map<Seq<char>, Seq<char>>,
    result: Result<CommandPlan, CommandError>,
) -> bool {
    match result {
        Ok(plan) => {
            &&& command.len() > 0
            &&& list_expands(env, command)
            &&& map_expands(env, context.env)
            &&& plan.program@ == program_path(context.root, expanded(env, command[0]@))
            &&& texts(plan.args@) == Seq::new(
                (command.len() - 1) as nat,
                |i: int| expanded(env, command[i + 1]@),
            )
            &&& plan.cwd@ == cwd
            &&& env_of(plan.env) == full_env
        },
        Err(CommandError::Expand(error)) => list_error(env, command, "command"@, error) || (
        list_expands(env, command) && command.len() > 0 && map_error(
            env,
            context.env,
            "env"@,
            error,
        )),
        Err(CommandError::Empty) => command.len() == 0,
    }
}

/// What comes of configuring a command: it is planned, and the changed files are told.
pub open spec fn is_configured(
    env: Map<Seq<char>, String>,
    command: Seq<String>,
    cwd: Seq<char>,
    context: RunContext,
    result: Result<CommandPlan, CommandError>,
) -> bool {
    is_planned(
        env,
        command,
        cwd,
        context,
        command_env(env, context).insert("DEVLOOP_CHANGED_FILES_JSON"@, json_list(context.files)),
        result,
    )
}

/// The list without its first text.
fn rest_of(list: &Vec<String>) -> (rest: Vec<String>)
    requires
        list@.len() > 0,
    ensures
        texts(rest@) == texts(list@).skip(1),
{
    let mut rest: Vec<String> = Vec::new();
    let mut i: usize = 1;
    while i < list.len()
        invariant
            1 <= i <= list@.len(),
            rest@.len() == i - 1,
            forall|k: int| 0 <= k < i - 1 ==> rest@[k]@ == list@[k + 1]@,
        decreases list@.len() - i,
    {
        rest.push(list[i].clone());
        i = i + 1;
    }
    assert(texts(rest@) =~= texts(list@).skip(1));
    rest
}

/// The command with its references expanded and its environment filled in, but for the changed
/// files.
pub fn plan_command(
    command: &Vec<String>,
    cwd: String,
    context: &CommandContext,
    env: &NameMap<String>,
) -> (result: Result<CommandPlan, CommandError>)
    ensures
        is_planned(env@, command@, cwd@, context@, command_env(env@, context@), result),
{
    let expanded_command = match expand_vec(command, "command", env) {
        Ok(list) => list,
        Err(error) => {
            return Err(CommandError::Expand(error));
        },
    };
    proof {
        assert forall|i: int| 0 <= i < command@.len() implies expansion(
            env@,
            (#[trigger] command@[i])@,
            0,
        ) is Ok by {
            assert(expansion(env@, command@[i]@, 0) == Ok::<_, ReferenceDefect>(
                expanded_command@[i]@,
            ));
        }
    }
    if expanded_command.len() == 0 {
        return Err(CommandError::Empty);
    }
    let program = resolve_program(context.root, expanded_command[0].as_str());
    let args = rest_of(&expanded_command);
    let mut full_env = match expand_map(context.env, "env", env) {
        Ok(map) => map,
        Err(error) => {
            return Err(CommandError::Expand(error));
        },
    };
    proof {
        assert forall|key: Seq<char>| #[trigger] context.env@.contains_key(key) implies expansion(
            env@,
            context.env@[key]@,
            0,
        ) is Ok by {
            assert(full_env@.contains_key(key));
        }
        assert(env_of(full_env) =~= expanded_env(env@, *context.env));
        assert(texts(args@) =~= Seq::new(
            (command@.len() - 1) as nat,
            |i: int| expanded(env@, command@[i + 1]@),
        )) by {
            assert forall|i: int| 0 <= i < command@.len() - 1 implies texts(args@)[i] == expanded(
                env@,
                command@[i + 1]@,
            ) by {
                assert(texts(expanded_command@).skip(1)[i] == expanded_command@[i + 1]@);
            }
        }
    }
    apply_external_event_env(&mut full_env, context.external_event_env);
    apply_browser_reload_env(&mut full_env, context.browser_reload_env);
    set_variable(&mut full_env, "DEVLOOP_ROOT", context.root);
    set_variable(&mut full_env, "DEVLOOP_STATE", context.state_path);
    set_variable(&mut full_env, "DEVLOOP_WORKFLOW", context.workflow);
    Ok(CommandPlan { program, args, cwd, env: full_env })
}

/// The plan with the changed files told in its environment.
pub fn with_changed_files(plan: CommandPlan, changed_files: &str) -> (result: CommandPlan)
    ensures
        result.program@ == plan.program@,
        texts(result.args@) == texts(plan.args@),
        result.cwd@ == plan.cwd@,
        env_of(result.env) == env_of(plan.env).insert("DEVLOOP_CHANGED_FILES_JSON"@, changed_files@),
{
    let mut plan = plan;
    set_variable(&mut plan.env, "DEVLOOP_CHANGED_FILES_JSON", changed_files);
    plan
}

/// The command with its references expanded and its environment filled in.
pub fn configure_command(
    command: &Vec<String>,
    cwd: String,
    context: &CommandContext,
    env: &NameMap<String>,
) -> (result: Result<CommandPlan, CommandError>)
    ensures
        is_configured(env@, command@, cwd@, context@, result),
{
    let plan = match plan_command(command, cwd, context, env) {
        Ok(plan) => plan,
        Err(error) => {
            return Err(error);
        },
    };
    let changed_files = match json_list_text(context.changed_files) {
        Ok(text) => text,
        Err(_) => String::new(),
    };
    Ok(with_changed_files(plan, changed_files.as_str()))
}

proof fn lemma_own_names()
    ensures
        "DEVLOOP_ROOT"@ != "DEVLOOP_STATE"@,
        "DEVLOOP_ROOT"@ != "DEVLOOP_WORKFLOW"@,
        "DEVLOOP_ROOT"@ != "DEVLOOP_CHANGED_FILES_JSON"@,
        "DEVLOOP_STATE"@ != "DEVLOOP_WORKFLOW"@,
        "DEVLOOP_STATE"@ != "DEVLOOP_CHANGED_FILES_JSON"@,
        "DEVLOOP_WORKFLOW"@ != "DEVLOOP_CHANGED_FILES_JSON"@,
        "DEVLOOP_BROWSER_EVENTS_URL"@ != "DEVLOOP_CHANGED_FILES_JSON"@,
        "DEVLOOP_BROWSER_EVENTS_URL"@ != "DEVLOOP_ROOT"@,
        "DEVLOOP_BROWSER_EVENTS_URL"@ != "DEVLOOP_STATE"@,
        "DEVLOOP_BROWSER_EVENTS_URL"@ != "DEVLOOP_WORKFLOW"@,
        seq!['D', 'E', 'V', 'L', 'O', 'O', 'P', '_'].is_prefix_of("DEVLOOP_ROOT"@),
        seq!['D', 'E', 'V', 'L', 'O', 'O', 'P', '_'].is_prefix_of("DEVLOOP_STATE"@),
        seq!['D', 'E', 'V', 'L', 'O', 'O', 'P', '_'].is_prefix_of("DEVLOOP_WORKFLOW"@),
        seq!['D', 'E', 'V', 'L', 'O', 'O', 'P', '_'].is_prefix_of("DEVLOOP_CHANGED_FILES_JSON"@),
        seq!['D', 'E', 'V', 'L', 'O', 'O', 'P', '_'].is_prefix_of("DEVLOOP_BROWSER_EVENTS_URL"@),
{
    reveal_strlit("DEVLOOP_ROOT");
    reveal_strlit("DEVLOOP_STATE");
    reveal_strlit("DEVLOOP_WORKFLOW");
    reveal_strlit("DEVLOOP_CHANGED_FILES_JSON");
    reveal_strlit("DEVLOOP_BROWSER_EVENTS_URL");
    let own = seq!['D', 'E', 'V', 'L', 'O', 'O', 'P', '_'];
    assert("DEVLOOP_BROWSER_EVENTS_URL"@[8] == 'B' && "DEVLOOP_CHANGED_FILES_JSON"@[8] == 'C');
    assert("DEVLOOP_ROOT"@.take(8) =~= own);
    assert("DEVLOOP_STATE"@.take(8) =~= own);
    assert("DEVLOOP_WORKFLOW"@.take(8) =~= own);
    assert("DEVLOOP_CHANGED_FILES_JSON"@.take(8) =~= own);
    assert("DEVLOOP_BROWSER_EVENTS_URL"@.take(8) =~= own);
}

/// A command that is run has the expansion of its first text as its program, those of the others as
/// its arguments, all of them and in order, and its working directory. It is told the root, the file
/// of the state, the workflow and the changed files, and of the server for reloads where there is
/// one; and it has each variable that is configured for it, expanded.
pub proof fn law_commands_are_run_as_configured(
    env: Map<Seq<char>, String>,
    command: Seq<String>,
    cwd: Seq<char>,
    context: RunContext,
    plan: CommandPlan,
    name: Seq<char>,
)
    requires
        is_configured(env, command, cwd, context, Ok(plan)),
    ensures
        command.len() > 0,
        plan.args@.len() == command.len() - 1,
        forall|i: int|
            0 <= i < plan.args@.len() ==> expansion(env, command[i + 1]@, 0) == Ok::<
                _,
                ReferenceDefect,
            >((#[trigger] plan.args@[i])@),
        expansion(env, command[0]@, 0) matches Ok(program) && plan.program@ == program_path(
            context.root,
            program,
        ),
        plan.cwd@ == cwd,
        ({
            let told = env_of(plan.env);
            &&& told.contains_key("DEVLOOP_ROOT"@) && told["DEVLOOP_ROOT"@] == context.root
            &&& told.contains_key("DEVLOOP_STATE"@) && told["DEVLOOP_STATE"@] == context.state_path
            &&& told.contains_key("DEVLOOP_WORKFLOW"@) && told["DEVLOOP_WORKFLOW"@]
                == context.workflow
            &&& told.contains_key("DEVLOOP_CHANGED_FILES_JSON"@) && told["DEVLOOP_CHANGED_FILES_JSON"@]
                == json_list(context.files)
            &&& context.reload_env matches Some(server) ==> told.contains_key(
                "DEVLOOP_BROWSER_EVENTS_URL"@,
            ) && told["DEVLOOP_BROWSER_EVENTS_URL"@] == server.events_url@
            &&& context.env@.contains_key(name) && !(seq![
                'D',
                'E',
                'V',
                'L',
                'O',
                'O',
                'P',
                '_',
            ].is_prefix_of(name)) ==> told.contains_key(name) && expansion(
                env,
                context.env@[name]@,
                0,
            ) == Ok::<_, ReferenceDefect>(told[name])
        }),
{
    lemma_own_names();
    assert(texts(plan.args@).len() == plan.args@.len());
    assert forall|i: int| 0 <= i < plan.args@.len() implies expansion(env, command[i + 1]@, 0) == Ok::<
        _,
        ReferenceDefect,
    >((#[trigger] plan.args@[i])@) by {
        assert(texts(plan.args@)[i] == expanded(env, command[i + 1]@));
        assert(expansion(env, command[i + 1]@, 0) is Ok);
    }
    assert(expansion(env, command[0]@, 0) is Ok);
    let begun = expanded_env(env, context.env);
    if context.env@.contains_key(name) && !(seq!['D', 'E', 'V', 'L', 'O', 'O', 'P', '_'].is_prefix_of(
        name,
    )) {
        assert(begun.contains_key(name));
        law_only_event_variables_are_told(begun, context.event_env, name);
    }
}

/// A program is a file that is looked up where its name stands alone, the file itself where its path
/// is absolute, and seen from the root where it is not.
pub proof fn law_programs_are_found_from_the_root(root: Seq<char>, directory: Seq<char>, name: Seq<char>)
    requires
        name.len() > 0,
        forall|i: int| 0 <= i < name.len() ==> #[trigger] name[i] != '/',
        name != seq!['.'],
        name != seq!['.', '.'],
        is_written_out(directory),
    ensures
        program_path(root, name) == name,
        display_name(name) == name,
        directory[0] == '/' ==> program_path(root, path_join(directory, name)) == path_join(
            directory,
            name,
        ),
        directory[0] != '/' ==> program_path(root, path_join(directory, name)) == path_join(
            root,
            path_join(directory, name),
        ),
        display_name(path_join(directory, name)) == name,
{
    law_names_are_one_component(name);
    law_files_have_their_name_and_directory(directory, name);
    assert(!begins_with_dot(name)) by {
        assert(components(name)[0] == name);
    }
    law_joined_paths_stand_below_their_base(directory, name);
    let whole = path_join(directory, name);
    assert(whole[0] == directory[0]);
    if directory[0] != '/' {
        assert(components(directory).len() > 0) by {
            if components(directory).len() == 0 {
                assert(components(whole) =~= components(name));
                lemma_has_components(directory);
            }
        }
    }
}

/// The working directory is the root, or what is configured seen from the root; a label is the name
/// of the executable, a space, and the name of the process.
pub proof fn law_labels_name_executable_and_process(name: Seq<char>, command: Seq<String>, root: Seq<char>, cwd: String)
    ensures
        command.len() > 0 ==> output_label(name, command) == display_name(command[0]@) + seq![' '] + name,
        command.len() == 0 ==> output_label(name, command) == "unknown"@ + seq![' '] + name,
        working_directory(root, None) == root,
        working_directory(root, Some(cwd)) == path_join(root, cwd@),
{
    reveal_strlit(" ");
    assert(" "@ =~= seq![' ']);
}

/// The first reference that cannot be expanded is told with the place where it stands: in the
/// command first, by its position, and then in the environment, by its name.
pub proof fn law_the_first_bad_reference_is_told(
    env: Map<Seq<char>, String>,
    command: Seq<String>,
    cwd: Seq<char>,
    context: RunContext,
    error: ExpandError,
    i: int,
)
    requires
        is_configured(env, command, cwd, context, Err(CommandError::Expand(error))),
        context.env.wf(),
    ensures
        0 <= i < command.len() && expansion(env, command[i]@, 0) is Err && (forall|k: int|
            0 <= k < i ==> expansion(env, (#[trigger] command[k])@, 0) is Ok) ==> error.field@
            == "command["@ + decimal(i as nat) + seq![']'] && expansion(env, command[i]@, 0) == Err::<
            Seq<char>,
            _,
        >(error.problem@),
        list_expands(env, command) && 0 <= i < context.env.keys().len() && expansion(
            env,
            context.env.values()[i]@,
            0,
        ) is Err && (forall|k: int|
            0 <= k < i ==> expansion(env, (#[trigger] context.env.values()[k])@, 0) is Ok)
            ==> error.field@ == "env."@ + context.env.keys()[i] && expansion(
            env,
            context.env.values()[i]@,
            0,
        ) == Err::<Seq<char>, _>(error.problem@),
{
    reveal_strlit("command");
    reveal_strlit("command[");
    reveal_strlit("[");
    reveal_strlit("]");
    reveal_strlit("env");
    reveal_strlit("env.");
    reveal_strlit(".");
    assert("command"@ + "["@ =~= "command["@);
    assert("env"@ + "."@ =~= "env."@);
    assert("]"@ =~= seq![']']);
    if 0 <= i < command.len() && expansion(env, command[i]@, 0) is Err && (forall|k: int|
        0 <= k < i ==> expansion(env, (#[trigger] command[k])@, 0) is Ok) {
        assert(!list_expands(env, command));
        let j = choose|j: int|
            0 <= j < command.len() && expansion(env, (#[trigger] command[j])@, 0) == Err::<
                Seq<char>,
                _,
            >(error.problem@) && error.field@ == indexed_field("command"@, j) && forall|k: int|
                0 <= k < j ==> expansion(env, (#[trigger] command[k])@, 0) is Ok;
        assert(i == j) by {
            if i < j {
                assert(expansion(env, command[i]@, 0) is Ok);
            }
            if j < i {
                assert(expansion(env, command[j]@, 0) is Ok);
            }
        }
    }
    let values = context.env.values();
    if list_expands(env, command) && 0 <= i < context.env.keys().len() && expansion(env, values[i]@, 0)
        is Err && (forall|k: int| 0 <= k < i ==> expansion(env, (#[trigger] values[k])@, 0) is Ok) {
        assert(map_error(env, context.env, "env"@, error));
        let j = choose|j: int|
            0 <= j < context.env.keys().len() && expansion(
                env,
                (#[trigger] context.env.values()[j])@,
                0,
            ) == Err::<Seq<char>, _>(error.problem@) && error.field@ == keyed_field(
                "env"@,
                context.env.keys()[j],
            ) && forall|k: int|
                0 <= k < j ==> expansion(env, (#[trigger] context.env.values()[k])@, 0) is Ok;
        assert(i == j) by {
            if i < j {
                assert(expansion(env, context.env.values()[i]@, 0) is Ok);
            }
            if j < i {
                assert(expansion(env, values[j]@, 0) is Ok);
            }
        }
    }
}

} // verus!
