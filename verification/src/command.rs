//! Resolution of the command that starts the language server.
//!
//! The resolver decides from the user's settings, from what a search of the
//! worktree and `PATH` found, and from the platform which executable to
//! launch, with which arguments and environment. It spawns nothing: it only
//! describes the command.

use vstd::prelude::*;

verus! {

/// The name under which the tool is searched when the settings give no path.
pub const DEFAULT_COMMAND: &'static str = "semgrep";

/// The subcommand that starts the tool's language-server mode.
pub const LANGUAGE_SERVER_SUBCOMMAND: &'static str = "lsp";

/// The shell that runs the install script.
pub const SHELL: &'static str = "sh";

/// The shell's flag that takes the script from the next argument.
pub const SHELL_SCRIPT_FLAG: &'static str = "-c";

/// What the host is told when the tool is nowhere to be found and nothing
/// can stand in for it.
pub const NOT_FOUND_MESSAGE: &'static str =
    "Semgrep not found. Please install it manually, for example with `pip install semgrep` or `brew install semgrep`, and ensure it is in your PATH.";

/// The script that the shell runs where the tool is missing. It installs the
/// tool with the first package manager it finds, then starts it with the
/// arguments it was given, as a program or else as a Python module. What
/// the installation prints goes to standard error, so that standard output
/// carries nothing but the language server's own messages.
pub const INSTALL_SCRIPT: &'static str = "\
if ! command -v semgrep >/dev/null 2>&1; then\n\
if command -v brew >/dev/null 2>&1; then\n\
brew install semgrep >&2\n\
elif command -v pip3 >/dev/null 2>&1; then\n\
pip3 install --user semgrep >&2\n\
else\n\
echo 'semgrep is not installed, and neither brew nor pip3 is there to install it' >&2\n\
exit 1\n\
fi\n\
fi\n\
if command -v semgrep >/dev/null 2>&1; then\n\
exec semgrep \"$@\"\n\
fi\n\
if command -v python3 >/dev/null 2>&1 && python3 -c 'import semgrep' >/dev/null 2>&1; then\n\
exec python3 -m semgrep \"$@\"\n\
fi\n\
echo 'semgrep could not be installed' >&2\n\
exit 1\n";

/// The operating system family the editor runs on.
#[derive(Clone, Copy, Debug, PartialEq, Eq, Structural)]
pub enum Platform {
    Mac,
    Linux,
    Windows,
}

impl Platform {
    /// Whether the platform has a POSIX shell that can run the install
    /// script.
    pub open spec fn has_posix_shell(self) -> bool {
        !(self is Windows)
    }

    /// Whether the install script can be used on this platform.
    pub fn supports_bootstrap(self) -> (r: bool)
        ensures
            r == self.has_posix_shell(),
    {
        match self {
            Platform::Windows => false,
            _ => true,
        }
    }
}

/// What is done when the default tool is nowhere to be found.
#[derive(Clone, Copy, Debug, PartialEq, Eq, Structural)]
pub enum FallbackPolicy {
    /// Hand the launch to a shell that installs the tool first, on platforms
    /// that have such a shell; elsewhere launch the default name and let the
    /// launch fail.
    Bootstrap,
    /// Fail at once and tell the user to install the tool.
    Strict,
}

/// Why no command could be resolved.
#[derive(Clone, Copy, Debug, PartialEq, Eq, Structural)]
pub enum ResolveError {
    /// The default tool was not found and the policy allows no stand-in.
    ExecutableNotFound,
}

impl ResolveError {
    /// The instruction shown to the user.
    pub fn message(&self) -> (text: String)
        ensures
            text@ == NOT_FOUND_MESSAGE@,
    {
        NOT_FOUND_MESSAGE.to_owned()
    }
}

/// The user's settings for the language-server binary. A field that is
/// absent stands for the default.
#[derive(Clone, Debug, PartialEq, Eq)]
pub struct BinarySettings {
    /// Executable name or absolute path.
    pub path: Option<String>,
    /// Arguments to launch with.
    pub arguments: Option<Vec<String>>,
    /// Environment variables as name/value pairs.
    pub env: Option<Vec<(String, String)>>,
}

/// The mathematical value of [`BinarySettings`].
pub struct BinarySettingsView {
    pub path: Option<Seq<char>>,
    pub arguments: Option<Seq<Seq<char>>>,
    pub env: Option<Seq<(Seq<char>, Seq<char>)>>,
}

impl View for BinarySettings {
    type V = BinarySettingsView;

    open spec fn view(&self) -> BinarySettingsView {
        BinarySettingsView {
            path: self.path.deep_view(),
            arguments: self.arguments.deep_view(),
            env: self.env.deep_view(),
        }
    }
}

impl DeepView for BinarySettings {
    type V = BinarySettingsView;

    open spec fn deep_view(&self) -> BinarySettingsView {
        self@
    }
}

/// A resolved command, ready for process launch.
#[derive(Clone, Debug, PartialEq, Eq)]
pub struct CommandDescriptor {
    pub command: String,
    pub arguments: Vec<String>,
    pub environment: Vec<(String, String)>,
}

/// The mathematical value of a [`CommandDescriptor`].
pub struct CommandView {
    pub command: Seq<char>,
    pub arguments: Seq<Seq<char>>,
    pub environment: Seq<(Seq<char>, Seq<char>)>,
}

impl View for CommandDescriptor {
    type V = CommandView;

    open spec fn view(&self) -> CommandView {
        CommandView {
            command: self.command@,
            arguments: self.arguments.deep_view(),
            environment: self.environment.deep_view(),
        }
    }
}

/// Whether no variable is named twice.
pub open spec fn distinct_names(env: Seq<(Seq<char>, Seq<char>)>) -> bool {
    forall|i: int, j: int| 0 <= i < j < env.len() ==> (#[trigger] env[i]).0 != (#[trigger] env[j]).0
}

impl BinarySettingsView {
    /// Settings are well formed when their environment names each variable
    /// once.
    pub open spec fn wf(self) -> bool {
        self.env matches Some(env) ==> distinct_names(env)
    }
}

impl CommandView {
    /// A command is well formed when it has at least one argument and its
    /// environment names each variable once.
    pub open spec fn wf(self) -> bool {
        &&& self.arguments.len() > 0
        &&& distinct_names(self.environment)
    }
}

/// The executable to search for: the path from the settings, or the default
/// name.
pub open spec fn executable_name(settings: Option<BinarySettingsView>) -> Seq<char> {
    match settings {
        Some(BinarySettingsView { path: Some(path), .. }) => path,
        _ => DEFAULT_COMMAND@,
    }
}

/// The arguments for the tool: those from the settings unless they are
/// absent or empty, else the language-server subcommand alone.
pub open spec fn launch_arguments(settings: Option<BinarySettingsView>) -> Seq<Seq<char>> {
    match settings {
        Some(BinarySettingsView { arguments: Some(arguments), .. }) => if arguments.len() > 0 {
            arguments
        } else {
            seq![LANGUAGE_SERVER_SUBCOMMAND@]
        },
        _ => seq![LANGUAGE_SERVER_SUBCOMMAND@],
    }
}

/// The environment for the tool: that from the settings, or none.
pub open spec fn launch_environment(settings: Option<BinarySettingsView>) -> Seq<
    (Seq<char>, Seq<char>),
> {
    match settings {
        Some(BinarySettingsView { env: Some(env), .. }) => env,
        _ => Seq::empty(),
    }
}

/// The arguments with which the shell runs the install script and then the
/// tool: the script flag, the script, the name the script runs under, and
/// the tool's own arguments, which the script hands on.
pub open spec fn bootstrap_arguments(arguments: Seq<Seq<char>>) -> Seq<Seq<char>> {
    seq![SHELL_SCRIPT_FLAG@, INSTALL_SCRIPT@, DEFAULT_COMMAND@] + arguments
}

/// The command that the resolver gives for settings, for what the search
/// for `executable_name(settings)` found, for a platform and for a policy.
///
/// A path that was found is launched. A path from the settings that is not
/// the default name and was not found is launched as it is, so that the
/// launch itself reports it. For the default name that was not found the
/// policy decides.
pub open spec fn resolution(
    settings: Option<BinarySettingsView>,
    found: Option<Seq<char>>,
    platform: Platform,
    policy: FallbackPolicy,
) -> Result<CommandView, ResolveError> {
    let name = executable_name(settings);
    let arguments = launch_arguments(settings);
    let environment = launch_environment(settings);
    match found {
        Some(path) => Ok(CommandView { command: path, arguments, environment }),
        None => if name != DEFAULT_COMMAND@ {
            Ok(CommandView { command: name, arguments, environment })
        } else {
            match policy {
                FallbackPolicy::Strict => Err(ResolveError::ExecutableNotFound),
                FallbackPolicy::Bootstrap => if platform.has_posix_shell() {
                    Ok(
                        CommandView {
                            command: SHELL@,
                            arguments: bootstrap_arguments(arguments),
                            environment,
                        },
                    )
                } else {
                    Ok(CommandView { command: name, arguments, environment })
                },
            }
        },
    }
}

/// Resolution fails in one case only: the search found nothing, the
/// settings name no executable other than the default, and the policy is
/// strict.
pub proof fn lemma_resolution_fails_only_when_strict(
    settings: Option<BinarySettingsView>,
    found: Option<Seq<char>>,
    platform: Platform,
    policy: FallbackPolicy,
)
    ensures
        resolution(settings, found, platform, policy) is Err <==> {
            &&& found is None
            &&& executable_name(settings) == DEFAULT_COMMAND@
            &&& policy is Strict
        },
        resolution(settings, found, platform, policy) is Err ==> resolution(
            settings,
            found,
            platform,
            policy,
        ) == Err::<CommandView, ResolveError>(ResolveError::ExecutableNotFound),
{
}

/// Every command the resolver gives is well formed, for settings that are:
/// it has at least one argument, it ends with the arguments chosen for the
/// tool, and it carries the environment chosen for the tool.
pub proof fn lemma_resolution_well_formed(
    settings: Option<BinarySettingsView>,
    found: Option<Seq<char>>,
    platform: Platform,
    policy: FallbackPolicy,
)
    requires
        settings matches Some(given) ==> given.wf(),
    ensures
        resolution(settings, found, platform, policy) matches Ok(command) ==> {
            &&& command.wf()
            &&& launch_arguments(settings).len() > 0
            &&& command.arguments.len() >= launch_arguments(settings).len()
            &&& command.arguments.subrange(
                command.arguments.len() - launch_arguments(settings).len(),
                command.arguments.len() as int,
            ) == launch_arguments(settings)
            &&& command.environment == launch_environment(settings)
        },
{
    let arguments = launch_arguments(settings);
    assert(arguments.len() > 0);
    assert(distinct_names(launch_environment(settings)));
    let wrapped = bootstrap_arguments(arguments);
    assert(wrapped.subrange(wrapped.len() - arguments.len(), wrapped.len() as int) == arguments);
    assert(arguments.subrange(0, arguments.len() as int) == arguments);
}

/// With no arguments in the settings, or none that are not empty, the tool
/// is started in language-server mode: the command's last argument is the
/// language-server subcommand.
pub proof fn lemma_default_arguments_start_language_server(
    settings: Option<BinarySettingsView>,
    found: Option<Seq<char>>,
    platform: Platform,
    policy: FallbackPolicy,
)
    requires
        settings matches Some(given) ==> (given.arguments matches Some(arguments)
            ==> arguments.len() == 0),
    ensures
        resolution(settings, found, platform, policy) matches Ok(command)
            ==> command.arguments.len() > 0 && command.arguments.last()
            == LANGUAGE_SERVER_SUBCOMMAND@,
{
    assert(launch_arguments(settings) == seq![LANGUAGE_SERVER_SUBCOMMAND@]);
}

/// The arguments used when the settings give none: the language-server
/// subcommand alone.
pub fn default_arguments() -> (arguments: Vec<String>)
    ensures
        arguments.deep_view() == seq![LANGUAGE_SERVER_SUBCOMMAND@],
{
    let mut arguments: Vec<String> = Vec::new();
    arguments.push(LANGUAGE_SERVER_SUBCOMMAND.to_owned());
    assert(arguments.deep_view() =~= seq![LANGUAGE_SERVER_SUBCOMMAND@]);
    arguments
}

/// The command that hands the launch to a shell, which installs the tool
/// where it is missing and then starts it with `arguments`.
pub fn bootstrap_command(arguments: Vec<String>, environment: Vec<(String, String)>) -> (command:
    CommandDescriptor)
    ensures
        command@ == (CommandView {
            command: SHELL@,
            arguments: bootstrap_arguments(arguments.deep_view()),
            environment: environment.deep_view(),
        }),
{
    let mut tail = arguments;
    let mut all: Vec<String> = Vec::new();
    all.push(SHELL_SCRIPT_FLAG.to_owned());
    all.push(INSTALL_SCRIPT.to_owned());
    all.push(DEFAULT_COMMAND.to_owned());
    all.append(&mut tail);
    assert(all.deep_view() =~= bootstrap_arguments(arguments.deep_view()));
    CommandDescriptor { command: SHELL.to_owned(), arguments: all, environment }
}

/// Resolves the command from the settings and from what the search for
/// `executable_name` of these settings found.
///
/// Fails only under the strict policy, when the settings name no executable
/// other than the default and the search found nothing.
pub fn resolve_found(
    settings: Option<BinarySettings>,
    found: Option<String>,
    platform: Platform,
    policy: FallbackPolicy,
) -> (result: Result<CommandDescriptor, ResolveError>)
    ensures
        match result {
            Ok(command) => resolution(settings.deep_view(), found.deep_view(), platform, policy)
                == Ok::<CommandView, ResolveError>(command@),
            Err(error) => resolution(settings.deep_view(), found.deep_view(), platform, policy)
                == Err::<CommandView, ResolveError>(error),
        },
        result is Err <==> {
            &&& found is None
            &&& executable_name(settings.deep_view()) == DEFAULT_COMMAND@
            &&& policy is Strict
        },
        result matches Ok(command) ==> command@.arguments.len() > 0,
        result matches Ok(command) ==> ((settings.deep_view() matches Some(given) ==> given.wf())
            ==> command@.wf()),
{
    let ghost model = settings.deep_view();
    proof {
        lemma_resolution_fails_only_when_strict(model, found.deep_view(), platform, policy);
        if model matches Some(given) ==> given.wf() {
            lemma_resolution_well_formed(model, found.deep_view(), platform, policy);
        }
    }
    let (path, arguments, environment) = match settings {
        Some(given) => (given.path, given.arguments, given.env),
        None => (None, None, None),
    };
    let arguments = match arguments {
        Some(given) => if given.len() > 0 {
            given
        } else {
            default_arguments()
        },
        None => default_arguments(),
    };
    let environment = match environment {
        Some(given) => given,
        None => Vec::new(),
    };
    assert(arguments.deep_view() == launch_arguments(model));
    assert(environment.deep_view() =~= launch_environment(model));
    match found {
        Some(location) => Ok(CommandDescriptor { command: location, arguments, environment }),
        None => {
            let name = match path {
                Some(given) => given,
                None => DEFAULT_COMMAND.to_owned(),
            };
            assert(name@ == executable_name(model));
            let is_default = name == DEFAULT_COMMAND.to_owned();
            if !is_default {
                Ok(CommandDescriptor { command: name, arguments, environment })
            } else {
                match policy {
                    FallbackPolicy::Strict => Err(ResolveError::ExecutableNotFound),
                    FallbackPolicy::Bootstrap => if platform.supports_bootstrap() {
                        Ok(bootstrap_command(arguments, environment))
                    } else {
                        Ok(CommandDescriptor { command: name, arguments, environment })
                    },
                }
            }
        },
    }
}

/// The executable to search for: the path from the settings, or the default
/// name.
pub fn search_name(settings: &Option<BinarySettings>) -> (name: String)
    ensures
        name@ == executable_name(settings.deep_view()),
{
    match settings {
        Some(given) => match &given.path {
            Some(path) => path.clone(),
            None => DEFAULT_COMMAND.to_owned(),
        },
        None => DEFAULT_COMMAND.to_owned(),
    }
}

/// Resolves the command that starts the language server.
///
/// `lookup` searches the worktree and `PATH` for an executable name. It is
/// asked once, for `executable_name` of the settings, and the command is
/// the `resolution` for what it answered. Whatever it answers, resolution
/// succeeds under the bootstrap policy and for settings that name an
/// executable other than the default.
pub fn resolve<F: Fn(&str) -> Option<String>>(
    settings: Option<BinarySettings>,
    lookup: F,
    platform: Platform,
    policy: FallbackPolicy,
) -> (result: Result<CommandDescriptor, ResolveError>)
    requires
        forall|name: &str|
            name@ == executable_name(settings.deep_view()) ==> call_requires(lookup, (name,)),
    ensures
        exists|name: &str, found: Option<String>|
            {
                &&& name@ == executable_name(settings.deep_view())
                &&& call_ensures(lookup, (name,), found)
                &&& match result {
                    Ok(command) => resolution(
                        settings.deep_view(),
                        found.deep_view(),
                        platform,
                        policy,
                    ) == Ok::<CommandView, ResolveError>(command@),
                    Err(error) => resolution(
                        settings.deep_view(),
                        found.deep_view(),
                        platform,
                        policy,
                    ) == Err::<CommandView, ResolveError>(error),
                }
            },
        policy is Bootstrap || executable_name(settings.deep_view()) != DEFAULT_COMMAND@
            ==> result is Ok,
        result matches Ok(command) ==> command@.arguments.len() > 0,
        result matches Ok(command) ==> ((settings.deep_view() matches Some(given) ==> given.wf())
            ==> command@.wf()),
{
    let name = search_name(&settings);
    let asked: &str = name.as_str();
    let found = lookup(asked);
    let ghost answer = found;
    let result = resolve_found(settings, found, platform, policy);
    assert(call_ensures(lookup, (asked,), answer));
    result
}

} // verus!
