//! What the program does when it is started: which mode it runs in, and what it refuses.

use crate::paths;
use crate::paths::Platform;
use crate::text;
use vstd::prelude::*;

verus! {

broadcast use vstd::string::group_string_axioms;

// ----------------------------------------------------------------------------
// From the command line to a mode
// ----------------------------------------------------------------------------

/// What the command line says.
#[derive(Debug, Clone)]
pub struct LaunchOptions {
    /// Whether the version is asked for.
    pub version: bool,
    /// Whether there is a subcommand.
    pub subcommand: bool,
    /// Whether the list of models is asked for.
    pub list_models: bool,
    /// The mode, if one is given.
    pub mode: Option<String>,
    /// The session to export, if one is given.
    pub export: Option<String>,
    /// Whether only one answer is to be printed.
    pub print: bool,
    /// The positional arguments.
    pub args: Vec<String>,
    /// Whether an API key is given.
    pub api_key: bool,
    /// Whether a provider is given.
    pub provider: bool,
    /// Whether a model is given.
    pub model: bool,
}

/// What the command line says.
#[verifier::ext_equal]
pub struct OptionsModel {
    /// Whether the version is asked for.
    pub version: bool,
    /// Whether there is a subcommand.
    pub subcommand: bool,
    /// Whether the list of models is asked for.
    pub list_models: bool,
    /// The mode.
    pub mode: Option<Seq<char>>,
    /// The session to export.
    pub export: Option<Seq<char>>,
    /// Whether only one answer is to be printed.
    pub print: bool,
    /// The positional arguments.
    pub args: Seq<Seq<char>>,
    /// Whether an API key is given.
    pub api_key: bool,
    /// Whether a provider is given.
    pub provider: bool,
    /// Whether a model is given.
    pub model: bool,
}

impl View for LaunchOptions {
    type V = OptionsModel;

    open spec fn view(&self) -> OptionsModel {
        OptionsModel {
            version: self.version,
            subcommand: self.subcommand,
            list_models: self.list_models,
            mode: text::opt_text(self.mode),
            export: text::opt_text(self.export),
            print: self.print,
            args: text::texts(self.args@),
            api_key: self.api_key,
            provider: self.provider,
            model: self.model,
        }
    }
}

/// What has just happened.
#[derive(Debug, Clone)]
pub enum LaunchEvent {
    /// The command line has been read.
    Started,
    /// The configuration, the resources and the models have been loaded.
    EnvironmentLoaded,
    /// What was piped in, if anything, has been read and accepted.
    InputRead {
        /// The positional arguments that are messages.
        messages: Vec<String>,
        /// How many positional arguments name files.
        files: usize,
    },
    /// The models that may be used have been worked out.
    ScopeResolved {
        /// How many there are.
        models: usize,
    },
    /// The session and the agent are ready.
    SessionReady,
}

/// What has just happened.
pub enum EventModel {
    /// The command line has been read.
    Started,
    /// The configuration, the resources and the models have been loaded.
    EnvironmentLoaded,
    /// What was piped in, if anything, has been read and accepted.
    InputRead(Seq<Seq<char>>, nat),
    /// The models that may be used have been worked out.
    ScopeResolved(nat),
    /// The session and the agent are ready.
    SessionReady,
}

impl View for LaunchEvent {
    type V = EventModel;

    open spec fn view(&self) -> EventModel {
        match *self {
            LaunchEvent::Started => EventModel::Started,
            LaunchEvent::EnvironmentLoaded => EventModel::EnvironmentLoaded,
            LaunchEvent::InputRead { messages, files } => EventModel::InputRead(
                text::texts(messages@),
                files as nat,
            ),
            LaunchEvent::ScopeResolved { models } => EventModel::ScopeResolved(models as nat),
            LaunchEvent::SessionReady => EventModel::SessionReady,
        }
    }
}

/// What to do next.
#[derive(Debug, Clone, PartialEq, Eq)]
pub enum LaunchAction {
    /// Print the version, and stop.
    PrintVersion,
    /// Run the subcommand, and stop.
    RunSubcommand,
    /// Load the configuration, the resources and the models.
    LoadEnvironment,
    /// Print the list of models, and stop.
    ListModels,
    /// Read what is piped in.
    ReadPipedInput,
    /// Read nothing: what would be piped in belongs to the mode.
    SkipPipedInput,
    /// Export a session, and stop.
    ExportSession {
        /// The session.
        input: String,
        /// Where to, if that is said.
        output: Option<String>,
    },
    /// Work out which models may be used.
    ResolveScope,
    /// Make the session and the agent.
    CreateSession,
    /// Serve requests on standard input.
    RunRpc,
    /// Talk to the user.
    RunInteractive,
    /// Print answers, and stop.
    RunPrint {
        /// The mode.
        mode: String,
    },
    /// Stop with an error.
    Fail {
        /// What is wrong.
        message: String,
    },
}

/// What to do next.
#[verifier::ext_equal]
pub enum ActionModel {
    /// Print the version, and stop.
    PrintVersion,
    /// Run the subcommand, and stop.
    RunSubcommand,
    /// Load the configuration, the resources and the models.
    LoadEnvironment,
    /// Print the list of models, and stop.
    ListModels,
    /// Read what is piped in.
    ReadPipedInput,
    /// Read nothing.
    SkipPipedInput,
    /// Export a session, and stop.
    ExportSession(Seq<char>, Option<Seq<char>>),
    /// Work out which models may be used.
    ResolveScope,
    /// Make the session and the agent.
    CreateSession,
    /// Serve requests on standard input.
    RunRpc,
    /// Talk to the user.
    RunInteractive,
    /// Print answers, and stop.
    RunPrint(Seq<char>),
    /// Stop with an error.
    Fail(Seq<char>),
}

impl View for LaunchAction {
    type V = ActionModel;

    open spec fn view(&self) -> ActionModel {
        match *self {
            LaunchAction::PrintVersion => ActionModel::PrintVersion,
            LaunchAction::RunSubcommand => ActionModel::RunSubcommand,
            LaunchAction::LoadEnvironment => ActionModel::LoadEnvironment,
            LaunchAction::ListModels => ActionModel::ListModels,
            LaunchAction::ReadPipedInput => ActionModel::ReadPipedInput,
            LaunchAction::SkipPipedInput => ActionModel::SkipPipedInput,
            LaunchAction::ExportSession { input, output } => ActionModel::ExportSession(
                input@,
                text::opt_text(output),
            ),
            LaunchAction::ResolveScope => ActionModel::ResolveScope,
            LaunchAction::CreateSession => ActionModel::CreateSession,
            LaunchAction::RunRpc => ActionModel::RunRpc,
            LaunchAction::RunInteractive => ActionModel::RunInteractive,
            LaunchAction::RunPrint { mode } => ActionModel::RunPrint(mode@),
            LaunchAction::Fail { message } => ActionModel::Fail(message@),
        }
    }
}

/// Whether the mode is the one that serves requests.
pub open spec fn rpc(options: OptionsModel) -> bool {
    options.mode == Some("rpc"@)
}

/// What to do after what has just happened.
pub open spec fn action_after(options: OptionsModel, event: EventModel) -> ActionModel {
    match event {
        EventModel::Started => if options.version {
            ActionModel::PrintVersion
        } else if options.subcommand {
            ActionModel::RunSubcommand
        } else {
            ActionModel::LoadEnvironment
        },
        EventModel::EnvironmentLoaded => if options.list_models {
            ActionModel::ListModels
        } else if rpc(options) {
            ActionModel::SkipPipedInput
        } else {
            ActionModel::ReadPipedInput
        },
        EventModel::InputRead(messages, files) => match options.export {
            Some(input) => ActionModel::ExportSession(
                input,
                if messages.len() > 0 {
                    Some(messages[0])
                } else {
                    None
                },
            ),
            None => if rpc(options) && files > 0 {
                ActionModel::Fail("Error: @file arguments are not supported in RPC mode"@)
            } else {
                ActionModel::ResolveScope
            },
        },
        EventModel::ScopeResolved(models) => if options.api_key && !options.provider
            && !options.model && models == 0 {
            ActionModel::Fail(
                "--api-key requires a model to be specified via --provider/--model or --models"@,
            )
        } else {
            ActionModel::CreateSession
        },
        EventModel::SessionReady => if rpc(options) {
            ActionModel::RunRpc
        } else {
            match options.mode {
                Some(mode) => ActionModel::RunPrint(mode),
                None => if options.print {
                    ActionModel::RunPrint("text"@)
                } else {
                    ActionModel::RunInteractive
                },
            }
        },
    }
}

/// The command line after something was piped in: it is the first message, and only one answer is
/// to be printed.
pub open spec fn with_piped_input(options: OptionsModel, content: Seq<char>) -> OptionsModel {
    OptionsModel { print: true, args: seq![content] + options.args, ..options }
}

/// What was piped in, if anything.
pub open spec fn piped(is_terminal: bool, data: Seq<char>) -> Option<Seq<char>> {
    if is_terminal || data.len() == 0 {
        None
    } else {
        Some(data)
    }
}

/// What was piped in, if anything, given whether standard input is a terminal and what was read
/// from it.
pub fn piped_input(is_terminal: bool, data: String) -> (r: Option<String>)
    ensures
        text::opt_text(r) == piped(is_terminal, data@),
{
    if is_terminal || data.as_str().is_empty() {
        None
    } else {
        Some(data)
    }
}

impl LaunchOptions {
    fn is_rpc(&self) -> (r: bool)
        ensures
            r == rpc(self@),
    {
        match &self.mode {
            Some(mode) => text::same_str(mode.as_str(), "rpc"),
            None => false,
        }
    }

    /// Accepts what was piped in as the first message.
    pub fn accept_piped_input(&mut self, content: String)
        ensures
            final(self)@ == with_piped_input(old(self)@, content@),
    {
        self.print = true;
        self.args.insert(0, content);
    }

    /// What to do after what has just happened.
    pub fn next_action(&self, event: &LaunchEvent) -> (r: LaunchAction)
        ensures
            r@ == action_after(self@, event@),
    {
        match event {
            LaunchEvent::Started => {
                if self.version {
                    LaunchAction::PrintVersion
                } else if self.subcommand {
                    LaunchAction::RunSubcommand
                } else {
                    LaunchAction::LoadEnvironment
                }
            },
            LaunchEvent::EnvironmentLoaded => {
                if self.list_models {
                    LaunchAction::ListModels
                } else if self.is_rpc() {
                    LaunchAction::SkipPipedInput
                } else {
                    LaunchAction::ReadPipedInput
                }
            },
            LaunchEvent::InputRead { messages, files } => {
                match &self.export {
                    Some(input) => {
                        let output = if messages.len() > 0 {
                            Some(messages[0].clone())
                        } else {
                            None
                        };
                        LaunchAction::ExportSession { input: input.clone(), output }
                    },
                    None => {
                        if self.is_rpc() && *files > 0 {
                            LaunchAction::Fail {
                                message: "Error: @file arguments are not supported in RPC mode".to_owned(),
                            }
                        } else {
                            LaunchAction::ResolveScope
                        }
                    },
                }
            },
            LaunchEvent::ScopeResolved { models } => {
                if self.api_key && !self.provider && !self.model && *models == 0 {
                    LaunchAction::Fail {
                        message: "--api-key requires a model to be specified via --provider/--model or --models".to_owned(),
                    }
                } else {
                    LaunchAction::CreateSession
                }
            },
            LaunchEvent::SessionReady => {
                if self.is_rpc() {
                    LaunchAction::RunRpc
                } else {
                    match &self.mode {
                        Some(mode) => LaunchAction::RunPrint { mode: mode.clone() },
                        None => if self.print {
                            LaunchAction::RunPrint { mode: "text".to_owned() }
                        } else {
                            LaunchAction::RunInteractive
                        },
                    }
                }
            },
        }
    }
}

/// The patterns for the models that may be used: those of the command line, or else those of the
/// configuration.
pub fn scope_patterns(given: Option<Vec<String>>, configured: Option<Vec<String>>) -> (r: Vec<
    String,
>)
    ensures
        text::texts(r@) == match given {
            Some(patterns) => text::texts(patterns@),
            None => match configured {
                Some(patterns) => text::texts(patterns@),
                None => Seq::empty(),
            },
        },
{
    match given {
        Some(patterns) => patterns,
        None => match configured {
            Some(patterns) => patterns,
            None => {
                let none: Vec<String> = Vec::new();
                none
            },
        },
    }
}

/// The part of the system prompt on skills: there is one where files can be read and there are
/// skills.
pub fn skills_prompt(enabled_tools: &[String], formatted: &str) -> (r: Option<String>)
    ensures
        text::opt_text(r) == if text::texts(enabled_tools@).contains("read"@)
            && formatted@.len() > 0 {
            Some(formatted@)
        } else {
            None
        },
{
    let mut i: usize = 0;
    while i < enabled_tools.len()
        invariant
            i <= enabled_tools@.len(),
            forall|j: int| 0 <= j < i ==> (#[trigger] text::texts(enabled_tools@)[j]) != "read"@,
        decreases enabled_tools@.len() - i,
    {
        if text::same_str(enabled_tools[i].as_str(), "read") {
            assert(text::texts(enabled_tools@)[i as int] == "read"@);
            if formatted.is_empty() {
                return None;
            }
            return Some(formatted.to_owned());
        }
        i = i + 1;
    }
    None
}

// ----------------------------------------------------------------------------
// Input and answers
// ----------------------------------------------------------------------------

/// One thing that is said to the agent.
#[derive(Debug, Clone, PartialEq, Eq)]
pub enum Turn {
    /// The first message, which may carry files.
    Initial,
    /// A message.
    Text(String),
}

/// One thing that is said to the agent.
pub enum TurnModel {
    /// The first message.
    Initial,
    /// A message.
    Text(Seq<char>),
}

impl View for Turn {
    type V = TurnModel;

    open spec fn view(&self) -> TurnModel {
        match *self {
            Turn::Initial => TurnModel::Initial,
            Turn::Text(m) => TurnModel::Text(m@),
        }
    }
}

/// What is said to the agent, in order.
pub open spec fn turns(initial: bool, messages: Seq<Seq<char>>) -> Seq<TurnModel> {
    let said = Seq::new(messages.len(), |i: int| TurnModel::Text(messages[i]));
    if initial {
        seq![TurnModel::Initial] + said
    } else {
        said
    }
}

/// What each turn of a sequence says.
pub open spec fn turn_views(v: Seq<Turn>) -> Seq<TurnModel> {
    Seq::new(v.len(), |i: int| v[i]@)
}

/// What is said to the agent, in order: the first message, if there is one, and then the others.
pub fn pending_turns(initial: bool, messages: &Vec<String>) -> (r: Vec<Turn>)
    ensures
        turn_views(r@) == turns(initial, text::texts(messages@)),
{
    let ghost all = turns(initial, text::texts(messages@));
    let mut out: Vec<Turn> = Vec::new();
    if initial {
        out.push(Turn::Initial);
    }
    let ghost first = out@.len();
    let mut i: usize = 0;
    while i < messages.len()
        invariant
            i <= messages.len(),
            all == turns(initial, text::texts(messages@)),
            first == (if initial {
                1nat
            } else {
                0nat
            }),
            out@.len() == first + i,
            forall|j: int| 0 <= j < out@.len() ==> (#[trigger] out@[j])@ == all[j],
        decreases messages.len() - i,
    {
        out.push(Turn::Text(messages[i].clone()));
        i = i + 1;
    }
    out
}

/// Why nothing can be printed, if nothing can.
pub open spec fn print_refusal(mode: Seq<char>, initial: bool, messages: nat) -> Option<Seq<char>> {
    if mode != "text"@ && mode != "json"@ {
        Some("Unknown mode: "@ + mode)
    } else if !initial && messages == 0 {
        Some("No input provided. Use: pi -p \"your message\" or pipe input via stdin"@)
    } else {
        None
    }
}

/// Checks that the mode is known and that there is something to say, before anything is printed.
pub fn check_print(mode: &str, initial: bool, messages: usize) -> (r: Result<(), String>)
    ensures
        match r {
            Ok(()) => print_refusal(mode@, initial, messages as nat) is None,
            Err(e) => print_refusal(mode@, initial, messages as nat) == Some(e@),
        },
{
    if !text::same_str(mode, "text") && !text::same_str(mode, "json") {
        return Err(text::concat2("Unknown mode: ", mode));
    }
    if !initial && messages == 0 {
        return Err(
            "No input provided. Use: pi -p \"your message\" or pipe input via stdin".to_owned(),
        );
    }
    Ok(())
}

/// Whether the header of the session and every event are printed as JSON.
pub fn prints_events(mode: &str) -> (r: bool)
    ensures
        r == (mode@ == "json"@),
{
    text::same_str(mode, "json")
}

/// Why an answer ended.
#[derive(Debug, Clone, Copy, PartialEq, Eq, Structural)]
pub enum StopReason {
    /// It was complete.
    Stop,
    /// It became too long.
    Length,
    /// The agent uses a tool.
    ToolUse,
    /// Something went wrong.
    Error,
    /// It was aborted.
    Aborted,
}

/// What the last answer says of itself.
#[derive(Debug, Clone)]
pub struct LastAnswer {
    /// Why it ended.
    pub stop_reason: StopReason,
    /// What went wrong, if that is said.
    pub error_message: Option<String>,
}

/// What is wrong with the last answer, if anything is.
pub open spec fn answer_failure(last: Option<LastAnswer>) -> Option<Seq<char>> {
    match last {
        None => Some("No messages were sent"@),
        Some(answer) => if answer.stop_reason is Error || answer.stop_reason is Aborted {
            match answer.error_message {
                Some(m) => Some(m@),
                None => Some("Request error"@),
            }
        } else {
            None
        },
    }
}

/// Checks the last answer, and tells whether its text is to be printed.
pub fn finish_print(mode: &str, last: Option<LastAnswer>) -> (r: Result<bool, String>)
    ensures
        match r {
            Ok(shown) => answer_failure(last) is None && shown == (mode@ == "text"@),
            Err(e) => answer_failure(last) == Some(e@),
        },
{
    match last {
        None => Err("No messages were sent".to_owned()),
        Some(answer) => {
            if answer.stop_reason == StopReason::Error || answer.stop_reason
                == StopReason::Aborted {
                match answer.error_message {
                    Some(m) => Err(m),
                    None => Err("Request error".to_owned()),
                }
            } else {
                Ok(text::same_str(mode, "text"))
            }
        },
    }
}

// ----------------------------------------------------------------------------
// Exports
// ----------------------------------------------------------------------------

/// Where a session is exported to, where nothing is said.
pub open spec fn export_name(input: Seq<char>, platform: Platform) -> Seq<char> {
    let stem = match paths::file_stem(input, platform) {
        Some(s) => s,
        None => "session"@,
    };
    "pi-session-"@ + stem + ".html"@
}

/// Where a session is exported to, where nothing is said.
pub fn default_export_path(input: &str, platform: Platform) -> (r: String)
    ensures
        r@ == export_name(input@, platform),
{
    match paths::file_stem_of(input, platform) {
        Some(stem) => text::concat3("pi-session-", stem.as_str(), ".html"),
        None => text::concat3("pi-session-", "session", ".html"),
    }
}

/// Where a session is exported to.
#[derive(Debug, Clone, PartialEq, Eq)]
pub struct ExportTarget {
    /// The file.
    pub output: String,
    /// The directory to make first, if any.
    pub directory: Option<String>,
}

/// The directory of a path, unless that is the current one.
pub open spec fn directory_of(path: Seq<char>, platform: Platform) -> Option<Seq<char>> {
    match paths::parent(path, platform) {
        Some(dir) => if dir.len() > 0 {
            Some(dir)
        } else {
            None
        },
        None => None,
    }
}

/// Decides where a session is exported to. The session must exist.
pub fn export_target(
    input: &str,
    exists: bool,
    output: Option<&str>,
    platform: Platform,
) -> (r: Result<ExportTarget, String>)
    ensures
        match r {
            Ok(target) => {
                &&& exists
                &&& target.output@ == match output {
                    Some(path) => path@,
                    None => export_name(input@, platform),
                }
                &&& text::opt_text(target.directory) == directory_of(target.output@, platform)
            },
            Err(e) => !exists && e@ == "File not found: "@ + input@,
        },
{
    if !exists {
        return Err(text::concat2("File not found: ", input));
    }
    let output = match output {
        Some(path) => path.to_owned(),
        None => default_export_path(input, platform),
    };
    let directory = match paths::parent_of(output.as_str(), platform) {
        Some(dir) => if dir.as_str().is_empty() {
            None
        } else {
            Some(dir)
        },
        None => None,
    };
    Ok(ExportTarget { output, directory })
}

// ----------------------------------------------------------------------------
// Laws
// ----------------------------------------------------------------------------

/// After something was piped in, the program does not talk to the user.
pub proof fn law_piped_input_is_not_interactive(options: OptionsModel, content: Seq<char>)
    ensures
        action_after(with_piped_input(options, content), EventModel::SessionReady)
            !is RunInteractive,
{
}

/// The program talks to the user exactly where no mode is given and printing is not asked for.
pub proof fn law_interactive_by_default(options: OptionsModel)
    ensures
        action_after(options, EventModel::SessionReady) is RunInteractive <==> options.mode is None
            && !options.print,
{
}

/// Where requests are served, standard input is left to them, and files are refused before a
/// session is made.
pub proof fn law_rpc_keeps_standard_input(
    options: OptionsModel,
    messages: Seq<Seq<char>>,
    files: nat,
)
    requires
        rpc(options),
    ensures
        action_after(options, EventModel::EnvironmentLoaded) !is ReadPipedInput,
        options.export is None && files > 0 ==> action_after(
            options,
            EventModel::InputRead(messages, files),
        ) is Fail,
        action_after(options, EventModel::SessionReady) is RunRpc,
{
}

/// An API key is refused exactly where nothing says which model it is for.
pub proof fn law_api_key_needs_a_model(options: OptionsModel, models: nat)
    ensures
        action_after(options, EventModel::ScopeResolved(models)) is Fail <==> options.api_key
            && !options.provider && !options.model && models == 0,
{
}

/// Where printing is not refused, something is said to the agent.
pub proof fn law_print_says_something(mode: Seq<char>, initial: bool, messages: Seq<Seq<char>>)
    requires
        print_refusal(mode, initial, messages.len()) is None,
    ensures
        turns(initial, messages).len() > 0,
{
}

/// At the start the version comes before everything else, then a subcommand, and then the
/// environment is loaded.
pub proof fn law_version_comes_first(options: OptionsModel)
    ensures
        action_after(options, EventModel::Started) == ActionModel::PrintVersion <==> options.version,
        action_after(options, EventModel::Started) == ActionModel::RunSubcommand
            <==> !options.version && options.subcommand,
        action_after(options, EventModel::Started) == ActionModel::LoadEnvironment
            <==> !options.version && !options.subcommand,
{
}

/// With the environment loaded, the list of models comes first. Standard input is then read, unless
/// requests are served on it.
pub proof fn law_list_of_models_comes_before_input(options: OptionsModel)
    ensures
        action_after(options, EventModel::EnvironmentLoaded) == ActionModel::ListModels
            <==> options.list_models,
        action_after(options, EventModel::EnvironmentLoaded) == ActionModel::SkipPipedInput
            <==> !options.list_models && options.mode == Some("rpc"@),
        action_after(options, EventModel::EnvironmentLoaded) == ActionModel::ReadPipedInput
            <==> !options.list_models && options.mode != Some("rpc"@),
{
}

/// With the input read, a session that is to be exported is, to the first message, where there is
/// one. Otherwise the models are worked out, but files are refused where requests are served.
pub proof fn law_export_goes_to_the_first_message(
    options: OptionsModel,
    messages: Seq<Seq<char>>,
    files: nat,
)
    ensures
        options.export is Some && messages.len() == 0 ==> action_after(
            options,
            EventModel::InputRead(messages, files),
        ) == ActionModel::ExportSession(options.export->0, None),
        options.export is Some && messages.len() > 0 ==> action_after(
            options,
            EventModel::InputRead(messages, files),
        ) == ActionModel::ExportSession(options.export->0, Some(messages[0])),
        options.export is None && options.mode == Some("rpc"@) && files > 0 ==> action_after(
            options,
            EventModel::InputRead(messages, files),
        ) == ActionModel::Fail("Error: @file arguments are not supported in RPC mode"@),
        options.export is None && !(options.mode == Some("rpc"@) && files > 0) ==> action_after(
            options,
            EventModel::InputRead(messages, files),
        ) == ActionModel::ResolveScope,
{
}

/// With the models worked out, the session is made, unless an API key is given and nothing says
/// which model it is for.
pub proof fn law_session_follows_the_scope(options: OptionsModel, models: nat)
    ensures
        options.api_key && !options.provider && !options.model && models == 0 ==> action_after(
            options,
            EventModel::ScopeResolved(models),
        ) == ActionModel::Fail(
            "--api-key requires a model to be specified via --provider/--model or --models"@,
        ),
        !options.api_key || options.provider || options.model || models > 0 ==> action_after(
            options,
            EventModel::ScopeResolved(models),
        ) == ActionModel::CreateSession,
{
}

/// With the session ready, the mode decides. A mode other than that of requests is printed in, and
/// so is text where no mode is given but printing is asked for.
pub proof fn law_mode_decides_what_runs(options: OptionsModel)
    ensures
        options.mode == Some("rpc"@) ==> action_after(options, EventModel::SessionReady)
            == ActionModel::RunRpc,
        options.mode is Some && options.mode != Some("rpc"@) ==> action_after(
            options,
            EventModel::SessionReady,
        ) == ActionModel::RunPrint(options.mode->0),
        options.mode is None && options.print ==> action_after(options, EventModel::SessionReady)
            == ActionModel::RunPrint("text"@),
        options.mode is None && !options.print ==> action_after(options, EventModel::SessionReady)
            == ActionModel::RunInteractive,
{
}

/// What is piped in becomes the first argument, before those that were given, and asks for printing.
/// Nothing else changes.
pub proof fn law_piped_input_comes_first(options: OptionsModel, content: Seq<char>, i: int)
    ensures
        ({
            let after = with_piped_input(options, content);
            &&& after.print
            &&& after.args.len() == options.args.len() + 1
            &&& after.args[0] == content
            &&& 0 <= i < options.args.len() ==> after.args[i + 1] == options.args[i]
            &&& after.version == options.version
            &&& after.subcommand == options.subcommand
            &&& after.list_models == options.list_models
            &&& after.mode == options.mode
            &&& after.export == options.export
            &&& after.api_key == options.api_key
            &&& after.provider == options.provider
            &&& after.model == options.model
        }),
{
}

/// Something was piped in exactly where standard input is no terminal and held something, and then
/// it is all of that.
pub proof fn law_piped_input_is_all_that_was_read(data: Seq<char>)
    ensures
        piped(true, data) is None,
        data.len() == 0 ==> piped(false, data) is None,
        data.len() > 0 ==> piped(false, data) == Some(data),
{
}

/// The first message comes first, where there is one, and every other message follows in its order.
pub proof fn law_messages_are_said_in_order(messages: Seq<Seq<char>>, i: int)
    ensures
        turns(true, messages).len() == messages.len() + 1,
        turns(false, messages).len() == messages.len(),
        turns(true, messages)[0] == TurnModel::Initial,
        0 <= i < messages.len() ==> turns(true, messages)[i + 1] == TurnModel::Text(messages[i]),
        0 <= i < messages.len() ==> turns(false, messages)[i] == TurnModel::Text(messages[i]),
{
}

/// Printing is refused exactly where the mode is neither that of text nor that of JSON, or where
/// there is nothing to say. The mode is looked at first.
pub proof fn law_printing_is_refused(mode: Seq<char>, initial: bool, messages: nat)
    ensures
        mode != "text"@ && mode != "json"@ ==> print_refusal(mode, initial, messages) == Some(
            "Unknown mode: "@ + mode,
        ),
        (mode == "text"@ || mode == "json"@) && !initial && messages == 0 ==> print_refusal(
            mode,
            initial,
            messages,
        ) == Some("No input provided. Use: pi -p \"your message\" or pipe input via stdin"@),
        (mode == "text"@ || mode == "json"@) && (initial || messages > 0) ==> print_refusal(
            mode,
            initial,
            messages,
        ) is None,
{
}

/// An answer fails exactly where something went wrong or it was aborted, with the message that it
/// carries, where it carries one. No answer at all fails too.
pub proof fn law_failed_answers_are_told(answer: LastAnswer)
    ensures
        answer_failure(None) == Some("No messages were sent"@),
        (answer.stop_reason == StopReason::Stop || answer.stop_reason == StopReason::Length
            || answer.stop_reason == StopReason::ToolUse) ==> answer_failure(Some(answer)) is None,
        (answer.stop_reason == StopReason::Error || answer.stop_reason == StopReason::Aborted)
            && answer.error_message is Some ==> answer_failure(Some(answer)) == Some(
            answer.error_message->0@,
        ),
        (answer.stop_reason == StopReason::Error || answer.stop_reason == StopReason::Aborted)
            && answer.error_message is None ==> answer_failure(Some(answer)) == Some(
            "Request error"@,
        ),
{
}

/// An export is named after the session: after its file name without the extension, where it has
/// one.
pub proof fn law_exports_are_named_after_the_session(
    input: Seq<char>,
    stem: Seq<char>,
    ext: Seq<char>,
    platform: Platform,
)
    requires
        !ext.contains('.'),
    ensures
        stem.len() > 0 && paths::file_name(input, platform) == Some(stem + seq!['.'] + ext)
            ==> export_name(input, platform) == "pi-session-"@ + stem + ".html"@,
        paths::file_name(input, platform) == Some(ext) ==> export_name(input, platform)
            == "pi-session-"@ + ext + ".html"@,
        paths::file_name(input, platform) is None ==> export_name(input, platform)
            == "pi-session-"@ + "session"@ + ".html"@,
{
    paths::law_extension_follows_the_last_dot(input, stem, ext, platform);
}

/// The directory of an export is its parent, unless that is empty or there is none.
pub proof fn law_exports_lie_in_their_directory(
    path: Seq<char>,
    dir: Seq<char>,
    platform: Platform,
)
    ensures
        paths::parent(path, platform) is None ==> directory_of(path, platform) is None,
        paths::parent(path, platform) == Some(dir) && dir.len() > 0 ==> directory_of(path, platform)
            == Some(dir),
        paths::parent(path, platform) == Some(dir) && dir.len() == 0 ==> directory_of(
            path,
            platform,
        ) is None,
{
}

/// What the command line says is what it holds, field by field.
pub proof fn law_options_say_what_they_hold(options: LaunchOptions)
    ensures
        options@.version == options.version,
        options@.subcommand == options.subcommand,
        options@.list_models == options.list_models,
        options@.mode == text::opt_text(options.mode),
        options@.export == text::opt_text(options.export),
        options@.print == options.print,
        options@.args == text::texts(options.args@),
        options@.api_key == options.api_key,
        options@.provider == options.provider,
        options@.model == options.model,
{
}

/// What events, actions and turns say is what they hold.
pub proof fn law_steps_say_what_they_hold(
    a: String,
    b: Option<String>,
    messages: Vec<String>,
    n: usize,
)
    ensures
        LaunchEvent::Started@ == EventModel::Started,
        LaunchEvent::EnvironmentLoaded@ == EventModel::EnvironmentLoaded,
        (LaunchEvent::InputRead { messages, files: n })@ == EventModel::InputRead(
            text::texts(messages@),
            n as nat,
        ),
        (LaunchEvent::ScopeResolved { models: n })@ == EventModel::ScopeResolved(n as nat),
        LaunchEvent::SessionReady@ == EventModel::SessionReady,
        LaunchAction::PrintVersion@ == ActionModel::PrintVersion,
        LaunchAction::RunSubcommand@ == ActionModel::RunSubcommand,
        LaunchAction::LoadEnvironment@ == ActionModel::LoadEnvironment,
        LaunchAction::ListModels@ == ActionModel::ListModels,
        LaunchAction::ReadPipedInput@ == ActionModel::ReadPipedInput,
        LaunchAction::SkipPipedInput@ == ActionModel::SkipPipedInput,
        (LaunchAction::ExportSession { input: a, output: b })@ == ActionModel::ExportSession(
            a@,
            text::opt_text(b),
        ),
        LaunchAction::ResolveScope@ == ActionModel::ResolveScope,
        LaunchAction::CreateSession@ == ActionModel::CreateSession,
        LaunchAction::RunRpc@ == ActionModel::RunRpc,
        LaunchAction::RunInteractive@ == ActionModel::RunInteractive,
        (LaunchAction::RunPrint { mode: a })@ == ActionModel::RunPrint(a@),
        (LaunchAction::Fail { message: a })@ == ActionModel::Fail(a@),
        Turn::Initial@ == TurnModel::Initial,
        Turn::Text(a)@ == TurnModel::Text(a@),
{
}

/// What a list of turns says is what the turns say, one by one.
pub proof fn law_lists_of_turns_say_what_they_hold(v: Seq<Turn>, i: int)
    ensures
        turn_views(v).len() == v.len(),
        0 <= i < v.len() ==> turn_views(v)[i] == v[i]@,
{
}

} // verus!
