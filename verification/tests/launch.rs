use pi_core::launch::{
    check_print, default_export_path, export_target, finish_print, pending_turns, piped_input,
    prints_events, scope_patterns, skills_prompt, ExportTarget, LastAnswer, LaunchAction,
    LaunchEvent, LaunchOptions, StopReason, Turn,
};
use pi_core::paths::Platform;

fn options() -> LaunchOptions {
    LaunchOptions {
        version: false,
        subcommand: false,
        list_models: false,
        mode: None,
        export: None,
        print: false,
        args: Vec::new(),
        api_key: false,
        provider: false,
        model: false,
    }
}

fn read(messages: &[&str], files: usize) -> LaunchEvent {
    LaunchEvent::InputRead { messages: messages.iter().map(|s| s.to_string()).collect(), files }
}

#[test]
fn version_and_subcommands_come_first() {
    let mut o = options();
    assert_eq!(o.next_action(&LaunchEvent::Started), LaunchAction::LoadEnvironment);
    o.subcommand = true;
    assert_eq!(o.next_action(&LaunchEvent::Started), LaunchAction::RunSubcommand);
    o.version = true;
    assert_eq!(o.next_action(&LaunchEvent::Started), LaunchAction::PrintVersion);
}

#[test]
fn input_is_read_outside_rpc_mode() {
    let mut o = options();
    assert_eq!(o.next_action(&LaunchEvent::EnvironmentLoaded), LaunchAction::ReadPipedInput);
    o.mode = Some("rpc".to_string());
    assert_eq!(o.next_action(&LaunchEvent::EnvironmentLoaded), LaunchAction::SkipPipedInput);
    o.list_models = true;
    assert_eq!(o.next_action(&LaunchEvent::EnvironmentLoaded), LaunchAction::ListModels);
}

#[test]
fn exports_take_the_first_message_for_output() {
    let mut o = options();
    o.export = Some("s.jsonl".to_string());
    assert_eq!(
        o.next_action(&read(&["out.html", "x"], 0)),
        LaunchAction::ExportSession {
            input: "s.jsonl".to_string(),
            output: Some("out.html".to_string())
        }
    );
    o.mode = Some("rpc".to_string());
    assert_eq!(
        o.next_action(&read(&[], 3)),
        LaunchAction::ExportSession { input: "s.jsonl".to_string(), output: None }
    );
}

#[test]
fn rpc_mode_refuses_files() {
    let mut o = options();
    assert_eq!(o.next_action(&read(&["hi"], 1)), LaunchAction::ResolveScope);
    o.mode = Some("rpc".to_string());
    assert_eq!(o.next_action(&read(&["hi"], 0)), LaunchAction::ResolveScope);
    assert_eq!(
        o.next_action(&read(&["hi"], 1)),
        LaunchAction::Fail {
            message: "Error: @file arguments are not supported in RPC mode".to_string()
        }
    );
}

#[test]
fn api_keys_need_a_model() {
    let mut o = options();
    let none = LaunchEvent::ScopeResolved { models: 0 };
    assert_eq!(o.next_action(&none), LaunchAction::CreateSession);
    o.api_key = true;
    assert_eq!(
        o.next_action(&none),
        LaunchAction::Fail {
            message: "--api-key requires a model to be specified via --provider/--model or --models"
                .to_string()
        }
    );
    assert_eq!(
        o.next_action(&LaunchEvent::ScopeResolved { models: 1 }),
        LaunchAction::CreateSession
    );
    o.model = true;
    assert_eq!(o.next_action(&none), LaunchAction::CreateSession);
    o.model = false;
    o.provider = true;
    assert_eq!(o.next_action(&none), LaunchAction::CreateSession);
}

#[test]
fn modes_are_dispatched() {
    let mut o = options();
    assert_eq!(o.next_action(&LaunchEvent::SessionReady), LaunchAction::RunInteractive);
    o.print = true;
    assert_eq!(
        o.next_action(&LaunchEvent::SessionReady),
        LaunchAction::RunPrint { mode: "text".to_string() }
    );
    o.mode = Some("json".to_string());
    o.print = false;
    assert_eq!(
        o.next_action(&LaunchEvent::SessionReady),
        LaunchAction::RunPrint { mode: "json".to_string() }
    );
    o.mode = Some("rpc".to_string());
    assert_eq!(o.next_action(&LaunchEvent::SessionReady), LaunchAction::RunRpc);
}

#[test]
fn piped_input_becomes_the_first_message() {
    assert_eq!(piped_input(true, "x".to_string()), None);
    assert_eq!(piped_input(false, String::new()), None);
    assert_eq!(piped_input(false, "x".to_string()), Some("x".to_string()));
    let mut o = options();
    o.args = vec!["second".to_string()];
    o.accept_piped_input("first".to_string());
    assert_eq!(o.args, vec!["first".to_string(), "second".to_string()]);
    assert!(o.print);
    assert_eq!(
        o.next_action(&LaunchEvent::SessionReady),
        LaunchAction::RunPrint { mode: "text".to_string() }
    );
}

#[test]
fn scopes_and_skills() {
    let v = |s: &str| vec![s.to_string()];
    assert_eq!(scope_patterns(Some(v("a")), Some(v("b"))), v("a"));
    assert_eq!(scope_patterns(None, Some(v("b"))), v("b"));
    assert!(scope_patterns(None, None).is_empty());
    assert_eq!(skills_prompt(&["bash".to_string(), "read".to_string()], "s"), Some("s".to_string()));
    assert_eq!(skills_prompt(&["bash".to_string()], "s"), None);
    assert_eq!(skills_prompt(&["read".to_string()], ""), None);
}

#[test]
fn turns_begin_with_the_initial_message() {
    let messages = vec!["a".to_string(), "b".to_string()];
    assert_eq!(
        pending_turns(true, &messages),
        vec![Turn::Initial, Turn::Text("a".to_string()), Turn::Text("b".to_string())]
    );
    assert_eq!(pending_turns(false, &Vec::new()), Vec::new());
}

#[test]
fn printing_is_checked() {
    assert_eq!(check_print("text", true, 0), Ok(()));
    assert_eq!(check_print("json", false, 1), Ok(()));
    assert_eq!(check_print("xml", true, 1), Err("Unknown mode: xml".to_string()));
    assert_eq!(
        check_print("text", false, 0),
        Err("No input provided. Use: pi -p \"your message\" or pipe input via stdin".to_string())
    );
    assert!(prints_events("json"));
    assert!(!prints_events("text"));
}

#[test]
fn answers_are_checked() {
    let answer = |stop_reason: StopReason, error: Option<&str>| {
        Some(LastAnswer { stop_reason, error_message: error.map(str::to_string) })
    };
    assert_eq!(finish_print("text", None), Err("No messages were sent".to_string()));
    assert_eq!(finish_print("text", answer(StopReason::Stop, Some("x"))), Ok(true));
    assert_eq!(finish_print("json", answer(StopReason::Length, None)), Ok(false));
    assert_eq!(finish_print("text", answer(StopReason::ToolUse, None)), Ok(true));
    assert_eq!(
        finish_print("text", answer(StopReason::Error, Some("overloaded"))),
        Err("overloaded".to_string())
    );
    assert_eq!(
        finish_print("text", answer(StopReason::Aborted, None)),
        Err("Request error".to_string())
    );
}

#[test]
fn exports_have_a_default_name() {
    assert_eq!(
        default_export_path("/a/b/my.session.jsonl", Platform::Unix),
        "pi-session-my.session.html"
    );
    assert_eq!(
        default_export_path(r"C:\a.b\my.jsonl", Platform::Windows),
        "pi-session-my.html"
    );
    assert_eq!(default_export_path("plain", Platform::Unix), "pi-session-plain.html");
    assert_eq!(default_export_path("..", Platform::Unix), "pi-session-session.html");
    assert_eq!(default_export_path("", Platform::Unix), "pi-session-session.html");
}

#[test]
fn exports_go_where_they_are_told() {
    assert_eq!(
        export_target("s.jsonl", true, None, Platform::Unix),
        Ok(ExportTarget { output: "pi-session-s.html".to_string(), directory: None })
    );
    assert_eq!(
        export_target("s.jsonl", true, Some("out/x/y.html"), Platform::Unix),
        Ok(ExportTarget {
            output: "out/x/y.html".to_string(),
            directory: Some("out/x".to_string())
        })
    );
    assert_eq!(
        export_target("s.jsonl", false, None, Platform::Unix),
        Err("File not found: s.jsonl".to_string())
    );
}
