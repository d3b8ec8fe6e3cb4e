use script_host::host::{
    collect_completion_entries, completion_entries, configure_engine, configure_engine_for,
    run_rhai_script_with_sink, run_script, OutputSink, ScriptOutcome, SessionState,
};
use script_host::host::{configure_indexed, evaluate_compiled, evaluate_script, evaluation_outcome};
use script_host::registry::{Capability, ToggleSet};
use std::sync::{Arc, Mutex};

fn run_script_with_collector(script: &str) -> Vec<String> {
    let captured_output: Arc<Mutex<Vec<String>>> = Arc::new(Mutex::new(Vec::new()));
    let sink_target = Arc::clone(&captured_output);
    let sink: OutputSink = Arc::new(move |message: String| {
        sink_target
            .lock()
            .expect("collector mutex poisoned")
            .push(message);
    });

    run_rhai_script_with_sink(script, &sink);

    let collected = captured_output
        .lock()
        .expect("collector mutex poisoned")
        .clone();

    collected
}

fn run_under(toggles: &ToggleSet, script: &str) -> Vec<String> {
    let captured: Arc<Mutex<Vec<String>>> = Arc::new(Mutex::new(Vec::new()));
    let target = Arc::clone(&captured);
    let sink = Arc::new(move |message: String| {
        target.lock().expect("collector mutex poisoned").push(message);
    });
    run_script(toggles, script, &sink);
    let collected = captured.lock().expect("collector mutex poisoned").clone();
    collected
}

fn submit(session: &mut SessionState, script: &str) -> Vec<String> {
    let captured: Arc<Mutex<Vec<String>>> = Arc::new(Mutex::new(Vec::new()));
    let target = Arc::clone(&captured);
    let sink = Arc::new(move |message: String| {
        target.lock().expect("collector mutex poisoned").push(message);
    });
    session.repl_submit(script, &sink);
    let collected = captured.lock().expect("collector mutex poisoned").clone();
    collected
}

fn names(list: &[&str]) -> Vec<String> {
    list.iter().map(|name| name.to_string()).collect()
}

#[test]
fn lib_invalid_script_reports_parse_error() {
    let output = run_script_with_collector("let x = ;");
    let last_message = output
        .last()
        .expect("missing output entry for invalid script");

    assert!(
        last_message.contains("Unexpected"),
        "expected parse error message, got: {last_message}",
    );
}

#[test]
fn lib_valid_script_reports_result() {
    let output = run_script_with_collector("40 + 2");
    assert!(
        output.contains(&"42".to_string()),
        "expected valid script to produce \"42\" but saw {output:?}",
    );
}

#[test]
fn lib_runtime_errors_are_forwarded_to_the_sink() {
    let output = run_script_with_collector(
        r#"
            fn explode() { throw("boom"); }
            explode();
            "#,
    );

    let last_message = output
        .last()
        .expect("missing output entry for runtime error");
    assert!(
        last_message.contains("boom"),
        "expected runtime error payload, got: {last_message}",
    );
}

#[test]
fn lib_print_statements_are_captured_before_results() {
    let output = run_script_with_collector(r#"print("hi"); 41 + 1;"#);
    assert_eq!(
        output,
        vec!["hi".to_string(), "42".to_string()],
        "expected print output to precede the result",
    );
}

#[test]
fn lib_bundled_modules_are_available_under_namespaces() {
    let output = run_script_with_collector(
        r"
            let value = rand::rand(0, 10);
            value >= 0 && value <= 10
            ",
    );

    let last_message = output
        .last()
        .expect("missing output entry for bundled module test");

    assert_eq!(
        last_message, "true",
        "expected namespace-qualified module call to succeed",
    );
}

#[test]
fn main_invalid_script_reports_parse_error() {
    let output = run_script_with_collector("let x = ;");
    let last_message = output
        .last()
        .expect("missing output entry for invalid script");

    assert!(
        last_message.contains("Unexpected"),
        "expected parse error message, got: {last_message}",
    );
}

#[test]
fn main_valid_script_reports_result() {
    let output = run_script_with_collector("40 + 2");
    assert!(
        output.contains(&"42".to_string()),
        "expected valid script to produce \"42\" but saw {output:?}",
    );
}

#[test]
fn main_runtime_errors_are_forwarded_to_the_sink() {
    let output = run_script_with_collector(
        r#"
            fn explode() { throw("boom"); }
            explode();
            "#,
    );

    let last_message = output
        .last()
        .expect("missing output entry for runtime error");
    assert!(
        last_message.contains("boom"),
        "expected runtime error payload, got: {last_message}",
    );
}

#[test]
fn main_print_statements_are_captured_before_results() {
    let output = run_script_with_collector(r#"print("hi"); 41 + 1;"#);
    assert_eq!(
        output,
        vec!["hi".to_string(), "42".to_string()],
        "expected print output to precede the result"
    );
}

#[test]
fn main_bundled_modules_are_available_under_namespaces() {
    let output = run_script_with_collector(
        r#"
            let value = rand::rand(0, 10);
            value >= 0 && value <= 10
            "#,
    );

    let last_message = output
        .last()
        .expect("missing output entry for bundled module test");

    assert_eq!(
        last_message, "true",
        "expected namespace-qualified module call to succeed"
    );
}

#[test]
fn collect_completion_entries_includes_namespace_and_functions() {
    let entries = collect_completion_entries();

    assert!(entries.contains(&"rand".to_string()));
    assert!(entries.contains(&"rand::".to_string()));
    assert!(entries
        .iter()
        .any(|entry| entry.starts_with("rand::") && entry.len() > "rand::".len()));
}

#[test]
fn valid_script_yields_exactly_one_event() {
    assert_eq!(run_script_with_collector("40 + 2"), vec!["42".to_string()]);
}

#[test]
fn malformed_script_yields_exactly_one_event() {
    let output = run_script_with_collector("let x = ;");
    assert_eq!(output.len(), 1);
}

#[test]
fn malformed_script_runs_nothing() {
    let output = run_script_with_collector("print(\"before\"); let x = ;");
    assert_eq!(output.len(), 1);
    assert!(!output.contains(&"before".to_string()));
}

#[test]
fn runtime_error_yields_exactly_one_event() {
    let output = run_script_with_collector("throw(\"boom\");");
    assert_eq!(output.len(), 1);
    assert!(output[0].contains("boom"));
}

#[test]
fn prints_before_a_runtime_error_are_kept_in_order() {
    let output = run_script_with_collector("print(\"a\"); print(\"b\"); throw(\"boom\");");
    assert_eq!(output.len(), 3);
    assert_eq!(output[0], "a");
    assert_eq!(output[1], "b");
    assert!(output[2].contains("boom"));
}

#[test]
fn one_shot_runs_share_no_variables() {
    assert_eq!(run_script_with_collector("let kept = 5; kept"), vec!["5".to_string()]);
    let second = run_script_with_collector("kept");
    assert_eq!(second.len(), 1);
    assert!(second[0].contains("kept"));
    assert_ne!(second[0], "5");
}

#[test]
fn disabled_namespace_is_absent_from_one_shot_runs() {
    let mut toggles = ToggleSet::all();
    toggles.rand = false;
    let output = run_under(&toggles, "rand::rand(0, 10)");
    assert_eq!(output.len(), 1);
    assert!(output[0].parse::<i64>().is_err());
    let with_rand = run_under(&ToggleSet::all(), "let v = rand::rand(3, 4); v == 3 || v == 4");
    assert_eq!(with_rand, vec!["true".to_string()]);
}

#[test]
fn configure_engine_registers_every_namespace() {
    let engine = configure_engine(rhai::Engine::new());
    let within: bool = engine
        .eval("let v = rand::rand(0, 10); v >= 0 && v <= 10")
        .expect("rand namespace is registered");
    assert!(within);
}

#[test]
fn configure_engine_for_leaves_inactive_namespaces_out() {
    let engine = configure_engine_for(rhai::Engine::new(), &ToggleSet::none());
    assert!(engine.eval::<i64>("rand::rand(0, 10)").is_err());
    let mut toggles = ToggleSet::none();
    toggles.rand = true;
    let engine = configure_engine_for(rhai::Engine::new(), &toggles);
    let drawn = engine.eval::<i64>("rand::rand(7, 8)").expect("rand is active");
    assert!(drawn == 7 || drawn == 8);
}

#[test]
fn outcome_text_is_the_terminal_event() {
    let value = || Ok("42".to_string());
    let error = || Err("ErrorRuntime(\"boom\", none)".to_string());
    assert_eq!(evaluation_outcome(value()).into_event(), "42");
    assert_eq!(
        evaluation_outcome(error()).into_event(),
        "ErrorRuntime(\"boom\", none)"
    );
    assert!(matches!(evaluation_outcome(value()), ScriptOutcome::Value(_)));
    assert!(matches!(evaluation_outcome(error()), ScriptOutcome::Failed(_)));
    assert_eq!(ScriptOutcome::Rejected("bad".to_string()).into_event(), "bad");
    assert_eq!(ScriptOutcome::Value("v".to_string()).into_event(), "v");
    assert_eq!(ScriptOutcome::Failed("f".to_string()).into_event(), "f");
}

#[test]
fn evaluate_compiled_rejects_what_did_not_compile() {
    let engine = rhai::Engine::new();
    match evaluate_compiled(&engine, Err("no script".to_string())) {
        ScriptOutcome::Rejected(text) => assert_eq!(text, "no script"),
        other => panic!("expected a rejection, got {other:?}"),
    }
}

#[test]
fn evaluate_compiled_evaluates_what_compiled() {
    let engine = rhai::Engine::new();
    match evaluate_compiled(&engine, Ok(engine.compile("40 + 2").expect("compiles"))) {
        ScriptOutcome::Value(text) => assert_eq!(text, "42"),
        other => panic!("expected a value, got {other:?}"),
    }
    match evaluate_compiled(&engine, Ok(engine.compile("throw(\"boom\");").expect("compiles"))) {
        ScriptOutcome::Failed(text) => {
            assert!(text.starts_with("ErrorRuntime("), "got: {text}");
            assert!(text.contains("boom"), "got: {text}");
        }
        other => panic!("expected a failure, got {other:?}"),
    }
}

#[test]
fn evaluate_script_tells_the_three_outcomes_apart() {
    let engine = rhai::Engine::new();
    match evaluate_script(&engine, "let x = ;") {
        ScriptOutcome::Rejected(text) => {
            let expected = engine.compile("let x = ;").expect_err("does not compile").to_string();
            assert_eq!(text, expected);
            assert!(text.contains("Unexpected"));
        }
        other => panic!("expected a rejection, got {other:?}"),
    }
    assert!(matches!(evaluate_script(&engine, "throw(\"boom\");"), ScriptOutcome::Failed(_)));
    match evaluate_script(&engine, "40 + 2") {
        ScriptOutcome::Value(text) => assert_eq!(text, "42"),
        other => panic!("expected a value, got {other:?}"),
    }
}

#[test]
fn repl_keeps_variables_between_submissions() {
    let mut session = SessionState::new();
    assert_eq!(session.variable_count(), 0);
    submit(&mut session, "let x = 40;");
    assert_eq!(session.variable_count(), 1);
    assert_eq!(submit(&mut session, "x + 2"), vec!["42".to_string()]);
}

#[test]
fn repl_forgets_variables_after_a_toggle_update() {
    let mut session = SessionState::new();
    submit(&mut session, "let x = 40;");
    assert_eq!(submit(&mut session, "x + 2"), vec!["42".to_string()]);
    session.update_selection(&names(&["rand", "fs", "url", "ml", "sci"]));
    assert_eq!(session.variable_count(), 0);
    let output = submit(&mut session, "x + 2");
    assert_eq!(output.len(), 1);
    assert!(output[0].contains("ErrorVariableNotFound"), "got: {}", output[0]);
}

#[test]
fn repl_routes_prints_before_the_result() {
    let mut session = SessionState::new();
    let output = submit(&mut session, r#"print("hi"); 41 + 1"#);
    assert_eq!(output, vec!["hi".to_string(), "42".to_string()]);
}

#[test]
fn repl_print_hook_is_rebound_on_each_submission() {
    let mut session = SessionState::new();
    let first = submit(&mut session, r#"print("one"); 1"#);
    let second = submit(&mut session, r#"print("two"); 2"#);
    assert_eq!(first, vec!["one".to_string(), "1".to_string()]);
    assert_eq!(second, vec!["two".to_string(), "2".to_string()]);
}

#[test]
fn repl_reports_syntax_errors_as_one_event() {
    let mut session = SessionState::new();
    let output = submit(&mut session, "let x = ;");
    assert_eq!(output.len(), 1);
    assert!(output[0].contains("ErrorParsing"), "got: {}", output[0]);
}

#[test]
fn session_starts_with_every_capability_active() {
    let session = SessionState::new();
    assert_eq!(session.toggles(), ToggleSet::all());
    let list = session.list_capabilities();
    assert_eq!(list.len(), 5);
    assert!(list.iter().all(|line| line.selected));
}

#[test]
fn update_selection_replaces_the_toggle_set() {
    let mut session = SessionState::new();
    session.update_selection(&names(&[" Rand ", "URL", "unknown"]));
    let toggles = session.toggles();
    assert!(toggles.is_enabled(Capability::Rand));
    assert!(toggles.is_enabled(Capability::Url));
    assert!(!toggles.is_enabled(Capability::Fs));
    assert!(!toggles.is_enabled(Capability::Ml));
    assert!(!toggles.is_enabled(Capability::Sci));
    let list = session.list_capabilities();
    let flags: Vec<bool> = list.iter().map(|line| line.selected).collect();
    assert_eq!(flags, vec![true, false, true, false, false]);
}

#[test]
fn update_selection_rebinds_the_engine() {
    let script = "let v = rand::rand(4, 5); v == 4 || v == 5";
    let mut session = SessionState::new();
    assert_eq!(submit(&mut session, script), vec!["true".to_string()]);
    session.update_selection(&names(&["fs"]));
    let output = submit(&mut session, script);
    assert_eq!(output.len(), 1);
    assert_ne!(output[0], "true");
    session.update_selection(&names(&["rand"]));
    assert_eq!(submit(&mut session, script), vec!["true".to_string()]);
}

#[test]
fn update_selection_twice_changes_nothing_more() {
    let mut session = SessionState::new();
    let selection = names(&["rand", "ml"]);
    session.update_selection(&selection);
    let toggles = session.toggles();
    let entries = session.completion_entries();
    session.update_selection(&selection);
    assert_eq!(session.toggles(), toggles);
    assert_eq!(session.completion_entries(), entries);
    assert_eq!(session.variable_count(), 0);
}

#[test]
fn enabling_then_disabling_leaves_no_trace() {
    let mut never = SessionState::new();
    never.update_selection(&names(&["fs"]));
    let mut session = SessionState::new();
    session.update_selection(&names(&["fs", "rand"]));
    assert!(session.completion_entries().contains(&"rand::".to_string()));
    session.update_selection(&names(&["fs"]));
    assert_eq!(session.toggles(), never.toggles());
    assert_eq!(session.completion_entries(), never.completion_entries());
    assert!(session
        .completion_entries()
        .iter()
        .all(|entry| !entry.starts_with("rand")));
    let output = submit(&mut session, "let v = rand::rand(4, 5); v == 4 || v == 5");
    assert_ne!(output, vec!["true".to_string()]);
}

#[test]
fn completion_entries_follow_the_toggle_set() {
    let mut toggles = ToggleSet::none();
    assert!(completion_entries(&toggles).is_empty());
    toggles.sci = true;
    assert_eq!(completion_entries(&toggles), vec!["sci".to_string(), "sci::".to_string()]);
    toggles.ml = true;
    let entries = completion_entries(&toggles);
    assert!(entries.contains(&"ml".to_string()));
    assert!(entries.contains(&"ml::".to_string()));
    assert!(entries.contains(&"ml::train".to_string()));
    assert!(entries.iter().all(|entry| !entry.starts_with("rand")));
}

#[test]
fn completion_entries_are_sorted_and_unique() {
    let entries = collect_completion_entries();
    for pair in entries.windows(2) {
        assert!(pair[0] < pair[1], "{:?} before {:?}", pair[0], pair[1]);
    }
}

#[test]
fn completion_entries_form_a_prefix_hierarchy() {
    let entries = collect_completion_entries();
    let roots = ["rand", "fs", "url", "ml", "sci"];
    for root in roots {
        assert!(entries.contains(&root.to_string()));
        assert!(entries.contains(&format!("{root}::")));
    }
    for entry in entries.iter() {
        if roots.contains(&entry.as_str()) {
            continue;
        }
        if let Some(parent) = entry.strip_suffix("::") {
            assert!(entries.contains(&parent.to_string()), "{entry}");
        } else {
            let cut = entry.rfind("::").expect("a qualified entry");
            assert!(entries.contains(&entry[..cut + 2].to_string()), "{entry}");
        }
    }
}

#[test]
fn nothing_is_listed_under_sci() {
    let entries = collect_completion_entries();
    assert!(entries.contains(&"sci".to_string()));
    assert!(entries.contains(&"sci::".to_string()));
    assert!(entries
        .iter()
        .all(|entry| !entry.starts_with("sci::") || entry == "sci::"));
}

#[test]
fn one_shot_reports_the_compilers_diagnostic() {
    let engine = configure_engine(rhai::Engine::new());
    let expected = engine
        .compile("let x = ;")
        .expect_err("does not compile")
        .to_string();
    assert_eq!(run_script_with_collector("let x = ;"), vec![expected]);
}

#[test]
fn configure_indexed_outlines_what_it_registers() {
    let mut toggles = ToggleSet::none();
    toggles.rand = true;
    toggles.sci = true;
    let (engine, outlines) = configure_indexed(rhai::Engine::new(), &toggles);
    let listed: Vec<&str> = outlines.iter().map(|outline| outline.name.as_str()).collect();
    assert_eq!(listed, vec!["rand", "sci"]);
    assert!(outlines[1].symbols.is_empty());
    assert!(outlines.iter().all(|outline| outline.children.is_empty()));
    assert!(outlines[0].symbols.contains(&"rand_bool".to_string()));
    assert!(engine.eval::<bool>("let b = rand::rand_bool(); b || !b").expect("listed and registered"));
    let signatures = engine.gen_fn_signatures(false);
    for symbol in outlines[0].symbols.iter() {
        let qualified = format!("rand::{symbol}(");
        assert!(
            signatures.iter().any(|signature| signature.starts_with(&qualified)),
            "{qualified} is not registered"
        );
    }
    assert!(engine.eval::<i64>("fs::cwd()").is_err());
}

#[test]
fn session_entries_are_those_of_its_engine() {
    let mut session = SessionState::new();
    let first = session.completion_entries();
    let second = session.completion_entries();
    assert_eq!(first, second);
    assert_eq!(first, collect_completion_entries());
    submit(&mut session, "let x = 1;");
    assert_eq!(session.completion_entries(), first);
    session.update_selection(&names(&["ml", "sci"]));
    let after = session.completion_entries();
    assert_eq!(after, completion_entries(&session.toggles()));
    assert_eq!(
        after,
        vec!["ml", "ml::", "ml::predict", "ml::train", "sci", "sci::"]
            .into_iter()
            .map(|entry| entry.to_string())
            .collect::<Vec<String>>()
    );
}
