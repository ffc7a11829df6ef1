use germinate::{Action, Event, ParseError, Resolution, Seed, Source};
use std::cell::Cell;
use std::collections::HashMap;
use std::rc::Rc;

/// Loaders for driving sessions without any outside service.
enum TestLoader {
    /// Reads a fake environment.
    Env(HashMap<String, String>),
    /// Returns one value for every key.
    Fixed(String),
    /// Returns `prefix + key` and counts its calls.
    Counted(Rc<Cell<u32>>, String),
    /// Always fails with this cause.
    Failing(String),
}

impl TestLoader {
    fn with_value(value: &str) -> Self {
        TestLoader::Fixed(value.to_string())
    }

    fn load(&self, key: &str) -> Result<String, String> {
        match self {
            TestLoader::Env(vars) => vars.get(key).cloned().ok_or_else(|| format!("{} is not set", key)),
            TestLoader::Fixed(v) => Ok(v.clone()),
            TestLoader::Counted(calls, prefix) => {
                calls.set(calls.get() + 1);
                Ok(format!("{}{}", prefix, key))
            }
            TestLoader::Failing(cause) => Err(cause.clone()),
        }
    }
}

/// What a driver did during one session.
#[derive(Default)]
struct Log {
    constructs: Vec<String>,
    loads: Vec<(String, String)>,
}

fn env(pairs: &[(&str, &str)]) -> HashMap<String, String> {
    pairs.iter().map(|(k, v)| (k.to_string(), v.to_string())).collect()
}

/// Performs the actions of a session until it is done or fails. The default loader of the
/// environment source reads `vars`; other built-in sources cannot be built here.
fn run(
    seed: &mut Seed<'_, TestLoader>,
    vars: &HashMap<String, String>,
    log: &mut Log,
) -> Result<(Resolution, String), ParseError> {
    let (mut res, mut action) = seed.begin();
    loop {
        action = match action {
            Action::Construct(source) => {
                log.constructs.push(source.tag());
                let event = match source {
                    Source::Environment => Event::Constructed(TestLoader::Env(vars.clone())),
                    _ => Event::Failed("no such service here".to_string()),
                };
                seed.step(&mut res, event)
            }
            Action::Load { source, key } => {
                log.loads.push((source.tag(), key.clone()));
                let loader = seed.get_loader(&source).ok().flatten().expect("a load names a registered source");
                let event = match loader.load(&key) {
                    Ok(v) => Event::Loaded(v),
                    Err(cause) => Event::Failed(cause),
                };
                seed.step(&mut res, event)
            }
            Action::Done => {
                let out = seed.render(&res);
                return Ok((res, out));
            }
            Action::Fail(e) => return Err(e),
        }
    }
}

fn germinate(seed: &mut Seed<'_, TestLoader>, vars: &HashMap<String, String>) -> Result<String, ParseError> {
    run(seed, vars, &mut Log::default()).map(|(_, out)| out)
}

#[test]
fn test_germinate_basic() {
    let vars = env(&[("TEST_VAR", "Test")]);

    let mut seed = Seed::new("Test %env:TEST_VAR% Test");
    let output = germinate(&mut seed, &vars).unwrap();

    assert_eq!(String::from("Test Test Test"), output);
}

#[test]
fn test_geminate_with_custom_loader() {
    let mut seed = Seed::new("Test %custom:test% Test");
    seed.add_custom_loader("custom".into(), TestLoader::with_value("Test".into()));
    let output = germinate(&mut seed, &HashMap::new()).unwrap();

    assert_eq!(String::from("Test Test Test"), output);
}

#[test]
fn template_without_placeholders_is_unchanged() {
    let template = "plain text, 100% sure: no tags:here %";
    let mut seed: Seed<TestLoader> = Seed::new(template);
    let (res, action) = seed.begin();
    assert!(matches!(action, Action::Done));
    assert!(res.is_done());
    assert!(res.replacements().is_empty());
    let mut log = Log::default();
    let (_, out) = run(&mut seed, &HashMap::new(), &mut log).unwrap();
    assert_eq!(template, out);
    assert!(log.loads.is_empty());
    assert!(log.constructs.is_empty());
}

#[test]
fn empty_template_is_unchanged() {
    let mut seed: Seed<TestLoader> = Seed::new("");
    assert_eq!("", germinate(&mut seed, &HashMap::new()).unwrap());
}

#[test]
fn repeated_placeholder_is_loaded_once() {
    let calls = Rc::new(Cell::new(0));
    let mut seed = Seed::new("%c:k% and %c:k%, again %c:k%!");
    seed.add_custom_loader("c".into(), TestLoader::Counted(calls.clone(), "v-".into()));
    let mut log = Log::default();
    let (res, out) = run(&mut seed, &HashMap::new(), &mut log).unwrap();
    assert_eq!(1, calls.get());
    assert_eq!(vec![("c".to_string(), "k".to_string())], log.loads);
    assert_eq!(&vec![("%c:k%".to_string(), "v-k".to_string())], res.replacements());
    assert_eq!("v-k and v-k, again v-k!", out);
}

#[test]
fn placeholders_differing_by_key_or_tag_resolve_separately() {
    let calls = Rc::new(Cell::new(0));
    let mut seed = Seed::new("%a:x% %a:y% %b:x% %a:x%");
    seed.add_custom_loader("a".into(), TestLoader::Counted(calls.clone(), "A".into()));
    seed.add_custom_loader("b".into(), TestLoader::Fixed("B".into()));
    let mut log = Log::default();
    let (_, out) = run(&mut seed, &HashMap::new(), &mut log).unwrap();
    assert_eq!(2, calls.get());
    assert_eq!(
        vec![
            ("a".to_string(), "x".to_string()),
            ("a".to_string(), "y".to_string()),
            ("b".to_string(), "x".to_string()),
        ],
        log.loads
    );
    assert_eq!("Ax Ay B Ax", out);
}

#[test]
fn keys_are_case_sensitive() {
    let vars = env(&[("NAME", "upper"), ("Name", "mixed")]);
    let mut seed = Seed::new("%env:NAME% %env:Name%");
    assert_eq!("upper mixed", germinate(&mut seed, &vars).unwrap());
}

#[test]
fn unregistered_custom_source_fails_then_succeeds_once_registered() {
    let template = "Hello %who:name%";
    let mut seed: Seed<TestLoader> = Seed::new(template);
    match germinate(&mut seed, &HashMap::new()) {
        Err(ParseError::UnsupportedSource { tag }) => assert_eq!("who", tag),
        other => panic!("expected an unsupported source, got {:?}", other.map(|_| ())),
    }

    let mut seed = Seed::new(template);
    seed.add_custom_loader("who".into(), TestLoader::with_value("world"));
    assert_eq!("Hello world", germinate(&mut seed, &HashMap::new()).unwrap());
}

#[test]
fn failure_stops_before_later_placeholders() {
    let calls = Rc::new(Cell::new(0));
    let mut seed = Seed::new("%c:1% %nobody:x% %c:2%");
    seed.add_custom_loader("c".into(), TestLoader::Counted(calls.clone(), "".into()));
    let mut log = Log::default();
    let err = run(&mut seed, &HashMap::new(), &mut log).map(|_| ()).unwrap_err();
    assert!(matches!(err, ParseError::UnsupportedSource { ref tag } if tag == "nobody"));
    assert_eq!(1, calls.get());
}

#[test]
fn builtin_loader_is_built_once_per_session() {
    let vars = env(&[("A", "1"), ("B", "2"), ("C", "3")]);
    let mut seed = Seed::new("%env:A%-%env:B%-%env:C%-%env:A%");
    let mut log = Log::default();
    let (_, out) = run(&mut seed, &vars, &mut log).unwrap();
    assert_eq!("1-2-3-1", out);
    assert_eq!(vec!["env".to_string()], log.constructs);
    assert_eq!(3, log.loads.len());

    // A second parse in the same session reuses the loader built by the first.
    let mut again = Log::default();
    let (_, out) = run(&mut seed, &vars, &mut again).unwrap();
    assert_eq!("1-2-3-1", out);
    assert!(again.constructs.is_empty());
}

#[test]
fn registered_loader_overrides_builtin_default() {
    let mut seed = Seed::new("%env:HOME%");
    seed.register(Source::Environment, TestLoader::with_value("/fake/home"));
    let mut log = Log::default();
    let (_, out) = run(&mut seed, &HashMap::new(), &mut log).unwrap();
    assert_eq!("/fake/home", out);
    assert!(log.constructs.is_empty());
}

#[test]
fn later_registration_replaces_earlier() {
    let mut seed = Seed::new("%x:k%");
    seed.add_custom_loader("x".into(), TestLoader::with_value("first"));
    seed.add_custom_loader("x".into(), TestLoader::with_value("second"));
    assert_eq!("second", germinate(&mut seed, &HashMap::new()).unwrap());
}

#[test]
fn environment_scenario() {
    let vars = env(&[("X", "test1"), ("Y", "test2")]);
    let mut seed = Seed::new("var 1: %env:X%, var 1: %env:X%, var 2: %env:Y%");
    assert_eq!(
        "var 1: test1, var 1: test1, var 2: test2",
        germinate(&mut seed, &vars).unwrap()
    );
}

#[test]
fn custom_loader_scenario() {
    let mut seed = Seed::new("Hi %name:anything%");
    seed.add_custom_loader("name".into(), TestLoader::with_value("John"));
    assert_eq!("Hi John", germinate(&mut seed, &HashMap::new()).unwrap());
}

#[test]
fn unknown_source_scenario() {
    let mut seed: Seed<TestLoader> = Seed::new("%unknown:x%");
    let err = germinate(&mut seed, &HashMap::new()).unwrap_err();
    assert!(matches!(err, ParseError::UnsupportedSource { ref tag } if tag == "unknown"));
    assert_eq!(
        "Unsupported value source: unknown. If you're using a custom source, make sure you added the loader before parsing",
        err.message()
    );
}

#[test]
fn construction_failure_is_reported_with_source() {
    let mut seed: Seed<TestLoader> = Seed::new("id: %awsec2metadata:instance-id%");
    let err = germinate(&mut seed, &HashMap::new()).unwrap_err();
    match &err {
        ParseError::Construct { source, cause } => {
            assert!(matches!(source, Source::AwsEc2Metadata));
            assert_eq!("no such service here", cause);
        }
        other => panic!("unexpected error {:?}", other),
    }
    assert_eq!(
        "Failed to create the loader for source awsec2metadata: no such service here",
        err.message()
    );
}

#[test]
fn load_failure_is_reported_with_key_and_source() {
    let mut seed = Seed::new("%env:MISSING%");
    let err = germinate(&mut seed, &HashMap::new()).unwrap_err();
    match &err {
        ParseError::Load { key, source, cause } => {
            assert_eq!("MISSING", key);
            assert!(matches!(source, Source::Environment));
            assert_eq!("MISSING is not set", cause);
        }
        other => panic!("unexpected error {:?}", other),
    }
    assert_eq!(
        "Failed to load value 'MISSING' from source env: MISSING is not set",
        err.message()
    );

    let mut seed = Seed::new("%bad:key%");
    seed.add_custom_loader("bad".into(), TestLoader::Failing("boom".into()));
    let err = germinate(&mut seed, &HashMap::new()).unwrap_err();
    assert_eq!("Failed to load value 'key' from source bad: boom", err.message());
}

#[test]
fn unanswered_request_is_repeated() {
    let mut seed = Seed::new("%env:A%");
    let (mut res, action) = seed.begin();
    assert!(matches!(action, Action::Construct(Source::Environment)));
    // A value does not answer a construction request.
    let action = seed.step(&mut res, Event::Loaded("stray".into()));
    assert!(matches!(action, Action::Construct(Source::Environment)));
    let action = seed.step(&mut res, Event::Constructed(TestLoader::with_value("a")));
    match action {
        Action::Load { source, key } => {
            assert!(matches!(source, Source::Environment));
            assert_eq!("A", key);
        }
        other => panic!("unexpected action {:?}", other),
    }
    // A built loader does not answer a load request.
    let action = seed.step(&mut res, Event::Constructed(TestLoader::with_value("b")));
    assert!(matches!(action, Action::Load { .. }));
    let action = seed.step(&mut res, Event::Loaded("value".into()));
    assert!(matches!(action, Action::Done));
    // A finished resolution stays finished.
    let action = seed.step(&mut res, Event::Failed("late".into()));
    assert!(matches!(action, Action::Done));
    assert_eq!("value", seed.render(&res));
}

#[test]
fn failed_resolution_stays_failed() {
    let mut seed: Seed<TestLoader> = Seed::new("%nope:x%");
    let (mut res, action) = seed.begin();
    assert!(matches!(action, Action::Fail(ParseError::UnsupportedSource { .. })));
    let action = seed.step(&mut res, Event::Loaded("v".into()));
    assert!(matches!(action, Action::Fail(ParseError::UnsupportedSource { .. })));
    assert!(!res.is_done());
}

#[test]
fn loader_lookup_by_source() {
    let mut seed = Seed::new("");
    assert!(matches!(
        seed.get_loader(&Source::Custom("a".into())),
        Err(ParseError::UnsupportedSource { ref tag }) if tag == "a"
    ));
    seed.add_custom_loader("a".into(), TestLoader::with_value("va"));
    assert!(matches!(seed.get_loader(&Source::Custom("a".into())), Ok(Some(TestLoader::Fixed(v))) if v == "va"));
    assert!(matches!(seed.get_loader(&Source::Custom("b".into())), Err(ParseError::UnsupportedSource { .. })));
    assert!(matches!(seed.get_loader(&Source::Environment), Ok(None)));
    seed.register(Source::Environment, TestLoader::with_value("e"));
    assert!(matches!(seed.get_loader(&Source::Environment), Ok(Some(_))));
    assert_eq!("", seed.template());
}
