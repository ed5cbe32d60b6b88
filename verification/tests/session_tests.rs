use metassr_api_handler::plan::{ListedEntry, ScriptRequest};
use metassr_api_handler::registry::FunctionRegistry;
use metassr_api_handler::session::{LoadError, LoadEvent, LoadSession, LoadStep};
use metassr_api_handler::types::{Deployment, DeploymentStatus, LanguageId, MetaCallJSON, Resource};

fn resource(id: &str, path: &str, jsons: Vec<MetaCallJSON>) -> Resource {
    Resource { id: id.to_string(), path: path.to_string(), jsons, runners: vec![] }
}

fn group(language: LanguageId, path: &str, scripts: &[&str]) -> MetaCallJSON {
    MetaCallJSON {
        language_id: language,
        path: path.to_string(),
        scripts: scripts.iter().map(|s| s.to_string()).collect(),
    }
}

fn expect_script(step: LoadStep) -> (LoadSession, ScriptRequest) {
    match step {
        LoadStep::LoadScript { session, script } => (session, script),
        other => panic!("expected a script to load, got {:?}", other),
    }
}

fn expect_listing(step: LoadStep) -> (LoadSession, String) {
    match step {
        LoadStep::ListDirectory { session, directory } => (session, directory),
        other => panic!("expected a listing request, got {:?}", other),
    }
}

fn expect_finished(step: LoadStep) -> Result<Deployment, LoadError> {
    match step {
        LoadStep::Finished(outcome) => outcome,
        other => panic!("expected the load to be over, got {:?}", other),
    }
}

/// Answers every request the way a runtime that loads everything would; returns the scripts
/// asked for and the outcome.
fn drive(
    registry: &mut FunctionRegistry,
    mut step: LoadStep,
    listing: Vec<ListedEntry>,
) -> (Vec<ScriptRequest>, Result<Deployment, LoadError>) {
    let mut asked = vec![];
    loop {
        step = match step {
            LoadStep::ListDirectory { session, .. } => {
                registry.resume_load(session, LoadEvent::Listed(Ok(listing.clone())))
            }
            LoadStep::LoadScript { session, script } => {
                asked.push(script);
                registry.resume_load(session, LoadEvent::ScriptLoaded(Ok(())))
            }
            LoadStep::Finished(outcome) => return (asked, outcome),
        }
    }
}

#[test]
fn a_resource_with_groups_loads_each_script_in_order() {
    let mut registry = FunctionRegistry::new();
    let res = resource(
        "shop",
        "/srv/shop",
        vec![group(LanguageId::Node, "js", &["cart.js", "pay.js"]), group(LanguageId::Py, "py", &["tax.py"])],
    );
    let step = registry.handle_load(res, Some("worker-1".to_string()));
    let (asked, outcome) = drive(&mut registry, step, vec![]);
    let paths: Vec<String> = asked.iter().map(|r| r.path.clone()).collect();
    assert_eq!(paths, vec!["/srv/shop/js/cart.js", "/srv/shop/js/pay.js", "/srv/shop/py/tax.py"]);
    let deployment = outcome.unwrap();
    assert_eq!(deployment.status, DeploymentStatus::Ready);
    assert_eq!(deployment.prefix, "worker-1");
    assert_eq!(deployment.suffix, "shop");
    assert_eq!(deployment.version, "v1");
    assert_eq!(deployment.packages.len(), 2);
    let node = deployment.packages.iter().find(|p| p.0 == LanguageId::Node).unwrap();
    let names: Vec<&str> = node.1.iter().map(|h| h.name.as_str()).collect();
    assert_eq!(names, vec!["cart.js", "pay.js"]);
    assert!(node.1.iter().all(|h| h.scope.name == "global" && h.scope.funcs.is_empty()));
    let py = deployment.packages.iter().find(|p| p.0 == LanguageId::Py).unwrap();
    assert_eq!(py.1.len(), 1);
    assert_eq!(py.1[0].name, "tax.py");
    assert!(registry.is_loaded(&"/srv/shop/py/tax.py".to_string()));
}

#[test]
fn a_script_named_twice_is_loaded_once() {
    let mut registry = FunctionRegistry::new();
    let res = resource(
        "dup",
        "/r",
        vec![group(LanguageId::Node, "a", &["x.js", "x.js"]), group(LanguageId::Ts, "a", &["x.js"])],
    );
    let step = registry.handle_load(res, None);
    let (asked, outcome) = drive(&mut registry, step, vec![]);
    assert_eq!(asked, vec![ScriptRequest { path: "/r/a/x.js".to_string(), language: LanguageId::Node }]);
    let deployment = outcome.unwrap();
    assert_eq!(deployment.prefix, "localhost");
    assert_eq!(deployment.packages.len(), 1);
    assert_eq!(deployment.packages[0].0, LanguageId::Node);
    assert_eq!(deployment.packages[0].1.len(), 1);
}

#[test]
fn loading_again_asks_for_nothing() {
    let mut registry = FunctionRegistry::new();
    let make = || resource("again", "/r", vec![group(LanguageId::Rb, "rb", &["a.rb", "b.rb"])]);
    let step = registry.handle_load(make(), None);
    let (first, first_outcome) = drive(&mut registry, step, vec![]);
    assert_eq!(first.len(), 2);
    let step = registry.handle_load(make(), None);
    let outcome = expect_finished(step);
    assert_eq!(outcome, first_outcome);
}

#[test]
fn a_resource_without_groups_asks_for_its_directory() {
    let mut registry = FunctionRegistry::new();
    let step = registry.handle_load(resource("dir", "/srv/dir", vec![]), None);
    let (session, directory) = expect_listing(step);
    assert_eq!(directory, "/srv/dir");
    let listing = vec![
        ListedEntry { path: "/srv/dir/main.py".to_string(), is_file: true },
        ListedEntry { path: "/srv/dir/notes.txt".to_string(), is_file: true },
        ListedEntry { path: "/srv/dir/pkg.ts".to_string(), is_file: false },
    ];
    let step = registry.resume_load(session, LoadEvent::Listed(Ok(listing)));
    let (session, script) = expect_script(step);
    assert_eq!(script, ScriptRequest { path: "/srv/dir/main.py".to_string(), language: LanguageId::Py });
    let step = registry.resume_load(session, LoadEvent::ScriptLoaded(Ok(())));
    let deployment = expect_finished(step).unwrap();
    assert_eq!(deployment.packages.len(), 1);
    assert_eq!(deployment.packages[0].0, LanguageId::Py);
    assert_eq!(deployment.packages[0].1[0].name, "main.py");
}

#[test]
fn an_empty_directory_gives_an_empty_deployment() {
    let mut registry = FunctionRegistry::new();
    let step = registry.handle_load(resource("empty", "/e", vec![]), Some("h".to_string()));
    let (asked, outcome) = drive(&mut registry, step, vec![]);
    assert!(asked.is_empty());
    let deployment = outcome.unwrap();
    assert!(deployment.packages.is_empty());
    assert_eq!(deployment.prefix, "h");
    assert_eq!(deployment.suffix, "empty");
}

#[test]
fn an_unreadable_directory_ends_the_load() {
    let mut registry = FunctionRegistry::new();
    let step = registry.handle_load(resource("gone", "/nope", vec![]), None);
    let (session, _) = expect_listing(step);
    let reason = "No such file or directory (os error 2)".to_string();
    let step = registry.resume_load(session, LoadEvent::Listed(Err(reason.clone())));
    let error = expect_finished(step).unwrap_err();
    assert_eq!(error, LoadError::DirectoryUnreadable(reason.clone()));
    assert_eq!(error.message(), reason);
}

#[test]
fn a_refused_script_ends_the_load_and_keeps_earlier_loads() {
    let mut registry = FunctionRegistry::new();
    let res = resource("bad", "/b", vec![group(LanguageId::Node, "", &["ok.js", "broken.js", "never.js"])]);
    let step = registry.handle_load(res, None);
    let (session, first) = expect_script(step);
    assert_eq!(first.path, "/b/ok.js");
    let step = registry.resume_load(session, LoadEvent::ScriptLoaded(Ok(())));
    let (session, second) = expect_script(step);
    assert_eq!(second.path, "/b/broken.js");
    let step = registry.resume_load(session, LoadEvent::ScriptLoaded(Err("FromFileFailure".to_string())));
    let error = expect_finished(step).unwrap_err();
    assert_eq!(
        error,
        LoadError::ScriptRejected { path: "/b/broken.js".to_string(), detail: "FromFileFailure".to_string() }
    );
    assert_eq!(error.message(), "MetaCall failed to load '/b/broken.js': FromFileFailure");
    assert!(registry.is_loaded(&"/b/ok.js".to_string()));
    assert!(!registry.is_loaded(&"/b/broken.js".to_string()));
    assert!(!registry.is_loaded(&"/b/never.js".to_string()));
}

#[test]
fn an_answer_not_asked_for_changes_nothing() {
    let mut registry = FunctionRegistry::new();
    let step = registry.handle_load(resource("d", "/d", vec![]), None);
    let (session, _) = expect_listing(step);
    let step = registry.resume_load(session, LoadEvent::ScriptLoaded(Ok(())));
    let (session, directory) = expect_listing(step);
    assert_eq!(directory, "/d");
    let listing = vec![ListedEntry { path: "/d/a.js".to_string(), is_file: true }];
    let step = registry.resume_load(session, LoadEvent::Listed(Ok(listing.clone())));
    let (session, script) = expect_script(step);
    let step = registry.resume_load(session, LoadEvent::Listed(Ok(listing)));
    let (_, again) = expect_script(step);
    assert_eq!(again, script);
    assert!(!registry.is_loaded(&"/d/a.js".to_string()));
}

#[test]
fn a_new_registry_holds_nothing() {
    let registry = FunctionRegistry::new();
    assert!(!registry.is_loaded(&"/any.js".to_string()));
    assert!(!registry.is_loaded(&"".to_string()));
}

#[test]
fn a_finished_load_holds_every_planned_script() {
    let mut registry = FunctionRegistry::new();
    let res = resource(
        "all",
        "/w",
        vec![group(LanguageId::Ts, "t", &["a.ts", "b.ts"]), group(LanguageId::Rb, "r", &["c.rb"])],
    );
    let step = registry.handle_load(res, None);
    let (_, outcome) = drive(&mut registry, step, vec![]);
    assert!(outcome.is_ok());
    for path in ["/w/t/a.ts", "/w/t/b.ts", "/w/r/c.rb"] {
        assert!(registry.is_loaded(&path.to_string()));
    }
    let deployment = outcome.unwrap();
    let languages: Vec<LanguageId> = deployment.packages.iter().map(|p| p.0).collect();
    assert_eq!(languages, vec![LanguageId::Rb, LanguageId::Ts]);
}
