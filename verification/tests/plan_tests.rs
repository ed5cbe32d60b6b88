use metassr_api_handler::plan::{
    language_for_extension, load_from_json, load_from_jsons, load_scripts_from_dir,
    resolve_script_path, ListedEntry, ScriptRequest,
};
use metassr_api_handler::types::{LanguageId, MetaCallJSON};

fn group(language: LanguageId, path: &str, scripts: &[&str]) -> MetaCallJSON {
    MetaCallJSON {
        language_id: language,
        path: path.to_string(),
        scripts: scripts.iter().map(|s| s.to_string()).collect(),
    }
}

fn request(path: &str, language: LanguageId) -> ScriptRequest {
    ScriptRequest { path: path.to_string(), language }
}

fn entry(path: &str, is_file: bool) -> ListedEntry {
    ListedEntry { path: path.to_string(), is_file }
}

#[test]
fn relative_scripts_lie_under_the_group_directory() {
    let json = group(LanguageId::Node, "funcs", &["a.js", "lib/b.js"]);
    let plan = load_from_json(&"/srv/app".to_string(), &json);
    assert_eq!(
        plan,
        vec![
            request("/srv/app/funcs/a.js", LanguageId::Node),
            request("/srv/app/funcs/lib/b.js", LanguageId::Node),
        ]
    );
}

#[test]
fn absolute_scripts_are_taken_as_they_are() {
    let json = group(LanguageId::Py, "funcs", &["/opt/x.py", "y.py"]);
    let plan = load_from_json(&"/srv/app".to_string(), &json);
    assert_eq!(
        plan,
        vec![request("/opt/x.py", LanguageId::Py), request("/srv/app/funcs/y.py", LanguageId::Py)]
    );
}

#[test]
fn groups_are_planned_in_order() {
    let jsons = vec![
        group(LanguageId::Rb, "rb", &["one.rb"]),
        group(LanguageId::Ts, "ts", &["two.ts", "three.ts"]),
        group(LanguageId::Py, "py", &[]),
    ];
    let plan = load_from_jsons(&"base".to_string(), &jsons);
    assert_eq!(
        plan,
        vec![
            request("base/rb/one.rb", LanguageId::Rb),
            request("base/ts/two.ts", LanguageId::Ts),
            request("base/ts/three.ts", LanguageId::Ts),
        ]
    );
}

#[test]
fn no_groups_plan_nothing() {
    assert!(load_from_jsons(&"base".to_string(), &vec![]).is_empty());
}

#[test]
fn listing_keeps_script_files_in_order() {
    let entries = vec![
        entry("/d/index.js", true),
        entry("/d/README.md", true),
        entry("/d/sub.py", false),
        entry("/d/app.py", true),
        entry("/d/noext", true),
        entry("/d/.rb", true),
        entry("/d/lib.rb", true),
        entry("/d/types.ts", true),
        entry("/d/archive.tar.js", true),
    ];
    let plan = load_scripts_from_dir(&entries);
    assert_eq!(
        plan,
        vec![
            request("/d/index.js", LanguageId::Node),
            request("/d/app.py", LanguageId::Py),
            request("/d/lib.rb", LanguageId::Rb),
            request("/d/types.ts", LanguageId::Ts),
            request("/d/archive.tar.js", LanguageId::Node),
        ]
    );
}

#[test]
fn empty_listing_plans_nothing() {
    assert!(load_scripts_from_dir(&vec![]).is_empty());
}

#[test]
fn extensions_name_languages() {
    assert_eq!(language_for_extension(Some("js".to_string())), Some(LanguageId::Node));
    assert_eq!(language_for_extension(Some("py".to_string())), Some(LanguageId::Py));
    assert_eq!(language_for_extension(Some("rb".to_string())), Some(LanguageId::Rb));
    assert_eq!(language_for_extension(Some("ts".to_string())), Some(LanguageId::Ts));
    assert_eq!(language_for_extension(Some("JS".to_string())), None);
    assert_eq!(language_for_extension(Some("jsx".to_string())), None);
    assert_eq!(language_for_extension(Some("".to_string())), None);
    assert_eq!(language_for_extension(None), None);
}

#[test]
fn script_path_is_the_script_where_absolute() {
    let script = "/abs/s.js".to_string();
    assert_eq!(resolve_script_path(&script, true, "joined".to_string()), "/abs/s.js");
    assert_eq!(resolve_script_path(&script, false, "joined".to_string()), "joined");
}
