use metassr_api_handler::deployment::script_handle;
use metassr_api_handler::registry::FunctionRegistry;
use metassr_api_handler::types::{DeploymentStatus, Resource};

#[test]
fn a_handle_is_named_by_the_file_name() {
    let handle = script_handle(&"/srv/a/index.js".to_string(), Some("index.js".to_string()));
    assert_eq!(handle.name, "index.js");
    assert_eq!(handle.scope.name, "global");
    assert!(handle.scope.funcs.is_empty());
}

#[test]
fn a_handle_without_file_name_is_named_by_the_path() {
    let handle = script_handle(&"/srv/..".to_string(), None);
    assert_eq!(handle.name, "/srv/..");
    assert_eq!(handle.scope.name, "global");
}

#[test]
fn an_empty_registry_deploys_no_packages() {
    let registry = FunctionRegistry::new();
    let res = Resource { id: "r".to_string(), path: "/p".to_string(), jsons: vec![], runners: vec![] };
    let deployment = registry.build_deployment(&res, &None);
    assert_eq!(deployment.status, DeploymentStatus::Ready);
    assert_eq!(deployment.prefix, "localhost");
    assert_eq!(deployment.suffix, "r");
    assert_eq!(deployment.version, "v1");
    assert!(deployment.packages.is_empty());
    let deployment = registry.build_deployment(&res, &Some("pod-7".to_string()));
    assert_eq!(deployment.prefix, "pod-7");
}
