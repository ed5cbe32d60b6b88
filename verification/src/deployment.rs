//! The deployment description of a loaded resource: one handle per loaded script, grouped by
//! language, under the name of the host that runs them.

use vstd::prelude::*;
use crate::types::{Deployment, DeploymentStatus, Handle, LanguageId, Resource, Scope};
use crate::registry::{FunctionRegistry, RegistryView, texts};
use crate::paths::{file_name_of, path_file_name};

verus! {

/// The name a handle gives a script: its file name, or the whole path where it has none.
pub open spec fn handle_name(script: Seq<char>) -> Seq<char> {
    match path_file_name(script) {
        Some(n) => n,
        None => script,
    }
}

/// `handle` reports `script`: under its file name, in the global scope, listing no functions.
pub open spec fn handle_describes(handle: Handle, script: Seq<char>) -> bool {
    &&& handle.name@ == handle_name(script)
    &&& handle.scope.name@ == "global"@
    &&& handle.scope.funcs@.len() == 0
}

/// `handles` report `scripts`, one for one, in order.
pub open spec fn handles_describe(handles: Seq<Handle>, scripts: Seq<Seq<char>>) -> bool {
    &&& handles.len() == scripts.len()
    &&& forall|i: int| 0 <= i < handles.len() ==> handle_describes(#[trigger] handles[i], scripts[i])
}

/// The place of a language in the order in which a deployment lists them: Node, Python,
/// Ruby, TypeScript.
pub open spec fn language_rank(language: LanguageId) -> int {
    match language {
        LanguageId::Node => 0,
        LanguageId::Py => 1,
        LanguageId::Rb => 2,
        LanguageId::Ts => 3,
    }
}

/// The language of a rank.
pub open spec fn language_of_rank(rank: int) -> LanguageId {
    if rank <= 0 {
        LanguageId::Node
    } else if rank == 1 {
        LanguageId::Py
    } else if rank == 2 {
        LanguageId::Rb
    } else {
        LanguageId::Ts
    }
}

/// The languages of rank below `bound` that have loaded scripts, in rank order.
pub open spec fn loaded_languages_below(registry: RegistryView, bound: int) -> Seq<LanguageId>
    decreases bound,
{
    if bound <= 0 {
        Seq::empty()
    } else {
        let rest = loaded_languages_below(registry, bound - 1);
        let l = language_of_rank(bound - 1);
        if registry.by_language.dom().contains(l) {
            rest.push(l)
        } else {
            rest
        }
    }
}

/// The languages that have loaded scripts, in rank order.
pub open spec fn loaded_languages(registry: RegistryView) -> Seq<LanguageId> {
    loaded_languages_below(registry, 4)
}

/// The language of each package, in order.
pub open spec fn package_languages(packages: Seq<(LanguageId, Vec<Handle>)>) -> Seq<LanguageId> {
    packages.map_values(|p: (LanguageId, Vec<Handle>)| p.0)
}

/// `packages` map each language that has loaded scripts, and only those, to handles for its
/// scripts; no language occurs twice, and they come in rank order.
pub open spec fn packages_describe(
    packages: Seq<(LanguageId, Vec<Handle>)>,
    registry: RegistryView,
) -> bool {
    &&& forall|i: int, j: int|
        0 <= i < j < packages.len() ==> (#[trigger] packages[i]).0 != (#[trigger] packages[j]).0
    &&& forall|i: int|
        0 <= i < packages.len() ==> registry.by_language.dom().contains((#[trigger] packages[i]).0)
            && handles_describe(packages[i].1@, registry.by_language[packages[i].0])
    &&& forall|l: LanguageId| #[trigger]
        registry.by_language.dom().contains(l) ==> exists|i: int|
            0 <= i < packages.len() && (#[trigger] packages[i]).0 == l
    &&& package_languages(packages) == loaded_languages(registry)
}

/// Two handles report the same: same name, same scope name, same functions.
pub open spec fn same_handle(a: Handle, b: Handle) -> bool {
    &&& a.name@ == b.name@
    &&& a.scope.name@ == b.scope.name@
    &&& a.scope.funcs@ == b.scope.funcs@
}

/// Two deployments report the same: same status, names and version, and the same languages
/// in the same order, each with handles that report the same.
pub open spec fn same_deployment(a: Deployment, b: Deployment) -> bool {
    &&& a.status == b.status
    &&& a.prefix@ == b.prefix@
    &&& a.suffix@ == b.suffix@
    &&& a.version@ == b.version@
    &&& a.packages@.len() == b.packages@.len()
    &&& forall|i: int|
        0 <= i < a.packages@.len() ==> {
            &&& (#[trigger] a.packages@[i]).0 == b.packages@[i].0
            &&& a.packages@[i].1@.len() == b.packages@[i].1@.len()
            &&& forall|j: int|
                0 <= j < a.packages@[i].1@.len() ==> same_handle(
                    #[trigger] a.packages@[i].1@[j],
                    b.packages@[i].1@[j],
                )
        }
}

/// A deployment is determined by what it describes: two deployments of the same registry,
/// resource and host report the same.
pub proof fn lemma_description_determines_deployment(
    a: Deployment,
    b: Deployment,
    registry: RegistryView,
    resource_id: Seq<char>,
    hostname: Option<Seq<char>>,
)
    requires
        deployment_describes(a, registry, resource_id, hostname),
        deployment_describes(b, registry, resource_id, hostname),
    ensures
        same_deployment(a, b),
{
    let pa = a.packages@;
    let pb = b.packages@;
    assert(package_languages(pa).len() == package_languages(pb).len());
    assert forall|i: int| 0 <= i < pa.len() implies {
        &&& (#[trigger] pa[i]).0 == pb[i].0
        &&& pa[i].1@.len() == pb[i].1@.len()
        &&& forall|j: int|
            0 <= j < pa[i].1@.len() ==> same_handle(#[trigger] pa[i].1@[j], pb[i].1@[j])
    } by {
        assert(package_languages(pa)[i] == pa[i].0);
        assert(package_languages(pb)[i] == pb[i].0);
        let scripts = registry.by_language[pa[i].0];
        assert forall|j: int| 0 <= j < pa[i].1@.len() implies same_handle(
            #[trigger] pa[i].1@[j],
            pb[i].1@[j],
        ) by {
            assert(handle_describes(pa[i].1@[j], scripts[j]));
            assert(handle_describes(pb[i].1@[j], scripts[j]));
            assert(pa[i].1@[j].scope.funcs@ =~= pb[i].1@[j].scope.funcs@);
        }
    }
}

/// The host name a deployment is prefixed with: the one given, else `localhost`.
pub open spec fn deployment_prefix(hostname: Option<Seq<char>>) -> Seq<char> {
    match hostname {
        Some(h) => h,
        None => "localhost"@,
    }
}

/// The text of an optional string.
pub open spec fn opt_text(s: Option<String>) -> Option<Seq<char>> {
    match s {
        Some(t) => Some(t@),
        None => None,
    }
}

/// `deployment` describes the scripts of `registry` as a ready deployment of resource
/// `resource_id` on host `hostname` (the value of `HOSTNAME`, where it is set).
pub open spec fn deployment_describes(
    deployment: Deployment,
    registry: RegistryView,
    resource_id: Seq<char>,
    hostname: Option<Seq<char>>,
) -> bool {
    &&& deployment.status == DeploymentStatus::Ready
    &&& deployment.prefix@ == deployment_prefix(hostname)
    &&& deployment.suffix@ == resource_id
    &&& deployment.version@ == "v1"@
    &&& packages_describe(deployment.packages@, registry)
}

/// The handle reporting the script at `script_path`, given what its file name is: named by
/// the file name, or by the whole path where there is none; in the global scope, listing no
/// functions.
pub fn script_handle(script_path: &String, file_name: Option<String>) -> (handle: Handle)
    ensures
        handle.name@ == match file_name {
            Some(n) => n@,
            None => script_path@,
        },
        handle.scope.name@ == "global"@,
        handle.scope.funcs@.len() == 0,
{
    let name = match file_name {
        Some(n) => n,
        None => script_path.clone(),
    };
    Handle { name, scope: Scope { name: "global".to_string(), funcs: Vec::new() } }
}

/// Handles for `scripts`, one for one, in order.
fn handles_for(scripts: &Vec<String>) -> (handles: Vec<Handle>)
    ensures
        handles_describe(handles@, texts(scripts@)),
{
    let mut handles: Vec<Handle> = Vec::new();
    let mut i: usize = 0;
    while i < scripts.len()
        invariant
            i <= scripts@.len(),
            handles@.len() == i,
            forall|j: int| 0 <= j < i ==> handle_describes(#[trigger] handles@[j], texts(scripts@)[j]),
        decreases scripts@.len() - i,
    {
        let path = &scripts[i];
        let handle = script_handle(path, file_name_of(path.as_str()));
        handles.push(handle);
        i = i + 1;
    }
    handles
}

/// `packages` list, in order, the languages of rank below `bound` that have loaded scripts,
/// each with handles for its scripts.
spec fn packages_below(
    packages: Seq<(LanguageId, Vec<Handle>)>,
    registry: RegistryView,
    bound: int,
) -> bool {
    &&& forall|i: int, j: int|
        0 <= i < j < packages.len() ==> language_rank((#[trigger] packages[i]).0) < language_rank(
            (#[trigger] packages[j]).0,
        )
    &&& forall|i: int| 0 <= i < packages.len() ==> language_rank((#[trigger] packages[i]).0) < bound
    &&& forall|i: int|
        0 <= i < packages.len() ==> registry.by_language.dom().contains((#[trigger] packages[i]).0)
            && handles_describe(packages[i].1@, registry.by_language[packages[i].0])
    &&& forall|l: LanguageId| #[trigger]
        registry.by_language.dom().contains(l) && language_rank(l) < bound ==> exists|i: int|
            0 <= i < packages.len() && (#[trigger] packages[i]).0 == l
    &&& package_languages(packages) == loaded_languages_below(registry, bound)
}

/// Adding the package of the language of rank `bound` keeps the packages in order.
proof fn lemma_package_added(
    before: Seq<(LanguageId, Vec<Handle>)>,
    after: Seq<(LanguageId, Vec<Handle>)>,
    registry: RegistryView,
    language: LanguageId,
)
    requires
        packages_below(before, registry, language_rank(language)),
        registry.by_language.dom().contains(language) ==> {
            &&& after.len() == before.len() + 1
            &&& after.drop_last() == before
            &&& after.last().0 == language
            &&& handles_describe(after.last().1@, registry.by_language[language])
        },
        !registry.by_language.dom().contains(language) ==> after == before,
    ensures
        packages_below(after, registry, language_rank(language) + 1),
        language_rank(language) == 3 ==> packages_describe(after, registry),
{
    assert(language_of_rank(language_rank(language)) == language);
    if registry.by_language.dom().contains(language) {
        assert(package_languages(after) =~= package_languages(before).push(language));
        assert forall|i: int| 0 <= i < before.len() implies #[trigger] after[i] == before[i] by {
            assert(after.drop_last()[i] == after[i]);
        }
        assert forall|l: LanguageId| #[trigger]
            registry.by_language.dom().contains(l) && language_rank(l) < language_rank(language) + 1 implies exists|
            i: int,
        | 0 <= i < after.len() && (#[trigger] after[i]).0 == l by {
            if l == language {
                assert(after[after.len() - 1].0 == l);
            } else {
                let i = choose|i: int| 0 <= i < before.len() && (#[trigger] before[i]).0 == l;
                assert(after[i].0 == l);
            }
        }
        assert forall|i: int, j: int|
            0 <= i < j < after.len() implies language_rank((#[trigger] after[i]).0) < language_rank(
            (#[trigger] after[j]).0,
        ) by {
            if j == after.len() - 1 {
                assert(after[i] == before[i]);
            } else {
                assert(after[i] == before[i]);
                assert(after[j] == before[j]);
            }
        }
        assert forall|i: int| 0 <= i < after.len() implies registry.by_language.dom().contains(
            (#[trigger] after[i]).0,
        ) && handles_describe(after[i].1@, registry.by_language[after[i].0]) by {
            if i < before.len() {
                assert(after[i] == before[i]);
            }
        }
    }
    if language_rank(language) == 3 {
        let p = after;
        assert forall|i: int, j: int| 0 <= i < j < p.len() implies (#[trigger] p[i]).0 != (
        #[trigger] p[j]).0 by {
            assert(language_rank(p[i].0) < language_rank(p[j].0));
        }
        assert forall|l: LanguageId| #[trigger] registry.by_language.dom().contains(l) implies exists|
            i: int,
        | 0 <= i < p.len() && (#[trigger] p[i]).0 == l by {
            assert(language_rank(l) < 4);
        }
    }
}

impl FunctionRegistry {
    /// Adds to `packages` the handles of the scripts of `language`, where it has any.
    fn add_package(&self, packages: &mut Vec<(LanguageId, Vec<Handle>)>, language: LanguageId)
        ensures
            self@.by_language.dom().contains(language) ==> {
                &&& final(packages)@.len() == old(packages)@.len() + 1
                &&& final(packages)@.drop_last() == old(packages)@
                &&& final(packages)@.last().0 == language
                &&& handles_describe(
                    final(packages)@.last().1@,
                    self@.by_language[language],
                )
            },
            !self@.by_language.dom().contains(language) ==> final(packages)@ == old(packages)@,
    {
        let scripts = self.scripts_of(language);
        if scripts.len() > 0 {
            let handles = handles_for(scripts);
            packages.push((language, handles));
            assert(final(packages)@.drop_last() =~= old(packages)@);
        }
    }

    /// The deployment of resource `resource` as loaded so far, on host `hostname` (the
    /// value of `HOSTNAME`, where it is set): ready, version `v1`, with a handle for each
    /// loaded script, grouped by language.
    pub fn build_deployment(&self, resource: &Resource, hostname: &Option<String>) -> (deployment:
        Deployment)
        ensures
            deployment_describes(deployment, self@, resource.id@, opt_text(*hostname)),
    {
        let mut packages: Vec<(LanguageId, Vec<Handle>)> = Vec::new();
        self.add_package(&mut packages, LanguageId::Node);
        let ghost p1 = packages@;
        self.add_package(&mut packages, LanguageId::Py);
        let ghost p2 = packages@;
        self.add_package(&mut packages, LanguageId::Rb);
        let ghost p3 = packages@;
        self.add_package(&mut packages, LanguageId::Ts);
        let prefix = match hostname {
            Some(h) => h.clone(),
            None => "localhost".to_string(),
        };
        proof {
            assert(package_languages(Seq::empty()) =~= loaded_languages_below(self@, 0));
            lemma_package_added(Seq::empty(), p1, self@, LanguageId::Node);
            lemma_package_added(p1, p2, self@, LanguageId::Py);
            lemma_package_added(p2, p3, self@, LanguageId::Rb);
            lemma_package_added(p3, packages@, self@, LanguageId::Ts);
            reveal_strlit("localhost");
        }
        Deployment {
            status: DeploymentStatus::Ready,
            prefix,
            suffix: resource.id.clone(),
            version: "v1".to_string(),
            packages,
        }
    }
}

} // verus!
