//! Loading a resource, one step at a time.
//!
//! Loading a resource asks two things of the world outside: the listing of the resource's
//! directory (only when it names no JSON groups), and the runtime's loading of each script
//! that is not loaded yet. The registry decides; the caller does what each step asks and
//! answers with a [`LoadEvent`]:
//!
//! ```text
//! let mut step = registry.handle_load(resource, hostname);
//! loop {
//!     step = match step {
//!         LoadStep::ListDirectory { session, directory } =>
//!             registry.resume_load(session, LoadEvent::Listed(list(directory))),
//!         LoadStep::LoadScript { session, script } =>
//!             registry.resume_load(session, LoadEvent::ScriptLoaded(load(script))),
//!         LoadStep::Finished(outcome) => break outcome,
//!     }
//! }
//! ```

use vstd::prelude::*;
use crate::types::{Deployment, LanguageId, Resource};
use crate::registry::{FunctionRegistry, RegistryView, lemma_grows_reflexive, lemma_loading_grows};
use crate::plan::{
    ListedEntry, ScriptRequest, jsons_plan, listing_plan, load_from_jsons, load_scripts_from_dir,
    requests,
};
use crate::deployment::{
    deployment_describes, lemma_description_determines_deployment, opt_text, same_deployment,
};

verus! {

/// Why loading a resource stopped short.
#[derive(Debug, Clone, PartialEq, Eq)]
pub enum LoadError {
    /// The resource's directory could not be read; holds the reason the system gave.
    DirectoryUnreadable(String),
    /// The runtime refused a script: its path, and the runtime's error as debug text.
    ScriptRejected { path: String, detail: String },
}

impl LoadError {
    /// The text that reports the error.
    pub open spec fn message_text(self) -> Seq<char> {
        match self {
            LoadError::DirectoryUnreadable(reason) => reason@,
            LoadError::ScriptRejected { path, detail } => "MetaCall failed to load '"@ + path@
                + "': "@ + detail@,
        }
    }

    /// The text that reports the error: the system's reason for an unreadable directory;
    /// `MetaCall failed to load '<path>': <detail>` for a refused script.
    pub fn message(&self) -> (text: String)
        ensures
            text@ == self.message_text(),
    {
        match self {
            LoadError::DirectoryUnreadable(reason) => reason.clone(),
            LoadError::ScriptRejected { path, detail } => {
                let mut text = "MetaCall failed to load '".to_string();
                text.append(path.as_str());
                text.append("': ");
                text.append(detail.as_str());
                text
            },
        }
    }
}

/// The answer to what a [`LoadStep`] asked for.
#[derive(Debug)]
pub enum LoadEvent {
    /// The listing of the directory, or the reason it could not be read.
    Listed(Result<Vec<ListedEntry>, String>),
    /// Whether the runtime loaded the script; on failure, its error as debug text.
    ScriptLoaded(Result<(), String>),
}

/// What loading a resource asks for next.
#[derive(Debug)]
pub enum LoadStep {
    /// List `directory`, then answer with [`LoadEvent::Listed`].
    ListDirectory { session: LoadSession, directory: String },
    /// Have the runtime load `script`, then answer with [`LoadEvent::ScriptLoaded`].
    LoadScript { session: LoadSession, script: ScriptRequest },
    /// Loading is over: the deployment of the resource, or why it stopped.
    Finished(Result<Deployment, LoadError>),
}

/// Where a load is: the resource, the scripts it asks for, and the one being waited for.
pub struct SessionView {
    pub resource_id: Seq<char>,
    pub directory: Seq<char>,
    pub hostname: Option<Seq<char>>,
    pub plan: Seq<(Seq<char>, LanguageId)>,
    pub next: int,
    pub awaiting_listing: bool,
}

/// A load under way: it waits either for the listing of the resource's directory, or for
/// the runtime to load the script at `next` of its plan.
#[derive(Debug)]
pub struct LoadSession {
    resource: Resource,
    hostname: Option<String>,
    plan: Vec<ScriptRequest>,
    next: usize,
    awaiting_listing: bool,
}

impl View for LoadSession {
    type V = SessionView;

    closed spec fn view(&self) -> SessionView {
        SessionView {
            resource_id: self.resource.id@,
            directory: self.resource.path@,
            hostname: opt_text(self.hostname),
            plan: requests(self.plan@),
            next: self.next as int,
            awaiting_listing: self.awaiting_listing,
        }
    }
}

impl LoadSession {
    #[verifier::type_invariant]
    closed spec fn waits_for_something(self) -> bool {
        if self.awaiting_listing {
            self.plan@.len() == 0 && self.next == 0
        } else {
            self.next < self.plan@.len()
        }
    }
}

/// The first position from `from` on whose script is not in `loaded`; the plan's length
/// where there is none.
pub open spec fn first_unloaded(
    plan: Seq<(Seq<char>, LanguageId)>,
    from: int,
    loaded: Set<Seq<char>>,
) -> int
    decreases plan.len() - from,
{
    if from >= plan.len() {
        plan.len() as int
    } else if loaded.contains(plan[from].0) {
        first_unloaded(plan, from + 1, loaded)
    } else {
        from
    }
}

/// `step` is what comes after the scripts of `plan` before `from` are dealt with: the runtime
/// is asked for the first script from `from` on that `registry` does not hold yet, or, where
/// there is none, loading is over with the deployment of what `registry` holds.
pub open spec fn continues_with(
    step: LoadStep,
    registry: RegistryView,
    resource_id: Seq<char>,
    directory: Seq<char>,
    hostname: Option<Seq<char>>,
    plan: Seq<(Seq<char>, LanguageId)>,
    from: int,
) -> bool {
    let k = first_unloaded(plan, from, registry.scripts);
    if k < plan.len() {
        &&& step matches LoadStep::LoadScript { session, script }
        &&& script@ == plan[k]
        &&& session@ == SessionView {
            resource_id,
            directory,
            hostname,
            plan,
            next: k,
            awaiting_listing: false,
        }
    } else {
        &&& step matches LoadStep::Finished(Ok(deployment))
        &&& deployment_describes(deployment, registry, resource_id, hostname)
    }
}

/// `step` asks again what `session` waits for.
pub open spec fn asks_again(step: LoadStep, session: SessionView) -> bool {
    if session.awaiting_listing {
        &&& step matches LoadStep::ListDirectory { session: s, directory }
        &&& s@ == session
        &&& directory@ == session.directory
    } else {
        &&& step matches LoadStep::LoadScript { session: s, script }
        &&& s@ == session
        &&& script@ == session.plan[session.next]
    }
}

/// The scripts of `plan` before `upto` are all in `registry`.
pub open spec fn holds_prefix(
    registry: RegistryView,
    plan: Seq<(Seq<char>, LanguageId)>,
    upto: int,
) -> bool {
    forall|i: int| 0 <= i < upto ==> registry.scripts.contains(#[trigger] plan[i].0)
}

/// What `registry` holds of `plan` once `step` is taken: a load that waits for a script holds
/// every script of its plan before that one; a load that is over with a deployment holds
/// every script of `plan`.
pub open spec fn keeps_plan(
    step: LoadStep,
    registry: RegistryView,
    plan: Seq<(Seq<char>, LanguageId)>,
) -> bool {
    match step {
        LoadStep::LoadScript { session, .. } => holds_prefix(
            registry,
            session@.plan,
            session@.next,
        ),
        LoadStep::Finished(Ok(_)) => holds_prefix(registry, plan, plan.len() as int),
        _ => true,
    }
}

/// The plan a session follows once `event` answers it: the listing's, where it waited for
/// one and the listing came; its own otherwise.
pub open spec fn plan_after(session: SessionView, event: LoadEvent) -> Seq<
    (Seq<char>, LanguageId),
> {
    match event {
        LoadEvent::Listed(Ok(entries)) => if session.awaiting_listing {
            listing_plan(entries@)
        } else {
            session.plan
        },
        _ => session.plan,
    }
}

/// The scripts from `from` up to the first one not loaded are all loaded, and that one is not.
pub proof fn lemma_first_unloaded(
    plan: Seq<(Seq<char>, LanguageId)>,
    from: int,
    loaded: Set<Seq<char>>,
)
    requires
        0 <= from <= plan.len(),
    ensures
        from <= first_unloaded(plan, from, loaded) <= plan.len(),
        forall|i: int| from <= i < first_unloaded(plan, from, loaded) ==> loaded.contains(plan[i].0),
        first_unloaded(plan, from, loaded) < plan.len() ==> !loaded.contains(
            plan[first_unloaded(plan, from, loaded)].0,
        ),
    decreases plan.len() - from,
{
    if from < plan.len() && loaded.contains(plan[from].0) {
        lemma_first_unloaded(plan, from + 1, loaded);
    }
}

fn copy_request(request: &ScriptRequest) -> (copy: ScriptRequest)
    ensures
        copy@ == request@,
{
    ScriptRequest { path: request.path.clone(), language: request.language }
}

impl FunctionRegistry {
    /// Deals with the scripts of `plan` from `from` on: skips those loaded already, and asks
    /// for the first one that is not; where none is left, gives the deployment.
    fn continue_load(
        &self,
        resource: Resource,
        hostname: Option<String>,
        plan: Vec<ScriptRequest>,
        from: usize,
    ) -> (step: LoadStep)
        requires
            from <= plan@.len(),
        ensures
            continues_with(
                step,
                self@,
                resource.id@,
                resource.path@,
                opt_text(hostname),
                requests(plan@),
                from as int,
            ),
    {
        let ghost target = first_unloaded(requests(plan@), from as int, self@.scripts);
        let mut k = from;
        while k < plan.len() && self.is_loaded(&plan[k].path)
            invariant
                from <= k <= plan@.len(),
                first_unloaded(requests(plan@), k as int, self@.scripts) == target,
            decreases plan@.len() - k,
        {
            k = k + 1;
        }
        if k < plan.len() {
            let script = copy_request(&plan[k]);
            let session = LoadSession { resource, hostname, plan, next: k, awaiting_listing: false };
            LoadStep::LoadScript { session, script }
        } else {
            let deployment = self.build_deployment(&resource, &hostname);
            LoadStep::Finished(Ok(deployment))
        }
    }

    /// Begins loading `resource` on host `hostname` (the value of `HOSTNAME`, where it is
    /// set). A resource with no JSON groups first asks for the listing of its directory;
    /// otherwise its groups' scripts are dealt with in order: those loaded already are
    /// skipped, the first that is not is asked for, and where none is left, the deployment is
    /// given. Nothing is loaded by this call.
    pub fn handle_load(&mut self, resource: Resource, hostname: Option<String>) -> (step: LoadStep)
        ensures
            final(self)@ == old(self)@,
            resource.jsons@.len() == 0 ==> {
                &&& step matches LoadStep::ListDirectory { session, directory }
                &&& directory@ == resource.path@
                &&& session@ == SessionView {
                    resource_id: resource.id@,
                    directory: resource.path@,
                    hostname: opt_text(hostname),
                    plan: Seq::empty(),
                    next: 0,
                    awaiting_listing: true,
                }
            },
            resource.jsons@.len() > 0 ==> continues_with(
                step,
                old(self)@,
                resource.id@,
                resource.path@,
                opt_text(hostname),
                jsons_plan(resource.path@, resource.jsons@),
                0,
            ),
            keeps_plan(step, final(self)@, jsons_plan(resource.path@, resource.jsons@)),
    {
        if resource.jsons.len() == 0 {
            let directory = resource.path.clone();
            let session = LoadSession {
                resource,
                hostname,
                plan: Vec::new(),
                next: 0,
                awaiting_listing: true,
            };
            proof {
                assert(requests(session.plan@) =~= Seq::empty());
            }
            LoadStep::ListDirectory { session, directory }
        } else {
            let plan = load_from_jsons(&resource.path, &resource.jsons);
            let ghost resource_id = resource.id@;
            let ghost directory = resource.path@;
            let ghost host = opt_text(hostname);
            let ghost planned = requests(plan@);
            let step = self.continue_load(resource, hostname, plan, 0);
            proof {
                lemma_continuing_keeps_plan(step, self@, resource_id, directory, host, planned, 0);
            }
            step
        }
    }

    /// Goes on with a load once what it waited for is answered.
    ///
    /// A listing gives the plan: each regular file whose extension names a language, in
    /// listing order; its scripts are then dealt with as `handle_load` deals with a group's.
    /// A directory that could not be read ends the load with that error. A script the runtime
    /// loaded is noted in the registry and the load goes on after it; a script it refused
    /// ends the load with that error, the registry keeping what was loaded before. An answer
    /// to something the session does not wait for changes nothing and asks again.
    pub fn resume_load(&mut self, session: LoadSession, event: LoadEvent) -> (step: LoadStep)
        ensures
            final(self)@.consistent(),
            old(self)@.grows_into(final(self)@),
            holds_prefix(old(self)@, session@.plan, session@.next) ==> keeps_plan(
                step,
                final(self)@,
                plan_after(session@, event),
            ),
            ({
                let s = session@;
                match event {
                    LoadEvent::Listed(listing) => if !s.awaiting_listing {
                        final(self)@ == old(self)@ && asks_again(step, s)
                    } else {
                        match listing {
                            Err(reason) => {
                                &&& final(self)@ == old(self)@
                                &&& step matches LoadStep::Finished(Err(e))
                                &&& e == LoadError::DirectoryUnreadable(reason)
                            },
                            Ok(entries) => {
                                &&& final(self)@ == old(self)@
                                &&& continues_with(
                                    step,
                                    old(self)@,
                                    s.resource_id,
                                    s.directory,
                                    s.hostname,
                                    listing_plan(entries@),
                                    0,
                                )
                            },
                        }
                    },
                    LoadEvent::ScriptLoaded(outcome) => if s.awaiting_listing {
                        final(self)@ == old(self)@ && asks_again(step, s)
                    } else {
                        match outcome {
                            Err(detail) => {
                                &&& final(self)@ == old(self)@
                                &&& step matches LoadStep::Finished(Err(e))
                                &&& e matches LoadError::ScriptRejected { path, detail: d }
                                &&& path@ == s.plan[s.next].0
                                &&& d == detail
                            },
                            Ok(()) => {
                                &&& final(self)@ == old(self)@.with_loaded(
                                    s.plan[s.next].0,
                                    s.plan[s.next].1,
                                )
                                &&& continues_with(
                                    step,
                                    final(self)@,
                                    s.resource_id,
                                    s.directory,
                                    s.hostname,
                                    s.plan,
                                    s.next + 1,
                                )
                            },
                        }
                    },
                }
            }),
    {
        proof {
            use_type_invariant(&session);
            use_type_invariant(&*self);
            self.lemma_consistent();
            lemma_grows_reflexive(self@);
        }
        let ghost s = session@;
        let ghost before = self@;
        let LoadSession { resource, hostname, plan, next, awaiting_listing } = session;
        match event {
            LoadEvent::Listed(listing) => {
                if !awaiting_listing {
                    let script = copy_request(&plan[next]);
                    let session = LoadSession {
                        resource,
                        hostname,
                        plan,
                        next,
                        awaiting_listing,
                    };
                    LoadStep::LoadScript { session, script }
                } else {
                    match listing {
                        Err(reason) => LoadStep::Finished(
                            Err(LoadError::DirectoryUnreadable(reason)),
                        ),
                        Ok(entries) => {
                            let plan = load_scripts_from_dir(&entries);
                            let ghost planned = requests(plan@);
                            let step = self.continue_load(resource, hostname, plan, 0);
                            proof {
                                lemma_continuing_keeps_plan(
                                    step,
                                    self@,
                                    s.resource_id,
                                    s.directory,
                                    s.hostname,
                                    planned,
                                    0,
                                );
                            }
                            step
                        },
                    }
                }
            },
            LoadEvent::ScriptLoaded(outcome) => {
                if awaiting_listing {
                    let directory = resource.path.clone();
                    let session = LoadSession {
                        resource,
                        hostname,
                        plan,
                        next,
                        awaiting_listing,
                    };
                    LoadStep::ListDirectory { session, directory }
                } else {
                    match outcome {
                        Err(detail) => {
                            let path = plan[next].path.clone();
                            LoadStep::Finished(Err(LoadError::ScriptRejected { path, detail }))
                        },
                        Ok(()) => {
                            let total = plan.len();
                            assert(next < total);
                            self.record_loaded(plan[next].path.clone(), plan[next].language);
                            proof {
                                lemma_loading_grows(before, s.plan[s.next].0, s.plan[s.next].1);
                            }
                            let step = self.continue_load(resource, hostname, plan, next + 1);
                            proof {
                                if holds_prefix(before, s.plan, s.next) {
                                    assert(holds_prefix(self@, s.plan, s.next + 1)) by {
                                        assert(before.scripts.subset_of(self@.scripts));
                                    }
                                    lemma_continuing_keeps_plan(
                                        step,
                                        self@,
                                        s.resource_id,
                                        s.directory,
                                        s.hostname,
                                        s.plan,
                                        s.next + 1,
                                    );
                                }
                            }
                            step
                        },
                    }
                }
            },
        }
    }
}

/// The runtime is never asked for a script the registry holds already.
pub proof fn lemma_never_asks_for_loaded(
    step: LoadStep,
    registry: RegistryView,
    resource_id: Seq<char>,
    directory: Seq<char>,
    hostname: Option<Seq<char>>,
    plan: Seq<(Seq<char>, LanguageId)>,
    from: int,
)
    requires
        0 <= from <= plan.len(),
        continues_with(step, registry, resource_id, directory, hostname, plan, from),
    ensures
        step matches LoadStep::LoadScript { script, .. } ==> !registry.scripts.contains(script@.0),
{
    lemma_first_unloaded(plan, from, registry.scripts);
}

/// Dealing with a plan keeps it: a load that held the scripts of its plan before `from` holds,
/// when it next waits for a script, every one before that script, and when it is over, every
/// script of the plan.
pub proof fn lemma_continuing_keeps_plan(
    step: LoadStep,
    registry: RegistryView,
    resource_id: Seq<char>,
    directory: Seq<char>,
    hostname: Option<Seq<char>>,
    plan: Seq<(Seq<char>, LanguageId)>,
    from: int,
)
    requires
        0 <= from <= plan.len(),
        holds_prefix(registry, plan, from),
        continues_with(step, registry, resource_id, directory, hostname, plan, from),
    ensures
        keeps_plan(step, registry, plan),
{
    lemma_first_unloaded(plan, from, registry.scripts);
}

/// Loading a resource whose scripts are all loaded already asks the runtime for nothing: the
/// deployment comes at once, and it reports the same as any earlier deployment of the same
/// registry, resource and host.
pub proof fn lemma_loaded_plan_finishes_at_once(
    earlier: Deployment,
    step: LoadStep,
    registry: RegistryView,
    resource_id: Seq<char>,
    directory: Seq<char>,
    hostname: Option<Seq<char>>,
    plan: Seq<(Seq<char>, LanguageId)>,
)
    requires
        holds_prefix(registry, plan, plan.len() as int),
        continues_with(step, registry, resource_id, directory, hostname, plan, 0),
    ensures
        step matches LoadStep::Finished(Ok(deployment)) && deployment_describes(
            deployment,
            registry,
            resource_id,
            hostname,
        ) && (deployment_describes(earlier, registry, resource_id, hostname) ==> same_deployment(
            deployment,
            earlier,
        )),
{
    lemma_first_unloaded(plan, 0, registry.scripts);
    if let LoadStep::Finished(Ok(deployment)) = step {
        if deployment_describes(earlier, registry, resource_id, hostname) {
            lemma_description_determines_deployment(
                deployment,
                earlier,
                registry,
                resource_id,
                hostname,
            );
        }
    }
}

} // verus!
