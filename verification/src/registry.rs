//! The registry of scripts handed to the runtime: which scripts are loaded, under which
//! language, in the order they were loaded.

use vstd::prelude::*;
use crate::types::LanguageId;

verus! {

/// What a registry holds: the set of loaded scripts, and for each language that has any,
/// its scripts in the order they were loaded.
pub struct RegistryView {
    pub scripts: Set<Seq<char>>,
    pub by_language: Map<LanguageId, Seq<Seq<char>>>,
}

impl RegistryView {
    /// The scripts loaded under `language`, empty where there are none.
    pub open spec fn scripts_under(self, language: LanguageId) -> Seq<Seq<char>> {
        if self.by_language.dom().contains(language) {
            self.by_language[language]
        } else {
            Seq::empty()
        }
    }

    /// The registry's own bookkeeping agrees with itself: each loaded script is listed once,
    /// under exactly one language, and a language is listed only with scripts.
    pub open spec fn consistent(self) -> bool {
        &&& self.scripts.finite()
        &&& forall|l: LanguageId| #[trigger]
            self.by_language.dom().contains(l) ==> self.by_language[l].len() > 0
        &&& forall|l: LanguageId| #[trigger] self.scripts_under(l).no_duplicates()
        &&& forall|l: LanguageId, s: Seq<char>| #[trigger]
            self.scripts_under(l).contains(s) ==> self.scripts.contains(s)
        &&& forall|s: Seq<char>| #[trigger]
            self.scripts.contains(s) ==> exists|l: LanguageId| #[trigger]
                self.scripts_under(l).contains(s)
        &&& forall|l1: LanguageId, l2: LanguageId, s: Seq<char>|
            l1 != l2 && #[trigger] self.scripts_under(l1).contains(s) ==> !#[trigger]
                self.scripts_under(l2).contains(s)
    }

    /// The registry after the runtime has loaded `script` as a script of `language`:
    /// a script already loaded is left as it was.
    pub open spec fn with_loaded(self, script: Seq<char>, language: LanguageId) -> RegistryView {
        if self.scripts.contains(script) {
            self
        } else {
            RegistryView {
                scripts: self.scripts.insert(script),
                by_language: self.by_language.insert(
                    language,
                    self.scripts_under(language).push(script),
                ),
            }
        }
    }

    /// Everything `self` holds, `later` holds too, in the same order.
    pub open spec fn grows_into(self, later: RegistryView) -> bool {
        &&& self.scripts.subset_of(later.scripts)
        &&& forall|l: LanguageId| #[trigger]
            self.scripts_under(l).is_prefix_of(later.scripts_under(l))
    }
}

/// The text of each string of a sequence.
pub open spec fn texts(strings: Seq<String>) -> Seq<Seq<char>> {
    strings.map_values(|s: String| s@)
}

/// The scripts of each language, in load order.
struct LanguageLists {
    node: Vec<String>,
    py: Vec<String>,
    rb: Vec<String>,
    ts: Vec<String>,
}

impl LanguageLists {
    spec fn list(&self, language: LanguageId) -> Seq<Seq<char>> {
        match language {
            LanguageId::Node => texts(self.node@),
            LanguageId::Py => texts(self.py@),
            LanguageId::Rb => texts(self.rb@),
            LanguageId::Ts => texts(self.ts@),
        }
    }

    fn get(&self, language: LanguageId) -> (scripts: &Vec<String>)
        ensures
            texts(scripts@) == self.list(language),
    {
        match language {
            LanguageId::Node => &self.node,
            LanguageId::Py => &self.py,
            LanguageId::Rb => &self.rb,
            LanguageId::Ts => &self.ts,
        }
    }

    fn push(&mut self, language: LanguageId, script: String)
        ensures
            final(self).list(language) == old(self).list(language).push(script@),
            forall|l: LanguageId| l != language ==> final(self).list(l) == old(self).list(l),
    {
        let ghost before = self.list(language);
        match language {
            LanguageId::Node => self.node.push(script),
            LanguageId::Py => self.py.push(script),
            LanguageId::Rb => self.rb.push(script),
            LanguageId::Ts => self.ts.push(script),
        }
        assert(self.list(language) =~= before.push(script@));
    }
}

/// `all` lists each loaded script once, each of them is listed under exactly one language,
/// and each language lists only loaded scripts, each once.
spec fn bookkeeping_agrees(all: Seq<Seq<char>>, lists: LanguageLists) -> bool {
    &&& all.no_duplicates()
    &&& forall|l: LanguageId| #[trigger] lists.list(l).no_duplicates()
    &&& forall|l: LanguageId, s: Seq<char>| #[trigger] lists.list(l).contains(s) ==> all.contains(s)
    &&& forall|s: Seq<char>| #[trigger]
        all.contains(s) ==> exists|l: LanguageId| #[trigger] lists.list(l).contains(s)
    &&& forall|l1: LanguageId, l2: LanguageId, s: Seq<char>|
        l1 != l2 && #[trigger] lists.list(l1).contains(s) ==> !#[trigger] lists.list(l2).contains(s)
}

/// The scripts loaded into the runtime, grouped by language.
pub struct FunctionRegistry {
    loaded_scripts: Vec<String>,
    loaded_by_language: LanguageLists,
}

impl View for FunctionRegistry {
    type V = RegistryView;

    closed spec fn view(&self) -> RegistryView {
        RegistryView {
            scripts: texts(self.loaded_scripts@).to_set(),
            by_language: Map::new(
                |l: LanguageId| self.loaded_by_language.list(l).len() > 0,
                |l: LanguageId| self.loaded_by_language.list(l),
            ),
        }
    }
}

impl FunctionRegistry {
    #[verifier::type_invariant]
    pub(crate) closed spec fn well_formed(self) -> bool {
        bookkeeping_agrees(texts(self.loaded_scripts@), self.loaded_by_language)
    }

    proof fn lemma_view_consistent(&self)
        requires
            self.well_formed(),
        ensures
            self@.consistent(),
            forall|l: LanguageId| #[trigger]
                self@.scripts_under(l) == self.loaded_by_language.list(l),
    {
        let all = texts(self.loaded_scripts@);
        assert forall|l: LanguageId| #[trigger]
            self@.scripts_under(l) == self.loaded_by_language.list(l) by {
            if self.loaded_by_language.list(l).len() == 0 {
                assert(self.loaded_by_language.list(l) =~= Seq::<Seq<char>>::empty());
            }
        }
        assert forall|s: Seq<char>| #[trigger] self@.scripts.contains(s) implies exists|
            l: LanguageId,
        | #[trigger] self@.scripts_under(l).contains(s) by {
            assert(all.contains(s));
            let l = choose|l: LanguageId| #[trigger] self.loaded_by_language.list(l).contains(s);
            assert(self@.scripts_under(l).contains(s));
        }
    }

    /// A registry that keeps its type invariant agrees with itself.
    pub(crate) proof fn lemma_consistent(&self)
        requires
            self.well_formed(),
        ensures
            self@.consistent(),
    {
        self.lemma_view_consistent();
    }

    /// An empty registry.
    pub fn new() -> (registry: Self)
        ensures
            registry@.scripts == Set::<Seq<char>>::empty(),
            registry@.by_language == Map::<LanguageId, Seq<Seq<char>>>::empty(),
            registry@.consistent(),
    {
        let registry = FunctionRegistry {
            loaded_scripts: Vec::new(),
            loaded_by_language: LanguageLists {
                node: Vec::new(),
                py: Vec::new(),
                rb: Vec::new(),
                ts: Vec::new(),
            },
        };
        proof {
            assert(texts(registry.loaded_scripts@) =~= Seq::empty());
            assert forall|l: LanguageId| #[trigger]
                registry.loaded_by_language.list(l) =~= Seq::<Seq<char>>::empty() by {}
            assert(registry@.scripts =~= Set::<Seq<char>>::empty());
            assert(registry@.by_language =~= Map::<LanguageId, Seq<Seq<char>>>::empty());
            registry.lemma_view_consistent();
        }
        registry
    }

    /// The scripts loaded under `language`, in load order.
    pub(crate) fn scripts_of(&self, language: LanguageId) -> (scripts: &Vec<String>)
        ensures
            texts(scripts@) == self@.scripts_under(language),
            self@.consistent(),
    {
        proof {
            use_type_invariant(self);
            self.lemma_view_consistent();
        }
        self.loaded_by_language.get(language)
    }

    /// Whether `script` has been loaded already.
    pub fn is_loaded(&self, script: &String) -> (loaded: bool)
        ensures
            loaded == self@.scripts.contains(script@),
    {
        let ghost all = texts(self.loaded_scripts@);
        let mut i: usize = 0;
        while i < self.loaded_scripts.len()
            invariant
                i <= self.loaded_scripts.len(),
                all == texts(self.loaded_scripts@),
                forall|j: int| 0 <= j < i ==> all[j] != script@,
            decreases self.loaded_scripts.len() - i,
        {
            if self.loaded_scripts[i] == *script {
                assert(all[i as int] == script@);
                assert(all.contains(script@));
                return true;
            }
            i = i + 1;
        }
        proof {
            if all.contains(script@) {
                let j = choose|j: int| 0 <= j < all.len() && all[j] == script@;
                assert(all[j] != script@);
            }
        }
        false
    }

    /// Notes that the runtime has loaded `script` as a script of `language`. A script that is
    /// loaded already stays where it is.
    pub(crate) fn record_loaded(&mut self, script: String, language: LanguageId)
        ensures
            final(self)@ == old(self)@.with_loaded(script@, language),
            final(self)@.consistent(),
            final(self)@.scripts == old(self)@.scripts.insert(script@),
            !old(self)@.scripts.contains(script@) ==> final(self)@.scripts_under(language)
                == old(self)@.scripts_under(language).push(script@),
            forall|other: LanguageId|
                other != language ==> #[trigger] final(self)@.scripts_under(other) == old(
                    self,
                )@.scripts_under(other),
    {
        proof {
            use_type_invariant(&*self);
            self.lemma_view_consistent();
        }
        if self.is_loaded(&script) {
            return ;
        }
        let ghost before = self@;
        let mut taken = FunctionRegistry::new();
        std::mem::swap(self, &mut taken);
        proof {
            use_type_invariant(&taken);
        }
        let ghost old_all = texts(taken.loaded_scripts@);
        let ghost old_lists = taken.loaded_by_language;
        let FunctionRegistry { mut loaded_scripts, mut loaded_by_language } = taken;
        loaded_scripts.push(script.clone());
        loaded_by_language.push(language, script);
        let ghost all = texts(loaded_scripts@);
        proof {
            assert(all =~= old_all.push(script@));
            assert(!old_all.contains(script@));
            assert forall|s: Seq<char>| #[trigger] all.contains(s) implies exists|l: LanguageId|
                #[trigger] loaded_by_language.list(l).contains(s) by {
                if s == script@ {
                    assert(loaded_by_language.list(language).last() == s);
                    assert(loaded_by_language.list(language).contains(s));
                } else {
                    let k = choose|k: int| 0 <= k < all.len() && all[k] == s;
                    assert(old_all[k] == s);
                    assert(old_all.contains(s));
                    let l = choose|l: LanguageId| #[trigger] old_lists.list(l).contains(s);
                    let m = choose|m: int| 0 <= m < old_lists.list(l).len() && old_lists.list(l)[m] == s;
                    assert(loaded_by_language.list(l)[m] == s);
                    assert(loaded_by_language.list(l).contains(s));
                }
            }
            assert forall|l: LanguageId, s: Seq<char>| #[trigger]
                loaded_by_language.list(l).contains(s) implies all.contains(s) by {
                let m = choose|m: int| 0 <= m < loaded_by_language.list(l).len() && loaded_by_language.list(l)[m] == s;
                if s != script@ {
                    assert(old_lists.list(l)[m] == s);
                    assert(old_lists.list(l).contains(s));
                    let k = choose|k: int| 0 <= k < old_all.len() && old_all[k] == s;
                    assert(all[k] == s);
                } else {
                    assert(all[old_all.len() as int] == s);
                }
            }
            assert forall|l1: LanguageId, l2: LanguageId, s: Seq<char>|
                l1 != l2 && #[trigger] loaded_by_language.list(l1).contains(s) implies !#[trigger]
                loaded_by_language.list(l2).contains(s) by {
                if loaded_by_language.list(l2).contains(s) {
                    let m1 = choose|m: int| 0 <= m < loaded_by_language.list(l1).len() && loaded_by_language.list(l1)[m] == s;
                    let m2 = choose|m: int| 0 <= m < loaded_by_language.list(l2).len() && loaded_by_language.list(l2)[m] == s;
                    if s == script@ {
                        if l1 == language {
                            assert(old_lists.list(l2)[m2] == s);
                            assert(old_lists.list(l2).contains(s));
                        } else {
                            assert(old_lists.list(l1)[m1] == s);
                            assert(old_lists.list(l1).contains(s));
                        }
                    } else {
                        assert(old_lists.list(l1)[m1] == s);
                        assert(old_lists.list(l2)[m2] == s);
                        assert(old_lists.list(l1).contains(s));
                        assert(old_lists.list(l2).contains(s));
                    }
                }
            }
            assert forall|l: LanguageId| #[trigger] loaded_by_language.list(l).no_duplicates() by {
                if l == language {
                    assert forall|i: int, j: int|
                        0 <= i < loaded_by_language.list(l).len() && 0 <= j < loaded_by_language.list(l).len() && i != j
                        implies loaded_by_language.list(l)[i] != loaded_by_language.list(l)[j] by {
                        let n = old_lists.list(l).len() as int;
                        if i == n {
                            assert(old_lists.list(l)[j] == loaded_by_language.list(l)[j]);
                            assert(old_lists.list(l).contains(old_lists.list(l)[j]));
                            assert(old_all.contains(old_lists.list(l)[j]));
                        } else if j == n {
                            assert(old_lists.list(l)[i] == loaded_by_language.list(l)[i]);
                            assert(old_lists.list(l).contains(old_lists.list(l)[i]));
                            assert(old_all.contains(old_lists.list(l)[i]));
                        } else {
                            assert(old_lists.list(l)[i] == loaded_by_language.list(l)[i]);
                            assert(old_lists.list(l)[j] == loaded_by_language.list(l)[j]);
                            assert(old_lists.list(l).no_duplicates());
                        }
                    }
                }
            }
        }
        proof {
            assert forall|i: int, j: int| 0 <= i < all.len() && 0 <= j < all.len() && i != j
                implies all[i] != all[j] by {
                let n = old_all.len() as int;
                if i == n {
                    assert(old_all.contains(all[j]));
                } else if j == n {
                    assert(old_all.contains(all[i]));
                } else {
                    assert(old_all[i] == all[i] && old_all[j] == all[j]);
                }
            }
            assert(all.no_duplicates());
            assert forall|x: Seq<char>| #[trigger] all.to_set().contains(x)
                == old_all.to_set().insert(script@).contains(x) by {
                if all.contains(x) && x != script@ {
                    let k = choose|k: int| 0 <= k < all.len() && all[k] == x;
                    assert(old_all[k] == x);
                }
                if old_all.contains(x) {
                    let k = choose|k: int| 0 <= k < old_all.len() && old_all[k] == x;
                    assert(all[k] == x);
                }
                if x == script@ {
                    assert(all[old_all.len() as int] == x);
                }
            }
            assert(all.to_set() =~= old_all.to_set().insert(script@));
        }
        assert(bookkeeping_agrees(all, loaded_by_language));
        *self = FunctionRegistry { loaded_scripts, loaded_by_language };
        proof {
            use_type_invariant(&*self);
            self.lemma_view_consistent();
            assert(self@.scripts =~= before.scripts.insert(script@));
            assert forall|l: LanguageId| #[trigger] self@.by_language.dom().contains(l) == before.with_loaded(script@, language).by_language.dom().contains(l) by {
                if l != language {
                    assert(old_lists.list(l) == self.loaded_by_language.list(l));
                }
            }
            assert(self@.by_language =~= before.with_loaded(script@, language).by_language);
        }
    }
}

/// A registry grows into itself.
pub proof fn lemma_grows_reflexive(registry: RegistryView)
    ensures
        registry.grows_into(registry),
{
    assert forall|l: LanguageId| #[trigger]
        registry.scripts_under(l).is_prefix_of(registry.scripts_under(l)) by {
        assert(registry.scripts_under(l) =~= registry.scripts_under(l).subrange(
            0,
            registry.scripts_under(l).len() as int,
        ));
    }
}

/// Loading a script only ever adds: what the registry held stays, in the same order.
pub proof fn lemma_loading_grows(registry: RegistryView, script: Seq<char>, language: LanguageId)
    ensures
        registry.grows_into(registry.with_loaded(script, language)),
{
    let after = registry.with_loaded(script, language);
    assert forall|l: LanguageId| #[trigger]
        registry.scripts_under(l).is_prefix_of(after.scripts_under(l)) by {
        assert(registry.scripts_under(l) =~= after.scripts_under(l).subrange(
            0,
            registry.scripts_under(l).len() as int,
        ));
    }
}

/// Loading a script keeps the registry's bookkeeping in agreement with itself.
pub proof fn lemma_loading_keeps_consistency(
    registry: RegistryView,
    script: Seq<char>,
    language: LanguageId,
)
    requires
        registry.consistent(),
    ensures
        registry.with_loaded(script, language).consistent(),
{
    let after = registry.with_loaded(script, language);
    if !registry.scripts.contains(script) {
        assert forall|l: LanguageId| #[trigger]
            after.scripts_under(l) == if l == language {
                registry.scripts_under(l).push(script)
            } else {
                registry.scripts_under(l)
            } by {}
        assert forall|l: LanguageId| #[trigger] after.scripts_under(l).no_duplicates() by {
            if l == language {
                let old_list = registry.scripts_under(l);
                assert forall|i: int, j: int|
                    0 <= i < after.scripts_under(l).len() && 0 <= j < after.scripts_under(l).len()
                        && i != j implies after.scripts_under(l)[i] != after.scripts_under(l)[j] by {
                    let n = old_list.len() as int;
                    assert(after.scripts_under(l) == old_list.push(script));
                    if i == n {
                        assert(after.scripts_under(l)[j] == old_list[j]);
                        assert(old_list.contains(old_list[j]));
                        assert(registry.scripts.contains(old_list[j]));
                    } else if j == n {
                        assert(after.scripts_under(l)[i] == old_list[i]);
                        assert(old_list.contains(old_list[i]));
                        assert(registry.scripts.contains(old_list[i]));
                    } else {
                        assert(after.scripts_under(l)[i] == old_list[i]);
                        assert(after.scripts_under(l)[j] == old_list[j]);
                        assert(old_list.no_duplicates());
                    }
                }
            }
        }
        assert forall|l: LanguageId, s: Seq<char>| #[trigger]
            after.scripts_under(l).contains(s) implies after.scripts.contains(s) by {
            if s != script {
                let k = choose|k: int| 0 <= k < after.scripts_under(l).len() && after.scripts_under(l)[k] == s;
                assert(registry.scripts_under(l)[k] == s);
                assert(registry.scripts_under(l).contains(s));
            }
        }
        assert forall|s: Seq<char>| #[trigger] after.scripts.contains(s) implies exists|l: LanguageId|
            #[trigger] after.scripts_under(l).contains(s) by {
            if s == script {
                assert(after.scripts_under(language).last() == s);
                assert(after.scripts_under(language).contains(s));
            } else {
                let l = choose|l: LanguageId| #[trigger] registry.scripts_under(l).contains(s);
                let k = choose|k: int| 0 <= k < registry.scripts_under(l).len() && registry.scripts_under(l)[k] == s;
                assert(after.scripts_under(l)[k] == s);
                assert(after.scripts_under(l).contains(s));
            }
        }
        assert forall|l1: LanguageId, l2: LanguageId, s: Seq<char>|
            l1 != l2 && #[trigger] after.scripts_under(l1).contains(s) implies !#[trigger]
            after.scripts_under(l2).contains(s) by {
            if after.scripts_under(l2).contains(s) {
                let k1 = choose|k: int| 0 <= k < after.scripts_under(l1).len() && after.scripts_under(l1)[k] == s;
                let k2 = choose|k: int| 0 <= k < after.scripts_under(l2).len() && after.scripts_under(l2)[k] == s;
                if s == script {
                    if l1 == language {
                        assert(registry.scripts_under(l2)[k2] == s);
                        assert(registry.scripts_under(l2).contains(s));
                    } else {
                        assert(registry.scripts_under(l1)[k1] == s);
                        assert(registry.scripts_under(l1).contains(s));
                    }
                } else {
                    assert(registry.scripts_under(l1)[k1] == s);
                    assert(registry.scripts_under(l2)[k2] == s);
                    assert(registry.scripts_under(l1).contains(s));
                    assert(registry.scripts_under(l2).contains(s));
                }
            }
        }
        assert forall|l: LanguageId| #[trigger]
            after.by_language.dom().contains(l) implies after.by_language[l].len() > 0 by {
            assert(after.scripts_under(l) == after.by_language[l]);
        }
    }
}

/// Loading a script that is loaded already changes nothing, whatever language it is given.
pub proof fn lemma_loading_twice(
    registry: RegistryView,
    script: Seq<char>,
    first: LanguageId,
    second: LanguageId,
)
    ensures
        registry.with_loaded(script, first).with_loaded(script, second) == registry.with_loaded(
            script,
            first,
        ),
{
}

/// Loading a new script adds it to the loaded set and lists it last under the language it was
/// loaded as; every other language keeps its list as it was.
pub proof fn lemma_loading_lists_under_its_language(
    registry: RegistryView,
    script: Seq<char>,
    language: LanguageId,
)
    requires
        !registry.scripts.contains(script),
    ensures
        registry.with_loaded(script, language).scripts == registry.scripts.insert(script),
        registry.with_loaded(script, language).scripts_under(language) == registry.scripts_under(
            language,
        ).push(script),
        forall|other: LanguageId|
            other != language ==> #[trigger] registry.with_loaded(script, language).scripts_under(
                other,
            ) == registry.scripts_under(other),
{
}

} // verus!
