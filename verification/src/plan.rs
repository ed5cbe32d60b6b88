//! Which scripts a resource asks the runtime to load, and in which order: those its JSON
//! groups name, or, when it has none, the script files found in its directory.

use vstd::prelude::*;
use crate::types::{LanguageId, MetaCallJSON};
use crate::paths::{extension_of, is_absolute_path, join_path, path_extension, path_is_absolute, path_join};

verus! {

/// One script to hand to the runtime, with the language it is written in.
#[derive(Debug, Clone, PartialEq, Eq)]
pub struct ScriptRequest {
    pub path: String,
    pub language: LanguageId,
}

impl View for ScriptRequest {
    type V = (Seq<char>, LanguageId);

    open spec fn view(&self) -> (Seq<char>, LanguageId) {
        (self.path@, self.language)
    }
}

/// The view of each request of a sequence.
pub open spec fn requests(reqs: Seq<ScriptRequest>) -> Seq<(Seq<char>, LanguageId)> {
    reqs.map_values(|r: ScriptRequest| r@)
}

/// One entry of a directory listing: its path, and whether it is a regular file.
#[derive(Debug, Clone, PartialEq, Eq)]
pub struct ListedEntry {
    pub path: String,
    pub is_file: bool,
}

/// The path under which a script named in a JSON group is loaded: the script itself where it
/// is absolute, else the script under the group's directory under the resource's base path.
pub open spec fn script_path(base: Seq<char>, dir: Seq<char>, script: Seq<char>) -> Seq<char> {
    if path_is_absolute(script) {
        script
    } else {
        path_join(path_join(base, dir), script)
    }
}

/// The scripts one JSON group asks for, in the order it names them.
pub open spec fn json_plan(base: Seq<char>, json: MetaCallJSON) -> Seq<(Seq<char>, LanguageId)> {
    Seq::new(
        json.scripts@.len(),
        |i: int| (script_path(base, json.path@, json.scripts@[i]@), json.language_id),
    )
}

/// The scripts a sequence of JSON groups asks for: group after group.
pub open spec fn jsons_plan(base: Seq<char>, jsons: Seq<MetaCallJSON>) -> Seq<
    (Seq<char>, LanguageId),
>
    decreases jsons.len(),
{
    if jsons.len() == 0 {
        Seq::empty()
    } else {
        jsons_plan(base, jsons.drop_last()) + json_plan(base, jsons.last())
    }
}

/// The language of a script file by its extension; no extension counts as the empty one.
pub open spec fn language_of_extension(ext: Option<Seq<char>>) -> Option<LanguageId> {
    let e = match ext {
        Some(e) => e,
        None => Seq::empty(),
    };
    if e == seq!['j', 's'] {
        Some(LanguageId::Node)
    } else if e == seq!['p', 'y'] {
        Some(LanguageId::Py)
    } else if e == seq!['r', 'b'] {
        Some(LanguageId::Rb)
    } else if e == seq!['t', 's'] {
        Some(LanguageId::Ts)
    } else {
        None
    }
}

/// The scripts a directory listing yields: each regular file whose extension names a
/// language, in listing order.
pub open spec fn listing_plan(entries: Seq<ListedEntry>) -> Seq<(Seq<char>, LanguageId)>
    decreases entries.len(),
{
    if entries.len() == 0 {
        Seq::empty()
    } else {
        let rest = listing_plan(entries.drop_last());
        let e = entries.last();
        match language_of_extension(path_extension(e.path@)) {
            Some(l) if e.is_file => rest.push((e.path@, l)),
            _ => rest,
        }
    }
}

/// Whether `text` spells out `expected`.
fn spells(text: &str, expected: &str) -> (same: bool)
    ensures
        same == (text@ == expected@),
{
    let n = text.unicode_len();
    if n != expected.unicode_len() {
        return false;
    }
    let mut i: usize = 0;
    while i < n
        invariant
            n == text@.len() == expected@.len(),
            i <= n,
            forall|j: int| 0 <= j < i ==> text@[j] == expected@[j],
        decreases n - i,
    {
        if text.get_char(i) != expected.get_char(i) {
            return false;
        }
        i = i + 1;
    }
    assert(text@ =~= expected@);
    true
}

/// The language a file extension stands for: `js`, `py`, `rb` and `ts` name Node, Python,
/// Ruby and TypeScript; anything else, or no extension, names none.
pub fn language_for_extension(ext: Option<String>) -> (language: Option<LanguageId>)
    ensures
        language == language_of_extension(
            match ext {
                Some(e) => Some(e@),
                None => None,
            },
        ),
        (language == Some(LanguageId::Node)) == (ext matches Some(e) && e@ == "js"@),
        (language == Some(LanguageId::Py)) == (ext matches Some(e) && e@ == "py"@),
        (language == Some(LanguageId::Rb)) == (ext matches Some(e) && e@ == "rb"@),
        (language == Some(LanguageId::Ts)) == (ext matches Some(e) && e@ == "ts"@),
{
    proof {
        lemma_extension_languages(
            if ext is Some {
                ext->0@
            } else {
                Seq::empty()
            },
        );
        reveal_strlit("js");
        reveal_strlit("py");
        reveal_strlit("rb");
        reveal_strlit("ts");
        assert("js"@ =~= seq!['j', 's'] && "py"@ =~= seq!['p', 'y']);
        assert("rb"@ =~= seq!['r', 'b'] && "ts"@ =~= seq!['t', 's']);
    }
    match ext {
        None => {
            None
        },
        Some(e) => {
            if spells(e.as_str(), "js") {
                Some(LanguageId::Node)
            } else if spells(e.as_str(), "py") {
                Some(LanguageId::Py)
            } else if spells(e.as_str(), "rb") {
                Some(LanguageId::Rb)
            } else if spells(e.as_str(), "ts") {
                Some(LanguageId::Ts)
            } else {
                None
            }
        },
    }
}

/// The path under which `script` is loaded, given whether it is absolute and what joining
/// it under the group's directory gives: the script itself where it is absolute.
pub fn resolve_script_path(script: &String, script_is_absolute: bool, joined: String) -> (path:
    String)
    ensures
        path@ == if script_is_absolute {
            script@
        } else {
            joined@
        },
{
    if script_is_absolute {
        script.clone()
    } else {
        joined
    }
}

/// The scripts a JSON group asks for, in order, each under the path it is loaded from.
pub fn load_from_json(base_path: &String, json: &MetaCallJSON) -> (plan: Vec<ScriptRequest>)
    ensures
        requests(plan@) == json_plan(base_path@, *json),
{
    let mut plan: Vec<ScriptRequest> = Vec::new();
    let mut i: usize = 0;
    while i < json.scripts.len()
        invariant
            i <= json.scripts@.len(),
            requests(plan@) =~= json_plan(base_path@, *json).take(i as int),
        decreases json.scripts@.len() - i,
    {
        let script = &json.scripts[i];
        let path = if is_absolute_path(script.as_str()) {
            resolve_script_path(script, true, script.clone())
        } else {
            let dir = join_path(base_path.as_str(), json.path.as_str());
            let joined = join_path(dir.as_str(), script.as_str());
            resolve_script_path(script, false, joined)
        };
        plan.push(ScriptRequest { path, language: json.language_id });
        assert(json_plan(base_path@, *json).take(i + 1) =~= json_plan(base_path@, *json).take(
            i as int,
        ).push(json_plan(base_path@, *json)[i as int]));
        i = i + 1;
    }
    assert(json_plan(base_path@, *json).take(i as int) =~= json_plan(base_path@, *json));
    plan
}

/// The scripts a sequence of JSON groups asks for: group after group.
pub fn load_from_jsons(base_path: &String, jsons: &Vec<MetaCallJSON>) -> (plan: Vec<ScriptRequest>)
    ensures
        requests(plan@) == jsons_plan(base_path@, jsons@),
        plan@.len() == scripts_count(jsons@),
{
    proof {
        lemma_jsons_plan_len(base_path@, jsons@);
    }
    let mut plan: Vec<ScriptRequest> = Vec::new();
    let mut i: usize = 0;
    while i < jsons.len()
        invariant
            i <= jsons@.len(),
            requests(plan@) =~= jsons_plan(base_path@, jsons@.take(i as int)),
        decreases jsons@.len() - i,
    {
        let mut part = load_from_json(base_path, &jsons[i]);
        let ghost before = plan@;
        let ghost added = part@;
        plan.append(&mut part);
        assert(plan@ =~= before + added);
        assert(jsons@.take(i + 1).drop_last() =~= jsons@.take(i as int));
        assert(requests(plan@) =~= requests(before) + requests(added));
        i = i + 1;
    }
    assert(jsons@.take(i as int) =~= jsons@);
    plan
}

/// The scripts a directory listing yields: each regular file whose extension names a
/// language, in listing order.
pub fn load_scripts_from_dir(entries: &Vec<ListedEntry>) -> (plan: Vec<ScriptRequest>)
    ensures
        requests(plan@) == listing_plan(entries@),
{
    let mut plan: Vec<ScriptRequest> = Vec::new();
    let mut i: usize = 0;
    while i < entries.len()
        invariant
            i <= entries@.len(),
            requests(plan@) =~= listing_plan(entries@.take(i as int)),
        decreases entries@.len() - i,
    {
        let entry = &entries[i];
        assert(entries@.take(i + 1).drop_last() =~= entries@.take(i as int));
        assert(entries@.take(i + 1).last() == *entry);
        if entry.is_file {
            let ext = extension_of(entry.path.as_str());
            let language = language_for_extension(ext);
            match language {
                Some(l) => {
                    plan.push(ScriptRequest { path: entry.path.clone(), language: l });
                },
                None => {},
            }
        }
        assert(requests(plan@) =~= listing_plan(entries@.take(i + 1)));
        i = i + 1;
    }
    assert(entries@.take(i as int) =~= entries@);
    plan
}

/// Exactly four extensions name a language: `js` Node, `py` Python, `rb` Ruby, `ts`
/// TypeScript; every other extension, and no extension at all, names none.
pub proof fn lemma_extension_languages(ext: Seq<char>)
    ensures
        (language_of_extension(Some(ext)) == Some(LanguageId::Node)) == (ext == "js"@),
        (language_of_extension(Some(ext)) == Some(LanguageId::Py)) == (ext == "py"@),
        (language_of_extension(Some(ext)) == Some(LanguageId::Rb)) == (ext == "rb"@),
        (language_of_extension(Some(ext)) == Some(LanguageId::Ts)) == (ext == "ts"@),
        (language_of_extension(Some(ext)) is None) == (ext != "js"@ && ext != "py"@ && ext
            != "rb"@ && ext != "ts"@),
        language_of_extension(None) is None,
{
    reveal_strlit("js");
    reveal_strlit("py");
    reveal_strlit("rb");
    reveal_strlit("ts");
    assert("js"@ =~= seq!['j', 's'] && "py"@ =~= seq!['p', 'y']);
    assert("rb"@ =~= seq!['r', 'b'] && "ts"@ =~= seq!['t', 's']);
    assert(Seq::<char>::empty() != seq!['j', 's']) by {
        assert(seq!['j', 's'].len() == 2);
    }
    assert(Seq::<char>::empty() != seq!['p', 'y']) by {
        assert(seq!['p', 'y'].len() == 2);
    }
    assert(Seq::<char>::empty() != seq!['r', 'b']) by {
        assert(seq!['r', 'b'].len() == 2);
    }
    assert(Seq::<char>::empty() != seq!['t', 's']) by {
        assert(seq!['t', 's'].len() == 2);
    }
}

/// A directory scan plans exactly the regular files whose extension names a language: each
/// planned script is such a listed file, under the language its extension names, and each
/// such listed file is planned. The plan is no longer than the listing.
pub proof fn lemma_listing_plan_is_the_script_files(entries: Seq<ListedEntry>)
    ensures
        listing_plan(entries).len() <= entries.len(),
        forall|i: int|
            0 <= i < listing_plan(entries).len() ==> exists|j: int|
                0 <= j < entries.len() && (#[trigger] entries[j]).is_file && entries[j].path@
                    == (#[trigger] listing_plan(entries)[i]).0 && language_of_extension(
                    path_extension(entries[j].path@),
                ) == Some(listing_plan(entries)[i].1),
        forall|j: int|
            0 <= j < entries.len() && (#[trigger] entries[j]).is_file && language_of_extension(
                path_extension(entries[j].path@),
            ) is Some ==> listing_plan(entries).contains(
                (
                    entries[j].path@,
                    language_of_extension(path_extension(entries[j].path@))->0,
                ),
            ),
    decreases entries.len(),
{
    if entries.len() > 0 {
        let init = entries.drop_last();
        lemma_listing_plan_is_the_script_files(init);
        let rest = listing_plan(init);
        let plan = listing_plan(entries);
        let e = entries.last();
        assert forall|i: int| 0 <= i < plan.len() implies exists|j: int|
            0 <= j < entries.len() && (#[trigger] entries[j]).is_file && entries[j].path@
                == (#[trigger] plan[i]).0 && language_of_extension(path_extension(entries[j].path@)) == Some(
                plan[i].1,
            ) by {
            if i < rest.len() {
                assert(plan[i] == rest[i]);
                let j = choose|j: int|
                    0 <= j < init.len() && (#[trigger] init[j]).is_file && init[j].path@
                        == (#[trigger] rest[i]).0 && language_of_extension(path_extension(init[j].path@))
                        == Some(rest[i].1);
                assert(entries[j] == init[j]);
            } else {
                assert(entries[entries.len() - 1] == e);
            }
        }
        assert forall|j: int|
            0 <= j < entries.len() && (#[trigger] entries[j]).is_file && language_of_extension(
                path_extension(entries[j].path@),
            ) is Some implies plan.contains(
            (entries[j].path@, language_of_extension(path_extension(entries[j].path@))->0),
        ) by {
            let x = (entries[j].path@, language_of_extension(path_extension(entries[j].path@))->0);
            if j < init.len() {
                assert(init[j] == entries[j]);
                assert(rest.contains(x));
                let k = choose|k: int| 0 <= k < rest.len() && rest[k] == x;
                assert(plan[k] == rest[k]);
            } else {
                assert(plan[plan.len() - 1] == x);
            }
        }
    }
}

/// The number of scripts the groups name, all together.
pub open spec fn scripts_count(jsons: Seq<MetaCallJSON>) -> int
    decreases jsons.len(),
{
    if jsons.len() == 0 {
        0
    } else {
        scripts_count(jsons.drop_last()) + jsons.last().scripts@.len()
    }
}

/// Planning two runs of groups one after the other is planning each of them in turn: no
/// group is dropped or reordered because of the others.
pub proof fn lemma_jsons_plan_concat(
    base: Seq<char>,
    first: Seq<MetaCallJSON>,
    second: Seq<MetaCallJSON>,
)
    ensures
        jsons_plan(base, first + second) == jsons_plan(base, first) + jsons_plan(base, second),
    decreases second.len(),
{
    if second.len() == 0 {
        assert(first + second =~= first);
        assert(jsons_plan(base, first) + jsons_plan(base, second) =~= jsons_plan(base, first));
    } else {
        lemma_jsons_plan_concat(base, first, second.drop_last());
        assert((first + second).drop_last() =~= first + second.drop_last());
        assert((first + second).last() == second.last());
        assert(jsons_plan(base, first + second) =~= jsons_plan(base, first) + jsons_plan(
            base,
            second,
        ));
    }
}

/// The plan of the groups has one entry for each script they name.
pub proof fn lemma_jsons_plan_len(base: Seq<char>, jsons: Seq<MetaCallJSON>)
    ensures
        jsons_plan(base, jsons).len() == scripts_count(jsons),
    decreases jsons.len(),
{
    if jsons.len() > 0 {
        lemma_jsons_plan_len(base, jsons.drop_last());
    }
}

/// Script `k` of group `i` is planned at its place: after all the scripts of the groups
/// before, under its path and with its group's language, whatever the other groups are.
pub proof fn lemma_group_script_in_plan(base: Seq<char>, jsons: Seq<MetaCallJSON>, i: int, k: int)
    requires
        0 <= i < jsons.len(),
        0 <= k < jsons[i].scripts@.len(),
    ensures
        jsons_plan(base, jsons).len() == scripts_count(jsons),
        scripts_count(jsons.take(i)) + k < jsons_plan(base, jsons).len(),
        jsons_plan(base, jsons)[scripts_count(jsons.take(i)) + k] == (
            script_path(base, jsons[i].path@, jsons[i].scripts@[k]@),
            jsons[i].language_id,
        ),
{
    let before = jsons.take(i);
    let group = seq![jsons[i]];
    let after = jsons.skip(i + 1);
    assert(jsons =~= before + group + after);
    lemma_jsons_plan_concat(base, before + group, after);
    lemma_jsons_plan_concat(base, before, group);
    assert(group.drop_last() =~= Seq::<MetaCallJSON>::empty());
    assert(group.last() == jsons[i]);
    assert(jsons_plan(base, group.drop_last()) == Seq::<(Seq<char>, LanguageId)>::empty());
    assert(jsons_plan(base, group) =~= json_plan(base, jsons[i]));
    lemma_jsons_plan_len(base, before);
    lemma_jsons_plan_len(base, jsons);
    let whole = jsons_plan(base, jsons);
    assert(whole == jsons_plan(base, before) + json_plan(base, jsons[i]) + jsons_plan(base, after));
    let n = scripts_count(before);
    assert(whole[n + k] == json_plan(base, jsons[i])[k]);
}

} // verus!
