use std::collections::HashMap;

use vstd::prelude::*;

use crate::json::{json_document, parse_json, JsonValue};

verus! {

broadcast use vstd::std_specs::hash::group_hash_axioms;

/// A published version of a crate that depends on the local crate, with the
/// version requirement it states on it.
#[derive(Debug)]
pub struct ReverseDependency {
    name: String,
    version: String,
    version_required: String,
}

/// The plain contents of a [`ReverseDependency`].
pub struct ReverseDependencyView {
    pub name: Seq<char>,
    pub version: Seq<char>,
    pub version_required: Seq<char>,
}

impl View for ReverseDependency {
    type V = ReverseDependencyView;

    closed spec fn view(&self) -> ReverseDependencyView {
        ReverseDependencyView {
            name: self.name@,
            version: self.version@,
            version_required: self.version_required@,
        }
    }
}

/// The contents of each reverse dependency of `dependencies`, in order.
pub open spec fn views_of(dependencies: Seq<ReverseDependency>) -> Seq<ReverseDependencyView> {
    dependencies.map_values(|dependency: ReverseDependency| dependency@)
}

impl ReverseDependencyView {
    /// `name-version`, the name of the crate's archive and directory.
    pub open spec fn crate_name(self) -> Seq<char> {
        self.name + "-"@ + self.version
    }

    /// `cdn_base_url/crates/name/name-version.crate`.
    pub open spec fn cdn_download_url(self, cdn_base_url: Seq<char>) -> Seq<char> {
        cdn_base_url + "/crates/"@ + self.name + "/"@ + self.crate_name() + ".crate"@
    }
}

/// The archive of a reverse dependency is `name-version`, and its download URL
/// is the CDN base, then `/crates/`, the name as it is, `/`, the archive name
/// and `.crate`: the name appears verbatim in both the directory and the file.
pub proof fn lemma_download_url_layout(dependency: ReverseDependencyView, cdn_base_url: Seq<char>)
    ensures
        dependency.crate_name() == dependency.name + "-"@ + dependency.version,
        dependency.cdn_download_url(cdn_base_url) == cdn_base_url + "/crates/"@ + dependency.name
            + "/"@ + dependency.name + "-"@ + dependency.version + ".crate"@,
{
    assert(dependency.cdn_download_url(cdn_base_url) =~= cdn_base_url + "/crates/"@ + dependency.name
        + "/"@ + dependency.name + "-"@ + dependency.version + ".crate"@);
}

/// What reading the crates.io answer gives: the reverse dependencies, or that
/// the answer does not have the expected form, or that a version refers to a
/// requirement id that the answer does not list.
pub enum ReadOutcome {
    Read(Seq<ReverseDependencyView>),
    Malformed,
    UnknownRequirement,
}

/// An element of `dependencies`: a `version_id` that is an unsigned integer and a
/// `req` that is a string.
pub open spec fn requirement_entry(item: JsonValue) -> Option<(u64, Seq<char>)> {
    match (item.field("version_id"@).spec_as_u64(), item.field("req"@).spec_as_str()) {
        (Some(id), Some(req)) => Some((id, req)),
        _ => None,
    }
}

/// The requirement recorded for each version id by `items`, a later entry
/// replacing an earlier one with the same id; `None` where an entry is malformed.
pub open spec fn requirements_of(items: Seq<JsonValue>) -> Option<Map<u64, Seq<char>>>
    decreases items.len(),
{
    if items.len() == 0 {
        Some(Map::empty())
    } else {
        match (requirements_of(items.drop_last()), requirement_entry(items.last())) {
            (Some(requirements), Some((id, req))) => Some(requirements.insert(id, req)),
            _ => None,
        }
    }
}

/// An element of `versions`: a `crate` and a `num` that are strings and an `id`
/// that is an unsigned integer.
pub open spec fn dependant_entry(item: JsonValue) -> Option<(Seq<char>, Seq<char>, u64)> {
    match (
        item.field("crate"@).spec_as_str(),
        item.field("num"@).spec_as_str(),
        item.field("id"@).spec_as_u64(),
    ) {
        (Some(name), Some(num), Some(id)) => Some((name, num, id)),
        _ => None,
    }
}

/// Reads the elements of `versions` in order, stopping at the first malformed
/// one or the first whose id has no requirement.
pub open spec fn dependants_of(items: Seq<JsonValue>, requirements: Map<u64, Seq<char>>) -> ReadOutcome
    decreases items.len(),
{
    if items.len() == 0 {
        ReadOutcome::Read(Seq::empty())
    } else {
        match dependants_of(items.drop_last(), requirements) {
            ReadOutcome::Read(found) => match dependant_entry(items.last()) {
                None => ReadOutcome::Malformed,
                Some((name, version, id)) => if requirements.contains_key(id) {
                    ReadOutcome::Read(
                        found.push(
                            ReverseDependencyView {
                                name,
                                version,
                                version_required: requirements[id],
                            },
                        ),
                    )
                } else {
                    ReadOutcome::UnknownRequirement
                },
            },
            other => other,
        }
    }
}

/// How the crates.io answer `json` reads: first the `dependencies` array, then
/// the `versions` array.
pub open spec fn read_outcome(json: JsonValue) -> ReadOutcome {
    match json.field("dependencies"@).spec_as_array() {
        None => ReadOutcome::Malformed,
        Some(items) => match requirements_of(items) {
            None => ReadOutcome::Malformed,
            Some(requirements) => match json.field("versions"@).spec_as_array() {
                None => ReadOutcome::Malformed,
                Some(versions) => dependants_of(versions, requirements),
            },
        },
    }
}

/// Reading `versions` gives one reverse dependency per element, in order, each
/// with the element's `crate`, `num`, and the requirement recorded for its `id`;
/// and it reads whenever every element has those fields and a known id.
pub proof fn lemma_one_dependency_per_version(items: Seq<JsonValue>, requirements: Map<u64, Seq<char>>)
    ensures
        match dependants_of(items, requirements) {
            ReadOutcome::Read(found) => {
                &&& found.len() == items.len()
                &&& forall|i: int|
                    0 <= i < items.len() ==> {
                        &&& (#[trigger] items[i]).field("crate"@).spec_as_str() == Some(found[i].name)
                        &&& items[i].field("num"@).spec_as_str() == Some(found[i].version)
                        &&& items[i].field("id"@).spec_as_u64() is Some
                        &&& requirements.contains_key(items[i].field("id"@).spec_as_u64().unwrap())
                        &&& found[i].version_required == requirements[items[i].field(
                            "id"@,
                        ).spec_as_u64().unwrap()]
                    }
            },
            _ => true,
        },
        (forall|i: int|
            0 <= i < items.len() ==> {
                &&& (#[trigger] items[i]).field("crate"@).spec_as_str() is Some
                &&& items[i].field("num"@).spec_as_str() is Some
                &&& items[i].field("id"@).spec_as_u64() is Some
                &&& requirements.contains_key(items[i].field("id"@).spec_as_u64().unwrap())
            }) ==> dependants_of(items, requirements) is Read,
    decreases items.len(),
{
    if items.len() > 0 {
        let prefix = items.drop_last();
        lemma_one_dependency_per_version(prefix, requirements);
        assert forall|i: int| 0 <= i < prefix.len() implies prefix[i] == items[i] by {}
        if forall|i: int|
            0 <= i < items.len() ==> {
                &&& (#[trigger] items[i]).field("crate"@).spec_as_str() is Some
                &&& items[i].field("num"@).spec_as_str() is Some
                &&& items[i].field("id"@).spec_as_u64() is Some
                &&& requirements.contains_key(items[i].field("id"@).spec_as_u64().unwrap())
            } {
            assert forall|i: int| 0 <= i < prefix.len() implies {
                &&& (#[trigger] prefix[i]).field("crate"@).spec_as_str() is Some
                &&& prefix[i].field("num"@).spec_as_str() is Some
                &&& prefix[i].field("id"@).spec_as_u64() is Some
                &&& requirements.contains_key(prefix[i].field("id"@).spec_as_u64().unwrap())
            } by {
                assert(prefix[i] == items[i]);
            }
            let last = items[items.len() - 1];
            assert(last.field("crate"@).spec_as_str() is Some);
        }
        match dependants_of(items, requirements) {
            ReadOutcome::Read(found) => {
                assert(dependants_of(prefix, requirements) is Read);
                let before = dependants_of(prefix, requirements)->Read_0;
                assert(found == before.push(found.last()));
                assert forall|i: int| 0 <= i < items.len() implies {
                    &&& (#[trigger] items[i]).field("crate"@).spec_as_str() == Some(found[i].name)
                    &&& items[i].field("num"@).spec_as_str() == Some(found[i].version)
                    &&& items[i].field("id"@).spec_as_u64() is Some
                    &&& requirements.contains_key(items[i].field("id"@).spec_as_u64().unwrap())
                    &&& found[i].version_required == requirements[items[i].field(
                        "id"@,
                    ).spec_as_u64().unwrap()]
                } by {
                    if i < prefix.len() {
                        assert(prefix[i] == items[i]);
                        assert(found[i] == before[i]);
                    }
                }
            },
            _ => {},
        }
    }
}

/// Where an answer reads, the result has exactly one reverse dependency per
/// element of its `versions` array, in order, with that element's `crate` and
/// `num` and the `req` that `dependencies` records for its `id`.
pub proof fn lemma_answer_reads_versions_in_order(json: JsonValue)
    ensures
        match read_outcome(json) {
            ReadOutcome::Read(found) => {
                &&& json.field("versions"@).spec_as_array() is Some
                &&& json.field("dependencies"@).spec_as_array() is Some
                &&& requirements_of(json.field("dependencies"@).spec_as_array().unwrap()) is Some
                &&& found.len() == json.field("versions"@).spec_as_array().unwrap().len()
                &&& forall|i: int|
                    0 <= i < found.len() ==> {
                        let version = json.field("versions"@).spec_as_array().unwrap()[i];
                        let requirements = requirements_of(
                            json.field("dependencies"@).spec_as_array().unwrap(),
                        ).unwrap();
                        &&& version.field("crate"@).spec_as_str() == Some(#[trigger] found[i].name)
                        &&& version.field("num"@).spec_as_str() == Some(found[i].version)
                        &&& version.field("id"@).spec_as_u64() is Some
                        &&& requirements.contains_key(version.field("id"@).spec_as_u64().unwrap())
                        &&& found[i].version_required == requirements[version.field(
                            "id"@,
                        ).spec_as_u64().unwrap()]
                    }
            },
            _ => true,
        },
{
    if let (Some(items), Some(versions)) = (
        json.field("dependencies"@).spec_as_array(),
        json.field("versions"@).spec_as_array(),
    ) {
        if let Some(requirements) = requirements_of(items) {
            lemma_one_dependency_per_version(versions, requirements);
            if let ReadOutcome::Read(found) = read_outcome(json) {
                assert forall|i: int| 0 <= i < found.len() implies {
                    let version = versions[i];
                    &&& version.field("crate"@).spec_as_str() == Some(#[trigger] found[i].name)
                    &&& version.field("num"@).spec_as_str() == Some(found[i].version)
                    &&& version.field("id"@).spec_as_u64() is Some
                    &&& requirements.contains_key(version.field("id"@).spec_as_u64().unwrap())
                    &&& found[i].version_required == requirements[version.field(
                        "id"@,
                    ).spec_as_u64().unwrap()]
                } by {
                    assert(versions[i].field("crate"@).spec_as_str() == Some(found[i].name));
                }
            }
        }
    }
}

/// How the text of a crates.io answer reads: `Malformed` where it is no JSON.
pub open spec fn content_outcome(content: Seq<char>) -> ReadOutcome {
    match json_document(content) {
        None => ReadOutcome::Malformed,
        Some(json) => read_outcome(json),
    }
}

/// Where the `dependencies` entries all read, the requirement recorded for the
/// id of entry `i` is that entry's `req` unless a later entry has the same id:
/// the last entry for an id is the one that counts.
pub proof fn lemma_requirement_is_last_entry(items: Seq<JsonValue>, i: int)
    requires
        requirements_of(items) is Some,
        0 <= i < items.len(),
    ensures
        items[i].field("version_id"@).spec_as_u64() is Some,
        items[i].field("req"@).spec_as_str() is Some,
        requirement_entry(items[i]) == Some(
            (
                items[i].field("version_id"@).spec_as_u64().unwrap(),
                items[i].field("req"@).spec_as_str().unwrap(),
            ),
        ),
        requirement_entry(items[i]) matches Some((id, req)) && {
            &&& requirements_of(items).unwrap().contains_key(id)
            &&& (forall|j: int|
                i < j < items.len() ==> #[trigger] requirement_entry(items[j]).unwrap().0 != id)
                ==> requirements_of(items).unwrap()[id] == req
        },
    decreases items.len(),
{
    let prefix = items.drop_last();
    assert(requirements_of(prefix) is Some);
    assert(requirement_entry(items.last()) is Some);
    if i < items.len() - 1 {
        lemma_requirement_is_last_entry(prefix, i);
        assert(prefix[i] == items[i]);
        let (id, req) = requirement_entry(items[i]).unwrap();
        if forall|j: int| i < j < items.len() ==> #[trigger] requirement_entry(items[j]).unwrap().0 != id {
            assert forall|j: int| i < j < prefix.len() implies #[trigger] requirement_entry(prefix[j]).unwrap().0
                != id by {
                assert(prefix[j] == items[j]);
                assert(requirement_entry(items[j]).unwrap().0 != id);
            }
            assert(requirement_entry(items[items.len() - 1]).unwrap().0 != id);
        }
    }
}

/// Every id that reading the `dependencies` entries records is the
/// `version_id` of one of them.
pub proof fn lemma_recorded_ids_come_from_entries(items: Seq<JsonValue>, id: u64)
    requires
        requirements_of(items) matches Some(requirements) && requirements.contains_key(id),
    ensures
        exists|i: int|
            0 <= i < items.len() && (#[trigger] requirement_entry(items[i])) is Some
                && requirement_entry(items[i]).unwrap().0 == id,
    decreases items.len(),
{
    let prefix = items.drop_last();
    let last: int = items.len() - 1;
    if requirement_entry(items[last]).unwrap().0 != id {
        lemma_recorded_ids_come_from_entries(prefix, id);
        let i: int = choose|i: int|
            0 <= i < prefix.len() && (#[trigger] requirement_entry(prefix[i])) is Some
                && requirement_entry(prefix[i]).unwrap().0 == id;
        assert(prefix[i] == items[i]);
    } else {
        assert(requirement_entry(items[last]) is Some);
    }
}

spec fn holds_requirements(map: HashMap<u64, String>, requirements: Map<u64, Seq<char>>) -> bool {
    &&& map@.dom() == requirements.dom()
    &&& forall|id: u64| #[trigger] map@.contains_key(id) ==> map@[id]@ == requirements[id]
}

proof fn lemma_requirements_stay_malformed(items: Seq<JsonValue>, n: int)
    requires
        0 <= n <= items.len(),
        requirements_of(items.take(n)) is None,
    ensures
        requirements_of(items) is None,
    decreases items.len() - n,
{
    if n < items.len() {
        assert(items.take(n + 1).drop_last() =~= items.take(n));
        lemma_requirements_stay_malformed(items, n + 1);
    } else {
        assert(items.take(n) =~= items);
    }
}

proof fn lemma_dependants_stop(items: Seq<JsonValue>, requirements: Map<u64, Seq<char>>, n: int)
    requires
        0 <= n <= items.len(),
        !(dependants_of(items.take(n), requirements) is Read),
    ensures
        dependants_of(items, requirements) == dependants_of(items.take(n), requirements),
    decreases items.len() - n,
{
    if n < items.len() {
        assert(items.take(n + 1).drop_last() =~= items.take(n));
        lemma_dependants_stop(items, requirements, n + 1);
    } else {
        assert(items.take(n) =~= items);
    }
}

/// Reads the `dependencies` array into a map from version id to requirement.
fn read_requirements(items: &Vec<JsonValue>) -> (map: Option<HashMap<u64, String>>)
    ensures
        match map {
            Some(map) => requirements_of(items@) matches Some(requirements) && holds_requirements(
                map,
                requirements,
            ),
            None => requirements_of(items@) is None,
        },
{
    let version_id_key = String::from_str("version_id");
    let req_key = String::from_str("req");
    let mut map: HashMap<u64, String> = HashMap::new();
    let mut i: usize = 0;
    assert(items@.take(0) =~= Seq::<JsonValue>::empty());
    while i < items.len()
        invariant
            i <= items@.len(),
            version_id_key@ == "version_id"@,
            req_key@ == "req"@,
            requirements_of(items@.take(i as int)) matches Some(requirements) && holds_requirements(
                map,
                requirements,
            ),
        decreases items@.len() - i,
    {
        let item = &items[i];
        assert(items@.take(i + 1).drop_last() =~= items@.take(i as int));
        assert(items@.take(i + 1).last() == items@[i as int]);
        let ghost before = requirements_of(items@.take(i as int)).unwrap();
        let id = match item.get(&version_id_key) {
            Some(value) => value.as_u64(),
            None => None,
        };
        let req = match item.get(&req_key) {
            Some(value) => value.as_str(),
            None => None,
        };
        match (id, req) {
            (Some(id), Some(req)) => {
                map.insert(id, String::from_str(req));
                proof {
                    let after = before.insert(id, req@);
                    assert(requirements_of(items@.take(i + 1)) == Some(after));
                    assert(map@.dom() =~= after.dom());
                }
            },
            _ => {
                proof {
                    assert(requirements_of(items@.take(i + 1)) is None);
                    lemma_requirements_stay_malformed(items@, i + 1);
                }
                return None;
            },
        }
        i = i + 1;
    }
    assert(items@.take(items@.len() as int) =~= items@);
    Some(map)
}

/// Reads the `versions` array, looking each version's requirement up in `map`.
fn read_dependants(items: &Vec<JsonValue>, map: &HashMap<u64, String>, Ghost(requirements): Ghost<
    Map<u64, Seq<char>>,
>) -> (outcome: Option<Result<Vec<ReverseDependency>, ()>>)
    requires
        holds_requirements(*map, requirements),
    ensures
        match dependants_of(items@, requirements) {
            ReadOutcome::Read(found) => outcome matches Some(Ok(v)) && views_of(v@) == found,
            ReadOutcome::Malformed => outcome matches Some(Err(_)),
            ReadOutcome::UnknownRequirement => outcome is None,
        },
{
    let crate_key = String::from_str("crate");
    let num_key = String::from_str("num");
    let id_key = String::from_str("id");
    let mut found: Vec<ReverseDependency> = Vec::new();
    let mut i: usize = 0;
    assert(items@.take(0) =~= Seq::<JsonValue>::empty());
    assert(views_of(found@) =~= Seq::<ReverseDependencyView>::empty());
    while i < items.len()
        invariant
            i <= items@.len(),
            crate_key@ == "crate"@,
            num_key@ == "num"@,
            id_key@ == "id"@,
            holds_requirements(*map, requirements),
            dependants_of(items@.take(i as int), requirements) == ReadOutcome::Read(views_of(found@)),
        decreases items@.len() - i,
    {
        let item = &items[i];
        assert(items@.take(i + 1).drop_last() =~= items@.take(i as int));
        assert(items@.take(i + 1).last() == items@[i as int]);
        let name = match item.get(&crate_key) {
            Some(value) => value.as_str(),
            None => None,
        };
        let num = match item.get(&num_key) {
            Some(value) => value.as_str(),
            None => None,
        };
        let id = match item.get(&id_key) {
            Some(value) => value.as_u64(),
            None => None,
        };
        match (name, num, id) {
            (Some(name), Some(num), Some(id)) => match map.get(&id) {
                Some(req) => {
                    let dependency = ReverseDependency {
                        name: String::from_str(name),
                        version: String::from_str(num),
                        version_required: req.clone(),
                    };
                    let ghost before = found@;
                    found.push(dependency);
                    proof {
                        assert(views_of(found@) =~= views_of(before).push(dependency@));
                    }
                },
                None => {
                    proof {
                        lemma_dependants_stop(items@, requirements, i + 1);
                    }
                    return None;
                },
            },
            _ => {
                proof {
                    lemma_dependants_stop(items@, requirements, i + 1);
                }
                return Some(Err(()));
            },
        }
        i = i + 1;
    }
    assert(items@.take(items@.len() as int) =~= items@);
    Some(Ok(found))
}

impl ReverseDependency {
    /// The reverse dependency `name` at `version`, requiring `version_required`
    /// of the local crate.
    pub fn new(name: String, version: String, version_required: String) -> (dependency: Self)
        ensures
            dependency@ == (ReverseDependencyView {
                name: name@,
                version: version@,
                version_required: version_required@,
            }),
    {
        ReverseDependency { name, version, version_required }
    }

    /// Reads the reverse dependencies out of the crates.io answer `json`;
    /// `None` where a version refers to a requirement id that `dependencies`
    /// does not list.
    pub fn try_from_json(json: &JsonValue) -> (outcome: Option<Result<Vec<ReverseDependency>, ()>>)
        ensures
            match read_outcome(*json) {
                ReadOutcome::Read(found) => outcome matches Some(Ok(v)) && views_of(v@) == found,
                ReadOutcome::Malformed => outcome matches Some(Err(_)),
                ReadOutcome::UnknownRequirement => outcome is None,
            },
    {
        let dependencies_key = String::from_str("dependencies");
        let versions_key = String::from_str("versions");
        let items = match json.get(&dependencies_key) {
            Some(value) => value.as_array(),
            None => None,
        };
        let items = match items {
            Some(items) => items,
            None => return Some(Err(())),
        };
        let map = match read_requirements(items) {
            Some(map) => map,
            None => return Some(Err(())),
        };
        let ghost requirements = requirements_of(items@).unwrap();
        let versions = match json.get(&versions_key) {
            Some(value) => value.as_array(),
            None => None,
        };
        match versions {
            Some(versions) => read_dependants(versions, &map, Ghost(requirements)),
            None => Some(Err(())),
        }
    }

    /// Reads the reverse dependencies out of the crates.io answer `json`: each
    /// element of `versions`, in order, with the requirement that `dependencies`
    /// records for its id; `Err` where the answer does not have that form.
    pub fn from_json(json: &JsonValue) -> (result: Result<Vec<ReverseDependency>, ()>)
        requires
            !(read_outcome(*json) is UnknownRequirement),
        ensures
            match read_outcome(*json) {
                ReadOutcome::Read(found) => result matches Ok(v) && views_of(v@) == found,
                _ => result is Err,
            },
    {
        match Self::try_from_json(json) {
            Some(result) => result,
            None => Err(()),
        }
    }

    /// Reads the reverse dependencies out of the text of a crates.io answer:
    /// `Err` where it is no JSON or does not have the expected form (see
    /// [`ReverseDependency::from_json`]).
    pub fn from(content: &str) -> (result: Result<Vec<ReverseDependency>, ()>)
        requires
            !(content_outcome(content@) is UnknownRequirement),
        ensures
            match content_outcome(content@) {
                ReadOutcome::Read(found) => result matches Ok(v) && views_of(v@) == found,
                _ => result is Err,
            },
    {
        match parse_json(content) {
            Some(json) => Self::from_json(&json),
            None => Err(()),
        }
    }

    /// As [`ReverseDependency::from`], on any text: `None` where a version
    /// refers to a requirement id that `dependencies` does not list. Where the
    /// text reads, it is read once more by `from`.
    pub fn try_from_content(content: &str) -> (outcome: Option<Result<Vec<ReverseDependency>, ()>>)
        ensures
            match content_outcome(content@) {
                ReadOutcome::Read(found) => outcome matches Some(Ok(v)) && views_of(v@) == found,
                ReadOutcome::Malformed => outcome matches Some(Err(_)),
                ReadOutcome::UnknownRequirement => outcome is None,
            },
    {
        match parse_json(content) {
            None => Some(Err(())),
            Some(json) => match Self::try_from_json(&json) {
                None => None,
                Some(_) => Some(Self::from(content)),
            },
        }
    }

    /// `name-version`.
    pub fn get_crate_name(&self) -> (crate_name: String)
        ensures
            crate_name@ == self@.crate_name(),
            crate_name@ == self@.name + "-"@ + self@.version,
    {
        let mut crate_name = self.name.clone();
        crate_name.append("-");
        crate_name.append(self.version.as_str());
        crate_name
    }

    /// Where the crate's archive is found on the CDN at `cdn_base_url`.
    pub fn get_cdn_download_url(&self, cdn_base_url: &str) -> (url: String)
        ensures
            url@ == self@.cdn_download_url(cdn_base_url@),
            url@ == cdn_base_url@ + "/crates/"@ + self@.name + "/"@ + self@.name + "-"@
                + self@.version + ".crate"@,
    {
        let crate_name = self.get_crate_name();
        let mut url = String::from_str(cdn_base_url);
        url.append("/crates/");
        url.append(self.name.as_str());
        url.append("/");
        url.append(crate_name.as_str());
        url.append(".crate");
        url
    }

    pub fn get_version_required(&self) -> (version_required: &str)
        ensures
            version_required@ == self@.version_required,
    {
        self.version_required.as_str()
    }
}

} // verus!
