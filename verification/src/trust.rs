//! Marking the current project as trusted in the upstream configuration,
//! so that no trust dialog waits for the keyboard.

use vstd::prelude::*;

use crate::json::{
    entries_get, entries_set, find_key, get_v, jv_entries, lemma_jv_entries,
    lemma_set_get_other, lemma_set_get_same, set_entry, Json, JsonV,
};
use crate::text::owned;

verus! {

/// Why the upstream configuration cannot be marked.
#[derive(Debug, Clone, Copy, PartialEq, Eq, Structural)]
pub enum TrustError {
    RootNotObject,
    ProjectsNotObject,
    ProjectNotObject,
}

impl TrustError {
    /// The message printed for this error.
    pub fn message(&self) -> (r: String)
        ensures
            r@ == match *self {
                TrustError::RootNotObject => "upstream config root is not an object"@,
                TrustError::ProjectsNotObject => "upstream config projects field is not an object"@,
                TrustError::ProjectNotObject => "upstream project config is not an object"@,
            },
    {
        match self {
            TrustError::RootNotObject => owned("upstream config root is not an object"),
            TrustError::ProjectsNotObject => owned("upstream config projects field is not an object"),
            TrustError::ProjectNotObject => owned("upstream project config is not an object"),
        }
    }
}

pub open spec fn or_empty_object(o: Option<JsonV>) -> JsonV {
    match o {
        Some(x) => x,
        None => JsonV::Object(Seq::empty()),
    }
}

/// The configuration `data` with `projects.<key>.hasTrustDialogAccepted`
/// set to `true`, a missing `projects` or project entry added as an empty
/// object first.
pub open spec fn mark_trusted_v(data: JsonV, key: Seq<char>) -> Result<JsonV, TrustError> {
    match data {
        JsonV::Object(root) => match or_empty_object(entries_get(root, "projects"@)) {
            JsonV::Object(pe) => match or_empty_object(entries_get(pe, key)) {
                JsonV::Object(xe) => Ok(
                    JsonV::Object(
                        entries_set(
                            root,
                            "projects"@,
                            JsonV::Object(
                                entries_set(
                                    pe,
                                    key,
                                    JsonV::Object(
                                        entries_set(xe, "hasTrustDialogAccepted"@, JsonV::Bool(true)),
                                    ),
                                ),
                            ),
                        ),
                    ),
                ),
                _ => Err(TrustError::ProjectNotObject),
            },
            _ => Err(TrustError::ProjectsNotObject),
        },
        _ => Err(TrustError::RootNotObject),
    }
}

/// The member `key` of the entries `es`, copied; an empty object where
/// there is none.
fn member_or_empty(es: &Vec<(String, Json)>, key: &str) -> (r: Json)
    ensures
        r@ == or_empty_object(entries_get(jv_entries(es@), key@)),
{
    proof {
        lemma_jv_entries(es@);
    }
    match find_key(es, key) {
        Some(i) => es[i].1.deep_clone(),
        None => Json::empty_object(),
    }
}

/// `accept_workspace_trust`'s change to the parsed configuration `data`
/// for the project `key`.
pub fn mark_trusted(data: Json, key: &str) -> (r: Result<Json, TrustError>)
    ensures
        match mark_trusted_v(data@, key@) {
            Ok(v) => r matches Ok(x) && x@ == v,
            Err(e) => r == Err::<Json, TrustError>(e),
        },
{
    match data {
        Json::Object(root) => {
            let projects = member_or_empty(&root, "projects");
            match projects {
                Json::Object(pe) => {
                    let project = member_or_empty(&pe, key);
                    match project {
                        Json::Object(xe) => {
                            let mut xe = xe;
                            set_entry(&mut xe, owned("hasTrustDialogAccepted"), Json::Bool(true));
                            let mut pe = pe;
                            set_entry(&mut pe, owned(key), Json::Object(xe));
                            let mut root = root;
                            set_entry(&mut root, owned("projects"), Json::Object(pe));
                            Ok(Json::Object(root))
                        },
                        _ => Err(TrustError::ProjectNotObject),
                    }
                },
                _ => Err(TrustError::ProjectsNotObject),
            }
        },
        _ => Err(TrustError::RootNotObject),
    }
}

/// Once marked, the project's trust dialog counts as accepted, every other
/// project is as it was, and every other member of the configuration is as
/// it was.
pub proof fn mark_trusted_marks_only_the_project(data: JsonV, key: Seq<char>, other_key: Seq<char>, other_member: Seq<char>)
    requires
        mark_trusted_v(data, key) is Ok,
        other_key != key,
        other_member != "projects"@,
    ensures
        ({
            let r = mark_trusted_v(data, key)->Ok_0;
            let projects = get_v(r, "projects"@)->Some_0;
            &&& get_v(get_v(projects, key)->Some_0, "hasTrustDialogAccepted"@) == Some(JsonV::Bool(true))
            &&& get_v(projects, other_key) == get_v(or_empty_object(get_v(data, "projects"@)), other_key)
            &&& get_v(r, other_member) == get_v(data, other_member)
        }),
{
    let root = data->Object_0;
    let pe = or_empty_object(entries_get(root, "projects"@))->Object_0;
    let xe = or_empty_object(entries_get(pe, key))->Object_0;
    let x2 = entries_set(xe, "hasTrustDialogAccepted"@, JsonV::Bool(true));
    let p2 = entries_set(pe, key, JsonV::Object(x2));
    lemma_set_get_same(xe, "hasTrustDialogAccepted"@, JsonV::Bool(true));
    lemma_set_get_same(pe, key, JsonV::Object(x2));
    lemma_set_get_same(root, "projects"@, JsonV::Object(p2));
    lemma_set_get_other(pe, key, JsonV::Object(x2), other_key);
    lemma_set_get_other(root, "projects"@, JsonV::Object(p2), other_member);
}

} // verus!
