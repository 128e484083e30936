//! The resource store's decisions: which reply each verb gives for what the
//! file system reported, and the merge-patch policy for partial updates.
//!
//! Reading and writing the files happens outside this module; each function
//! here takes what that work found and says what comes next.
use std::collections::HashMap;
use vstd::prelude::*;

use crate::json::{
    body_object, entries_of, has_member, into_object, member, object_keys, object_of, parse_json,
    parsed_json, pretty_json, pretty_text, set_member, JsonObject, RequestBody,
};
use crate::response::{has_header, is_status_reply, set_header, status_reply, HttpResponse};

verus! {

/// What reading a document found.
pub enum Lookup {
    Missing,
    Unreadable,
    Found(String),
}

/// What writing a document did; a failure carries the system's description.
pub enum WriteOutcome {
    Written,
    DirFailed(String),
    FileFailed(String),
}

/// What removing a document did.
pub enum Removal {
    Missing,
    Removed,
    Failed,
}

/// Where the document of resource `id` is kept.
pub open spec fn path_of(id: Seq<char>) -> Seq<char> {
    "./files/"@ + id + ".json"@
}

pub fn document_path(id: &str) -> (r: String)
    ensures
        r@ == path_of(id@),
{
    let mut p = String::from_str("./files/");
    p.append(id);
    p.append(".json");
    p
}

/// Every member named by the patch is already a member of the target.
pub open spec fn patch_fits(target: JsonObject, patch: JsonObject) -> bool {
    entries_of(patch).dom().subset_of(entries_of(target).dom())
}

/// The target's members with those named by the patch replaced (a shallow merge).
pub open spec fn merged_entries(target: JsonObject, patch: JsonObject) -> Map<
    Seq<char>,
    serde_json::Value,
> {
    entries_of(target).union_prefer_right(entries_of(patch))
}

spec fn named_before(keys: Seq<String>, i: int, k: Seq<char>) -> bool {
    exists|j: int| 0 <= j < i && #[trigger] keys[j]@ == k
}

/// Applies `patch` to `target` when every member it names already exists;
/// otherwise names a member that does not and leaves `target` as it was.
pub fn merge_patch(target: &mut JsonObject, patch: &JsonObject) -> (r: Result<(), String>)
    ensures
        r is Ok <==> patch_fits(*old(target), *patch),
        r is Ok ==> entries_of(*final(target)) == merged_entries(*old(target), *patch),
        r matches Err(k) ==> {
            &&& entries_of(*patch).contains_key(k@)
            &&& !entries_of(*old(target)).contains_key(k@)
            &&& *final(target) == *old(target)
        },
{
    let keys = object_keys(patch);
    let n = keys.len();
    let mut i: usize = 0;
    while i < n
        invariant
            n == keys@.len(),
            i <= n,
            forall|j: int| 0 <= j < n ==> entries_of(*patch).contains_key(#[trigger] keys@[j]@),
            forall|j: int| 0 <= j < i ==> entries_of(*target).contains_key(#[trigger] keys@[j]@),
        decreases n - i,
    {
        if !has_member(target, &keys[i]) {
            return Err(keys[i].clone());
        }
        i += 1;
    }
    proof {
        assert forall|k: Seq<char>| entries_of(*patch).contains_key(k) implies entries_of(
            *target,
        ).contains_key(k) by {
            let j = choose|j: int| 0 <= j < keys@.len() && keys@[j]@ == k;
            assert(entries_of(*target).contains_key(keys@[j]@));
        }
    }
    let ghost base = entries_of(*target);
    let ghost patched = entries_of(*patch);
    let mut i: usize = 0;
    while i < n
        invariant
            n == keys@.len(),
            i <= n,
            base == entries_of(*old(target)),
            patched == entries_of(*patch),
            patched.dom().subset_of(base.dom()),
            forall|j: int| 0 <= j < n ==> patched.contains_key(#[trigger] keys@[j]@),
            entries_of(*target).dom() == base.dom(),
            forall|k: Seq<char>|
                #[trigger] base.contains_key(k) ==> entries_of(*target)[k] == (if named_before(
                    keys@,
                    i as int,
                    k,
                ) {
                    patched[k]
                } else {
                    base[k]
                }),
        decreases n - i,
    {
        let v = member(patch, &keys[i]);
        match v {
            Some(v) => {
                let ghost before = entries_of(*target);
                let ghost ki = keys@[i as int]@;
                set_member(target, keys[i].clone(), v);
                proof {
                    assert(entries_of(*target) == before.insert(ki, patched[ki]));
                    assert forall|k: Seq<char>| #[trigger]
                        base.contains_key(k) implies entries_of(*target)[k] == (if named_before(
                        keys@,
                        i + 1,
                        k,
                    ) {
                        patched[k]
                    } else {
                        base[k]
                    }) by {
                        if k == ki {
                            assert(named_before(keys@, i + 1, k)) by {
                                assert(keys@[i as int]@ == k);
                            }
                        } else {
                            assert(named_before(keys@, i + 1, k) == named_before(
                                keys@,
                                i as int,
                                k,
                            )) by {
                                if named_before(keys@, i + 1, k) {
                                    let j = choose|j: int| 0 <= j < i + 1 && #[trigger] keys@[j]@ == k;
                                    assert(j < i);
                                }
                            }
                        }
                    }
                    assert(entries_of(*target).dom() =~= base.dom());
                }
            },
            None => {},
        }
        i += 1;
    }
    proof {
        assert forall|k: Seq<char>| #[trigger] base.contains_key(k) implies entries_of(*target)[k]
            == base.union_prefer_right(patched)[k] by {
            if patched.contains_key(k) {
                let j = choose|j: int| 0 <= j < keys@.len() && keys@[j]@ == k;
                assert(named_before(keys@, n as int, k));
            } else {
                if named_before(keys@, n as int, k) {
                    let j = choose|j: int| 0 <= j < n && #[trigger] keys@[j]@ == k;
                    assert(patched.contains_key(keys@[j]@));
                }
            }
        }
        assert(entries_of(*target) =~= base.union_prefer_right(patched));
    }
    Ok(())
}

/// The headers of a document reply: only `Content-Type: application/json`.
pub open spec fn is_json_headers(h: Map<String, String>) -> bool {
    h.dom().len() == 1 && has_header(h, "Content-Type"@, "application/json"@)
}

/// The message of a patch that names a member the stored object lacks.
pub open spec fn unknown_key_message(k: Seq<char>) -> Seq<char> {
    "Key '"@ + k + "' does not exist in the original JSON"@
}

/// GET: the stored text with a JSON content type, or why there is none.
pub fn get_reply(found: Lookup) -> (r: HttpResponse)
    ensures
        match found {
            Lookup::Missing => is_status_reply(r, 404, "File not found"@),
            Lookup::Unreadable => is_status_reply(r, 500, "Failed to read file"@),
            Lookup::Found(c) => {
                &&& r.status_code == 200
                &&& r.body == Some(c)
                &&& is_json_headers(r.headers@)
            },
        },
{
    match found {
        Lookup::Missing => status_reply(404, "File not found"),
        Lookup::Unreadable => status_reply(500, "Failed to read file"),
        Lookup::Found(c) => {
            let mut h = HashMap::new();
            let k = String::from_str("Content-Type");
            let ghost key = k;
            set_header(&mut h, k, String::from_str("application/json"));
            proof {
                assert(h@.contains_key(key));
                assert(h@.dom() =~= Set::empty().insert(key));
            }
            HttpResponse::new(200, h, Some(c))
        },
    }
}

/// POST: the text to write for `body`, or the reply that refuses it.
pub fn create_plan(body: &RequestBody) -> (r: Result<String, HttpResponse>)
    ensures
        *body is Absent ==> (r matches Err(e) && is_status_reply(e, 400, "Missing JSON body"@)),
        !(*body is Absent) && body_object(*body) is None ==> (r matches Err(e) && is_status_reply(
            e,
            400,
            "Invalid JSON data: must be an object"@,
        )),
        body_object(*body) matches Some(m) ==> (r matches Ok(t) && t@ == pretty_json(m)),
{
    match body {
        RequestBody::Absent => Err(status_reply(400, "Missing JSON body")),
        RequestBody::Malformed => Err(status_reply(400, "Invalid JSON data: must be an object")),
        RequestBody::Json(v) => match v.as_object() {
            None => Err(status_reply(400, "Invalid JSON data: must be an object")),
            Some(m) => Ok(pretty_text(m)),
        },
    }
}

/// POST: the reply once the document was written, or was not.
pub fn create_reply(w: WriteOutcome) -> (r: HttpResponse)
    ensures
        match w {
            WriteOutcome::Written => is_status_reply(r, 201, "File created successfully"@),
            WriteOutcome::DirFailed(_) => is_status_reply(r, 500, "Failed to create directory"@),
            WriteOutcome::FileFailed(e) => is_status_reply(
                r,
                500,
                "Failed to create file: "@ + e@,
            ),
        },
{
    match w {
        WriteOutcome::Written => status_reply(201, "File created successfully"),
        WriteOutcome::DirFailed(_) => status_reply(500, "Failed to create directory"),
        WriteOutcome::FileFailed(e) => {
            let mut m = String::from_str("Failed to create file: ");
            m.append(e.as_str());
            status_reply(500, m.as_str())
        },
    }
}

/// PUT: the text to write over the existing document, or the reply that
/// refuses the request.
pub fn replace_plan(body: &RequestBody, present: bool) -> (r: Result<String, HttpResponse>)
    ensures
        *body is Absent ==> (r matches Err(e) && is_status_reply(e, 400, "Missing JSON body"@)),
        !(*body is Absent) && body_object(*body) is None ==> (r matches Err(e) && is_status_reply(
            e,
            400,
            "Invalid JSON data: must be an object"@,
        )),
        body_object(*body) is Some && !present ==> (r matches Err(e) && is_status_reply(
            e,
            404,
            "File not found"@,
        )),
        present ==> (body_object(*body) matches Some(m) ==> (r matches Ok(t) && t@ == pretty_json(m))),
{
    match body {
        RequestBody::Absent => Err(status_reply(400, "Missing JSON body")),
        RequestBody::Malformed => Err(status_reply(400, "Invalid JSON data: must be an object")),
        RequestBody::Json(v) => match v.as_object() {
            None => Err(status_reply(400, "Invalid JSON data: must be an object")),
            Some(m) => {
                if !present {
                    return Err(status_reply(404, "File not found"));
                }
                Ok(pretty_text(m))
            },
        },
    }
}

/// PUT: the reply once the document was overwritten, or was not.
pub fn replace_reply(w: WriteOutcome) -> (r: HttpResponse)
    ensures
        match w {
            WriteOutcome::Written => is_status_reply(r, 200, "File updated successfully"@),
            WriteOutcome::DirFailed(e) => is_status_reply(
                r,
                500,
                "Failed to update file: "@ + e@,
            ),
            WriteOutcome::FileFailed(e) => is_status_reply(
                r,
                500,
                "Failed to update file: "@ + e@,
            ),
        },
{
    match w {
        WriteOutcome::Written => status_reply(200, "File updated successfully"),
        WriteOutcome::DirFailed(e) | WriteOutcome::FileFailed(e) => {
            let mut m = String::from_str("Failed to update file: ");
            m.append(e.as_str());
            status_reply(500, m.as_str())
        },
    }
}

/// DELETE: the reply for what removing the document did.
pub fn delete_reply(d: Removal) -> (r: HttpResponse)
    ensures
        match d {
            Removal::Missing => is_status_reply(r, 404, "File not found"@),
            Removal::Removed => is_status_reply(r, 200, "File deleted successfully"@),
            Removal::Failed => is_status_reply(r, 500, "Failed to delete file"@),
        },
{
    match d {
        Removal::Missing => status_reply(404, "File not found"),
        Removal::Removed => status_reply(200, "File deleted successfully"),
        Removal::Failed => status_reply(500, "Failed to delete file"),
    }
}

/// The text to store is serde_json's indented text of an object with exactly
/// the merged members.
pub open spec fn is_merged_text(t: Seq<char>, stored: JsonObject, patch: JsonObject) -> bool {
    exists|m: JsonObject| entries_of(m) == merged_entries(stored, patch) && t == #[trigger] pretty_json(m)
}

/// PATCH: the text to write back after merging `body` into the stored
/// document, or the reply that refuses the request. A body that is not JSON
/// counts as a patch that is not an object.
pub fn patch_plan(body: &RequestBody, found: Lookup) -> (r: Result<String, HttpResponse>)
    ensures
        match *body {
            RequestBody::Absent => r matches Err(e) && is_status_reply(e, 400, "Missing JSON body"@),
            _ => match found {
                Lookup::Missing => r matches Err(e) && is_status_reply(e, 404, "File not found"@),
                Lookup::Unreadable => r matches Err(e) && is_status_reply(
                    e,
                    500,
                    "Failed to read file"@,
                ),
                Lookup::Found(text) => match parsed_json(text@) {
                    None => r matches Err(e) && is_status_reply(
                        e,
                        500,
                        "Failed to parse existing file"@,
                    ),
                    Some(existing) => match (object_of(existing), body_object(*body)) {
                        (Some(o), Some(q)) => if patch_fits(o, q) {
                            r matches Ok(t) && is_merged_text(t@, o, q)
                        } else {
                            r matches Err(e) && exists|k: Seq<char>|
                                {
                                    &&& entries_of(q).contains_key(k)
                                    &&& !entries_of(o).contains_key(k)
                                    &&& is_status_reply(e, 400, #[trigger] unknown_key_message(k))
                                }
                        },
                        _ => r matches Err(e) && is_status_reply(
                            e,
                            400,
                            "Existing data and patch must be JSON objects"@,
                        ),
                    },
                },
            },
        },
{
    if let RequestBody::Absent = body {
        return Err(status_reply(400, "Missing JSON body"));
    }
    let text = match found {
        Lookup::Missing => {
            return Err(status_reply(404, "File not found"));
        },
        Lookup::Unreadable => {
            return Err(status_reply(500, "Failed to read file"));
        },
        Lookup::Found(text) => text,
    };
    let existing = match parse_json(text.as_str()) {
        None => {
            return Err(status_reply(500, "Failed to parse existing file"));
        },
        Some(existing) => existing,
    };
    let target = into_object(existing);
    let patch = match body {
        RequestBody::Json(p) => p.as_object(),
        _ => None,
    };
    match (target, patch) {
        (Some(mut o), Some(q)) => {
            match merge_patch(&mut o, q) {
                Err(k) => {
                    let mut m = String::from_str("Key '");
                    m.append(k.as_str());
                    m.append("' does not exist in the original JSON");
                    let e = status_reply(400, m.as_str());
                    proof {
                        assert(is_status_reply(e, 400, unknown_key_message(k@)));
                    }
                    Err(e)
                },
                Ok(()) => {
                    let t = pretty_text(&o);
                    proof {
                        assert(t@ == pretty_json(o));
                    }
                    Ok(t)
                },
            }
        },
        _ => Err(status_reply(400, "Existing data and patch must be JSON objects")),
    }
}

/// PATCH: the reply once the merged document was written, or was not.
pub fn patch_reply(w: WriteOutcome) -> (r: HttpResponse)
    ensures
        match w {
            WriteOutcome::Written => is_status_reply(r, 200, "File patched successfully"@),
            _ => is_status_reply(r, 500, "Failed to patch file"@),
        },
{
    match w {
        WriteOutcome::Written => status_reply(200, "File patched successfully"),
        _ => status_reply(500, "Failed to patch file"),
    }
}

/// The reply to a method other than GET, POST, PUT, DELETE and PATCH.
pub fn handle_method_not_allowed() -> (r: HttpResponse)
    ensures
        r.status_code == 405,
        r.headers@ == Map::<String, String>::empty(),
        r.body matches Some(b) && b@ == "Method not allowed"@,
{
    HttpResponse::new(405, HashMap::new(), Some(String::from_str("Method not allowed")))
}

} // verus!
