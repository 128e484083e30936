use rust_http::json::{request_body, RequestBody};
use rust_http::{
    create_plan, create_reply, delete_reply, document_path, get_reply, handle_method_not_allowed,
    merge_patch, patch_plan, patch_reply, replace_plan, replace_reply, Lookup, Removal,
    WriteOutcome,
};
use serde_json::Value;

fn json(text: &str) -> Value {
    serde_json::from_str(text).unwrap()
}

fn body_of(r: &rust_http::HttpResponse) -> Value {
    json(r.body.as_ref().unwrap())
}

#[test]
fn test_handle_get_successfully() {
    let contents = "{\n  \"key\": \"value\"\n}".to_string();
    let response = get_reply(Lookup::Found(contents.clone()));
    assert_eq!(response.status_code, 200, "Status code should be 200");
    assert_eq!(response.body, Some(contents), "File contents should be the same");
    assert_eq!(response.headers.get("Content-Type").unwrap(), "application/json");
}

#[test]
fn test_handle_get_file_not_found() {
    let response = get_reply(Lookup::Missing);
    assert_eq!(response.status_code, 404, "Status code should be 404");
}

#[test]
fn get_unreadable_file_is_a_server_error() {
    let response = get_reply(Lookup::Unreadable);
    assert_eq!(response.status_code, 500);
    assert_eq!(body_of(&response), json(r#"{"status_code":500,"message":"Failed to read file"}"#));
}

#[test]
fn test_handle_post_successfully() {
    let json_body = json(r#"{"key": "value", "number": 42}"#);
    let text = create_plan(&RequestBody::Json(json_body.clone())).unwrap();
    let saved_json: Value = serde_json::from_str(&text).expect("Failed to parse JSON");
    assert_eq!(saved_json, json_body, "Saved JSON should match the input");
    let response = create_reply(WriteOutcome::Written);
    assert_eq!(response.status_code, 201, "Status code should be 201");
}

#[test]
fn test_handle_post_invalid_json_data() {
    let invalid_json = Value::String("This is not a valid JSON object".to_string());
    let response = create_plan(&RequestBody::Json(invalid_json.clone())).unwrap_err();
    assert_eq!(response.status_code, 400, "Status code should be 400");
}

#[test]
fn test_handle_post_missing_json() {
    let response = create_plan(&RequestBody::Absent).unwrap_err();
    assert_eq!(response.status_code, 400, "Status code should be 400");
}

#[test]
fn test_handle_post_existing_file() {
    let json_body = json(r#"{"key": "value"}"#);
    let first = create_plan(&RequestBody::Json(json_body.clone())).unwrap();
    let second = create_plan(&RequestBody::Json(json_body.clone())).unwrap();
    assert_eq!(first, second);
    let response = create_reply(WriteOutcome::Written);
    assert_eq!(response.status_code, 201, "Status code should be 201");
}

#[test]
fn post_write_failures_are_server_errors() {
    let dir = create_reply(WriteOutcome::DirFailed("denied".to_string()));
    assert_eq!(dir.status_code, 500);
    assert_eq!(body_of(&dir)["message"], "Failed to create directory");
    let file = create_reply(WriteOutcome::FileFailed("disk full".to_string()));
    assert_eq!(file.status_code, 500);
    assert_eq!(body_of(&file)["message"], "Failed to create file: disk full");
}

#[test]
fn test_handle_put_successfully() {
    let updated_json = json(r#"{"key": "updated_value"}"#);
    let text = replace_plan(&RequestBody::Json(updated_json.clone()), true).unwrap();
    let saved_json: Value = serde_json::from_str(&text).expect("Failed to parse JSON");
    assert_eq!(saved_json, updated_json, "Saved JSON should match the updated input");
    let response = replace_reply(WriteOutcome::Written);
    assert_eq!(response.status_code, 200, "Status code should be 200");
}

#[test]
fn test_handle_put_invalid_json_data() {
    let invalid_json = Value::String("This is not a valid JSON object".to_string());
    let response = replace_plan(&RequestBody::Json(invalid_json.clone()), false).unwrap_err();
    assert_eq!(response.status_code, 400, "Status code should be 400");
}

#[test]
fn test_handle_put_file_not_found() {
    let json_body = json(r#"{"key": "value"}"#);
    let response = replace_plan(&RequestBody::Json(json_body.clone()), false).unwrap_err();
    assert_eq!(response.status_code, 404, "Status code should be 404");
}

#[test]
fn test_handle_put_missing_json() {
    let response = replace_plan(&RequestBody::Absent, true).unwrap_err();
    assert_eq!(response.status_code, 400, "Status code should be 400");
    assert!(
        response.body.unwrap().contains("Missing JSON body"),
        "Response should mention missing JSON body"
    );
}

#[test]
fn test_handle_put_empty_json_object() {
    let empty_json = json("{}");
    let text = replace_plan(&RequestBody::Json(empty_json.clone()), true).unwrap();
    let saved_json: Value = serde_json::from_str(&text).expect("Failed to parse JSON");
    assert_eq!(saved_json, empty_json, "Saved JSON should be an empty object");
    assert_eq!(replace_reply(WriteOutcome::Written).status_code, 200, "Status code should be 200");
}

#[test]
fn put_write_failure_names_the_cause() {
    let response = replace_reply(WriteOutcome::FileFailed("read-only".to_string()));
    assert_eq!(response.status_code, 500);
    assert_eq!(body_of(&response)["message"], "Failed to update file: read-only");
}

#[test]
fn test_handle_delete_successfully() {
    let response = delete_reply(Removal::Removed);
    assert_eq!(response.status_code, 200, "Status code should be 200");
}

#[test]
fn test_handle_delete_file_not_found() {
    let response = delete_reply(Removal::Missing);
    assert_eq!(response.status_code, 404, "Status code should be 404");
}

#[test]
fn delete_failure_is_a_server_error() {
    assert_eq!(delete_reply(Removal::Failed).status_code, 500);
}

#[test]
fn test_handle_patch_successfully() {
    let initial = create_plan(&RequestBody::Json(json(r#"{"key1": "value1", "key2": "value2"}"#))).unwrap();
    let patch_json = json(r#"{"key2": "new_value2"}"#);
    let text = patch_plan(&RequestBody::Json(patch_json.clone()), Lookup::Found(initial)).unwrap();
    let saved_json: Value = serde_json::from_str(&text).expect("Failed to parse JSON");
    assert_eq!(
        saved_json,
        json(r#"{"key1": "value1", "key2": "new_value2"}"#),
        "Saved JSON should reflect the patch"
    );
    assert_eq!(patch_reply(WriteOutcome::Written).status_code, 200, "Status code should be 200");
}

#[test]
fn test_handle_patch_file_not_found() {
    let patch_json = json(r#"{"key": "value"}"#);
    let response = patch_plan(&RequestBody::Json(patch_json.clone()), Lookup::Missing).unwrap_err();
    assert_eq!(response.status_code, 404, "Status code should be 404");
}

#[test]
fn test_handle_patch_invalid_json() {
    let initial = create_plan(&RequestBody::Json(json(r#"{"key": "value"}"#))).unwrap();
    let invalid_json: Value = serde_json::from_str("{invalid_json}").unwrap_or(Value::Null);
    let response = patch_plan(&RequestBody::Json(invalid_json.clone()), Lookup::Found(initial)).unwrap_err();
    assert_eq!(response.status_code, 400, "Status code should be 400");
}

#[test]
fn patch_replaces_named_members_only() {
    let stored = r#"{"a":1,"b":2}"#.to_string();
    let text = patch_plan(&RequestBody::Json(json(r#"{"b":3}"#)), Lookup::Found(stored)).unwrap();
    assert_eq!(json(&text), json(r#"{"a":1,"b":3}"#));
    assert_eq!(patch_reply(WriteOutcome::Written).status_code, 200);
}

#[test]
fn patch_with_unknown_member_is_refused() {
    let stored = r#"{"a":1,"b":2}"#.to_string();
    let response = patch_plan(&RequestBody::Json(json(r#"{"c":4}"#)), Lookup::Found(stored)).unwrap_err();
    assert_eq!(response.status_code, 400);
    assert_eq!(body_of(&response)["message"], "Key 'c' does not exist in the original JSON");
}

#[test]
fn merge_leaves_target_alone_on_unknown_member() {
    let mut target = json(r#"{"a":1,"b":2}"#).as_object().unwrap().clone();
    let patch = json(r#"{"b":5,"c":4}"#).as_object().unwrap().clone();
    let before = target.clone();
    assert_eq!(merge_patch(&mut target, &patch), Err("c".to_string()));
    assert_eq!(target, before);
}

#[test]
fn merge_replaces_whole_values() {
    let mut target = json(r#"{"a":{"x":1,"y":2},"b":2}"#).as_object().unwrap().clone();
    let patch = json(r#"{"a":{"x":9}}"#).as_object().unwrap().clone();
    assert_eq!(merge_patch(&mut target, &patch), Ok(()));
    assert_eq!(Value::Object(target), json(r#"{"a":{"x":9},"b":2}"#));
}

#[test]
fn patch_refusals() {
    assert_eq!(patch_plan(&RequestBody::Absent, Lookup::Missing).unwrap_err().status_code, 400);
    let p = json(r#"{"a":1}"#);
    assert_eq!(patch_plan(&RequestBody::Json(p.clone()), Lookup::Unreadable).unwrap_err().status_code, 500);
    let broken = patch_plan(&RequestBody::Json(p.clone()), Lookup::Found("{not json".to_string())).unwrap_err();
    assert_eq!(broken.status_code, 500);
    assert_eq!(body_of(&broken)["message"], "Failed to parse existing file");
    let array = patch_plan(&RequestBody::Json(p.clone()), Lookup::Found("[1,2]".to_string())).unwrap_err();
    assert_eq!(array.status_code, 400);
    assert_eq!(patch_reply(WriteOutcome::FileFailed("x".to_string())).status_code, 500);
}

#[test]
fn crud_round_trip_through_the_store_decisions() {
    let document = json(r#"{"name":"x","n":[1,2,3]}"#);
    let text = create_plan(&RequestBody::Json(document.clone())).unwrap();
    assert_eq!(create_reply(WriteOutcome::Written).status_code, 201);
    let got = get_reply(Lookup::Found(text.clone()));
    assert_eq!(got.status_code, 200);
    assert_eq!(got.body, Some(text));
    assert_eq!(json(got.body.as_ref().unwrap()), document);
    assert_eq!(delete_reply(Removal::Removed).status_code, 200);
    assert_eq!(get_reply(Lookup::Missing).status_code, 404);
}

#[test]
fn test_handle_unallowed_method() {
    let response = handle_method_not_allowed();
    assert_eq!(response.status_code, 405, "Status code should be 405");
}

#[test]
fn not_allowed_reply_has_fixed_body() {
    let response = handle_method_not_allowed();
    assert_eq!(response.body, Some("Method not allowed".to_string()));
    assert!(response.headers.is_empty());
}

#[test]
fn documents_live_under_files() {
    assert_eq!(document_path("abc"), "./files/abc.json");
    assert_eq!(document_path("/get"), "./files//get.json");
}

#[test]
fn request_body_json() {
    assert!(matches!(request_body(""), RequestBody::Absent));
    assert!(matches!(request_body("{oops"), RequestBody::Malformed));
    match request_body(r#"{"a":1}"#) {
        RequestBody::Json(v) => assert_eq!(v, json(r#"{"a":1}"#)),
        _ => panic!("a JSON body"),
    }
}

#[test]
fn status_bodies_are_json_objects() {
    let r = create_plan(&RequestBody::Absent).unwrap_err();
    assert_eq!(body_of(&r), json(r#"{"status_code":400,"message":"Missing JSON body"}"#));
}

#[test]
fn body_that_is_not_json_is_invalid_data() {
    let post = create_plan(&RequestBody::Malformed).unwrap_err();
    assert_eq!(post.status_code, 400);
    assert_eq!(body_of(&post)["message"], "Invalid JSON data: must be an object");
    let put = replace_plan(&RequestBody::Malformed, true).unwrap_err();
    assert_eq!(put.status_code, 400);
    assert_eq!(body_of(&put)["message"], "Invalid JSON data: must be an object");
    let stored = r#"{"a":1}"#.to_string();
    let patch = patch_plan(&RequestBody::Malformed, Lookup::Found(stored)).unwrap_err();
    assert_eq!(patch.status_code, 400);
}

#[test]
fn repeated_patch_gives_the_same_document() {
    let stored = r#"{"a":1,"b":2}"#.to_string();
    let p = RequestBody::Json(json(r#"{"b":3}"#));
    let once = patch_plan(&p, Lookup::Found(stored)).unwrap();
    let twice = patch_plan(&p, Lookup::Found(once.clone())).unwrap();
    assert_eq!(json(&once), json(&twice));
}
