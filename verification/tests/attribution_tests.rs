use astraea::attribution::{attribute_frames, extract_package_name, is_stack_anomaly, STACK_ANOMALY_DEPTH};

#[test]
fn package_name_of_empty_and_unknown_origin_is_root() {
    assert_eq!(extract_package_name(""), "root");
    assert_eq!(extract_package_name("Unknown (Internal/Async)"), "root");
}

#[test]
fn package_name_of_eval_code() {
    assert_eq!(extract_package_name("[eval]"), "eval");
}

#[test]
fn package_name_of_node_internals_is_root() {
    assert_eq!(extract_package_name("node:fs"), "root");
    assert_eq!(extract_package_name("internal/modules/cjs/loader"), "root");
    assert_eq!(extract_package_name("node:internal/node_modules/x/y.js"), "root");
}

#[test]
fn package_name_of_plain_package() {
    assert_eq!(extract_package_name("/app/node_modules/axios/lib/axios.js"), "axios");
    assert_eq!(extract_package_name("/app/node_modules/lodash"), "lodash");
    assert_eq!(extract_package_name("/app/node_modules/"), "");
}

#[test]
fn package_name_of_scoped_package() {
    assert_eq!(extract_package_name("/app/node_modules/@scope/pkg/index.js"), "@scope/pkg");
    assert_eq!(extract_package_name("/app/node_modules/@scope/pkg"), "@scope/pkg");
    assert_eq!(extract_package_name("/app/node_modules/@scope"), "@scope");
}

#[test]
fn package_name_uses_first_node_modules() {
    assert_eq!(
        extract_package_name("/app/node_modules/express/node_modules/qs/lib/index.js"),
        "express"
    );
}

#[test]
fn package_name_of_application_code_is_root() {
    assert_eq!(extract_package_name("/app/src/index.js"), "root");
    assert_eq!(extract_package_name("file:///app/main.mjs"), "root");
}

#[test]
fn attribution_skips_node_frames_up_to_first_user_script() {
    let frames = vec![
        Some("node:fs".to_string()),
        Some("internal/fs/promises".to_string()),
        Some("/app/node_modules/axios/lib/adapters/http.js".to_string()),
        Some("/app/src/index.js".to_string()),
    ];
    let a = attribute_frames(&frames, Some("/app/src/other.js"));
    assert_eq!(a.package, "axios");
    assert_eq!(a.remembered.as_deref(), Some("/app/node_modules/axios/lib/adapters/http.js"));
}

#[test]
fn attribution_without_user_frame_keeps_the_remembered_context() {
    let frames = vec![Some("node:fs".to_string()), None, Some("internal/timers".to_string()), None];
    let a = attribute_frames(&frames, Some("/app/node_modules/pg/index.js"));
    assert_eq!(a.package, "pg");
    assert_eq!(a.remembered, None);
}

#[test]
fn attribution_skips_unreadable_and_internal_frames_before_a_user_script() {
    let frames = vec![None, Some("node:net".to_string()), Some(String::new()), Some("/app/node_modules/ws/lib/x.js".to_string())];
    let a = attribute_frames(&frames, None);
    assert_eq!(a.package, "ws");
    assert_eq!(a.remembered.as_deref(), Some("/app/node_modules/ws/lib/x.js"));
}

#[test]
fn attribution_falls_back_to_remembered_origin() {
    let frames: Vec<Option<String>> = vec![None, None];
    let a = attribute_frames(&frames, Some("/app/node_modules/@aws-sdk/client-s3/dist/index.js"));
    assert_eq!(a.package, "@aws-sdk/client-s3");
    assert_eq!(a.remembered, None);
}

#[test]
fn attribution_with_empty_frame_name_falls_back() {
    let frames = vec![Some(String::new())];
    let a = attribute_frames(&frames, Some("/app/node_modules/ws/index.js"));
    assert_eq!(a.package, "ws");
    assert_eq!(a.remembered, None);
}

#[test]
fn attribution_without_any_origin_is_root() {
    let frames: Vec<Option<String>> = Vec::new();
    let a = attribute_frames(&frames, None);
    assert_eq!(a.package, "root");
    assert_eq!(a.remembered, None);
}

#[test]
fn stack_anomaly_threshold() {
    assert_eq!(STACK_ANOMALY_DEPTH, 50);
    assert!(!is_stack_anomaly(0));
    assert!(!is_stack_anomaly(49));
    assert!(is_stack_anomaly(50));
    assert!(is_stack_anomaly(200));
}
