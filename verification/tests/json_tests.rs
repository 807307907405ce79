use g_flite::json::render_task_json;
use g_flite::split::split;
use g_flite::task::build_task;

#[test]
fn task_json_exact_bytes() {
    let chunks = split(b"one two three four", 2).unwrap();
    let ws = b"/w".to_vec();
    let (d, _) = build_task(&chunks, &ws);
    let rendered = String::from_utf8(render_task_json(&d)).unwrap();
    let mut expected = String::new();
    expected.push_str("{\"bid\":1,\"name\":\"g_flite\",");
    expected.push_str("\"options\":{\"input_dir\":\"/w/in\",\"js_name\":\"flite.js\",");
    expected.push_str("\"output_dir\":\"/w/out\",\"subtasks\":{");
    expected.push_str(
        "\"subtask0\":{\"exec_args\":[\"in.txt\",\"in.wav\"],\"output_file_paths\":[\"in.wav\"]},",
    );
    expected.push_str(
        "\"subtask1\":{\"exec_args\":[\"in.txt\",\"in.wav\"],\"output_file_paths\":[\"in.wav\"]}",
    );
    expected.push_str("},\"wasm_name\":\"flite.wasm\"},");
    expected.push_str("\"subtask_timeout\":\"00:10:00\",\"timeout\":\"00:10:00\",\"type\":\"wasm\"}");
    assert_eq!(rendered, expected);
}

#[test]
fn task_json_parses_back() {
    let chunks = split(b"the quick brown fox jumps", 2).unwrap();
    let ws = b"/tmp/g_flite_7".to_vec();
    let (d, _) = build_task(&chunks, &ws);
    let bytes = render_task_json(&d);
    let v: serde_json::Value = serde_json::from_slice(&bytes).unwrap();
    assert_eq!(v["type"], serde_json::Value::String("wasm".to_string()));
    assert_eq!(v["name"], serde_json::Value::String("g_flite".to_string()));
    assert_eq!(v["bid"], serde_json::Value::from(1u64));
    assert_eq!(v["timeout"], serde_json::Value::String("00:10:00".to_string()));
    assert_eq!(
        v["options"]["input_dir"],
        serde_json::Value::String("/tmp/g_flite_7/in".to_string())
    );
    let subtasks = v["options"]["subtasks"].as_object().unwrap();
    assert_eq!(subtasks.len(), 2);
    let st0 = &subtasks["subtask0"];
    assert_eq!(
        st0["exec_args"],
        serde_json::Value::Array(vec![
            serde_json::Value::String("in.txt".to_string()),
            serde_json::Value::String("in.wav".to_string()),
        ])
    );
    assert_eq!(
        st0["output_file_paths"],
        serde_json::Value::Array(vec![serde_json::Value::String("in.wav".to_string())])
    );
}

#[test]
fn workspace_path_is_escaped() {
    let chunks = split(b"two words here", 1).unwrap();
    let ws = b"/odd\"dir\\name\n".to_vec();
    let (d, _) = build_task(&chunks, &ws);
    let bytes = render_task_json(&d);
    let v: serde_json::Value = serde_json::from_slice(&bytes).unwrap();
    assert_eq!(
        v["options"]["input_dir"],
        serde_json::Value::String("/odd\"dir\\name\n/in".to_string())
    );
}
