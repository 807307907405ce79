use g_flite::split::split;
use g_flite::task::{build_task, subtask_name};

#[test]
fn subtask_names_carry_the_index() {
    assert_eq!(subtask_name(0), b"subtask0".to_vec());
    assert_eq!(subtask_name(7), b"subtask7".to_vec());
    assert_eq!(subtask_name(137), b"subtask137".to_vec());
}

#[test]
fn descriptor_fixed_fields() {
    let chunks = split(b"one two three four", 2).unwrap();
    let ws = b"/tmp/g_flite_12345".to_vec();
    let (d, _) = build_task(&chunks, &ws);
    assert_eq!(d.kind, b"wasm".to_vec());
    assert_eq!(d.display_name, b"g_flite".to_vec());
    assert_eq!(d.bid, 1);
    assert_eq!(d.timeout, b"00:10:00".to_vec());
    assert_eq!(d.subtask_timeout, b"00:10:00".to_vec());
    assert_eq!(d.js_name, b"flite.js".to_vec());
    assert_eq!(d.wasm_name, b"flite.wasm".to_vec());
    assert_eq!(d.input_dir, b"/tmp/g_flite_12345/in".to_vec());
    assert_eq!(d.output_dir, b"/tmp/g_flite_12345/out".to_vec());
}

#[test]
fn descriptor_subtasks_and_paths() {
    let chunks = split(b"one two three four", 2).unwrap();
    let ws = b"/tmp/g_flite_12345".to_vec();
    let (d, outs) = build_task(&chunks, &ws);
    assert_eq!(d.subtasks.len(), 2);
    assert_eq!(d.subtasks[0].name, b"subtask0".to_vec());
    assert_eq!(d.subtasks[1].name, b"subtask1".to_vec());
    assert_eq!(
        d.subtasks[0].input_path,
        b"/tmp/g_flite_12345/in/subtask0/in.txt".to_vec()
    );
    assert_eq!(
        d.subtasks[1].output_path,
        b"/tmp/g_flite_12345/out/subtask1/in.wav".to_vec()
    );
    assert_eq!(
        d.subtasks[0].exec_args,
        vec![b"in.txt".to_vec(), b"in.wav".to_vec()]
    );
    assert_eq!(d.subtasks[0].declared_output_files, vec![b"in.wav".to_vec()]);
    // the output-path list is ordered by chunk index and mirrors the subtasks
    assert_eq!(outs.len(), 2);
    assert_eq!(outs[0], d.subtasks[0].output_path);
    assert_eq!(outs[1], d.subtasks[1].output_path);
}

#[test]
fn output_paths_match_subtasks_for_any_count() {
    let ws = b"/w".to_vec();
    let (d0, outs0) = build_task(&Vec::new(), &ws);
    assert_eq!(outs0.len(), 0);
    assert_eq!(d0.subtasks.len(), 0);

    let chunks = split(b"a b c d e f g h i j k l", 12).unwrap();
    let (d, outs) = build_task(&chunks, &ws);
    assert_eq!(outs.len(), chunks.len());
    for (i, p) in outs.iter().enumerate() {
        assert_eq!(p, &d.subtasks[i].output_path);
        let path = String::from_utf8(p.clone()).unwrap();
        assert!(path.contains(&format!("subtask{}", i)));
    }
}
