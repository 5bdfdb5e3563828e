use ts2mp4::cli::{decide_run, RunDecision};
use ts2mp4::converter::{after_transcode, plan_for, transcode_argv, Arg, FileOutcome};
use ts2mp4::path_model::{derive_output_path, is_ts_file, normalize_separators};
use ts2mp4::walker::{classify_entry, max_depth_for, select_candidates, WalkEntry};

fn bytes(s: &str) -> Vec<u8> {
    s.as_bytes().to_vec()
}

fn entry(path: &str, depth: usize, is_file: bool) -> WalkEntry {
    WalkEntry { path: bytes(path), depth, is_file }
}

#[test]
fn output_path_replaces_ts_extension() {
    assert_eq!(derive_output_path(&bytes("/dir/video.ts")), bytes("/dir/video.mp4"));
}

#[test]
fn output_path_replaces_upper_case_extension() {
    assert_eq!(derive_output_path(&bytes("clip.TS")), bytes("clip.mp4"));
}

#[test]
fn output_path_appends_when_no_extension() {
    assert_eq!(derive_output_path(&bytes("noext")), bytes("noext.mp4"));
}

#[test]
fn output_path_keeps_hidden_file_name() {
    assert_eq!(derive_output_path(&bytes(".hidden")), bytes(".hidden.mp4"));
}

#[test]
fn output_path_replaces_last_extension_only() {
    assert_eq!(derive_output_path(&bytes("a.b.ts")), bytes("a.b.mp4"));
}

#[test]
fn output_path_ignores_dot_in_directory() {
    assert_eq!(derive_output_path(&bytes("dir.d/file")), bytes("dir.d/file.mp4"));
}

#[test]
fn output_path_depends_on_path_alone() {
    let first = derive_output_path(&bytes("sub/d.ts"));
    let second = derive_output_path(&bytes("sub/d.ts"));
    assert_eq!(first, second);
    assert_eq!(first, bytes("sub/d.mp4"));
}

#[test]
fn normalization_rewrites_backslashes() {
    assert_eq!(
        normalize_separators(&bytes("C:\\media\\in.ts")),
        bytes("C:/media/in.ts")
    );
}

#[test]
fn normalization_keeps_forward_slashes() {
    assert_eq!(normalize_separators(&bytes("/a/b.ts")), bytes("/a/b.ts"));
}

#[test]
fn extension_match_is_case_insensitive() {
    assert!(is_ts_file(&bytes("a.ts")));
    assert!(is_ts_file(&bytes("b.TS")));
    assert!(is_ts_file(&bytes("c.Ts")));
    assert!(!is_ts_file(&bytes("c.mp4")));
    assert!(!is_ts_file(&bytes("tsfile")));
    assert!(!is_ts_file(&bytes(".ts")));
}

#[test]
fn directories_are_never_candidates() {
    assert!(!classify_entry(&entry("/root/looks-like.ts", 1, false), false));
    assert!(classify_entry(&entry("/root/looks-like.ts", 1, true), false));
}

#[test]
fn wrong_extension_is_never_a_candidate() {
    assert!(!classify_entry(&entry("/root/c.mp4", 1, true), false));
    assert!(!classify_entry(&entry("/root/c.mp4", 1, true), true));
}

#[test]
fn scenario_mixed_directory_non_recursive() {
    let entries = vec![
        entry("/root/a.ts", 1, true),
        entry("/root/b.TS", 1, true),
        entry("/root/c.mp4", 1, true),
        entry("/root/sub", 1, false),
        entry("/root/sub/d.ts", 2, true),
    ];
    let picked = select_candidates(&entries, false);
    assert_eq!(picked, vec![bytes("/root/a.ts"), bytes("/root/b.TS")]);
}

#[test]
fn scenario_mixed_directory_recursive() {
    let entries = vec![
        entry("/root/a.ts", 1, true),
        entry("/root/b.TS", 1, true),
        entry("/root/c.mp4", 1, true),
        entry("/root/sub", 1, false),
        entry("/root/sub/d.ts", 2, true),
    ];
    let picked = select_candidates(&entries, true);
    assert_eq!(
        picked,
        vec![bytes("/root/a.ts"), bytes("/root/b.TS"), bytes("/root/sub/d.ts")]
    );
}

#[test]
fn no_matching_files_means_no_work() {
    let entries = vec![
        entry("/root/c.mp4", 1, true),
        entry("/root/sub", 1, false),
    ];
    assert_eq!(select_candidates(&entries, false), Vec::<Vec<u8>>::new());
    assert_eq!(select_candidates(&entries, true), Vec::<Vec<u8>>::new());
}

#[test]
fn walk_depth_bound_follows_recursion_flag() {
    assert_eq!(max_depth_for(false), 1);
    assert_eq!(max_depth_for(true), usize::MAX);
}

#[test]
fn plan_normalizes_both_command_line_paths() {
    let plan = plan_for(&bytes("dir\\a.ts"));
    assert_eq!(plan.input, bytes("dir\\a.ts"));
    assert_eq!(plan.arg_input, bytes("dir/a.ts"));
    assert_eq!(plan.arg_output, bytes("dir/a.mp4"));
}

#[test]
fn argv_holds_the_fixed_policy_in_order() {
    let plan = plan_for(&bytes("/m/a.ts"));
    let argv = transcode_argv(&plan);
    assert_eq!(argv.len(), 7);
    assert!(matches!(argv[0], Arg::HwAccel));
    assert!(matches!(argv[1], Arg::Cuda));
    assert!(matches!(argv[2], Arg::InputFlag));
    assert!(matches!(&argv[3], Arg::PathArg(p) if *p == bytes("/m/a.ts")));
    assert!(matches!(argv[4], Arg::Codec));
    assert!(matches!(argv[5], Arg::CopyStreams));
    assert!(matches!(&argv[6], Arg::PathArg(p) if *p == bytes("/m/a.mp4")));
}

#[test]
fn success_deletes_the_input_and_nothing_else() {
    let plan = plan_for(&bytes("/m/a.ts"));
    let step = after_transcode(&plan, true);
    assert_eq!(step.outcome, FileOutcome::Converted);
    assert_eq!(step.delete, Some(bytes("/m/a.ts")));
}

#[test]
fn failure_deletes_nothing() {
    let plan = plan_for(&bytes("/m/a.ts"));
    let step = after_transcode(&plan, false);
    assert_eq!(step.outcome, FileOutcome::Failed);
    assert_eq!(step.delete, None);
}

#[test]
fn zero_arguments_is_a_usage_error() {
    let d = decide_run(&Vec::new(), false, false);
    assert!(matches!(d, RunDecision::UsageError));
    assert_eq!(d.exit_code(), 1);
}

#[test]
fn one_argument_is_a_usage_error() {
    let d = decide_run(&vec![bytes("prog")], true, true);
    assert!(matches!(d, RunDecision::UsageError));
    assert_eq!(d.exit_code(), 1);
}

#[test]
fn a_regular_file_target_is_rejected() {
    let d = decide_run(&vec![bytes("prog"), bytes("/tmp/file.txt")], true, false);
    assert!(matches!(d, RunDecision::InvalidDirectory));
    assert_eq!(d.exit_code(), 1);
}

#[test]
fn a_missing_target_is_rejected() {
    let d = decide_run(&vec![bytes("prog"), bytes("/nowhere")], false, false);
    assert!(matches!(d, RunDecision::InvalidDirectory));
    assert_eq!(d.exit_code(), 1);
}

#[test]
fn a_directory_target_proceeds_without_recursion() {
    let d = decide_run(&vec![bytes("prog"), bytes("/media")], true, true);
    assert_eq!(d.exit_code(), 0);
    match d {
        RunDecision::Proceed { directory, recursive } => {
            assert_eq!(directory, bytes("/media"));
            assert!(!recursive);
        }
        _ => panic!("expected the run to proceed"),
    }
}

#[test]
fn the_recursion_flag_is_found_anywhere() {
    let d = decide_run(&vec![bytes("prog"), bytes("/media"), bytes("-r")], true, true);
    match d {
        RunDecision::Proceed { directory, recursive } => {
            assert_eq!(directory, bytes("/media"));
            assert!(recursive);
        }
        _ => panic!("expected the run to proceed"),
    }
}
