use testrunner::project::definition::ProjectDefinition;
use testrunner::test::io_test::{
    command_used, parse_vg_log, prepare_cmdline, prepare_envvars, prepare_valgrind, truncate_output, vg_log_dir,
    IoTest,
};
use testrunner::test::test::{
    did_pass, get_valgrind_result, io_test_passed, DiffKind, TestMeta, TestcaseType, TestingError,
};
use testrunner::testrunner::TestrunnerOptions;

fn definition(use_valgrind: Option<bool>) -> ProjectDefinition {
    ProjectDefinition {
        binary_path: "prog".to_string(),
        makefile_path: None,
        make_targets: None,
        global_timeout: None,
        valgrind_flags: None,
        valgrind_log_folder: None,
        diff_table_width: None,
        use_valgrind,
    }
}

fn options(sudo: Option<&str>) -> TestrunnerOptions {
    TestrunnerOptions { verbose: false, protected_mode: false, ws_hints: true, sudo: sudo.map(|s| s.to_string()) }
}

fn meta(number: i32, timeout: Option<u64>, protected: bool) -> TestMeta {
    TestMeta {
        number,
        name: "case".to_string(),
        description: None,
        timeout,
        add_diff_mode: DiffKind::PlainText,
        add_out_file: None,
        add_exp_file: None,
        protected,
    }
}

fn strings(v: &[&str]) -> Vec<String> {
    v.iter().map(|s| s.to_string()).collect()
}

#[test]
fn cmdline_runs_under_valgrind_by_default() {
    let (cmd, flags) = prepare_cmdline(&definition(None), &options(None), "log.txt", true, true).unwrap();
    assert_eq!(cmd, "valgrind");
    assert_eq!(
        flags,
        strings(&["--leak-check=full", "--show-leak-kinds=all", "--track-origins=yes", "--log-file=log.txt", "./prog"])
    );
}

#[test]
fn cmdline_uses_configured_valgrind_flags() {
    let mut pd = definition(Some(true));
    pd.valgrind_flags = Some(strings(&["-q"]));
    let (cmd, flags) = prepare_cmdline(&pd, &options(Some("bob")), "/tmp/x", true, true).unwrap();
    assert_eq!(cmd, "sudo");
    assert_eq!(flags, strings(&["--preserve-env", "--user=bob", "valgrind", "-q", "--log-file=/tmp/x", "./prog"]));
}

#[test]
fn cmdline_without_valgrind() {
    let (cmd, flags) = prepare_cmdline(&definition(Some(false)), &options(None), "log", false, false).unwrap();
    assert_eq!(cmd, "./prog");
    assert!(flags.is_empty());
    let (cmd, flags) = prepare_cmdline(&definition(Some(false)), &options(Some("eve")), "log", true, false).unwrap();
    assert_eq!(cmd, "sudo");
    assert_eq!(flags, strings(&["--preserve-env", "--user=eve", "./prog"]));
}

#[test]
fn cmdline_reports_missing_programs() {
    match prepare_cmdline(&definition(None), &options(Some("bob")), "log", false, false) {
        Err(TestingError::MissingBinDependency(p)) => assert_eq!(p, "sudo"),
        other => panic!("unexpected {:?}", other),
    }
    match prepare_cmdline(&definition(None), &options(Some("bob")), "log", true, false) {
        Err(TestingError::MissingBinDependency(p)) => assert_eq!(p, "valgrind"),
        other => panic!("unexpected {:?}", other),
    }
    match prepare_cmdline(&definition(None), &options(None), "log", false, false) {
        Err(TestingError::MissingBinDependency(p)) => assert_eq!(p, "valgrind"),
        other => panic!("unexpected {:?}", other),
    }
}

#[test]
fn envvars_split_at_first_equals() {
    let vars = strings(&["A=1=2", "B", "=x", "C="]);
    let pairs = prepare_envvars(Some(&vars));
    assert_eq!(
        pairs,
        vec![
            ("A".to_string(), "1=2".to_string()),
            ("B".to_string(), "".to_string()),
            ("".to_string(), "x".to_string()),
            ("C".to_string(), "".to_string()),
        ]
    );
    assert!(prepare_envvars(None).is_empty());
}

#[test]
fn envvar_split_round_trips() {
    let vars = strings(&["PATH=/bin:/usr/bin", "LANG=C.UTF-8"]);
    for (var, (name, value)) in vars.iter().zip(prepare_envvars(Some(&vars))) {
        assert!(!name.contains('='));
        assert_eq!(format!("{}={}", name, value), *var);
    }
}

#[test]
fn valgrind_paths() {
    let (folder, path) =
        prepare_valgrind(&definition(None), &options(None), &meta(3, None, false), ".", "/tmp", "abc");
    assert_eq!(folder, "valgrind_logs");
    assert_eq!(path, "./valgrind_logs/3/vg_log.txt");
    let mut pd = definition(None);
    pd.valgrind_log_folder = Some("vg".to_string());
    let (folder, path) = prepare_valgrind(&pd, &options(Some("bob")), &meta(3, None, false), ".", "/tmp", "abc");
    assert_eq!(folder, "vg");
    assert_eq!(path, "/tmp/testrunner-abc");
    assert_eq!(vg_log_dir("b", "f", -12), "b/f/-12");
    assert_eq!(vg_log_dir("b", "f", 2147483647), "b/f/2147483647");
    assert_eq!(vg_log_dir("b", "f", -2147483648), "b/f/-2147483648");
}

const VG_LOG: &str = "==1== HEAP SUMMARY:\n==1==     in use at exit: 1,024 bytes in 1,203 blocks\n==1==   total heap usage: 4 allocs\n==1== ERROR SUMMARY: 2 errors from 2 contexts (suppressed: 0 from 0)\n";

#[test]
fn valgrind_log_is_parsed() {
    let path = "x/vg_log.txt".to_string();
    assert_eq!(parse_vg_log(&path, Some(VG_LOG)).unwrap(), (1203, 2));
    let clean = "in use at exit: 0 bytes in 0 blocks\nERROR SUMMARY: 0 errors from 0 contexts";
    assert_eq!(parse_vg_log(&path, Some(clean)).unwrap(), (0, 0));
}

#[test]
fn valgrind_log_errors() {
    let path = "x/vg_log.txt".to_string();
    match parse_vg_log(&path, None) {
        Err(TestingError::VgLogNotFound(p)) => assert_eq!(p, path),
        other => panic!("unexpected {:?}", other),
    }
    match parse_vg_log(&path, Some("nothing here")) {
        Err(TestingError::VgLogParseError(p)) => assert_eq!(p, path),
        other => panic!("unexpected {:?}", other),
    }
}

#[test]
fn valgrind_counts_too_large_read_as_minus_one() {
    let log = "in use at exit: 5 bytes in 99,999,999,999 blocks\nERROR SUMMARY: 1 error from 1 context";
    assert_eq!(parse_vg_log(&"p".to_string(), Some(log)).unwrap(), (-1, 1));
}

#[test]
fn valgrind_result_by_outcome() {
    let pd = definition(None);
    assert_eq!(get_valgrind_result(&pd, Ok((1, 2))).unwrap(), (Some(1), Some(2)));
    assert_eq!(get_valgrind_result(&pd, Err(TestingError::VgLogParseError("p".to_string()))).unwrap(), (None, None));
    assert!(matches!(
        get_valgrind_result(&pd, Err(TestingError::VgLogNotFound("p".to_string()))),
        Err(TestingError::VgLogNotFound(_))
    ));
    assert_eq!(get_valgrind_result(&definition(Some(false)), Ok((1, 2))).unwrap(), (None, None));
}

#[test]
fn output_is_truncated_to_twice_the_reference() {
    assert_eq!(truncate_output("abcdefgh", "ab"), ("abcd".to_string(), true));
    assert_eq!(truncate_output("abcd", "ab"), ("abcd".to_string(), false));
    assert_eq!(truncate_output("ééééé", "é"), ("éé".to_string(), true));
    assert_eq!(truncate_output("x", ""), ("".to_string(), true));
}

#[test]
fn command_line_shown_in_reports() {
    let pd = definition(None);
    assert_eq!(command_used(&pd, &strings(&["-a", "b"])), "./prog -a b");
    assert_eq!(command_used(&pd, &vec![]), "./prog ");
}

#[test]
fn pass_rules() {
    assert!(did_pass(None, Some(0), true, true, false));
    assert!(!did_pass(None, Some(1), true, true, false));
    assert!(did_pass(Some(3), Some(3), true, true, false));
    assert!(!did_pass(Some(3), None, true, true, false));
    assert!(!did_pass(None, Some(0), false, true, false));
    assert!(!did_pass(None, Some(0), true, false, false));
    assert!(!did_pass(None, Some(0), true, true, true));
    assert!(!io_test_passed(None, Some(0), true, true, false));
    assert!(io_test_passed(Some(0), Some(0), true, true, false));
    assert!(!io_test_passed(Some(0), Some(1), true, true, false));
}

#[test]
fn io_pass_is_also_a_general_pass() {
    for exp in [Some(0), Some(2)] {
        for got in [None, Some(0), Some(2)] {
            for flags in [(true, true, false), (false, true, false), (true, true, true)] {
                if io_test_passed(exp, got, flags.0, flags.1, flags.2) {
                    assert!(did_pass(exp, got, flags.0, flags.1, flags.2));
                }
                assert_eq!(
                    io_test_passed(exp, got, flags.0, flags.1, flags.2),
                    did_pass(exp, got, flags.0, flags.1, flags.2)
                );
            }
        }
    }
}

#[test]
fn time_limit_and_names() {
    let mut pd = definition(None);
    assert_eq!(meta(1, None, false).effective_timeout(&pd), 5);
    pd.global_timeout = Some(9);
    assert_eq!(meta(1, None, false).effective_timeout(&pd), 9);
    assert_eq!(meta(1, Some(2), false).effective_timeout(&pd), 2);
    assert_eq!(meta(1, None, true).display_name(true), "********");
    assert_eq!(meta(1, None, true).display_name(false), "case");
    assert_eq!(meta(1, None, false).display_name(true), "case");
    assert_eq!(TestcaseType::IOTest.to_string(), "IOTest");
    assert_eq!(TestcaseType::OrdIOTest.to_string(), "OrdIOTest");
    assert_eq!(DiffKind::default(), DiffKind::PlainText);
    let o = TestrunnerOptions::default();
    assert!(!o.verbose && !o.protected_mode && o.ws_hints && o.sudo.is_none());
}

#[test]
fn io_test_texts_and_number() {
    let mut t = IoTest {
        meta: meta(0, None, false),
        in_file: "".to_string(),
        exp_file: "ref.txt".to_string(),
        in_string: "5\n".to_string(),
        exp_string: "ignored".to_string(),
        argv: vec![],
        exp_retvar: Some(0),
        env_vars: None,
    };
    t.init(4);
    assert_eq!(t.meta.number, 4);
    assert_eq!(t.input_text(Some("file".to_string())), "5\n");
    assert_eq!(t.reference_text(Some("25\n".to_string())), "25\n");
    assert_eq!(t.reference_text(None), "");
}

#[test]
fn additional_files_compared_only_when_both_are_set() {
    let mut m = meta(1, None, false);
    assert_eq!(m.add_diff_files(), None);
    m.add_out_file = Some("out.bin".to_string());
    assert_eq!(m.add_diff_files(), None);
    m.add_exp_file = Some("exp.bin".to_string());
    assert_eq!(m.add_diff_files(), Some(("out.bin".to_string(), "exp.bin".to_string())));
    m.add_out_file = None;
    assert_eq!(m.add_diff_files(), None);
}

#[test]
fn init_keeps_the_rest_of_the_testcase() {
    let mut t = IoTest {
        meta: meta(0, Some(7), true),
        in_file: "in.txt".to_string(),
        exp_file: "".to_string(),
        in_string: "".to_string(),
        exp_string: "x".to_string(),
        argv: vec!["-a".to_string()],
        exp_retvar: Some(3),
        env_vars: Some(vec!["A=1".to_string()]),
    };
    t.init(9);
    assert_eq!(t.meta.number, 9);
    assert_eq!(t.meta.name, "case");
    assert_eq!(t.meta.timeout, Some(7));
    assert!(t.meta.protected);
    assert_eq!(t.in_file, "in.txt");
    assert_eq!(t.argv, vec!["-a".to_string()]);
    assert_eq!(t.exp_retvar, Some(3));
}
