use devmaker::envmap::EnvMap;
use devmaker::error::Error;
use devmaker::jobs::{child_env, executable_mode, JobAction, ReadyJob};

fn job(name: &str, deps: &[&str], has_deps: bool) -> ReadyJob {
    let mut env = EnvMap::new();
    env.insert("HOME".to_string(), "declared".to_string());
    env.insert("K".to_string(), "v".to_string());
    ReadyJob::new(name.to_string(), env, deps.iter().map(|s| s.to_string()).collect(), has_deps)
}

#[test]
fn script_dir_joins_root_and_name() {
    let j = job("web", &[], false);
    assert_eq!(j.script_dir("/jobs"), "/jobs/web");
    assert_eq!(j.script_dir("/jobs/"), "/jobs/web");
    assert_eq!(j.script_dir(""), "web");
}

#[test]
fn proc_env_injects_fixed_keys() {
    let j = job("web", &[], false);
    let m = j.build_proc_env("/jobs", Some("/home/me".to_string()), "me".to_string()).unwrap();
    assert_eq!(m.get("HOME"), Some("/home/me".to_string()));
    assert_eq!(m.get("USER"), Some("me".to_string()));
    assert_eq!(m.get("USERNAME"), Some("me".to_string()));
    assert_eq!(m.get("SCRIPT_DIR"), Some("/jobs/web".to_string()));
    assert_eq!(m.get("K"), Some("v".to_string()));
    assert_eq!(m.len(), 5);
}

#[test]
fn proc_env_needs_home() {
    let e = job("web", &[], false).build_proc_env("/jobs", None, "me".to_string()).unwrap_err();
    assert_eq!(e, Error::NoHomeDir);
    assert_eq!(e.message(), "Cannot find home dir");
}

#[test]
fn machine_proc_env_keeps_job_values() {
    if let Ok(m) = job("web", &[], false).create_proc_env("/jobs") {
        assert_eq!(m.get("K"), Some("v".to_string()));
        assert_eq!(m.get("SCRIPT_DIR"), Some("/jobs/web".to_string()));
        assert_eq!(m.get("USER"), m.get("USERNAME"));
    }
}

#[test]
fn temp_dir_exposed_under_two_keys() {
    let mut env = EnvMap::new();
    env.insert("A".to_string(), "1".to_string());
    let m = child_env(&env, "/tmp/x");
    assert_eq!(m.get("TMP_DIR"), Some("/tmp/x".to_string()));
    assert_eq!(m.get("TEMP_DIR"), Some("/tmp/x".to_string()));
    assert_eq!(m.get("A"), Some("1".to_string()));
}

#[test]
fn deps_script_runs_first() {
    match job("web", &[], true).start("/jobs") {
        JobAction::RunScript(p, main) => {
            assert_eq!(p, "/jobs/web/deps.sh");
            assert!(!main);
        },
        other => panic!("{:?}", other),
    }
}

#[test]
fn without_deps_script_search_runner() {
    match job("web", &[], false).start("/jobs") {
        JobAction::FindRunner(d, pat) => {
            assert_eq!(d, "/jobs/web/run.sh");
            assert_eq!(pat, "/jobs/web/run.*");
        },
        other => panic!("{:?}", other),
    }
}

#[test]
fn failed_deps_script_aborts_job() {
    let j = job("web", &[], true);
    match j.after_script("/jobs", false, Some(3)) {
        JobAction::Finished(Err(e)) => {
            assert_eq!(e, Error::JobFailed { name: "web".to_string(), code: 3 });
            assert_eq!(e.message(), "Job 'web' failed with exit code 3");
        },
        other => panic!("{:?}", other),
    }
    assert!(matches!(j.after_script("/jobs", false, Some(0)), JobAction::FindRunner(_, _)));
}

#[test]
fn signal_exit_reports_minus_one() {
    match job("web", &[], false).after_script("/jobs", true, None) {
        JobAction::Finished(Err(e)) => assert_eq!(e.message(), "Job 'web' failed with exit code -1"),
        other => panic!("{:?}", other),
    }
}

#[test]
fn main_success_finishes() {
    assert!(matches!(job("web", &[], false).after_script("/jobs", true, Some(0)), JobAction::Finished(Ok(()))));
}

#[test]
fn runner_prefers_default() {
    let j = job("web", &[], false);
    assert!(matches!(j.after_search("/jobs/web/run.sh".to_string(), true, Some("/jobs/web/run.py".to_string())),
        JobAction::RunScript(p, true) if p == "/jobs/web/run.sh"));
    assert!(matches!(j.after_search("/jobs/web/run.sh".to_string(), false, Some("/jobs/web/run.py".to_string())),
        JobAction::RunScript(p, true) if p == "/jobs/web/run.py"));
}

#[test]
fn no_runner_found() {
    match job("web", &[], false).after_search("/jobs/web/run.sh".to_string(), false, None) {
        JobAction::Finished(Err(e)) => {
            assert_eq!(e, Error::NoRunner("web".to_string()));
            assert_eq!(e.message(), "No runner found for job: web");
        },
        other => panic!("{:?}", other),
    }
}

#[test]
fn executable_script_is_left_alone() {
    assert_eq!(executable_mode(true, 0o755), None);
    assert_eq!(executable_mode(true, 0o654), None);
    assert_eq!(executable_mode(false, 0o644), Some(0o744));
    assert_eq!(executable_mode(false, 0o600), Some(0o700));
}

#[test]
fn plain_report() {
    let j = job("web", &["base", "db"], true);
    assert_eq!(
        j.report_styled(3, false),
        "Would run job 003: web\n  Depends on: base\n  Depends on: db\n  Deps.sh: yes\n  Env: HOME -> declared\n  Env: K -> v"
    );
    assert_eq!(job("x", &[], false).report_styled(1234, false), "Would run job 1234: x\n  Env: HOME -> declared\n  Env: K -> v");
    assert_eq!(ReadyJob::new("y".to_string(), EnvMap::new(), vec![], false).report_styled(42, false), "Would run job 042: y");
}

#[test]
fn styled_report_wraps_text() {
    let plain = ReadyJob::new("y".to_string(), EnvMap::new(), vec!["b".to_string()], true);
    let styled = plain.report_styled(0, true);
    assert_eq!(
        styled,
        "Would run job 000: \x1b[34m\x1b[1my\x1b[0m\n\x1b[2m  Depends on: \x1b[0m\x1b[2mb\x1b[0m\n\x1b[2m  Deps.sh: yes\x1b[0m"
    );
    let r = plain.report(0);
    assert!(r == styled || r == plain.report_styled(0, false));
}
