use devmaker::config::Config;
use devmaker::envmap::EnvMap;
use devmaker::error::Error;
use devmaker::jobs::{JobSpec, ReadyJob};
use devmaker::pipeline::{fill_all, parse_job_files, plan_jobs, InfoSpec, Plan};
use devmaker::schedule::{cycle_error, schedule_specs};

fn job(name: &str, deps: &[&str]) -> ReadyJob {
    ReadyJob::new(name.to_string(), EnvMap::new(), deps.iter().map(|s| s.to_string()).collect(), false)
}

fn spec(name: &str, deps: &[&str]) -> JobSpec {
    JobSpec::new(name.to_string(), EnvMap::new(), deps.iter().map(|s| s.to_string()).collect(), vec![], false)
}

fn names(q: &[ReadyJob]) -> Vec<String> {
    q.iter().map(|j| j.name().clone()).collect()
}

fn config() -> Config {
    Config {
        ask_file_vars: None,
        cmd_vars: None,
        root_dir: "/jobs".to_string(),
        single_job: None,
        allow_env: false,
        dry_run: false,
        empty_vars: false,
        interactive: false,
    }
}

#[test]
fn chain_schedules_in_dependency_order() {
    let q = schedule_specs(&vec![job("top", &["mid"]), job("mid", &["base"]), job("base", &[])]).unwrap();
    assert_eq!(names(&q), vec!["base", "mid", "top"]);
}

#[test]
fn chain_in_natural_order() {
    let q = schedule_specs(&vec![job("base", &[]), job("mid", &["base"]), job("top", &["mid"])]).unwrap();
    assert_eq!(names(&q), vec!["base", "mid", "top"]);
}

#[test]
fn independent_jobs_keep_input_order() {
    let q = schedule_specs(&vec![job("b", &[]), job("a", &[]), job("c", &[])]).unwrap();
    assert_eq!(names(&q), vec!["b", "a", "c"]);
}

#[test]
fn job_placed_in_a_pass_counts_at_once() {
    let q = schedule_specs(&vec![job("b", &["a"]), job("a", &["c"]), job("d", &["a"]), job("c", &[])]).unwrap();
    assert_eq!(names(&q), vec!["c", "a", "d", "b"]);
}

#[test]
fn empty_job_set_schedules() {
    assert!(schedule_specs(&vec![]).unwrap().is_empty());
}

#[test]
fn two_job_cycle_fails_naming_both() {
    let e = schedule_specs(&vec![job("A", &["B"]), job("B", &["A"])]).unwrap_err();
    assert_eq!(e, Error::Unschedulable(vec!["A".to_string(), "B".to_string()]));
    assert_eq!(e.message(), "Unschedulable jobs: A, B");
}

#[test]
fn cycle_blocks_dependents_too() {
    let e = schedule_specs(&vec![job("ok", &[]), job("A", &["B"]), job("B", &["A"]), job("C", &["A", "ok"])]).unwrap_err();
    assert_eq!(e, Error::Unschedulable(vec!["A".to_string(), "B".to_string(), "C".to_string()]));
}

#[test]
fn unknown_dependency_fails() {
    let e = schedule_specs(&vec![job("base", &[]), job("x", &["missing"])]).unwrap_err();
    assert_eq!(e, Error::Unschedulable(vec!["x".to_string()]));
}

#[test]
fn cycle_error_lists_unscheduled() {
    let e = cycle_error(&vec!["a".to_string()], &vec![job("a", &[]), job("b", &["c"]), job("c", &["b"])]);
    assert_eq!(e, Error::Unschedulable(vec!["b".to_string(), "c".to_string()]));
}

#[test]
fn job_files_default_to_empty() {
    let s = parse_job_files("web", InfoSpec::default(), true);
    assert_eq!(s.name, "web");
    assert!(s.has_deps_script);
    assert!(s.depends.is_empty() && s.ask_for_vars.is_empty());
    assert_eq!(s.provided_env.len(), 0);
    let info = InfoSpec { depends: Some(vec!["base".to_string()]), env: None, ask: Some(vec!["K".to_string()]) };
    let s = parse_job_files("web", info, false);
    assert_eq!(s.depends, vec!["base".to_string()]);
    assert_eq!(s.ask_for_vars, vec!["K".to_string()]);
}

#[test]
fn fill_all_keeps_order() {
    let v = fill_all(vec![spec("x", &[]), spec("y", &["x"])], &EnvMap::new()).unwrap();
    assert_eq!(names(&v), vec!["x", "y"]);
}

#[test]
fn dry_run_reports_whole_queue() {
    let mut c = config();
    c.dry_run = true;
    match plan_jobs(vec![spec("top", &["base"]), spec("base", &[])], &EnvMap::new(), &c).unwrap() {
        Plan::Report(q) => assert_eq!(names(&q), vec!["base", "top"]),
        other => panic!("{:?}", other),
    }
}

#[test]
fn plain_run_runs_whole_queue() {
    match plan_jobs(vec![spec("top", &["base"]), spec("base", &[])], &EnvMap::new(), &config()).unwrap() {
        Plan::Run(q) => assert_eq!(names(&q), vec!["base", "top"]),
        other => panic!("{:?}", other),
    }
}

#[test]
fn single_job_runs_alone() {
    let mut c = config();
    c.single_job = Some("top".to_string());
    match plan_jobs(vec![spec("top", &["base"]), spec("base", &[])], &EnvMap::new(), &c).unwrap() {
        Plan::Run(q) => assert_eq!(names(&q), vec!["top"]),
        other => panic!("{:?}", other),
    }
}

#[test]
fn single_job_must_exist() {
    let mut c = config();
    c.single_job = Some("nope".to_string());
    let e = plan_jobs(vec![spec("base", &[])], &EnvMap::new(), &c).unwrap_err();
    assert_eq!(e, Error::JobNotFound("nope".to_string()));
    assert_eq!(e.message(), "Cannot locate job: nope");
}

#[test]
fn plan_fails_on_cycle() {
    let e = plan_jobs(vec![spec("A", &["B"]), spec("B", &["A"])], &EnvMap::new(), &config()).unwrap_err();
    assert_eq!(e, Error::Unschedulable(vec!["A".to_string(), "B".to_string()]));
}

#[test]
fn plan_fails_on_missing_answer() {
    let s = JobSpec::new("a".to_string(), EnvMap::new(), vec![], vec!["KEY".to_string()], false);
    let e = plan_jobs(vec![s], &EnvMap::new(), &config()).unwrap_err();
    assert_eq!(e, Error::UnresolvableVar("KEY".to_string()));
}
