use devmaker::common::secure_name_check;
use devmaker::config::{parse_cmd_vars, parse_var_strings, Config, Options};
use devmaker::envmap::EnvMap;
use devmaker::error::Error;
use devmaker::jobs::JobSpec;
use devmaker::pairs::try_parse_var_string;
use devmaker::vars::{
    encode_key, fill_asked, query_single_var, resume_after_env, resume_after_prompt,
    underscore_separators, vars_to_query, VarStep,
};

fn config(cmd: &[&str], file: &[&str]) -> Config {
    let to_vec = |v: &[&str]| v.iter().map(|s| s.to_string()).collect::<Vec<String>>();
    Config {
        ask_file_vars: if file.is_empty() { None } else { Some(parse_var_strings(&to_vec(file), "askfile").unwrap()) },
        cmd_vars: if cmd.is_empty() { None } else { Some(parse_cmd_vars(to_vec(cmd)).unwrap()) },
        root_dir: "/jobs".to_string(),
        single_job: None,
        allow_env: false,
        dry_run: false,
        empty_vars: false,
        interactive: false,
    }
}

fn strings(v: &[&str]) -> Vec<String> {
    v.iter().map(|s| s.to_string()).collect()
}

fn resolved(step: VarStep) -> (String, String) {
    match step {
        VarStep::Resolved(k, v) => (k, v),
        other => panic!("not resolved: {:?}", other),
    }
}

#[test]
fn parses_plain_pair() {
    assert_eq!(try_parse_var_string("FOO=bar", "askfile").unwrap(), ("FOO".to_string(), "bar".to_string()));
}

#[test]
fn parses_pair_with_spaces() {
    let (k, v) = try_parse_var_string("  FOO_1 =   some value \t", "askfile").unwrap();
    assert_eq!(k, "FOO_1");
    assert_eq!(v, "some value");
}

#[test]
fn value_may_hold_equals_sign() {
    let (k, v) = try_parse_var_string("URL9=a=b", "askfile").unwrap();
    assert_eq!(k, "URL9");
    assert_eq!(v, "a=b");
}

#[test]
fn blank_value_keeps_last_space() {
    let (k, v) = try_parse_var_string("AB=  ", "askfile").unwrap();
    assert_eq!(k, "AB");
    assert_eq!(v, " ");
}

#[test]
fn rejects_malformed_lines() {
    for line in ["A=b", "_AB=x", "foo=bar", "AB=", "AB", "AB=x\ny", "", "9b=x"] {
        let e = try_parse_var_string(line, "askfile").unwrap_err();
        assert_eq!(e, Error::UnparseableLine { source: "askfile".to_string(), line: line.to_string() });
    }
}

#[test]
fn parse_error_message_names_line_and_source() {
    let e = parse_cmd_vars(strings(&["GOOD=1", "bad line"])).unwrap_err();
    assert_eq!(e.message(), "Unparseable line found in command line: bad line");
}

#[test]
fn later_duplicate_overwrites() {
    let m = parse_cmd_vars(strings(&["A1=x", "B2=z", "A1=y"])).unwrap();
    assert_eq!(m.len(), 2);
    assert_eq!(m.get("A1"), Some("y".to_string()));
    assert_eq!(m.get("B2"), Some("z".to_string()));
}

#[test]
fn secure_suffix_is_stripped() {
    assert_eq!(secure_name_check("TOKEN_SECURE"), ("TOKEN".to_string(), true));
    assert_eq!(secure_name_check("TOKEN"), ("TOKEN".to_string(), false));
    assert_eq!(secure_name_check("A_SECURE_SECURE"), ("A_SECURE".to_string(), true));
    assert_eq!(secure_name_check("SECURE"), ("SECURE".to_string(), false));
}

#[test]
fn lookups_use_stripped_name() {
    let c = config(&["TOKEN=abc"], &["TOKEN=file", "OTHER=o"]);
    assert_eq!(c.get_cmd_var("TOKEN_SECURE"), Some("abc".to_string()));
    assert_eq!(c.get_file_var("TOKEN_SECURE"), Some("file".to_string()));
    assert_eq!(c.get_cmd_var("OTHER"), None);
    assert_eq!(c.get_file_var("MISSING"), None);
}

#[test]
fn config_from_options() {
    let o = Options {
        interactive: true,
        dry_run: true,
        no_allow_env: true,
        ask_file_lines: Some(strings(&["AA=1"])),
        ask_vars: Some(strings(&["BB=2"])),
        single_job: Some("one".to_string()),
        force_empty_vars: false,
        script_root: "/root".to_string(),
    };
    let c = Config::try_from_options(o).unwrap();
    assert!(!c.allow_env && c.dry_run && c.interactive && !c.empty_vars);
    assert_eq!(c.get_file_var("AA"), Some("1".to_string()));
    assert_eq!(c.get_cmd_var("BB"), Some("2".to_string()));
    assert_eq!(c.root_dir, "/root");
}

#[test]
fn config_rejects_bad_askfile() {
    let o = Options {
        interactive: false,
        dry_run: false,
        no_allow_env: false,
        ask_file_lines: Some(strings(&["not a pair"])),
        ask_vars: None,
        single_job: None,
        force_empty_vars: false,
        script_root: "/root".to_string(),
    };
    let e = Config::try_from_options(o).unwrap_err();
    assert_eq!(e, Error::UnparseableLine { source: "askfile".to_string(), line: "not a pair".to_string() });
}

#[test]
fn empty_override_wins_over_everything() {
    let mut c = config(&["API_KEY=cmd"], &["API_KEY=file"]);
    c.empty_vars = true;
    c.allow_env = true;
    c.interactive = true;
    assert_eq!(resolved(query_single_var("API_KEY", &c)), ("API_KEY".to_string(), String::new()));
}

#[test]
fn environment_is_asked_first_when_allowed() {
    let mut c = config(&["X1=cmd"], &[]);
    c.allow_env = true;
    match query_single_var("X1_SECURE", &c) {
        VarStep::ReadEnv(k) => assert_eq!(k, "X1"),
        other => panic!("{:?}", other),
    }
    assert_eq!(resolved(resume_after_env("X1_SECURE", &c, Some(String::new()))), ("X1".to_string(), String::new()));
    assert_eq!(resolved(resume_after_env("X1_SECURE", &c, None)), ("X1".to_string(), "cmd".to_string()));
}

#[test]
fn environment_is_skipped_when_disallowed() {
    let c = config(&["X1=cmd"], &["X1=file"]);
    assert_eq!(resolved(query_single_var("X1", &c)), ("X1".to_string(), "cmd".to_string()));
}

#[test]
fn file_follows_command_line() {
    let c = config(&["OTHER=1"], &["X1=file"]);
    assert_eq!(resolved(query_single_var("X1", &c)), ("X1".to_string(), "file".to_string()));
}

#[test]
fn secure_variable_prompts_masked() {
    let mut c = config(&[], &[]);
    c.interactive = true;
    match query_single_var("TOKEN_SECURE", &c) {
        VarStep::Prompt(k, secure) => {
            assert_eq!(k, "TOKEN");
            assert!(secure);
        },
        other => panic!("{:?}", other),
    }
    assert_eq!(resolved(resume_after_prompt("TOKEN_SECURE", Some("s3".to_string()))), ("TOKEN".to_string(), "s3".to_string()));
    assert_eq!(resolved(resume_after_prompt("TOKEN_SECURE", Some(String::new()))), ("TOKEN".to_string(), String::new()));
}

#[test]
fn plain_variable_prompts_unmasked() {
    let mut c = config(&[], &[]);
    c.interactive = true;
    assert!(matches!(query_single_var("NAME", &c), VarStep::Prompt(k, false) if k == "NAME"));
}

#[test]
fn unresolvable_without_sources() {
    let c = config(&[], &[]);
    match query_single_var("GONE_SECURE", &c) {
        VarStep::Failed(e) => {
            assert_eq!(e, Error::UnresolvedVar("GONE".to_string()));
            assert_eq!(e.message(), "Could not resolve var: GONE");
        },
        other => panic!("{:?}", other),
    }
    assert!(matches!(resume_after_prompt("GONE", None), VarStep::Failed(Error::UnresolvedVar(k)) if k == "GONE"));
}

#[test]
fn encodes_declared_keys() {
    assert_eq!(encode_key("db-host name"), "DB_HOST_NAME");
    assert_eq!(encode_key("Already_OK"), "ALREADY_OK");
    assert_eq!(encode_key("a.b"), "A_B");
    assert_eq!(encode_key("x/y:z9"), "X_Y_Z9");
    assert_eq!(underscore_separators("a-b c"), "a_b_c");
    assert_eq!(underscore_separators("a.b_C9!"), "a_b_C9_");
    assert_eq!(underscore_separators(""), "");
}

#[test]
fn fills_asked_and_declared_variables() {
    let mut answers = EnvMap::new();
    answers.insert("TOKEN".to_string(), "t".to_string());
    let mut provided = EnvMap::new();
    provided.insert("db-host".to_string(), "x".to_string());
    provided.insert("token".to_string(), "mine".to_string());
    let spec = JobSpec::new("job".to_string(), provided, strings(&["base"]), strings(&["TOKEN_SECURE"]), true);
    let job = fill_asked(spec, &answers).unwrap();
    assert_eq!(job.name(), "job");
    assert_eq!(job.depends(), &strings(&["base"]));
    assert!(job.has_deps_script());
    let env = job.env();
    assert_eq!(env.len(), 2);
    assert_eq!(env.entry(0), (&"TOKEN".to_string(), &"mine".to_string()));
    assert_eq!(env.entry(1), (&"DB_HOST".to_string(), &"x".to_string()));
}

#[test]
fn fill_fails_on_missing_answer() {
    let answers = EnvMap::new();
    let spec = JobSpec::new("job".to_string(), EnvMap::new(), vec![], strings(&["TOKEN_SECURE"]), false);
    let e = fill_asked(spec, &answers).unwrap_err();
    assert_eq!(e, Error::UnresolvableVar("TOKEN".to_string()));
    assert_eq!(e.message(), "Unresolvable variable: TOKEN");
}

#[test]
fn fill_names_first_missing_answer() {
    let mut answers = EnvMap::new();
    answers.insert("A1".to_string(), "x".to_string());
    let spec = JobSpec::new("job".to_string(), EnvMap::new(), vec![], strings(&["A1", "B2_SECURE", "C3"]), false);
    assert_eq!(fill_asked(spec, &answers).unwrap_err(), Error::UnresolvableVar("B2".to_string()));
}

#[test]
fn each_variable_is_queried_once() {
    let a = JobSpec::new("a".to_string(), EnvMap::new(), vec![], strings(&["A", "B_SECURE"]), false);
    let b = JobSpec::new("b".to_string(), EnvMap::new(), vec![], strings(&["B", "C", "A"]), false);
    assert_eq!(a.get_ask_vars(), &strings(&["A", "B_SECURE"]));
    assert_eq!(vars_to_query(&vec![a, b]), strings(&["A", "B_SECURE", "C"]));
}
