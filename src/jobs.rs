//! Jobs before and after their variables are resolved.

use vstd::prelude::*;
use vstd::string::*;
use crate::common::DEPS_SCRIPT;
use crate::config::texts;
use crate::envmap::{put, EnvMap, Entry};
use crate::error::Error;
use crate::text::{join_path, join_path_text, padded3, push_padded3};

verus! {

/// A copy of a list of strings.
pub fn copy_strings(v: &Vec<String>) -> (r: Vec<String>)
    ensures
        r@ == v@,
{
    let mut out: Vec<String> = Vec::new();
    let mut i: usize = 0;
    while i < v.len()
        invariant
            i <= v@.len(),
            out@ == v@.subrange(0, i as int),
        decreases v@.len() - i,
    {
        out.push(v[i].clone());
        i += 1;
        assert(out@ =~= v@.subrange(0, i as int));
    }
    assert(v@.subrange(0, i as int) =~= v@);
    out
}

/// A job as found on disk, before its variables are resolved.
#[derive(Debug)]
pub struct JobSpec {
    pub name: String,
    pub provided_env: EnvMap,
    pub depends: Vec<String>,
    pub ask_for_vars: Vec<String>,
    pub has_deps_script: bool,
}

impl JobSpec {
    /// A job with the given parts.
    pub fn new(
        name: String,
        provided_env: EnvMap,
        depends: Vec<String>,
        ask_for_vars: Vec<String>,
        has_deps_script: bool,
    ) -> (r: JobSpec)
        ensures
            r.name == name,
            r.provided_env == provided_env,
            r.depends == depends,
            r.ask_for_vars == ask_for_vars,
            r.has_deps_script == has_deps_script,
    {
        JobSpec { name, provided_env, depends, ask_for_vars, has_deps_script }
    }

    /// The names of the variables that the job asks for.
    pub fn get_ask_vars(&self) -> (r: &Vec<String>)
        ensures
            r == &self.ask_for_vars,
    {
        &self.ask_for_vars
    }
}

/// What a resolved job holds.
pub struct JobView {
    pub name: Seq<char>,
    pub env: Seq<Entry>,
    pub depends: Seq<Seq<char>>,
    pub has_deps_script: bool,
}

/// A job whose variables are resolved, ready to be scheduled and run.
#[derive(Debug, Clone)]
pub struct ReadyJob {
    name: String,
    env: EnvMap,
    depends: Vec<String>,
    has_deps_script: bool,
}

impl View for ReadyJob {
    type V = JobView;

    closed spec fn view(&self) -> JobView {
        JobView {
            name: self.name@,
            env: self.env@,
            depends: texts(self.depends@),
            has_deps_script: self.has_deps_script,
        }
    }
}

impl ReadyJob {
    /// A job with the given parts.
    pub fn new(name: String, env: EnvMap, depends: Vec<String>, has_deps_script: bool) -> (r:
        ReadyJob)
        ensures
            r@.name == name@,
            r@.env == env@,
            r@.depends == texts(depends@),
            r@.has_deps_script == has_deps_script,
    {
        ReadyJob { name, env, depends, has_deps_script }
    }

    /// The job's name.
    pub fn name(&self) -> (r: &String)
        ensures
            r@ == self@.name,
    {
        &self.name
    }

    /// The job's resolved variables.
    pub fn env(&self) -> (r: &EnvMap)
        ensures
            r@ == self@.env,
    {
        &self.env
    }

    /// The names of the jobs that must run first.
    pub fn depends(&self) -> (r: &Vec<String>)
        ensures
            texts(r@) == self@.depends,
    {
        &self.depends
    }

    /// Whether the job has a dependency-preparation script.
    pub fn has_deps_script(&self) -> (r: bool)
        ensures
            r == self@.has_deps_script,
    {
        self.has_deps_script
    }

    /// A copy of the job.
    pub fn duplicate(&self) -> (r: ReadyJob)
        ensures
            r@ == self@,
    {
        ReadyJob {
            name: self.name.clone(),
            env: self.env.duplicate(),
            depends: copy_strings(&self.depends),
            has_deps_script: self.has_deps_script,
        }
    }
}

/// A text in console's dim style: wrapped in the dim and reset codes
/// where styling is on, as it is where styling is off.
pub open spec fn dim_text(s: Seq<char>, colors: bool) -> Seq<char> {
    if colors {
        seq!['\x1b', '[', '2', 'm'] + s + seq!['\x1b', '[', '0', 'm']
    } else {
        s
    }
}

/// A text in console's bold blue style: wrapped in the blue, bold and reset
/// codes where styling is on, as it is where styling is off.
pub open spec fn job_text(s: Seq<char>, colors: bool) -> Seq<char> {
    if colors {
        seq!['\x1b', '[', '3', '4', 'm', '\x1b', '[', '1', 'm'] + s + seq!['\x1b', '[', '0', 'm']
    } else {
        s
    }
}

/// Relies on console's `Style::dim`, `force_styling` and `apply_to`: with
/// styling forced on, the dim code (`ESC[2m`), the text and the reset code
/// (`ESC[0m`); with styling forced off, the text as it is.
#[verifier::external_body]
fn paint_dim(s: &str, colors: bool) -> (r: String)
    ensures
        r@ == dim_text(s@, colors),
{
    console::Style::new().dim().force_styling(colors).apply_to(s).to_string()
}

/// Relies on console's `Style::blue`, `bold`, `force_styling` and
/// `apply_to`: with styling forced on, the blue code (`ESC[34m`), the bold
/// code (`ESC[1m`), the text and the reset code (`ESC[0m`); with styling
/// forced off, the text as it is.
#[verifier::external_body]
fn paint_job(s: &str, colors: bool) -> (r: String)
    ensures
        r@ == job_text(s@, colors),
{
    console::Style::new().blue().bold().force_styling(colors).apply_to(s).to_string()
}

/// Relies on `console::colors_enabled`: whether standard output takes
/// colors, which depends on the terminal and the environment.
#[verifier::external_body]
fn colors_enabled() -> (r: bool) {
    console::colors_enabled()
}

/// One line for each dependency.
pub open spec fn dep_lines(deps: Seq<Seq<char>>, colors: bool) -> Seq<char>
    decreases deps.len(),
{
    if deps.len() == 0 {
        Seq::empty()
    } else {
        dep_lines(deps.drop_last(), colors) + "\n"@ + dim_text("  Depends on: "@, colors) + dim_text(
            deps.last(),
            colors,
        )
    }
}

/// One line for each variable.
pub open spec fn env_lines(env: Seq<Entry>, colors: bool) -> Seq<char>
    decreases env.len(),
{
    if env.len() == 0 {
        Seq::empty()
    } else {
        env_lines(env.drop_last(), colors) + "\n"@ + dim_text("  Env: "@, colors) + dim_text(
            env.last().0,
            colors,
        ) + dim_text(" -> "@, colors) + dim_text(env.last().1, colors)
    }
}

/// The dry-run report on a job at position `n` of the queue.
pub open spec fn report_text(job: JobView, n: nat, colors: bool) -> Seq<char> {
    "Would run job "@ + padded3(n) + ": "@ + job_text(job.name, colors) + dep_lines(
        job.depends,
        colors,
    ) + (if job.has_deps_script {
        "\n"@ + dim_text("  Deps.sh: yes"@, colors)
    } else {
        Seq::empty()
    }) + env_lines(job.env, colors)
}

/// Relies on `dirs::home_dir`: the invoking user's home directory, where
/// one can be determined. What it returns depends on the machine.
#[verifier::external_body]
fn home_dir() -> (r: Option<String>) {
    match dirs::home_dir() {
        Some(p) => Some(p.display().to_string()),
        None => None,
    }
}

/// Relies on `whoami::username`: the invoking user's name. What it returns
/// depends on the machine.
#[verifier::external_body]
fn username() -> (r: String) {
    whoami::username()
}

/// The default runnable's file name.
pub open spec fn default_runner() -> Seq<char> {
    "run.sh"@
}

/// The variables a job's scripts run with: its own, then the home
/// directory, the user name under two keys and the job's script directory,
/// which take precedence.
pub open spec fn proc_env(job: JobView, root: Seq<char>, home: Seq<char>, user: Seq<char>) -> Seq<
    Entry,
> {
    put(
        put(put(put(job.env, "HOME"@, home), "USER"@, user), "USERNAME"@, user),
        "SCRIPT_DIR"@,
        join_path(root, job.name),
    )
}

/// The variables a script runs with: `env`, and the job's temporary
/// directory under two keys.
pub open spec fn with_temp_dir(env: Seq<Entry>, tmp: Seq<char>) -> Seq<Entry> {
    put(put(env, "TMP_DIR"@, tmp), "TEMP_DIR"@, tmp)
}

/// The next thing to do for a job that is being run.
#[derive(Debug)]
pub enum JobAction {
    /// Make the script at this path executable, run it with the job's
    /// variables, then call `after_script` with whether it was the main
    /// runnable (the flag) and its exit code.
    RunScript(String, bool),
    /// Look for the main runnable: the first path where a file exists, else
    /// the first match of the pattern; then call `after_search`.
    FindRunner(String, String),
    /// The job is over.
    Finished(Result<(), Error>),
}

/// Whether `a` is the action that looks for the runner of `job` under `root`.
pub open spec fn is_find_runner(a: JobAction, job: JobView, root: Seq<char>) -> bool {
    match a {
        JobAction::FindRunner(d, pat) => d@ == join_path(join_path(root, job.name), default_runner())
            && pat@ == join_path(root, job.name) + "/run.*"@,
        _ => false,
    }
}

/// Whether `a` ends the job with the failure of a script that exited with `code`.
pub open spec fn is_job_failure(a: JobAction, job: JobView, code: Option<i32>) -> bool {
    match a {
        JobAction::Finished(Err(Error::JobFailed { name, code: c })) => name@ == job.name && c == match code {
            Some(x) => x,
            None => -1i32,
        },
        _ => false,
    }
}

/// The mode to give a script so that it can be run: `None` where it already
/// is executable and nothing changes, else the mode with the owner's execute
/// bit added and every other bit kept.
pub fn executable_mode(is_executable: bool, mode: u32) -> (r: Option<u32>)
    ensures
        is_executable ==> r is None,
        !is_executable ==> r == Some(mode | 0o100u32),
{
    if is_executable {
        None
    } else {
        Some(mode | 0o100u32)
    }
}

/// Adding the owner's execute bit changes nothing where it is set already,
/// and never clears a bit.
pub proof fn lemma_executable_mode_idempotent(mode: u32)
    ensures
        mode & 0o100u32 != 0 ==> mode | 0o100u32 == mode,
        (mode | 0o100u32) & mode == mode,
        (mode | 0o100u32) | 0o100u32 == mode | 0o100u32,
{
    assert(mode & 0o100u32 != 0 ==> mode | 0o100u32 == mode) by (bit_vector);
    assert((mode | 0o100u32) & mode == mode) by (bit_vector);
    assert((mode | 0o100u32) | 0o100u32 == mode | 0o100u32) by (bit_vector);
}

/// The variables a script runs with: `env`, and the temporary directory
/// `tmp_dir` under `TMP_DIR` and `TEMP_DIR`.
pub fn child_env(env: &EnvMap, tmp_dir: &str) -> (r: EnvMap)
    ensures
        r@ == with_temp_dir(env@, tmp_dir@),
{
    let mut m = env.duplicate();
    m.insert("TMP_DIR".to_owned(), tmp_dir.to_owned());
    m.insert("TEMP_DIR".to_owned(), tmp_dir.to_owned());
    m
}

impl ReadyJob {
    /// The job's script directory under `root`.
    pub fn script_dir(&self, root: &str) -> (r: String)
        ensures
            r@ == join_path(root@, self@.name),
    {
        join_path_text(root, self.name.as_str())
    }

    /// The variables the job's scripts run with, given the home directory
    /// and the user name; fails where no home directory is known.
    pub fn build_proc_env(&self, root: &str, home: Option<String>, user: String) -> (r: Result<
        EnvMap,
        Error,
    >)
        ensures
            match home {
                Some(h) => match r {
                    Ok(m) => m@ == proc_env(self@, root@, h@, user@),
                    Err(_) => false,
                },
                None => match r {
                    Err(e) => e is NoHomeDir,
                    Ok(_) => false,
                },
            },
    {
        let home = match home {
            Some(h) => h,
            None => {
                return Err(Error::NoHomeDir);
            },
        };
        let mut map = self.env.duplicate();
        map.insert("HOME".to_owned(), home);
        map.insert("USER".to_owned(), user.clone());
        map.insert("USERNAME".to_owned(), user);
        map.insert("SCRIPT_DIR".to_owned(), self.script_dir(root));
        Ok(map)
    }

    /// The variables the job's scripts run with, from the machine's home
    /// directory and user name.
    pub fn create_proc_env(&self, root: &str) -> (r: Result<EnvMap, Error>)
        ensures
            match r {
                Ok(m) => exists|h: Seq<char>, u: Seq<char>| m@ == proc_env(self@, root@, h, u),
                Err(e) => e is NoHomeDir,
            },
    {
        let home = home_dir();
        let user = username();
        self.build_proc_env(root, home, user)
    }

    /// The dry-run report on the job at position `job_num` of the queue,
    /// styled where `colors` is set.
    pub fn report_styled(&self, job_num: usize, colors: bool) -> (r: String)
        ensures
            r@ == report_text(self@, job_num as nat, colors),
    {
        let mut report = String::new();
        report.append("Would run job ");
        push_padded3(&mut report, job_num as u64);
        report.append(": ");
        report.append(paint_job(self.name.as_str(), colors).as_str());
        let ghost head = report@;
        let mut i: usize = 0;
        while i < self.depends.len()
            invariant
                i <= self.depends@.len(),
                report@ == head + dep_lines(texts(self.depends@).subrange(0, i as int), colors),
            decreases self.depends@.len() - i,
        {
            report.append("\n");
            report.append(paint_dim("  Depends on: ", colors).as_str());
            report.append(paint_dim(self.depends[i].as_str(), colors).as_str());
            proof {
                let d = texts(self.depends@).subrange(0, i + 1);
                assert(d.drop_last() =~= texts(self.depends@).subrange(0, i as int));
                assert(report@ =~= head + dep_lines(d, colors));
            }
            i += 1;
        }
        assert(texts(self.depends@).subrange(0, i as int) =~= texts(self.depends@));
        if self.has_deps_script {
            report.append("\n");
            report.append(paint_dim("  Deps.sh: yes", colors).as_str());
        }
        let ghost mid = report@;
        let mut j: usize = 0;
        while j < self.env.len()
            invariant
                j <= self.env@.len(),
                report@ == mid + env_lines(self.env@.subrange(0, j as int), colors),
            decreases self.env@.len() - j,
        {
            let (k, v) = self.env.entry(j);
            report.append("\n");
            report.append(paint_dim("  Env: ", colors).as_str());
            report.append(paint_dim(k.as_str(), colors).as_str());
            report.append(paint_dim(" -> ", colors).as_str());
            report.append(paint_dim(v.as_str(), colors).as_str());
            proof {
                let e = self.env@.subrange(0, j + 1);
                assert(e.drop_last() =~= self.env@.subrange(0, j as int));
                assert(report@ =~= mid + env_lines(e, colors));
            }
            j += 1;
        }
        assert(self.env@.subrange(0, j as int) =~= self.env@);
        assert(report@ =~= report_text(self@, job_num as nat, colors));
        report
    }

    /// The dry-run report on the job at position `job_num` of the queue,
    /// styled where standard output takes colors.
    pub fn report(&self, job_num: usize) -> (r: String)
        ensures
            r@ == report_text(self@, job_num as nat, true) || r@ == report_text(
                self@,
                job_num as nat,
                false,
            ),
    {
        let colors = colors_enabled();
        self.report_styled(job_num, colors)
    }

    fn find_runner_action(&self, root: &str) -> (r: JobAction)
        ensures
            is_find_runner(r, self@, root@),
    {
        let job_dir = self.script_dir(root);
        let default = join_path_text(job_dir.as_str(), "run.sh");
        let mut pattern = job_dir;
        pattern.append("/run.*");
        JobAction::FindRunner(default, pattern)
    }

    /// The first action of running the job under `root`: its
    /// dependency-preparation script where it has one, else the search for
    /// its main runnable.
    pub fn start(&self, root: &str) -> (r: JobAction)
        ensures
            self@.has_deps_script ==> match r {
                JobAction::RunScript(p, main) => p@ == join_path(
                    join_path(root@, self@.name),
                    "deps.sh"@,
                ) && !main,
                _ => false,
            },
            !self@.has_deps_script ==> is_find_runner(r, self@, root@),
    {
        if self.has_deps_script {
            let dir = self.script_dir(root);
            JobAction::RunScript(join_path_text(dir.as_str(), DEPS_SCRIPT), false)
        } else {
            self.find_runner_action(root)
        }
    }

    /// The action after a script of the job exited with `code` (`None` where
    /// it gave none): a failure unless the code is zero; after the
    /// preparation script, the search for the main runnable; after the main
    /// runnable, the end of the job.
    pub fn after_script(&self, root: &str, main: bool, code: Option<i32>) -> (r: JobAction)
        ensures
            code != Some(0i32) ==> is_job_failure(r, self@, code),
            code == Some(0i32) && !main ==> is_find_runner(r, self@, root@),
            code == Some(0i32) && main ==> r matches JobAction::Finished(Ok(())),
    {
        let ok = match code {
            Some(c) => c == 0,
            None => false,
        };
        if !ok {
            let c = match code {
                Some(c) => c,
                None => -1,
            };
            JobAction::Finished(Err(Error::JobFailed { name: self.name.clone(), code: c }))
        } else if main {
            JobAction::Finished(Ok(()))
        } else {
            self.find_runner_action(root)
        }
    }

    /// The action after the search for the main runnable: the default path
    /// where a file exists there, else the first match found, else the
    /// failure that no runner was found.
    pub fn after_search(&self, default: String, default_is_file: bool, first_match: Option<
        String,
    >) -> (r: JobAction)
        ensures
            default_is_file ==> match r {
                JobAction::RunScript(p, main) => p@ == default@ && main,
                _ => false,
            },
            !default_is_file && first_match is Some ==> match r {
                JobAction::RunScript(p, main) => p@ == first_match->Some_0@ && main,
                _ => false,
            },
            !default_is_file && first_match is None ==> match r {
                JobAction::Finished(Err(Error::NoRunner(n))) => n@ == self@.name,
                _ => false,
            },
    {
        if default_is_file {
            JobAction::RunScript(default, true)
        } else {
            match first_match {
                Some(m) => JobAction::RunScript(m, true),
                None => JobAction::Finished(Err(Error::NoRunner(self.name.clone()))),
            }
        }
    }
}

} // verus!
