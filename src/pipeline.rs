//! From the jobs found on disk to the jobs to run: filling in the resolved
//! variables, scheduling, and picking what the run asked for.

use vstd::prelude::*;
use vstd::string::*;
use crate::config::{texts, Config};
use crate::envmap::{EnvMap, Entry};
use crate::error::Error;
use crate::jobs::{JobSpec, JobView, ReadyJob};
use crate::ordering::lemma_valid_schedule;
use crate::schedule::{names_of, schedule, schedule_specs, unscheduled, views};
use crate::text::same_text;
use crate::vars::{all_answered, fill_asked, filled_env};

verus! {

/// A job's metadata file, each part optional.
#[derive(Debug, Default)]
pub struct InfoSpec {
    pub depends: Option<Vec<String>>,
    pub env: Option<EnvMap>,
    pub ask: Option<Vec<String>>,
}

/// The job `name` from its metadata, a missing part counting as empty.
pub fn parse_job_files(name: &str, info: InfoSpec, has_deps_script: bool) -> (r: JobSpec)
    ensures
        r.name@ == name@,
        r.has_deps_script == has_deps_script,
        r.provided_env@ == match info.env {
            Some(m) => m@,
            None => Seq::<Entry>::empty(),
        },
        r.depends@ == match info.depends {
            Some(v) => v@,
            None => Seq::<String>::empty(),
        },
        r.ask_for_vars@ == match info.ask {
            Some(v) => v@,
            None => Seq::<String>::empty(),
        },
{
    let env = match info.env {
        Some(m) => m,
        None => EnvMap::new(),
    };
    let depends = match info.depends {
        Some(v) => v,
        None => Vec::new(),
    };
    let ask = match info.ask {
        Some(v) => v,
        None => Vec::new(),
    };
    JobSpec::new(name.to_owned(), env, depends, ask, has_deps_script)
}

/// What a job holds once its variables are filled from `answers`.
pub open spec fn filled_view(s: JobSpec, answers: Seq<Entry>) -> JobView {
    JobView {
        name: s.name@,
        env: filled_env(texts(s.ask_for_vars@), s.provided_env@, answers),
        depends: texts(s.depends@),
        has_deps_script: s.has_deps_script,
    }
}

/// Every job as it is once filled from `answers`.
pub open spec fn filled_views(specs: Seq<JobSpec>, answers: Seq<Entry>) -> Seq<JobView> {
    specs.map_values(|s: JobSpec| filled_view(s, answers))
}

/// Whether every job has an answer for every variable it asks for.
pub open spec fn all_filled(specs: Seq<JobSpec>, answers: Seq<Entry>) -> bool {
    forall|i: int| 0 <= i < specs.len() ==> all_answered(texts(#[trigger] specs[i].ask_for_vars@), answers)
}

/// Every job with its variables filled from `answers`.
#[verifier::loop_isolation(false)]
pub fn fill_all(specs: Vec<JobSpec>, answers: &EnvMap) -> (r: Result<Vec<ReadyJob>, Error>)
    ensures
        all_filled(specs@, answers@) <==> r is Ok,
        match r {
            Ok(v) => views(v@) == filled_views(specs@, answers@),
            Err(e) => e is UnresolvableVar,
        },
{
    let ghost all = specs@;
    let mut rest = specs;
    let mut out: Vec<ReadyJob> = Vec::new();
    while rest.len() > 0
        invariant
            out@.len() + rest@.len() == all.len(),
            rest@ == all.subrange(out@.len() as int, all.len() as int),
            views(out@) == filled_views(all.subrange(0, out@.len() as int), answers@),
            forall|i: int| 0 <= i < out@.len() ==> all_answered(texts(#[trigger] all[i].ask_for_vars@), answers@),
        decreases rest@.len(),
    {
        let ghost i = out@.len() as int;
        let spec = rest.remove(0);
        assert(spec == all[i]);
        match fill_asked(spec, answers) {
            Ok(job) => {
                let ghost before = views(out@);
                out.push(job);
                assert(views(out@) =~= before.push(filled_view(all[i], answers@)));
                assert(all.subrange(0, out@.len() as int) =~= all.subrange(0, i).push(all[i]));
                assert(views(out@) =~= filled_views(all.subrange(0, out@.len() as int), answers@));
                assert(rest@ =~= all.subrange(out@.len() as int, all.len() as int));
            },
            Err(e) => {
                assert(!all_answered(texts(all[i].ask_for_vars@), answers@));
                return Err(e);
            },
        }
    }
    assert(all.subrange(0, out@.len() as int) =~= all);
    Ok(out)
}

/// What a run is to do with the scheduled jobs.
#[derive(Debug)]
pub enum Plan {
    /// Report on each job, in order, without running any.
    Report(Vec<ReadyJob>),
    /// Run each job in order, stopping at the first failure.
    Run(Vec<ReadyJob>),
}

/// The jobs in scheduled order.
pub open spec fn queue_of(js: Seq<JobView>) -> Seq<JobView> {
    schedule(js).1.map_values(|k: int| js[k])
}

/// The position of the first job of `q` named `n`; `-1` where there is none.
pub open spec fn first_named(q: Seq<JobView>, n: Seq<char>) -> int
    decreases q.len(),
{
    if q.len() == 0 {
        -1
    } else if q[0].name == n {
        0
    } else {
        let k = first_named(q.drop_first(), n);
        if k < 0 {
            -1
        } else {
            k + 1
        }
    }
}

/// What the run does with the jobs, once their variables are resolved into
/// `answers`: fill each job, schedule them all, then report on the whole
/// queue in a dry run, run only the first job named by the single-job
/// selector where there is one, or run the whole queue.
#[verifier::loop_isolation(false)]
pub fn plan_jobs(specs: Vec<JobSpec>, answers: &EnvMap, config: &Config) -> (r: Result<Plan, Error>)
    ensures
        !all_filled(specs@, answers@) ==> r matches Err(Error::UnresolvableVar(_)),
        all_filled(specs@, answers@) ==> {
            let js = filled_views(specs@, answers@);
            let q = queue_of(js);
            if !schedule(js).0 {
                match r {
                    Err(Error::Unschedulable(v)) => texts(v@) == unscheduled(
                        js,
                        names_of(js, schedule(js).1),
                        js.len() as int,
                    ),
                    _ => false,
                }
            } else if config.dry_run {
                match r {
                    Ok(Plan::Report(v)) => views(v@) == q,
                    _ => false,
                }
            } else {
                match config.single_job {
                    Some(n) => if first_named(q, n@) >= 0 {
                        match r {
                            Ok(Plan::Run(v)) => views(v@) == seq![q[first_named(q, n@)]],
                            _ => false,
                        }
                    } else {
                        match r {
                            Err(Error::JobNotFound(m)) => m@ == n@,
                            _ => false,
                        }
                    },
                    None => match r {
                        Ok(Plan::Run(v)) => views(v@) == q,
                        _ => false,
                    },
                }
            }
        },
{
    let ready = match fill_all(specs, answers) {
        Ok(v) => v,
        Err(e) => {
            return Err(e);
        },
    };
    let ghost js = views(ready@);
    let queue = match schedule_specs(&ready) {
        Ok(q) => q,
        Err(e) => {
            return Err(e);
        },
    };
    proof {
        lemma_valid_schedule(js);
        let o = schedule(js).1;
        assert forall|k: int| 0 <= k < o.len() implies views(queue@)[k] == queue_of(js)[k] by {
            assert(0 <= o[k] < js.len());
        }
        assert(views(queue@) =~= queue_of(js));
    }
    if config.dry_run {
        return Ok(Plan::Report(queue));
    }
    match &config.single_job {
        Some(jobname) => {
            let mut i: usize = 0;
            assert(views(queue@).subrange(0, queue@.len() as int) =~= views(queue@));
            while i < queue.len()
                invariant
                    i <= queue@.len(),
                    views(queue@) == queue_of(js),
                    first_named(views(queue@), jobname@) == if first_named(
                        views(queue@).subrange(i as int, queue@.len() as int),
                        jobname@,
                    ) < 0 {
                        -1
                    } else {
                        first_named(views(queue@).subrange(i as int, queue@.len() as int), jobname@)
                            + i
                    },
                decreases queue@.len() - i,
            {
                let ghost tail = views(queue@).subrange(i as int, queue@.len() as int);
                assert(tail.drop_first() =~= views(queue@).subrange(i + 1, queue@.len() as int));
                assert(tail[0] == queue@[i as int]@);
                if same_text(queue[i].name().as_str(), jobname.as_str()) {
                    let job = queue[i].duplicate();
                    let mut one: Vec<ReadyJob> = Vec::new();
                    one.push(job);
                    assert(views(one@) =~= seq![views(queue@)[i as int]]);
                    return Ok(Plan::Run(one));
                }
                i += 1;
            }
            Err(Error::JobNotFound(jobname.clone()))
        },
        None => Ok(Plan::Run(queue)),
    }
}

} // verus!
