//! Resolving the variables that jobs ask for, and filling them into jobs.
//!
//! A variable is resolved from the first source that supplies a value, in
//! this order: the empty override, the process environment (where allowed),
//! the command-line pairs, the variables file, and the operator (where
//! interactive). The environment and the operator are outside the library:
//! the resolution is a sequence of steps, each of which says what to do next.

use vstd::prelude::*;
use vstd::string::*;
use crate::common::{is_secure, secure_name_check, stripped};
use crate::config::{source_lookup, texts, Config};
use crate::envmap::{lookup, put_all, EnvMap, Entry};
use crate::error::Error;
use crate::jobs::{JobSpec, ReadyJob};

verus! {

/// What `str::to_uppercase` makes of a string.
pub uninterp spec fn upper_of(s: Seq<char>) -> Seq<char>;

/// Relies on `str::to_uppercase`: the upper case of each character, which
/// depends on the characters alone.
#[verifier::external_body]
fn to_upper(s: &str) -> (r: String)
    ensures
        r@ == upper_of(s@),
{
    s.to_uppercase()
}

/// Whether `c` is an ASCII letter or digit.
pub open spec fn is_alnum(c: char) -> bool {
    ('A' as u32 <= c as u32 <= 'Z' as u32) || ('a' as u32 <= c as u32 <= 'z' as u32) || ('0' as u32
        <= c as u32 <= '9' as u32)
}

/// The character itself where it is an ASCII letter or digit, else `_`.
pub open spec fn underscored(c: char) -> char {
    if is_alnum(c) {
        c
    } else {
        '_'
    }
}

fn alnum(c: char) -> (r: bool)
    ensures
        r == is_alnum(c),
{
    let u = c as u32;
    ('A' as u32 <= u && u <= 'Z' as u32) || ('a' as u32 <= u && u <= 'z' as u32) || ('0' as u32
        <= u && u <= '9' as u32)
}

/// The string with each character that is not an ASCII letter or digit replaced by `_`.
pub open spec fn underscore_all(s: Seq<char>) -> Seq<char> {
    s.map_values(|c: char| underscored(c))
}

/// Replaces each character of `s` that is not an ASCII letter or digit by `_`.
pub fn underscore_separators(s: &str) -> (r: String)
    ensures
        r@ == underscore_all(s@),
{
    let n = s.unicode_len();
    let mut out = String::new();
    let mut i: usize = 0;
    while i < n
        invariant
            n == s@.len(),
            i <= n,
            out@ == underscore_all(s@.subrange(0, i as int)),
        decreases n - i,
    {
        let c = s.get_char(i);
        let ghost before = out@;
        if !alnum(c) {
            proof {
                reveal_strlit("_");
            }
            out.append("_");
        } else {
            out.append(s.substring_char(i, i + 1));
        }
        assert(out@ =~= before.push(underscored(c)));
        assert(s@.subrange(0, i + 1) =~= s@.subrange(0, i as int).push(c));
        i += 1;
        assert(out@ =~= underscore_all(s@.subrange(0, i as int)));
    }
    assert(s@.subrange(0, n as int) =~= s@);
    out
}

/// The key under which a job's declared variable is exported.
pub open spec fn encoded(key: Seq<char>) -> Seq<char> {
    underscore_all(upper_of(key))
}

/// The key under which a job's declared variable is exported: upper case,
/// with every character that is not an ASCII letter or digit replaced by `_`.
pub fn encode_key(key: &str) -> (r: String)
    ensures
        r@ == encoded(key@),
{
    let upper = to_upper(key);
    underscore_separators(upper.as_str())
}

/// What one step of resolving a variable comes to.
#[derive(Debug)]
pub enum VarStep {
    /// The variable's key and its value.
    Resolved(String, String),
    /// Read the process environment under this key, then call `resume_after_env`.
    ReadEnv(String),
    /// Ask the operator for the variable under this key, masking the input
    /// where the flag is set, then call `resume_after_prompt`.
    Prompt(String, bool),
    /// No source supplied a value.
    Failed(Error),
}

/// A step, as character sequences.
pub enum StepView {
    Resolved(Seq<char>, Seq<char>),
    ReadEnv(Seq<char>),
    Prompt(Seq<char>, bool),
    Failed(Seq<char>),
}

/// Whether the step `r` is `v`.
pub open spec fn step_is(r: VarStep, v: StepView) -> bool {
    match (r, v) {
        (VarStep::Resolved(k, x), StepView::Resolved(k2, x2)) => k@ == k2 && x@ == x2,
        (VarStep::ReadEnv(k), StepView::ReadEnv(k2)) => k@ == k2,
        (VarStep::Prompt(k, s), StepView::Prompt(k2, s2)) => k@ == k2 && s == s2,
        (VarStep::Failed(Error::UnresolvedVar(k)), StepView::Failed(k2)) => k@ == k2,
        _ => false,
    }
}

/// The step after the environment, which supplied `found`.
pub open spec fn after_env(name: Seq<char>, c: Config, found: Option<Seq<char>>) -> StepView {
    let key = stripped(name);
    match found {
        Some(v) => StepView::Resolved(key, v),
        None => match source_lookup(c.cmd_vars, key) {
            Some(v) => StepView::Resolved(key, v),
            None => match source_lookup(c.ask_file_vars, key) {
                Some(v) => StepView::Resolved(key, v),
                None => if c.interactive {
                    StepView::Prompt(key, is_secure(name))
                } else {
                    StepView::Failed(key)
                },
            },
        },
    }
}

/// The first step.
pub open spec fn first_step(name: Seq<char>, c: Config) -> StepView {
    if c.empty_vars {
        StepView::Resolved(stripped(name), Seq::empty())
    } else if c.allow_env {
        StepView::ReadEnv(stripped(name))
    } else {
        after_env(name, c, None)
    }
}

/// The step after the operator gave `answer`.
pub open spec fn after_prompt(name: Seq<char>, answer: Option<Seq<char>>) -> StepView {
    match answer {
        Some(v) => StepView::Resolved(stripped(name), v),
        None => StepView::Failed(stripped(name)),
    }
}

/// The value that resolution comes to, where the environment holds `env`
/// under the key and the operator would answer `answer`: the first source
/// that supplies one.
pub open spec fn resolved_value(
    name: Seq<char>,
    c: Config,
    env: Option<Seq<char>>,
    answer: Option<Seq<char>>,
) -> Option<Seq<char>> {
    let key = stripped(name);
    if c.empty_vars {
        Some(Seq::empty())
    } else if c.allow_env && env is Some {
        env
    } else if source_lookup(c.cmd_vars, key) is Some {
        source_lookup(c.cmd_vars, key)
    } else if source_lookup(c.ask_file_vars, key) is Some {
        source_lookup(c.ask_file_vars, key)
    } else if c.interactive {
        answer
    } else {
        None
    }
}

/// Where the steps end when the environment holds `env` and the operator
/// answers `answer`.
pub open spec fn run_steps(
    name: Seq<char>,
    c: Config,
    env: Option<Seq<char>>,
    answer: Option<Seq<char>>,
) -> StepView {
    let s = match first_step(name, c) {
        StepView::ReadEnv(_) => after_env(name, c, env),
        other => other,
    };
    match s {
        StepView::Prompt(_, _) => after_prompt(name, answer),
        other => other,
    }
}

/// The first step of resolving the variable `name`.
pub fn query_single_var(name: &str, config: &Config) -> (r: VarStep)
    ensures
        step_is(r, first_step(name@, *config)),
{
    if config.empty_vars {
        let (key, _) = secure_name_check(name);
        VarStep::Resolved(key, String::new())
    } else if config.allow_env {
        let (key, _) = secure_name_check(name);
        VarStep::ReadEnv(key)
    } else {
        resume_after_env(name, config, None)
    }
}

/// The step after the process environment gave `found` for the variable.
pub fn resume_after_env(name: &str, config: &Config, found: Option<String>) -> (r: VarStep)
    ensures
        step_is(
            r,
            after_env(
                name@,
                *config,
                match found {
                    Some(v) => Some(v@),
                    None => None,
                },
            ),
        ),
{
    let (key, secure) = secure_name_check(name);
    if let Some(v) = found {
        return VarStep::Resolved(key, v);
    }
    if let Some(v) = config.get_cmd_var(name) {
        return VarStep::Resolved(key, v);
    }
    if let Some(v) = config.get_file_var(name) {
        return VarStep::Resolved(key, v);
    }
    if config.interactive {
        VarStep::Prompt(key, secure)
    } else {
        VarStep::Failed(Error::UnresolvedVar(key))
    }
}

/// The step after the operator gave `answer` for the variable; `None` where
/// no answer could be had.
pub fn resume_after_prompt(name: &str, answer: Option<String>) -> (r: VarStep)
    ensures
        step_is(
            r,
            after_prompt(
                name@,
                match answer {
                    Some(v) => Some(v@),
                    None => None,
                },
            ),
        ),
{
    let (key, _) = secure_name_check(name);
    match answer {
        Some(v) => VarStep::Resolved(key, v),
        None => VarStep::Failed(Error::UnresolvedVar(key)),
    }
}

/// Resolution tries the sources in their fixed order and ends with the
/// value of the first that supplies one, an empty value included; it ends
/// in failure only where none does. The key is always the name without its
/// secure suffix, and the operator is asked with the input masked exactly
/// for a secure name.
pub proof fn lemma_first_source_wins(
    name: Seq<char>,
    c: Config,
    env: Option<Seq<char>>,
    answer: Option<Seq<char>>,
)
    ensures
        match run_steps(name, c, env, answer) {
            StepView::Resolved(k, v) => k == stripped(name) && resolved_value(name, c, env, answer)
                == Some(v),
            StepView::Failed(k) => k == stripped(name) && resolved_value(name, c, env, answer) is None,
            _ => false,
        },
        match after_env(name, c, None) {
            StepView::Prompt(k, s) => k == stripped(name) && s == is_secure(name),
            _ => true,
        },
{
}

/// The entry that answers each asked-for variable, in the order asked.
pub open spec fn asked_entries(asks: Seq<Seq<char>>, answers: Seq<Entry>) -> Seq<Entry> {
    asks.map_values(|a: Seq<char>| (stripped(a), lookup(answers, stripped(a)).unwrap()))
}

/// Whether every asked-for variable has an answer.
pub open spec fn all_answered(asks: Seq<Seq<char>>, answers: Seq<Entry>) -> bool {
    forall|i: int| 0 <= i < asks.len() ==> lookup(answers, stripped(#[trigger] asks[i])) is Some
}

/// A job's declared variables under their exported keys.
pub open spec fn encoded_entries(env: Seq<Entry>) -> Seq<Entry> {
    env.map_values(|e: Entry| (encoded(e.0), e.1))
}

/// The variables of a job once filled: the answers to what it asks for, in
/// the order asked, then its own declared variables under their exported
/// keys, which take precedence.
pub open spec fn filled_env(asks: Seq<Seq<char>>, provided: Seq<Entry>, answers: Seq<Entry>) -> Seq<
    Entry,
> {
    put_all(put_all(Seq::empty(), asked_entries(asks, answers)), encoded_entries(provided))
}

/// The job with its variables filled from `answers`; fails on the first
/// asked-for variable that has no answer.
pub fn fill_asked(spec: JobSpec, answers: &EnvMap) -> (r: Result<ReadyJob, Error>)
    ensures
        all_answered(texts(spec.ask_for_vars@), answers@) <==> r is Ok,
        match r {
            Ok(job) => job@.name == spec.name@ && job@.depends == texts(spec.depends@)
                && job@.has_deps_script == spec.has_deps_script && job@.env == filled_env(
                texts(spec.ask_for_vars@),
                spec.provided_env@,
                answers@,
            ),
            Err(e) => match e {
                Error::UnresolvableVar(k) => exists|i: int|
                    0 <= i < spec.ask_for_vars@.len() && k@ == stripped(spec.ask_for_vars@[i]@)
                        && lookup(answers@, k@) is None && forall|j: int|
                        0 <= j < i ==> lookup(answers@, stripped(#[trigger] spec.ask_for_vars@[j]@)) is Some,
                _ => false,
            },
        },
{
    let ghost asks = texts(spec.ask_for_vars@);
    let mut map = EnvMap::new();
    let mut i: usize = 0;
    while i < spec.ask_for_vars.len()
        invariant
            i <= spec.ask_for_vars@.len(),
            asks == texts(spec.ask_for_vars@),
            forall|j: int| 0 <= j < i ==> lookup(answers@, stripped(#[trigger] asks[j])) is Some,
            map@ == put_all(Seq::empty(), asked_entries(asks.subrange(0, i as int), answers@)),
        decreases spec.ask_for_vars@.len() - i,
    {
        let (name, _) = secure_name_check(spec.ask_for_vars[i].as_str());
        match answers.get(name.as_str()) {
            Some(value) => {
                let ghost before = asked_entries(asks.subrange(0, i as int), answers@);
                map.insert(name, value);
                proof {
                    let after = asked_entries(asks.subrange(0, i + 1), answers@);
                    assert(after.drop_last() =~= before);
                    assert(asks[i as int] == spec.ask_for_vars@[i as int]@);
                }
            },
            None => {
                assert(asks[i as int] == spec.ask_for_vars@[i as int]@);
                assert forall|j: int| 0 <= j < i implies lookup(
                    answers@,
                    stripped(#[trigger] spec.ask_for_vars@[j]@),
                ) is Some by {
                    assert(asks[j] == spec.ask_for_vars@[j]@);
                }
                return Err(Error::UnresolvableVar(name));
            },
        }
        i += 1;
    }
    assert(asks.subrange(0, i as int) =~= asks);
    let ghost base = map@;
    let mut j: usize = 0;
    while j < spec.provided_env.len()
        invariant
            j <= spec.provided_env@.len(),
            map@ == put_all(base, encoded_entries(spec.provided_env@.subrange(0, j as int))),
        decreases spec.provided_env@.len() - j,
    {
        let (k, v) = spec.provided_env.entry(j);
        let key = encode_key(k.as_str());
        let ghost before = encoded_entries(spec.provided_env@.subrange(0, j as int));
        map.insert(key, v.clone());
        proof {
            let after = encoded_entries(spec.provided_env@.subrange(0, j + 1));
            assert(after.drop_last() =~= before);
        }
        j += 1;
    }
    assert(spec.provided_env@.subrange(0, j as int) =~= spec.provided_env@);
    Ok(ReadyJob::new(spec.name, map, spec.depends, spec.has_deps_script))
}

/// The names of `names` whose key was not asked for before, in order.
pub open spec fn first_asks(names: Seq<Seq<char>>) -> Seq<Seq<char>>
    decreases names.len(),
{
    if names.len() == 0 {
        Seq::empty()
    } else {
        let f = first_asks(names.drop_last());
        if keys_of(f).contains(stripped(names.last())) {
            f
        } else {
            f.push(names.last())
        }
    }
}

/// Every name that the first `i` jobs ask for, job by job.
pub open spec fn asks_upto(specs: Seq<JobSpec>, i: int) -> Seq<Seq<char>>
    decreases i,
{
    if i <= 0 {
        Seq::empty()
    } else {
        asks_upto(specs, i - 1) + texts(specs[i - 1].ask_for_vars@)
    }
}

/// The keys of a list of names.
pub open spec fn keys_of(names: Seq<Seq<char>>) -> Seq<Seq<char>> {
    names.map_values(|m: Seq<char>| stripped(m))
}

/// Whether `key` is the key of one of `names`.
fn has_key(names: &Vec<String>, key: &str) -> (r: bool)
    ensures
        r == keys_of(texts(names@)).contains(key@),
{
    let mut i: usize = 0;
    while i < names.len()
        invariant
            i <= names@.len(),
            forall|j: int| 0 <= j < i ==> stripped(#[trigger] names@[j]@) != key@,
        decreases names@.len() - i,
    {
        let (k, _) = secure_name_check(names[i].as_str());
        if crate::text::same_text(k.as_str(), key) {
            assert(keys_of(texts(names@))[i as int] == key@);
            return true;
        }
        i += 1;
    }
    assert forall|j: int| 0 <= j < names@.len() implies keys_of(texts(names@))[j] != key@ by {
        assert(stripped(names@[j]@) != key@);
    }
    false
}

/// The variables to resolve for the jobs: every name that a job asks for,
/// in the order first asked, each key once, so that a variable asked for by
/// several jobs, secure or not, is resolved a single time.
pub fn vars_to_query(specs: &Vec<JobSpec>) -> (r: Vec<String>)
    ensures
        texts(r@) == first_asks(asks_upto(specs@, specs@.len() as int)),
{
    let mut out: Vec<String> = Vec::new();
    let mut i: usize = 0;
    while i < specs.len()
        invariant
            i <= specs@.len(),
            texts(out@) == first_asks(asks_upto(specs@, i as int)),
        decreases specs@.len() - i,
    {
        let asks = specs[i].get_ask_vars();
        let ghost done = asks_upto(specs@, i as int);
        let mut j: usize = 0;
        assert(done + texts(asks@).subrange(0, 0) =~= done);
        while j < asks.len()
            invariant
                i < specs@.len(),
                asks == &specs@[i as int].ask_for_vars,
                j <= asks@.len(),
                done == asks_upto(specs@, i as int),
                texts(out@) == first_asks(done + texts(asks@).subrange(0, j as int)),
            decreases asks@.len() - j,
        {
            let ghost prev = done + texts(asks@).subrange(0, j as int);
            let ghost next = done + texts(asks@).subrange(0, j + 1);
            assert(next.drop_last() =~= prev);
            assert(next.last() == asks@[j as int]@);
            let (key, _) = secure_name_check(asks[j].as_str());
            if !has_key(&out, key.as_str()) {
                out.push(asks[j].clone());
                assert(texts(out@) =~= first_asks(prev).push(asks@[j as int]@));
            }
            j += 1;
        }
        assert(done + texts(asks@).subrange(0, j as int) =~= asks_upto(specs@, i + 1));
        i += 1;
    }
    out
}

} // verus!
