//! The run-wide configuration and the `NAME=value` sources it holds.

use vstd::prelude::*;
use vstd::string::*;
use crate::common::{secure_name_check, stripped};
use crate::envmap::{EnvMap, Entry, lookup, put_all};
use crate::error::Error;
use crate::pairs::{is_parse_error, parse_pair, try_parse_var_string};

verus! {

/// The texts of a list of strings.
pub open spec fn texts(v: Seq<String>) -> Seq<Seq<char>> {
    v.map_values(|s: String| s@)
}

/// Whether every entry matches the `NAME=value` grammar.
pub open spec fn all_parse(lines: Seq<Seq<char>>) -> bool {
    forall|i: int| 0 <= i < lines.len() ==> parse_pair(#[trigger] lines[i]) is Some
}

/// The name and value of each entry, in order.
pub open spec fn parsed(lines: Seq<Seq<char>>) -> Seq<Entry> {
    lines.map_values(|l: Seq<char>| parse_pair(l).unwrap())
}

/// The value that an optional source holds for `key`.
pub open spec fn source_lookup(m: Option<EnvMap>, key: Seq<char>) -> Option<Seq<char>> {
    match m {
        Some(m) => lookup(m@, key),
        None => None,
    }
}

/// The variables of a list of entries: each entry in order, a later one
/// replacing an earlier one of the same name. Fails on the first entry that
/// does not match, naming it and `from`.
pub fn parse_var_strings(lines: &Vec<String>, from: &str) -> (r: Result<EnvMap, Error>)
    ensures
        all_parse(texts(lines@)) <==> r is Ok,
        match r {
            Ok(m) => m@ == put_all(Seq::empty(), parsed(texts(lines@))),
            Err(e) => exists|i: int|
                0 <= i < lines@.len() && parse_pair(lines@[i]@) is None && (forall|j: int|
                    0 <= j < i ==> parse_pair(#[trigger] lines@[j]@) is Some) && is_parse_error(
                    e,
                    from@,
                    lines@[i]@,
                ),
        },
{
    let mut map = EnvMap::new();
    let mut i: usize = 0;
    while i < lines.len()
        invariant
            i <= lines@.len(),
            forall|j: int| 0 <= j < i ==> parse_pair(#[trigger] lines@[j]@) is Some,
            map@ == put_all(Seq::empty(), parsed(texts(lines@.subrange(0, i as int)))),
        decreases lines@.len() - i,
    {
        match try_parse_var_string(lines[i].as_str(), from) {
            Ok((key, value)) => {
                let ghost before = parsed(texts(lines@.subrange(0, i as int)));
                map.insert(key, value);
                proof {
                    let after = parsed(texts(lines@.subrange(0, i + 1)));
                    assert(after.drop_last() =~= before);
                }
            },
            Err(e) => {
                assert(texts(lines@)[i as int] == lines@[i as int]@);
                return Err(e);
            },
        }
        i += 1;
    }
    proof {
        assert(lines@.subrange(0, i as int) =~= lines@);
        assert forall|j: int| 0 <= j < texts(lines@).len() implies parse_pair(
            #[trigger] texts(lines@)[j],
        ) is Some by {
            assert(parse_pair(lines@[j]@) is Some);
        }
    }
    Ok(map)
}

/// The pairs given on the command line.
pub fn parse_cmd_vars(pairs: Vec<String>) -> (r: Result<EnvMap, Error>)
    ensures
        all_parse(texts(pairs@)) <==> r is Ok,
        match r {
            Ok(m) => m@ == put_all(Seq::empty(), parsed(texts(pairs@))),
            Err(e) => exists|i: int|
                0 <= i < pairs@.len() && parse_pair(pairs@[i]@) is None && (forall|j: int|
                    0 <= j < i ==> parse_pair(#[trigger] pairs@[j]@) is Some) && is_parse_error(
                    e,
                    "command line"@,
                    pairs@[i]@,
                ),
        },
{
    parse_var_strings(&pairs, "command line")
}

/// What the invocation asked for, with the variables file already read into
/// its lines.
#[derive(Debug)]
pub struct Options {
    pub interactive: bool,
    pub dry_run: bool,
    pub no_allow_env: bool,
    pub ask_file_lines: Option<Vec<String>>,
    pub ask_vars: Option<Vec<String>>,
    pub single_job: Option<String>,
    pub force_empty_vars: bool,
    pub script_root: String,
}

/// The settings of one run, shared by reference by every step.
#[derive(Debug)]
pub struct Config {
    pub ask_file_vars: Option<EnvMap>,
    pub cmd_vars: Option<EnvMap>,
    pub root_dir: String,
    pub single_job: Option<String>,
    pub allow_env: bool,
    pub dry_run: bool,
    pub empty_vars: bool,
    pub interactive: bool,
}

/// The variables that an optional list of entries holds, `None` where there is no list.
pub open spec fn parsed_source(lines: Option<Vec<String>>) -> Option<Seq<Entry>> {
    match lines {
        Some(v) => Some(put_all(Seq::empty(), parsed(texts(v@)))),
        None => None,
    }
}

/// Whether the optional source `m` holds exactly the variables `expected`.
pub open spec fn source_is(m: Option<EnvMap>, expected: Option<Seq<Entry>>) -> bool {
    match (m, expected) {
        (Some(m), Some(x)) => m@ == x,
        (None, None) => true,
        _ => false,
    }
}

/// Whether every entry of an optional list matches the grammar.
pub open spec fn source_parses(lines: Option<Vec<String>>) -> bool {
    match lines {
        Some(v) => all_parse(texts(v@)),
        None => true,
    }
}

impl Config {
    /// The value given on the command line for the variable, looked up
    /// without its secure suffix.
    pub fn get_cmd_var(&self, name: &str) -> (r: Option<String>)
        ensures
            match r {
                Some(v) => source_lookup(self.cmd_vars, stripped(name@)) == Some(v@),
                None => source_lookup(self.cmd_vars, stripped(name@)) is None,
            },
    {
        let (key, _) = secure_name_check(name);
        match &self.cmd_vars {
            Some(m) => m.get(key.as_str()),
            None => None,
        }
    }

    /// The value given in the variables file for the variable, looked up
    /// without its secure suffix.
    pub fn get_file_var(&self, name: &str) -> (r: Option<String>)
        ensures
            match r {
                Some(v) => source_lookup(self.ask_file_vars, stripped(name@)) == Some(v@),
                None => source_lookup(self.ask_file_vars, stripped(name@)) is None,
            },
    {
        let (key, _) = secure_name_check(name);
        match &self.ask_file_vars {
            Some(m) => m.get(key.as_str()),
            None => None,
        }
    }

    /// The configuration that the options describe. The variables file is
    /// parsed before the command-line pairs, and the first entry of either
    /// that does not match the grammar fails the whole.
    pub fn try_from_options(o: Options) -> (r: Result<Config, Error>)
        ensures
            r is Ok <==> source_parses(o.ask_file_lines) && source_parses(o.ask_vars),
            match r {
                Ok(c) => source_is(c.ask_file_vars, parsed_source(o.ask_file_lines)) && source_is(
                    c.cmd_vars,
                    parsed_source(o.ask_vars),
                ) && c.root_dir@ == o.script_root@ && c.single_job == o.single_job && c.allow_env
                    == !o.no_allow_env && c.dry_run == o.dry_run && c.empty_vars
                    == o.force_empty_vars && c.interactive == o.interactive,
                Err(e) => e is UnparseableLine,
            },
    {
        let allow_env = !o.no_allow_env;
        let ask_file_vars = match o.ask_file_lines {
            Some(lines) => match parse_var_strings(&lines, "askfile") {
                Ok(m) => Some(m),
                Err(e) => {
                    return Err(e);
                },
            },
            None => None,
        };
        let cmd_vars = match o.ask_vars {
            Some(pairs) => match parse_cmd_vars(pairs) {
                Ok(m) => Some(m),
                Err(e) => {
                    return Err(e);
                },
            },
            None => None,
        };
        Ok(Config {
            ask_file_vars,
            cmd_vars,
            root_dir: o.script_root,
            single_job: o.single_job,
            allow_env,
            dry_run: o.dry_run,
            empty_vars: o.force_empty_vars,
            interactive: o.interactive,
        })
    }
}

} // verus!
