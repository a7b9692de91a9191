use vstd::prelude::*;
use vstd::string::*;
use crate::config::Command;

verus! {

/// Which external commands a run executes.
#[derive(Debug, Clone, Copy, PartialEq, Eq, Structural)]
pub enum ExecMode {
    /// Those not flagged.
    Regular,
    /// All of them.
    All,
    /// Only the flagged ones.
    Flagged,
}

/// An external command, ready to run.
pub struct ExecJob {
    pub name: String,
    /// The command line, its variables already substituted.
    pub run: String,
    pub sudo: bool,
    pub ensure_first: bool,
    pub flag: bool,
    pub required: Vec<String>,
}

pub open spec fn flag_or_false(b: Option<bool>) -> bool {
    match b {
        Some(x) => x,
        None => false,
    }
}

fn unwrap_flag(b: Option<bool>) -> (r: bool)
    ensures
        r == flag_or_false(b),
{
    match b {
        Some(x) => x,
        None => false,
    }
}

pub open spec fn bindings_view(v: Seq<(String, String)>) -> Seq<(Seq<char>, Seq<char>)> {
    Seq::new(v.len(), |i: int| (v[i].0@, v[i].1@))
}

/// What a variable reference stands for: the value of the first binding
/// with that name, else the reference written back as `${name}`.
pub open spec fn lookup_spec(vars: Seq<(Seq<char>, Seq<char>)>, name: Seq<char>) -> Seq<char>
    decreases vars.len(),
{
    if vars.len() == 0 {
        seq!['$', '{'] + name + seq!['}']
    } else if vars[0].0 == name {
        vars[0].1
    } else {
        lookup_spec(vars.subrange(1, vars.len() as int), name)
    }
}

/// The value a variable reference stands for, as [`lookup_spec`] says.
pub fn lookup_var(vars: &Vec<(String, String)>, name: &str) -> (r: String)
    ensures
        r@ == lookup_spec(bindings_view(vars@), name@),
{
    let ghost bv = bindings_view(vars@);
    let target = String::from_str(name);
    let mut i: usize = 0;
    assert(bv.subrange(0, bv.len() as int) =~= bv);
    while i < vars.len()
        invariant
            0 <= i <= vars@.len(),
            bv == bindings_view(vars@),
            target@ == name@,
            lookup_spec(bv, name@) == lookup_spec(bv.subrange(i as int, bv.len() as int), name@),
        decreases vars@.len() - i,
    {
        let ghost rest = bv.subrange(i as int, bv.len() as int);
        assert(rest.subrange(1, rest.len() as int) =~= bv.subrange(i + 1, bv.len() as int));
        assert(rest[0] == (vars@[i as int].0@, vars@[i as int].1@));
        if vars[i].0 == target {
            return vars[i].1.clone();
        }
        i += 1;
    }
    proof {
        reveal_strlit("${");
        reveal_strlit("}");
    }
    String::from_str("${").concat(name).concat("}")
}

/// The text with every `$name` and `${name}` replaced as [`lookup_spec`] says.
pub uninterp spec fn substituted(text: Seq<char>, vars: Seq<(Seq<char>, Seq<char>)>) -> Seq<char>;

/// Relies on `regex::Regex::new` and `regex::Regex::replace_all`: each
/// non-overlapping match of `$name` or `${name}` (a name being a letter or
/// `_`, then letters, digits or `_`) is replaced by what [`lookup_var`]
/// gives for its name, the rest of the text kept; the result depends on the
/// text and the bindings alone. `None` if the pattern is refused.
#[verifier::external_body]
fn substitute(text: &str, vars: &Vec<(String, String)>) -> (r: Option<String>)
    ensures
        r matches Some(s) ==> s@ == substituted(text@, bindings_view(vars@)),
{
    match regex::Regex::new(r"\$([A-Za-z_][A-Za-z0-9_]*)|\$\{([A-Za-z_][A-Za-z0-9_]*)\}") {
        Ok(re) => Some(
            re.replace_all(text, |caps: &regex::Captures| lookup_var(vars, caps.get(1).or_else(|| caps.get(2)).map_or("", |m| m.as_str())))
                .into_owned(),
        ),
        Err(_) => None,
    }
}

impl ExecJob {
    /// The job of the configured command `name`: its command line with its
    /// variables substituted from `vars` (the configured variables, then the
    /// environment's), absent options false, an absent list of required
    /// programs empty. `None` when the substitution cannot be made.
    pub fn from_command(name: &str, command: &Command, vars: &Vec<(String, String)>) -> (r: Option<ExecJob>)
        ensures
            r matches Some(j) ==> {
                &&& j.name@ == name@
                &&& j.run@ == substituted(command.run@, bindings_view(vars@))
                &&& j.sudo == flag_or_false(command.sudo)
                &&& j.ensure_first == flag_or_false(command.ensure_first)
                &&& j.flag == flag_or_false(command.flag)
                &&& command.required is None ==> j.required@.len() == 0
                &&& command.required matches Some(v) ==> j.required@ == v@
            },
    {
        let run = match substitute(command.run.as_str(), vars) {
            Some(r) => r,
            None => {
                return None;
            },
        };
        let required = match &command.required {
            Some(v) => {
                let c = v.clone();
                assert(c@ =~= v@);
                c
            },
            None => Vec::new(),
        };
        Some(ExecJob {
            name: name.to_owned(),
            run,
            sudo: unwrap_flag(command.sudo),
            ensure_first: unwrap_flag(command.ensure_first),
            flag: unwrap_flag(command.flag),
            required,
        })
    }
}

/// A job takes part in a run of the given mode: its required programs are
/// all present, and its flag suits the mode.
pub open spec fn selected(flag: bool, present: bool, mode: ExecMode) -> bool {
    present && !(mode == ExecMode::Regular && flag) && !(mode == ExecMode::Flagged && !flag)
}

/// The positions of the jobs that take part, split by whether they must run
/// first.
pub open spec fn pick(jobs: Seq<ExecJob>, present: Seq<bool>, mode: ExecMode, first: bool) -> Seq<usize>
    decreases jobs.len(),
{
    if jobs.len() == 0 {
        Seq::empty()
    } else {
        let n = jobs.len() - 1;
        pick(jobs.drop_last(), present, mode, first) + if selected(jobs[n].flag, present[n], mode) && jobs[n].ensure_first == first {
            seq![n as usize]
        } else {
            Seq::empty()
        }
    }
}

/// The jobs of a run: those to run one after another first, then those to
/// run together; each list by position, in configuration order.
pub struct ExecSelection {
    pub ensure_first: Vec<usize>,
    pub regular: Vec<usize>,
}

/// Chooses the jobs of a run. `bins_present[i]` tells whether the required
/// programs of `jobs[i]` were all found.
pub fn select_jobs(jobs: &Vec<ExecJob>, mode: ExecMode, bins_present: &Vec<bool>) -> (r: ExecSelection)
    requires
        bins_present@.len() == jobs@.len(),
    ensures
        r.ensure_first@ == pick(jobs@, bins_present@, mode, true),
        r.regular@ == pick(jobs@, bins_present@, mode, false),
{
    let mut first: Vec<usize> = Vec::new();
    let mut rest: Vec<usize> = Vec::new();
    let mut i: usize = 0;
    while i < jobs.len()
        invariant
            0 <= i <= jobs@.len() == bins_present@.len(),
            first@ == pick(jobs@.subrange(0, i as int), bins_present@, mode, true),
            rest@ == pick(jobs@.subrange(0, i as int), bins_present@, mode, false),
        decreases jobs@.len() - i,
    {
        let ghost js = jobs@.subrange(0, i + 1);
        assert(js.drop_last() =~= jobs@.subrange(0, i as int));
        assert(js[i as int] == jobs@[i as int]);
        let sel = bins_present[i] && !(mode == ExecMode::Regular && jobs[i].flag) && !(mode == ExecMode::Flagged && !jobs[i].flag);
        let ghost f0 = first@;
        let ghost r0 = rest@;
        if sel {
            if jobs[i].ensure_first {
                first.push(i);
                assert(rest@ =~= r0 + Seq::<usize>::empty());
            } else {
                rest.push(i);
                assert(first@ =~= f0 + Seq::<usize>::empty());
            }
        } else {
            assert(rest@ =~= r0 + Seq::<usize>::empty());
            assert(first@ =~= f0 + Seq::<usize>::empty());
        }
        i += 1;
    }
    assert(jobs@.subrange(0, jobs@.len() as int) =~= jobs@);
    ExecSelection { ensure_first: first, regular: rest }
}

} // verus!
