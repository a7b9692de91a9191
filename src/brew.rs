use vstd::prelude::*;
use vstd::string::*;
use crate::config::Brew;
use crate::domains::{contains_name, names_view};

verus! {

/// What a Homebrew listing lists.
#[derive(Debug, Clone, Copy, PartialEq, Eq, Structural)]
pub enum BrewListType {
    /// Casks (inside the caskroom).
    Cask,
    /// Formulae (inside the cellar).
    Formula,
    /// Formulae installed only as dependencies.
    Dependency,
    /// Taps.
    Tap,
}

impl BrewListType {
    pub open spec fn flag_spec(self) -> Seq<char> {
        match self {
            BrewListType::Cask => seq!['-', '-', 'c', 'a', 's', 'k'],
            BrewListType::Formula => seq!['-', '-', 'f', 'o', 'r', 'm', 'u', 'l', 'a'],
            BrewListType::Dependency => seq![
                '-', '-', 'i', 'n', 's', 't', 'a', 'l', 'l', 'e', 'd', '-', 'a', 's', '-', 'd', 'e', 'p', 'e', 'n', 'd', 'e', 'n', 'c', 'y',
            ],
            BrewListType::Tap => seq!['t', 'a', 'p'],
        }
    }

    /// The word that selects this listing on Homebrew's command line.
    pub fn flag(&self) -> (r: &'static str)
        ensures
            r@ == self.flag_spec(),
    {
        match self {
            BrewListType::Cask => {
                proof {
                    reveal_strlit("--cask");
                }
                "--cask"
            },
            BrewListType::Formula => {
                proof {
                    reveal_strlit("--formula");
                }
                "--formula"
            },
            BrewListType::Dependency => {
                proof {
                    reveal_strlit("--installed-as-dependency");
                }
                "--installed-as-dependency"
            },
            BrewListType::Tap => {
                proof {
                    reveal_strlit("tap");
                }
                "tap"
            },
        }
    }
}

/// The difference between the configured and the installed packages.
pub struct BrewDiff {
    pub missing_formulae: Vec<String>,
    pub extra_formulae: Vec<String>,
    pub missing_casks: Vec<String>,
    pub extra_casks: Vec<String>,
    pub missing_taps: Vec<String>,
    pub extra_taps: Vec<String>,
}

pub open spec fn count_char(s: Seq<char>, c: char) -> nat
    decreases s.len(),
{
    if s.len() == 0 {
        0
    } else {
        count_char(s.drop_last(), c) + if s.last() == c {
            1nat
        } else {
            0nat
        }
    }
}

/// The part of `s` after its last `c`.
pub open spec fn after_last(s: Seq<char>, c: char) -> Seq<char>
    decreases s.len(),
{
    if s.len() == 0 {
        s
    } else if s.last() == c {
        Seq::empty()
    } else {
        after_last(s.drop_last(), c).push(s.last())
    }
}

/// Each name, followed by its short name when it is a tap-qualified one
/// (`user/tap/name`, exactly two slashes): `some/cool/program` gives
/// `some/cool/program` and `program`.
pub open spec fn flatten_spec(lines: Seq<Seq<char>>) -> Seq<Seq<char>>
    decreases lines.len(),
{
    if lines.len() == 0 {
        Seq::empty()
    } else {
        let l = lines.last();
        flatten_spec(lines.drop_last()) + if count_char(l, '/') == 2 {
            seq![l, after_last(l, '/')]
        } else {
            seq![l]
        }
    }
}

/// The elements of `a` that are not in `b`, in order.
pub open spec fn not_in(a: Seq<Seq<char>>, b: Seq<Seq<char>>) -> Seq<Seq<char>>
    decreases a.len(),
{
    if a.len() == 0 {
        Seq::empty()
    } else {
        not_in(a.drop_last(), b) + if b.contains(a.last()) {
            Seq::empty()
        } else {
            seq![a.last()]
        }
    }
}

/// Splits off the short name of a tap-qualified name, if it is one.
fn short_name(l: &str) -> (r: Option<String>)
    ensures
        count_char(l@, '/') == 2 ==> (r matches Some(s) && s@ == after_last(l@, '/')),
        count_char(l@, '/') != 2 ==> r is None,
{
    let n = l.unicode_len();
    let mut slashes: usize = 0;
    let mut last: usize = 0;
    let mut i: usize = 0;
    while i < n
        invariant
            0 <= i <= n == l@.len(),
            slashes as nat == count_char(l@.subrange(0, i as int), '/'),
            slashes <= i,
            last <= i,
            after_last(l@.subrange(0, i as int), '/') == l@.subrange(last as int, i as int),
        decreases n - i,
    {
        assert(l@.subrange(0, i + 1).drop_last() =~= l@.subrange(0, i as int));
        if l.get_char(i) == '/' {
            slashes += 1;
            last = i + 1;
            assert(l@.subrange(last as int, i + 1) =~= Seq::<char>::empty());
        } else {
            assert(l@.subrange(last as int, i + 1) =~= l@.subrange(last as int, i as int).push(l@[i as int]));
        }
        i += 1;
    }
    assert(l@.subrange(0, n as int) =~= l@);
    if slashes == 2 {
        Some(String::from_str(l.substring_char(last, n)))
    } else {
        None
    }
}

/// Flattens tap prefixes: each name is kept, and a tap-qualified name
/// (`user/tap/name`) is followed by its short name.
pub fn flatten_tap_prefix(lines: &Vec<String>) -> (r: Vec<String>)
    ensures
        names_view(r@) == flatten_spec(names_view(lines@)),
{
    let ghost lv = names_view(lines@);
    let mut out: Vec<String> = Vec::new();
    let mut i: usize = 0;
    while i < lines.len()
        invariant
            0 <= i <= lines@.len(),
            lv == names_view(lines@),
            names_view(out@) == flatten_spec(lv.subrange(0, i as int)),
        decreases lines@.len() - i,
    {
        let ghost before = names_view(out@);
        assert(lv.subrange(0, i + 1).drop_last() =~= lv.subrange(0, i as int));
        assert(lv.subrange(0, i + 1).last() == lines@[i as int]@);
        out.push(lines[i].clone());
        match short_name(lines[i].as_str()) {
            Some(s) => {
                out.push(s);
            },
            None => {},
        }
        assert(names_view(out@) =~= flatten_spec(lv.subrange(0, i + 1)));
        i += 1;
    }
    assert(lv.subrange(0, lines@.len() as int) =~= lv);
    out
}

/// The names of `a` that are not in `b`, in order.
pub fn missing_from(a: &Vec<String>, b: &Vec<String>) -> (r: Vec<String>)
    ensures
        names_view(r@) == not_in(names_view(a@), names_view(b@)),
{
    let ghost av = names_view(a@);
    let mut out: Vec<String> = Vec::new();
    let mut i: usize = 0;
    while i < a.len()
        invariant
            0 <= i <= a@.len(),
            av == names_view(a@),
            names_view(out@) == not_in(av.subrange(0, i as int), names_view(b@)),
        decreases a@.len() - i,
    {
        assert(av.subrange(0, i + 1).drop_last() =~= av.subrange(0, i as int));
        assert(av.subrange(0, i + 1).last() == a@[i as int]@);
        let ghost before = names_view(out@);
        if !contains_name(b, a[i].as_str()) {
            out.push(a[i].clone());
            assert(names_view(out@) =~= before + seq![a@[i as int]@]);
        } else {
            assert(names_view(out@) =~= before + Seq::<Seq<char>>::empty());
        }
        i += 1;
    }
    assert(av.subrange(0, a@.len() as int) =~= av);
    out
}

pub open spec fn opt_names(o: Option<Vec<String>>) -> Seq<Seq<char>> {
    match o {
        Some(v) => names_view(v@),
        None => Seq::empty(),
    }
}

fn names_or_empty(o: &Option<Vec<String>>) -> (r: Vec<String>)
    ensures
        names_view(r@) == opt_names(*o),
{
    match o {
        Some(v) => {
            let c = v.clone();
            assert(names_view(c@) =~= names_view(v@));
            c
        },
        None => {
            let e: Vec<String> = Vec::new();
            assert(names_view(e@) =~= Seq::<Seq<char>>::empty());
            e
        },
    }
}

/// Compares the `[brew]` table with what Homebrew reports as installed
/// (formulae and casks flattened as [`flatten_tap_prefix`] does, taps as
/// they are). With `no_deps` set, formulae installed only as dependencies
/// (`dependencies`) do not count as installed extras.
pub fn diff_brew(
    brew_cfg: &Brew,
    installed_formulae: &Vec<String>,
    installed_casks: &Vec<String>,
    installed_taps: &Vec<String>,
    dependencies: &Vec<String>,
) -> (r: BrewDiff)
    ensures
        ({
            let cf = flatten_spec(opt_names(brew_cfg.formulae));
            let cc = flatten_spec(opt_names(brew_cfg.casks));
            let ct = opt_names(brew_cfg.taps);
            let inf = if brew_cfg.no_deps == Some(true) {
                not_in(names_view(installed_formulae@), names_view(dependencies@))
            } else {
                names_view(installed_formulae@)
            };
            &&& names_view(r.missing_formulae@) == not_in(cf, inf)
            &&& names_view(r.extra_formulae@) == not_in(inf, cf)
            &&& names_view(r.missing_casks@) == not_in(cc, names_view(installed_casks@))
            &&& names_view(r.extra_casks@) == not_in(names_view(installed_casks@), cc)
            &&& names_view(r.missing_taps@) == not_in(ct, names_view(installed_taps@))
            &&& names_view(r.extra_taps@) == not_in(names_view(installed_taps@), ct)
        }),
{
    let no_deps = match brew_cfg.no_deps {
        Some(b) => b,
        None => false,
    };
    let config_formulae = flatten_tap_prefix(&names_or_empty(&brew_cfg.formulae));
    let config_casks = flatten_tap_prefix(&names_or_empty(&brew_cfg.casks));
    let config_taps = names_or_empty(&brew_cfg.taps);
    let formulae = if no_deps {
        missing_from(installed_formulae, dependencies)
    } else {
        let c = installed_formulae.clone();
        assert(names_view(c@) =~= names_view(installed_formulae@));
        c
    };
    BrewDiff {
        missing_formulae: missing_from(&config_formulae, &formulae),
        extra_formulae: missing_from(&formulae, &config_formulae),
        missing_casks: missing_from(&config_casks, installed_casks),
        extra_casks: missing_from(installed_casks, &config_casks),
        missing_taps: missing_from(&config_taps, installed_taps),
        extra_taps: missing_from(installed_taps, &config_taps),
    }
}

} // verus!
