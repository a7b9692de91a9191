use vstd::prelude::*;
use vstd::string::*;

verus! {

/// The name of the global preference domain.
pub open spec fn global_domain() -> Seq<char> {
    seq!['N', 'S', 'G', 'l', 'o', 'b', 'a', 'l', 'D', 'o', 'm', 'a', 'i', 'n']
}

/// The prefix by which a configured domain addresses keys nested in the
/// global domain.
pub open spec fn global_prefix() -> Seq<char> {
    global_domain().push('.')
}

/// The prefix that turns an application's short name into its domain.
pub open spec fn apple_prefix() -> Seq<char> {
    seq!['c', 'o', 'm', '.', 'a', 'p', 'p', 'l', 'e', '.']
}

pub open spec fn starts_with(s: Seq<char>, p: Seq<char>) -> bool {
    p.len() <= s.len() && s.subrange(0, p.len() as int) == p
}

/// The store domain that a configured domain names, without a list of the
/// domains that exist.
pub open spec fn defaults_domain_spec(domain: Seq<char>) -> Seq<char> {
    if starts_with(domain, global_prefix()) || domain == global_domain() {
        global_domain()
    } else {
        apple_prefix() + domain
    }
}

/// Resolution of a configured (domain, key) pair to the store's, given the
/// names of the domains that exist in the store.
pub open spec fn resolve_spec(domain: Seq<char>, key: Seq<char>, known: Seq<Seq<char>>) -> (Seq<char>, Seq<char>) {
    if starts_with(domain, global_prefix()) {
        (global_domain(), domain.subrange(global_prefix().len() as int, domain.len() as int) + seq!['.'] + key)
    } else if domain == global_domain() {
        (global_domain(), key)
    } else if known.contains(domain) {
        (domain, key)
    } else {
        (apple_prefix() + domain, key)
    }
}

/// Resolution without a list of existing domains: every name other than the
/// global one is taken as an application's short name.
pub open spec fn effective_spec(domain: Seq<char>, key: Seq<char>) -> (Seq<char>, Seq<char>) {
    resolve_spec(domain, key, Seq::empty())
}

pub open spec fn names_view(v: Seq<String>) -> Seq<Seq<char>> {
    Seq::new(v.len(), |i: int| v[i]@)
}

/// Whether `s` starts with `p`.
fn has_prefix(s: &str, p: &str) -> (r: bool)
    ensures
        r == starts_with(s@, p@),
{
    let n = p.unicode_len();
    if s.unicode_len() < n {
        return false;
    }
    let head = String::from_str(s.substring_char(0, n));
    let whole = String::from_str(p);
    head == whole
}

/// Whether `name` is one of `names`.
pub fn contains_name(names: &Vec<String>, name: &str) -> (r: bool)
    ensures
        r == names_view(names@).contains(name@),
{
    let target = String::from_str(name);
    let mut i: usize = 0;
    while i < names.len()
        invariant
            0 <= i <= names@.len(),
            target@ == name@,
            forall|j: int| 0 <= j < i ==> names@[j]@ != name@,
        decreases names@.len() - i,
    {
        if names[i] == target {
            assert(names_view(names@)[i as int] == name@);
            return true;
        }
        i += 1;
    }
    assert forall|j: int| 0 <= j < names_view(names@).len() implies names_view(names@)[j] != name@ by {
        assert(names_view(names@)[j] == names@[j]@);
    }
    false
}

pub(crate) fn global_name() -> (r: String)
    ensures
        r@ == global_domain(),
{
    proof {
        reveal_strlit("NSGlobalDomain");
    }
    String::from_str("NSGlobalDomain")
}

fn global_prefix_str() -> (r: &'static str)
    ensures
        r@ == global_prefix(),
{
    proof {
        reveal_strlit("NSGlobalDomain.");
    }
    "NSGlobalDomain."
}

fn apple_name(domain: &str) -> (r: String)
    ensures
        r@ == apple_prefix() + domain@,
{
    proof {
        reveal_strlit("com.apple.");
    }
    String::from_str("com.apple.").concat(domain)
}

/// Turns a configured domain into the store domain it names: `finder` into
/// `com.apple.finder`; `NSGlobalDomain` and every `NSGlobalDomain.<rest>`
/// into `NSGlobalDomain`.
pub fn get_defaults_domain(domain: &str) -> (r: String)
    ensures
        r@ == defaults_domain_spec(domain@),
{
    let g = global_name();
    if has_prefix(domain, global_prefix_str()) {
        g
    } else if String::from_str(domain) == g {
        g
    } else {
        apple_name(domain)
    }
}

/// Resolves a configured (domain, key) pair to the store's, given the names
/// of the domains that exist in the store:
/// - `NSGlobalDomain` stays as it is, key unchanged;
/// - `NSGlobalDomain.<rest>` becomes `NSGlobalDomain`, key `<rest>.<key>`;
/// - a name among `known` stays as it is, key unchanged;
/// - any other name `<name>` becomes `com.apple.<name>`, key unchanged.
///
/// A configured name that matches an existing domain is thus taken
/// literally; with an empty `known` every name is taken as a short name.
pub fn resolve(domain: &str, key: &str, known: &Vec<String>) -> (r: (String, String))
    ensures
        (r.0@, r.1@) == resolve_spec(domain@, key@, names_view(known@)),
{
    let g = global_name();
    let prefix = global_prefix_str();
    if has_prefix(domain, prefix) {
        let n = prefix.unicode_len();
        let rest = domain.substring_char(n, domain.unicode_len());
        proof {
            reveal_strlit(".");
        }
        let k = String::from_str(rest).concat(".").concat(key);
        (g, k)
    } else if String::from_str(domain) == g {
        (g, String::from_str(key))
    } else if contains_name(known, domain) {
        (String::from_str(domain), String::from_str(key))
    } else {
        (apple_name(domain), String::from_str(key))
    }
}

/// Resolves a configured (domain, key) pair to the store's without a list
/// of existing domains: `(finder, ShowPathbar)` gives
/// `(com.apple.finder, ShowPathbar)`, `(NSGlobalDomain.bar, Baz)` gives
/// `(NSGlobalDomain, bar.Baz)`.
pub fn effective(domain: &str, key: &str) -> (r: (String, String))
    ensures
        (r.0@, r.1@) == effective_spec(domain@, key@),
{
    let none: Vec<String> = Vec::new();
    proof {
        assert(names_view(none@) =~= Seq::<Seq<char>>::empty());
    }
    resolve(domain, key, &none)
}

} // verus!
