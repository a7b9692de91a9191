use vstd::prelude::*;
use vstd::string::*;
use crate::value::{PrefModel, PrefValue};

verus! {

broadcast use vstd::std_specs::vec::axiom_vec_index_decreases, vstd::std_specs::vec::axiom_vec_decreases_to_view, vstd::seq::axiom_seq_index_decreases, vstd::seq::axiom_seq_subrange_decreases;

/// One item of a configuration table: a value written on its key's line
/// (scalars, arrays and inline tables alike), a table introduced by its own
/// header, or anything else (an array of tables), which the collector skips.
pub enum DocItem {
    Value(PrefValue),
    Table(DocTable),
    Other,
}

/// A table of the configuration document, its entries in document order.
pub struct DocTable {
    pub entries: Vec<(String, DocItem)>,
}

/// The flat settings of one configured domain, in document order.
pub struct DomainSettings {
    pub domain: String,
    pub settings: Vec<(String, PrefValue)>,
}

pub type SettingsModel = Seq<(Seq<char>, PrefModel)>;

pub type DomainsModel = Seq<(Seq<char>, SettingsModel)>;

impl DomainSettings {
    pub open spec fn view(self) -> (Seq<char>, SettingsModel) {
        (self.domain@, settings_model(self.settings@))
    }
}

pub open spec fn settings_model(s: Seq<(String, PrefValue)>) -> SettingsModel {
    Seq::new(s.len(), |i: int| (s[i].0@, s[i].1.model()))
}

pub open spec fn domains_model(s: Seq<DomainSettings>) -> DomainsModel {
    Seq::new(s.len(), |i: int| s[i].view())
}

/// The values written directly in a table, in order; tables stay out.
pub open spec fn table_values(s: Seq<(String, DocItem)>) -> SettingsModel
    decreases s.len(),
{
    if s.len() == 0 {
        Seq::empty()
    } else {
        table_values(s.drop_last()) + match s.last().1 {
            DocItem::Value(v) => seq![(s.last().0@, v.model())],
            _ => Seq::empty(),
        }
    }
}

/// The domain that a headed sub-table names: parent and key joined by a dot.
pub open spec fn sub_domain(parent: Seq<char>, key: Seq<char>) -> Seq<char> {
    parent + seq!['.'] + key
}

/// The domains a headed table yields: itself, when it holds any value, then
/// each headed sub-table in order, at any depth.
pub open spec fn table_domains(name: Seq<char>, t: DocTable) -> DomainsModel
    decreases t,
{
    let own = table_values(t.entries@);
    (if own.len() > 0 {
        seq![(name, own)]
    } else {
        Seq::empty()
    }) + nested_domains(name, t.entries@)
}

pub open spec fn nested_domains(name: Seq<char>, s: Seq<(String, DocItem)>) -> DomainsModel
    decreases s,
{
    if s.len() == 0 {
        Seq::empty()
    } else {
        nested_domains(name, s.drop_last()) + match s.last().1 {
            DocItem::Table(sub) => table_domains(sub_domain(name, s.last().0@), sub),
            _ => Seq::empty(),
        }
    }
}

/// The domains of the managed-settings table: each headed table directly
/// under it names a domain; values written directly under it are skipped.
pub open spec fn collect_spec(s: Seq<(String, DocItem)>) -> DomainsModel
    decreases s.len(),
{
    if s.len() == 0 {
        Seq::empty()
    } else {
        collect_spec(s.drop_last()) + match s.last().1 {
            DocItem::Table(sub) => table_domains(s.last().0@, sub),
            _ => Seq::empty(),
        }
    }
}


fn table_settings(t: &DocTable) -> (r: Vec<(String, PrefValue)>)
    ensures
        settings_model(r@) == table_values(t.entries@),
{
    let mut out: Vec<(String, PrefValue)> = Vec::new();
    let mut i: usize = 0;
    while i < t.entries.len()
        invariant
            0 <= i <= t.entries@.len(),
            settings_model(out@) == table_values(t.entries@.subrange(0, i as int)),
        decreases t.entries@.len() - i,
    {
        let ghost before = out@;
        assert(t.entries@.subrange(0, i + 1).drop_last() =~= t.entries@.subrange(0, i as int));
        match &t.entries[i].1 {
            DocItem::Value(v) => {
                out.push((t.entries[i].0.clone(), v.copy_value()));
                assert(settings_model(out@) =~= settings_model(before) + seq![(t.entries@[i as int].0@, v.model())]);
            },
            _ => {
                assert(settings_model(out@) =~= settings_model(before) + Seq::<(Seq<char>, PrefModel)>::empty());
            },
        }
        i += 1;
    }
    assert(t.entries@.subrange(0, t.entries@.len() as int) =~= t.entries@);
    out
}

/// How deeply headed tables nest in a table, the table itself included.
pub open spec fn table_depth(t: DocTable) -> nat
    decreases t,
{
    1 + entries_depth(t.entries@)
}

/// The deepest nesting of headed tables among the entries.
pub open spec fn entries_depth(s: Seq<(String, DocItem)>) -> nat
    decreases s,
{
    if s.len() == 0 {
        0
    } else {
        let here = match s.last().1 {
            DocItem::Table(sub) => table_depth(sub),
            _ => 0,
        };
        let before = entries_depth(s.drop_last());
        if here > before {
            here
        } else {
            before
        }
    }
}

/// The deepest nesting of headed tables that the collector walks.
pub const MAX_DEPTH: usize = 64;

/// Why a document could not be flattened.
#[derive(Debug, Clone, Copy, PartialEq, Eq, Structural)]
pub enum CollectError {
    /// Headed tables nest deeper than [`MAX_DEPTH`].
    TooDeep,
}

proof fn lemma_entries_depth_prefix(s: Seq<(String, DocItem)>, n: int)
    requires
        0 <= n <= s.len(),
    ensures
        entries_depth(s.subrange(0, n)) <= entries_depth(s),
    decreases s.len() - n,
{
    if n < s.len() {
        lemma_entries_depth_prefix(s.drop_last(), n);
        assert(s.drop_last().subrange(0, n) =~= s.subrange(0, n));
    } else {
        assert(s.subrange(0, n) =~= s);
    }
}

/// Appends the domains of a headed table; fails, leaving `out` in no
/// particular state, when its tables nest deeper than `budget`.
fn collect_table(name: &String, t: &DocTable, out: &mut Vec<DomainSettings>, budget: usize) -> (ok: bool)
    ensures
        ok == (table_depth(*t) <= budget),
        ok ==> domains_model(final(out)@) == domains_model(old(out)@) + table_domains(name@, *t),
    decreases t,
{
    if budget == 0 {
        return false;
    }
    let settings = table_settings(t);
    let ghost start = domains_model(out@);
    if settings.len() > 0 {
        out.push(DomainSettings { domain: name.clone(), settings });
        assert(domains_model(out@) =~= start + seq![(name@, table_values(t.entries@))]);
    } else {
        assert(domains_model(out@) =~= start + Seq::<(Seq<char>, SettingsModel)>::empty());
    }
    let ghost mid = domains_model(out@);
    let mut i: usize = 0;
    while i < t.entries.len()
        invariant
            0 < budget,
            0 <= i <= t.entries@.len(),
            entries_depth(t.entries@.subrange(0, i as int)) <= budget - 1,
            domains_model(out@) == mid + nested_domains(name@, t.entries@.subrange(0, i as int)),
        decreases t.entries@.len() - i,
    {
        let ghost before = domains_model(out@);
        assert(t.entries@.subrange(0, i + 1).drop_last() =~= t.entries@.subrange(0, i as int));
        match &t.entries[i].1 {
            DocItem::Table(sub) => {
                let nested = name.clone().concat(".").concat(t.entries[i].0.as_str());
                proof {
                    reveal_strlit(".");
                    assert(nested@ =~= sub_domain(name@, t.entries@[i as int].0@));
                }
                assert(decreases_to!(*t => t.entries));
                if !collect_table(&nested, sub, out, budget - 1) {
                    proof {
                        lemma_entries_depth_prefix(t.entries@, i + 1);
                    }
                    return false;
                }
                assert(domains_model(out@) =~= mid + nested_domains(name@, t.entries@.subrange(0, i + 1)));
            },
            _ => {
                assert(domains_model(out@) =~= mid + nested_domains(name@, t.entries@.subrange(0, i + 1)));
            },
        }
        i += 1;
    }
    assert(t.entries@.subrange(0, t.entries@.len() as int) =~= t.entries@);
    assert(domains_model(out@) =~= domains_model(old(out)@) + table_domains(name@, *t));
    true
}

/// Flattens the managed-settings table into its domains.
///
/// Each table under it that has its own header names a domain; a table with
/// its own header inside a domain is a new domain, named by joining the two
/// with a dot, at any depth. A table written inline on a key's line is a
/// dictionary value of the domain it stands in, never a domain. A domain
/// without any value of its own is left out. A document whose headed tables
/// nest deeper than [`MAX_DEPTH`] is refused.
pub fn collect(set: &DocTable) -> (r: Result<Vec<DomainSettings>, CollectError>)
    ensures
        r is Ok <==> entries_depth(set.entries@) <= MAX_DEPTH,
        r matches Ok(v) ==> domains_model(v@) == collect_spec(set.entries@),
{
    let mut out: Vec<DomainSettings> = Vec::new();
    let mut i: usize = 0;
    while i < set.entries.len()
        invariant
            0 <= i <= set.entries@.len(),
            entries_depth(set.entries@.subrange(0, i as int)) <= MAX_DEPTH,
            domains_model(out@) == collect_spec(set.entries@.subrange(0, i as int)),
        decreases set.entries@.len() - i,
    {
        assert(set.entries@.subrange(0, i + 1).drop_last() =~= set.entries@.subrange(0, i as int));
        match &set.entries[i].1 {
            DocItem::Table(sub) => {
                if !collect_table(&set.entries[i].0, sub, &mut out, MAX_DEPTH) {
                    proof {
                        lemma_entries_depth_prefix(set.entries@, i + 1);
                    }
                    return Err(CollectError::TooDeep);
                }
            },
            _ => {
                assert(domains_model(out@) =~= collect_spec(set.entries@.subrange(0, i + 1)));
            },
        }
        i += 1;
    }
    assert(set.entries@.subrange(0, set.entries@.len() as int) =~= set.entries@);
    Ok(out)
}

} // verus!

verus! {

/// The number of settings in a list of domains.
pub open spec fn total_settings(ds: DomainsModel) -> nat
    decreases ds.len(),
{
    if ds.len() == 0 {
        0
    } else {
        total_settings(ds.drop_last()) + ds.last().1.len()
    }
}

/// The number of values written in a headed table and, at any depth, in the
/// headed tables inside it; an inline table counts as one value.
pub open spec fn value_count(t: DocTable) -> nat
    decreases t,
{
    table_values(t.entries@).len() + nested_count(t.entries@)
}

pub open spec fn nested_count(s: Seq<(String, DocItem)>) -> nat
    decreases s,
{
    if s.len() == 0 {
        0
    } else {
        nested_count(s.drop_last()) + match s.last().1 {
            DocItem::Table(sub) => value_count(sub),
            _ => 0,
        }
    }
}

/// The names of a headed table and of every headed table inside it.
pub open spec fn headed_names(name: Seq<char>, t: DocTable) -> Seq<Seq<char>>
    decreases t,
{
    seq![name] + nested_names(name, t.entries@)
}

pub open spec fn nested_names(name: Seq<char>, s: Seq<(String, DocItem)>) -> Seq<Seq<char>>
    decreases s,
{
    if s.len() == 0 {
        Seq::empty()
    } else {
        nested_names(name, s.drop_last()) + match s.last().1 {
            DocItem::Table(sub) => headed_names(sub_domain(name, s.last().0@), sub),
            _ => Seq::empty(),
        }
    }
}

/// The names of the headed tables under the managed-settings table.
pub open spec fn collect_names(s: Seq<(String, DocItem)>) -> Seq<Seq<char>>
    decreases s.len(),
{
    if s.len() == 0 {
        Seq::empty()
    } else {
        collect_names(s.drop_last()) + match s.last().1 {
            DocItem::Table(sub) => headed_names(s.last().0@, sub),
            _ => Seq::empty(),
        }
    }
}

/// The values under the managed-settings table, counted as [`value_count`] does.
pub open spec fn document_value_count(s: Seq<(String, DocItem)>) -> nat
    decreases s.len(),
{
    if s.len() == 0 {
        0
    } else {
        document_value_count(s.drop_last()) + match s.last().1 {
            DocItem::Table(sub) => value_count(sub),
            _ => 0,
        }
    }
}

proof fn lemma_total_concat(a: DomainsModel, b: DomainsModel)
    ensures
        total_settings(a + b) == total_settings(a) + total_settings(b),
    decreases b.len(),
{
    if b.len() == 0 {
        assert(a + b =~= a);
    } else {
        lemma_total_concat(a, b.drop_last());
        assert((a + b).drop_last() =~= a + b.drop_last());
    }
}

proof fn lemma_names_in(a: DomainsModel, b: DomainsModel, na: Seq<Seq<char>>, nb: Seq<Seq<char>>)
    requires
        forall|i: int| 0 <= i < a.len() ==> na.contains(#[trigger] a[i].0),
        forall|i: int| 0 <= i < b.len() ==> nb.contains(#[trigger] b[i].0),
    ensures
        forall|i: int| 0 <= i < (a + b).len() ==> (na + nb).contains(#[trigger] (a + b)[i].0),
{
    assert forall|i: int| 0 <= i < (a + b).len() implies (na + nb).contains(#[trigger] (a + b)[i].0) by {
        if i < a.len() {
            assert((a + b)[i] == a[i]);
            let j = choose|j: int| 0 <= j < na.len() && na[j] == a[i].0;
            assert((na + nb)[j] == na[j]);
        } else {
            assert((a + b)[i] == b[i - a.len()]);
            let j = choose|j: int| 0 <= j < nb.len() && nb[j] == b[i - a.len()].0;
            assert((na + nb)[na.len() + j] == nb[j]);
        }
    }
}

proof fn lemma_table_laws(name: Seq<char>, t: DocTable)
    ensures
        total_settings(table_domains(name, t)) == value_count(t),
        forall|i: int| 0 <= i < table_domains(name, t).len() ==> headed_names(name, t).contains(#[trigger] table_domains(name, t)[i].0),
    decreases t,
{
    let own = table_values(t.entries@);
    let head: DomainsModel = if own.len() > 0 {
        seq![(name, own)]
    } else {
        Seq::empty()
    };
    assert(decreases_to!(t => t.entries));
    lemma_nested_laws(name, t.entries@);
    lemma_total_concat(head, nested_domains(name, t.entries@));
    assert(table_domains(name, t) == head + nested_domains(name, t.entries@));
    if own.len() > 0 {
        assert(head.drop_last() =~= Seq::<(Seq<char>, SettingsModel)>::empty());
        assert(total_settings(head.drop_last()) == 0);
        assert(total_settings(head) == own.len());
        assert(seq![name].contains(head[0].0)) by {
            assert(seq![name][0] == name);
        }
    }
    lemma_names_in(head, nested_domains(name, t.entries@), seq![name], nested_names(name, t.entries@));
}

proof fn lemma_nested_laws(name: Seq<char>, s: Seq<(String, DocItem)>)
    ensures
        total_settings(nested_domains(name, s)) == nested_count(s),
        forall|i: int| 0 <= i < nested_domains(name, s).len() ==> nested_names(name, s).contains(#[trigger] nested_domains(name, s)[i].0),
    decreases s,
{
    if s.len() > 0 {
        lemma_nested_laws(name, s.drop_last());
        match s.last().1 {
            DocItem::Table(sub) => {
                lemma_table_laws(sub_domain(name, s.last().0@), sub);
                lemma_total_concat(nested_domains(name, s.drop_last()), table_domains(sub_domain(name, s.last().0@), sub));
                lemma_names_in(
                    nested_domains(name, s.drop_last()),
                    table_domains(sub_domain(name, s.last().0@), sub),
                    nested_names(name, s.drop_last()),
                    headed_names(sub_domain(name, s.last().0@), sub),
                );
            },
            _ => {
                assert(nested_domains(name, s) =~= nested_domains(name, s.drop_last()));
                assert(nested_names(name, s) =~= nested_names(name, s.drop_last()));
            },
        }
    }
}

/// Flattening keeps every value: the domains it yields hold as many
/// settings as the document has values in its headed tables (an inline
/// table being one value), each domain's settings being exactly the values
/// written in its table; and every domain is named after a headed table,
/// so a table written inline never becomes a domain.
pub proof fn lemma_collect_keeps_every_value(set: DocTable)
    ensures
        total_settings(collect_spec(set.entries@)) == document_value_count(set.entries@),
        forall|i: int| 0 <= i < collect_spec(set.entries@).len() ==> collect_names(set.entries@).contains(#[trigger] collect_spec(set.entries@)[i].0),
{
    lemma_collect_laws(set.entries@);
}

proof fn lemma_collect_laws(s: Seq<(String, DocItem)>)
    ensures
        total_settings(collect_spec(s)) == document_value_count(s),
        forall|i: int| 0 <= i < collect_spec(s).len() ==> collect_names(s).contains(#[trigger] collect_spec(s)[i].0),
    decreases s.len(),
{
    if s.len() > 0 {
        lemma_collect_laws(s.drop_last());
        match s.last().1 {
            DocItem::Table(sub) => {
                lemma_table_laws(s.last().0@, sub);
                lemma_total_concat(collect_spec(s.drop_last()), table_domains(s.last().0@, sub));
                lemma_names_in(collect_spec(s.drop_last()), table_domains(s.last().0@, sub), collect_names(s.drop_last()), headed_names(s.last().0@, sub));
            },
            _ => {
                assert(collect_spec(s) =~= collect_spec(s.drop_last()));
                assert(collect_names(s) =~= collect_names(s.drop_last()));
            },
        }
    }
}

} // verus!
