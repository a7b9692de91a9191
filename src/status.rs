use vstd::prelude::*;
use crate::apply::{differs, entry_key, ConfigEntry};
use crate::document::{domains_model, DomainSettings, DomainsModel, SettingsModel};
use crate::domains::{names_view, resolve};
use crate::snapshot::Key;
use crate::unapply::{deletes_view, DeleteJob};
use crate::value::{pref_eq, PrefModel, PrefValue};

verus! {

pub open spec fn entry_view(e: ConfigEntry) -> (Seq<char>, Seq<char>, PrefModel) {
    (e.domain@, e.key@, e.desired.model())
}

pub open spec fn entries_view(s: Seq<ConfigEntry>) -> Seq<(Seq<char>, Seq<char>, PrefModel)> {
    Seq::new(s.len(), |i: int| entry_view(s[i]))
}

pub open spec fn domain_entries(d: Seq<char>, s: SettingsModel) -> Seq<(Seq<char>, Seq<char>, PrefModel)> {
    Seq::new(s.len(), |i: int| (d, s[i].0, s[i].1))
}

/// The settings of all domains as one list, domain by domain, in order.
pub open spec fn flatten_domains(ds: DomainsModel) -> Seq<(Seq<char>, Seq<char>, PrefModel)>
    decreases ds.len(),
{
    if ds.len() == 0 {
        Seq::empty()
    } else {
        flatten_domains(ds.drop_last()) + domain_entries(ds.last().0, ds.last().1)
    }
}

/// The configured entries of the collected domains, domain by domain.
pub fn entries_of(domains: &Vec<DomainSettings>) -> (r: Vec<ConfigEntry>)
    ensures
        entries_view(r@) == flatten_domains(domains_model(domains@)),
{
    let ghost dm = domains_model(domains@);
    let mut out: Vec<ConfigEntry> = Vec::new();
    let mut i: usize = 0;
    while i < domains.len()
        invariant
            0 <= i <= domains@.len(),
            dm == domains_model(domains@),
            entries_view(out@) == flatten_domains(dm.subrange(0, i as int)),
        decreases domains@.len() - i,
    {
        assert(dm.subrange(0, i + 1).drop_last() =~= dm.subrange(0, i as int));
        let d = &domains[i];
        let ghost base = entries_view(out@);
        let ghost de = domain_entries(d.domain@, dm[i as int].1);
        let mut j: usize = 0;
        while j < d.settings.len()
            invariant
                0 <= j <= d.settings@.len(),
                dm == domains_model(domains@),
                *d == domains@[i as int],
                0 <= i < domains@.len(),
                de == domain_entries(d.domain@, dm[i as int].1),
                entries_view(out@) == base + de.subrange(0, j as int),
            decreases d.settings@.len() - j,
        {
            let e = ConfigEntry {
                domain: d.domain.clone(),
                key: d.settings[j].0.clone(),
                desired: d.settings[j].1.copy_value(),
            };
            let ghost before = entries_view(out@);
            let ghost ev = entry_view(e);
            proof {
                assert(dm[i as int] == d.view());
                assert(de[j as int] == ev);
            }
            out.push(e);
            assert(entries_view(out@) =~= before.push(ev));
            assert(de.subrange(0, j + 1) =~= de.subrange(0, j as int).push(ev));
            assert(entries_view(out@) =~= base + de.subrange(0, j + 1));
            j += 1;
        }
        assert(de.subrange(0, d.settings@.len() as int) =~= de);
        assert(dm.subrange(0, i + 1).last() == dm[i as int]);
        i += 1;
    }
    assert(dm.subrange(0, domains@.len() as int) =~= dm);
    out
}

/// One line of a status report: a store address and whether its live value
/// diverges from the configured one.
pub struct StatusOutcome {
    pub domain: String,
    pub key: String,
    pub diverged: bool,
}

/// Classifies every entry, in order, as matched or diverged: diverged when
/// the live value (`current[i]`) is absent or differs from the desired one.
/// Nothing is changed.
pub fn plan_status(entries: &Vec<ConfigEntry>, current: &Vec<Option<PrefValue>>, known: &Vec<String>) -> (r: Vec<StatusOutcome>)
    requires
        current@.len() == entries@.len(),
        forall|i: int| 0 <= i < entries@.len() ==> (#[trigger] entries@[i]).desired.wf(),
        forall|i: int| 0 <= i < current@.len() ==> (#[trigger] current@[i] matches Some(c) ==> c.wf()),
    ensures
        r@.len() == entries@.len(),
        forall|i: int| 0 <= i < entries@.len() ==> (r@[i].domain@, r@[i].key@) == entry_key(#[trigger] entries@[i], names_view(known@))
            && r@[i].diverged == differs(current@[i], entries@[i].desired),
{
    let mut out: Vec<StatusOutcome> = Vec::new();
    let mut i: usize = 0;
    while i < entries.len()
        invariant
            0 <= i <= entries@.len() == current@.len(),
            out@.len() == i,
            forall|m: int| 0 <= m < entries@.len() ==> (#[trigger] entries@[m]).desired.wf(),
            forall|m: int| 0 <= m < current@.len() ==> (#[trigger] current@[m] matches Some(c) ==> c.wf()),
            forall|m: int| 0 <= m < i ==> (out@[m].domain@, out@[m].key@) == entry_key(#[trigger] entries@[m], names_view(known@))
                && out@[m].diverged == differs(current@[m], entries@[m].desired),
        decreases entries@.len() - i,
    {
        let e = &entries[i];
        let (d, k) = resolve(e.domain.as_str(), e.key.as_str(), known);
        let diverged = match &current[i] {
            None => true,
            Some(c) => !pref_eq(c, &e.desired),
        };
        out.push(StatusOutcome { domain: d, key: k, diverged });
        i += 1;
    }
    out
}

/// The addresses a reset removes: those of the entries whose key is set in
/// the store (`current[i]` present), in order.
pub open spec fn reset_keys(entries: Seq<ConfigEntry>, cur: Seq<Option<PrefValue>>, known: Seq<Seq<char>>) -> Seq<Key>
    decreases entries.len(),
{
    if entries.len() == 0 {
        Seq::empty()
    } else {
        let n = entries.len() - 1;
        reset_keys(entries.drop_last(), cur, known) + if cur[n] is Some {
            seq![entry_key(entries[n], known)]
        } else {
            Seq::empty()
        }
    }
}

/// Plans a reset: every configured key that is set in the store is to be
/// removed, so that it returns to the system default.
pub fn plan_reset(entries: &Vec<ConfigEntry>, current: &Vec<Option<PrefValue>>, known: &Vec<String>) -> (r: Vec<DeleteJob>)
    requires
        current@.len() == entries@.len(),
    ensures
        deletes_view(r@) == reset_keys(entries@, current@, names_view(known@)),
{
    let mut out: Vec<DeleteJob> = Vec::new();
    let mut i: usize = 0;
    while i < entries.len()
        invariant
            0 <= i <= entries@.len() == current@.len(),
            deletes_view(out@) == reset_keys(entries@.subrange(0, i as int), current@, names_view(known@)),
        decreases entries@.len() - i,
    {
        assert(entries@.subrange(0, i + 1).drop_last() =~= entries@.subrange(0, i as int));
        assert(entries@.subrange(0, i + 1)[i as int] == entries@[i as int]);
        let ghost before = deletes_view(out@);
        if current[i].is_some() {
            let (d, k) = resolve(entries[i].domain.as_str(), entries[i].key.as_str(), known);
            out.push(DeleteJob { domain: d, key: k });
            assert(deletes_view(out@) =~= before + seq![entry_key(entries@[i as int], names_view(known@))]);
        } else {
            assert(deletes_view(out@) =~= before + Seq::<Key>::empty());
        }
        i += 1;
    }
    assert(entries@.subrange(0, entries@.len() as int) =~= entries@);
    out
}

} // verus!
