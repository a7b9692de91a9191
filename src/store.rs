use vstd::prelude::*;
use crate::apply::{
    captured, carried, current_model, differs, domain_rejected, entry_failure, entry_key, job_keys, job_records,
    lookup_original, next_records, plan_jobs, ConfigEntry, JobModel, ApplyFailure,
};
use crate::snapshot::{record_keys, unique_records, Key};
use crate::unapply::{delete_list, restore_list};
use crate::value::{PrefModel, PrefValue};

verus! {

/// The live preference store as mathematics: what each address holds.
pub type Store = Map<Key, PrefModel>;

pub open spec fn store_get(s: Store, k: Key) -> Option<PrefModel> {
    if s.contains_key(k) {
        Some(s[k])
    } else {
        None
    }
}

/// The store after every job's write succeeded, in order.
pub open spec fn apply_writes(s: Store, jobs: Seq<JobModel>) -> Store
    decreases jobs.len(),
{
    if jobs.len() == 0 {
        s
    } else {
        apply_writes(s, jobs.drop_last()).insert(jobs.last().0, jobs.last().2)
    }
}

pub open spec fn restore_writes(s: Store, rs: Seq<(Key, PrefModel)>) -> Store
    decreases rs.len(),
{
    if rs.len() == 0 {
        s
    } else {
        restore_writes(s, rs.drop_last()).insert(rs.last().0, rs.last().1)
    }
}

pub open spec fn delete_writes(s: Store, ds: Seq<Key>) -> Store
    decreases ds.len(),
{
    if ds.len() == 0 {
        s
    } else {
        delete_writes(s, ds.drop_last()).remove(ds.last())
    }
}

/// The store after an unapply run over the records whose every write
/// succeeded: the restores, then the deletions.
pub open spec fn unapply_writes(s: Store, recs: Seq<(Key, Option<PrefModel>)>) -> Store {
    delete_writes(restore_writes(s, restore_list(recs)), delete_list(recs))
}

/// The live values handed to a run are those of the store `s`.
pub open spec fn reads_of(s: Store, entries: Seq<ConfigEntry>, cur: Seq<Option<PrefValue>>, known: Seq<Seq<char>>) -> bool {
    &&& cur.len() == entries.len()
    &&& forall|i: int| 0 <= i < entries.len() ==> current_model(#[trigger] cur[i]) == store_get(s, entry_key(entries[i], known))
}

proof fn lemma_lookup_front(recs: Seq<(Key, Option<PrefModel>)>, k: Key)
    requires
        recs.len() > 0,
    ensures
        lookup_original(recs, k) == if recs[0].0 == k {
            Some(recs[0].1)
        } else {
            lookup_original(recs.subrange(1, recs.len() as int), k)
        },
    decreases recs.len(),
{
    if recs.len() > 1 {
        lemma_lookup_front(recs.drop_last(), k);
        let tail = recs.subrange(1, recs.len() as int);
        assert(recs.drop_last().subrange(1, recs.len() - 1) =~= tail.drop_last());
        assert(tail.last() == recs.last());
        assert(recs.drop_last()[0] == recs[0]);
        assert(lookup_original(tail, k) == match lookup_original(tail.drop_last(), k) {
            Some(o) => Some(o),
            None => if tail.last().0 == k {
                Some(tail.last().1)
            } else {
                None
            },
        });
    } else {
        assert(recs.drop_last().len() == 0);
        assert(lookup_original(recs.drop_last(), k) is None);
        assert(recs.last() == recs[0]);
        assert(recs.subrange(1, recs.len() as int).len() == 0);
        assert(lookup_original(recs.subrange(1, recs.len() as int), k) is None);
    }
}

proof fn lemma_lookup_none(recs: Seq<(Key, Option<PrefModel>)>, k: Key)
    requires
        !record_keys(recs).contains(k),
    ensures
        lookup_original(recs, k) is None,
    decreases recs.len(),
{
    if recs.len() > 0 {
        assert(record_keys(recs.drop_last()) =~= record_keys(recs).drop_last());
        if record_keys(recs.drop_last()).contains(k) {
            let i = choose|i: int| 0 <= i < record_keys(recs.drop_last()).len() && record_keys(recs.drop_last())[i] == k;
            assert(record_keys(recs)[i] == k);
        }
        lemma_lookup_none(recs.drop_last(), k);
        assert(record_keys(recs)[recs.len() - 1] == recs.last().0);
    }
}

/// With unique keys, the restores write back each recorded original and the
/// deletions remove each key recorded without one; other keys keep their value.
proof fn lemma_unapply_parts(s: Store, t: Store, recs: Seq<(Key, Option<PrefModel>)>, k: Key)
    requires
        unique_records(recs),
    ensures
        store_get(restore_writes(s, restore_list(recs)), k) == match lookup_original(recs, k) {
            Some(Some(v)) => Some(v),
            _ => store_get(s, k),
        },
        store_get(delete_writes(t, delete_list(recs)), k) == match lookup_original(recs, k) {
            Some(None) => None,
            _ => store_get(t, k),
        },
    decreases recs.len(),
{
    if recs.len() == 0 {
    } else {
        let tail = recs.subrange(1, recs.len() as int);
        let h = recs[0];
        assert(unique_records(tail)) by {
            assert forall|i: int, j: int| 0 <= i < j < tail.len() implies tail[i].0 != tail[j].0 by {
                assert(tail[i] == recs[i + 1] && tail[j] == recs[j + 1]);
            }
        }
        lemma_unapply_parts(s, t, tail, k);
        lemma_lookup_front(recs, k);
        let rl = restore_list(tail);
        let dl = delete_list(tail);
        match h.1 {
            Some(v) => {
                assert((rl + seq![(h.0, v)]).drop_last() =~= rl);
                assert(restore_list(recs) == rl + seq![(h.0, v)]);
                assert(delete_list(recs) =~= dl);
            },
            None => {
                assert((dl + seq![h.0]).drop_last() =~= dl);
                assert(delete_list(recs) == dl + seq![h.0]);
                assert(restore_list(recs) =~= rl);
            },
        }
        if h.0 == k {
            assert(!record_keys(tail).contains(k)) by {
                if record_keys(tail).contains(k) {
                    let i = choose|i: int| 0 <= i < record_keys(tail).len() && record_keys(tail)[i] == k;
                    assert(recs[i + 1].0 == k);
                }
            }
            lemma_lookup_none(tail, k);
        }
    }
}

/// An unapply run over records with unique keys leaves each recorded key
/// with its recorded original (absent when none was recorded) and every
/// other key as it was.
pub proof fn lemma_unapply_effect(s: Store, recs: Seq<(Key, Option<PrefModel>)>, k: Key)
    requires
        unique_records(recs),
    ensures
        store_get(unapply_writes(s, recs), k) == match lookup_original(recs, k) {
            Some(o) => o,
            None => store_get(s, k),
        },
{
    lemma_unapply_parts(s, restore_writes(s, restore_list(recs)), recs, k);
}


/// One step of a successful plan: the plan of all but the last entry
/// succeeded, the last entry passed the checks, and it added its job if its
/// live value differs.
proof fn lemma_plan_step(
    entries: Seq<ConfigEntry>,
    cur: Seq<Option<PrefValue>>,
    prior: Seq<(Key, Option<PrefModel>)>,
    known: Seq<Seq<char>>,
    check: bool,
    suppress: bool,
)
    requires
        entries.len() > 0,
        cur.len() == entries.len(),
        plan_jobs(entries, cur, prior, known, check, suppress) is Ok,
    ensures
        ({
            let n = entries.len() - 1;
            let e = entries[n];
            let jobs0 = plan_jobs(entries.drop_last(), cur.subrange(0, n), prior, known, check, suppress);
            let jobs = plan_jobs(entries, cur, prior, known, check, suppress)->Ok_0;
            &&& jobs0 is Ok
            &&& entry_failure(e, cur[n], prior, known, check, suppress) is None
            &&& differs(cur[n], e.desired) ==> jobs == jobs0->Ok_0.push(
                (entry_key(e, known), captured(prior, entry_key(e, known), cur[n], suppress), e.desired.model()))
            &&& !differs(cur[n], e.desired) ==> jobs == jobs0->Ok_0
        }),
{
    assert(entries.last() == entries[entries.len() - 1]);
}

/// Every entry of a successful plan passed the checks.
proof fn lemma_plan_checks(
    entries: Seq<ConfigEntry>,
    cur: Seq<Option<PrefValue>>,
    prior: Seq<(Key, Option<PrefModel>)>,
    known: Seq<Seq<char>>,
    check: bool,
    suppress: bool,
)
    requires
        cur.len() == entries.len(),
        plan_jobs(entries, cur, prior, known, check, suppress) is Ok,
    ensures
        forall|i: int| 0 <= i < entries.len() ==> !domain_rejected(entry_key(#[trigger] entries[i], known).0, known, check)
            && entries[i].desired.supported(),
    decreases entries.len(),
{
    if entries.len() > 0 {
        let n = entries.len() - 1;
        lemma_plan_step(entries, cur, prior, known, check, suppress);
        lemma_plan_checks(entries.drop_last(), cur.subrange(0, n), prior, known, check, suppress);
        assert forall|i: int| 0 <= i < entries.len() implies !domain_rejected(entry_key(#[trigger] entries[i], known).0, known, check)
            && entries[i].desired.supported() by {
            if i < n {
                assert(entries.drop_last()[i] == entries[i]);
            }
        }
    }
}

proof fn lemma_push_contains<A>(s: Seq<A>, x: A, k: A)
    ensures
        s.push(x).contains(k) <==> (s.contains(k) || x == k),
{
    if s.contains(k) {
        let i = choose|i: int| 0 <= i < s.len() && s[i] == k;
        assert(s.push(x)[i] == k);
    }
    if x == k {
        assert(s.push(x)[s.len() as int] == k);
    }
    if s.push(x).contains(k) {
        let i = choose|i: int| 0 <= i < s.push(x).len() && s.push(x)[i] == k;
        if i < s.len() {
            assert(s[i] == k);
        }
    }
}

proof fn lemma_index_contains<A>(s: Seq<A>, i: int)
    requires
        0 <= i < s.len(),
    ensures
        s.contains(s[i]),
{
}

/// A key that no job writes keeps its value.
proof fn lemma_apply_untouched(s: Store, jobs: Seq<JobModel>, k: Key)
    requires
        forall|j: int| 0 <= j < jobs.len() ==> jobs[j].0 != k,
    ensures
        store_get(apply_writes(s, jobs), k) == store_get(s, k),
    decreases jobs.len(),
{
    if jobs.len() > 0 {
        lemma_apply_untouched(s, jobs.drop_last(), k);
    }
}

/// A key that some job writes, every such job with value `v`, ends with `v`.
proof fn lemma_apply_written(s: Store, jobs: Seq<JobModel>, k: Key, v: PrefModel)
    requires
        exists|j: int| 0 <= j < jobs.len() && jobs[j].0 == k,
        forall|j: int| 0 <= j < jobs.len() && jobs[j].0 == k ==> jobs[j].2 == v,
    ensures
        store_get(apply_writes(s, jobs), k) == Some(v),
    decreases jobs.len(),
{
    let d = jobs.drop_last();
    if jobs.last().0 != k {
        let j = choose|j: int| 0 <= j < jobs.len() && jobs[j].0 == k;
        assert(d[j] == jobs[j]);
        lemma_apply_written(s, d, k, v);
    }
}

proof fn lemma_job_keys_contains(jobs: Seq<JobModel>, j: int)
    requires
        0 <= j < jobs.len(),
    ensures
        job_keys(jobs).contains(jobs[j].0),
{
    assert(job_keys(jobs)[j] == jobs[j].0);
}

/// The records of the jobs: unique keys, exactly the keys the jobs touch.
proof fn lemma_job_records(jobs: Seq<JobModel>)
    ensures
        unique_records(job_records(jobs)),
        forall|k: Key| #[trigger] record_keys(job_records(jobs)).contains(k) <==> job_keys(jobs).contains(k),
    decreases jobs.len(),
{
    if jobs.len() > 0 {
        let d = jobs.drop_last();
        lemma_job_records(d);
        let jr = job_records(d);
        let last = jobs.last();
        assert(job_keys(jobs) =~= job_keys(d).push(last.0));
        if !job_keys(d).contains(last.0) {
            let x = (last.0, last.1);
            let r = jr + seq![x];
            assert(job_records(jobs) == r);
            assert(record_keys(r) =~= record_keys(jr).push(x.0));
            assert forall|a: int, b: int| 0 <= a < b < r.len() implies r[a].0 != r[b].0 by {
                assert(r[a] == jr[a]);
                if b == jr.len() {
                    assert(record_keys(jr)[a] == jr[a].0);
                    lemma_index_contains(record_keys(jr), a);
                } else {
                    assert(r[b] == jr[b]);
                }
            }
            assert forall|k: Key| #[trigger] record_keys(r).contains(k) <==> job_keys(jobs).contains(k) by {
                lemma_push_contains(record_keys(jr), x.0, k);
                lemma_push_contains(job_keys(d), last.0, k);
            }
        } else {
            assert(job_records(jobs) =~= jr);
            assert forall|k: Key| #[trigger] record_keys(jr).contains(k) <==> job_keys(jobs).contains(k) by {
                lemma_push_contains(job_keys(d), last.0, k);
            }
        }
    }
}

/// The records kept from the prior snapshot: unique keys, none touched, each
/// one of the prior keys.
proof fn lemma_carried(prior: Seq<(Key, Option<PrefModel>)>, touched: Seq<Key>)
    ensures
        unique_records(carried(prior, touched)),
        forall|k: Key| #[trigger] record_keys(carried(prior, touched)).contains(k) ==> !touched.contains(k) && record_keys(prior).contains(k),
    decreases prior.len(),
{
    if prior.len() > 0 {
        let d = prior.drop_last();
        lemma_carried(d, touched);
        let c = carried(d, touched);
        let last = prior.last();
        assert(record_keys(prior) =~= record_keys(d).push(last.0));
        if !touched.contains(last.0) && !record_keys(d).contains(last.0) {
            let r = c + seq![last];
            assert(carried(prior, touched) == r);
            assert(record_keys(r) =~= record_keys(c).push(last.0));
            assert forall|a: int, b: int| 0 <= a < b < r.len() implies r[a].0 != r[b].0 by {
                assert(r[a] == c[a]);
                if b == c.len() {
                    assert(record_keys(c)[a] == c[a].0);
                    lemma_index_contains(record_keys(c), a);
                } else {
                    assert(r[b] == c[b]);
                }
            }
            assert forall|k: Key| #[trigger] record_keys(r).contains(k) implies !touched.contains(k) && record_keys(prior).contains(k) by {
                lemma_push_contains(record_keys(c), last.0, k);
                lemma_push_contains(record_keys(d), last.0, k);
            }
        } else {
            assert(carried(prior, touched) =~= c);
            assert forall|k: Key| #[trigger] record_keys(c).contains(k) implies !touched.contains(k) && record_keys(prior).contains(k) by {
                lemma_push_contains(record_keys(d), last.0, k);
            }
        }
    }
}

/// The records a run writes have unique keys: one record per store address.
pub proof fn lemma_next_records_unique(prior: Seq<(Key, Option<PrefModel>)>, jobs: Seq<JobModel>)
    ensures
        unique_records(next_records(prior, jobs)),
        forall|k: Key| job_keys(jobs).contains(k) ==> #[trigger] record_keys(next_records(prior, jobs)).contains(k),
{
    lemma_carried(prior, job_keys(jobs));
    lemma_job_records(jobs);
    let c = carried(prior, job_keys(jobs));
    let jr = job_records(jobs);
    let n = next_records(prior, jobs);
    assert(record_keys(n) =~= record_keys(c) + record_keys(jr));
    assert forall|a: int, b: int| 0 <= a < b < n.len() implies n[a].0 != n[b].0 by {
        if a < c.len() && b >= c.len() {
            assert(record_keys(c)[a] == c[a].0);
            assert(record_keys(jr)[b - c.len()] == jr[b - c.len()].0);
            assert(record_keys(c).contains(n[a].0));
            assert(record_keys(jr).contains(n[b].0));
        } else if b < c.len() {
            assert(n[a] == c[a] && n[b] == c[b]);
        } else {
            assert(n[a] == jr[a - c.len()] && n[b] == jr[b - c.len()]);
        }
    }
    assert forall|k: Key| job_keys(jobs).contains(k) implies #[trigger] record_keys(n).contains(k) by {
        assert(record_keys(jr).contains(k));
        let i = choose|i: int| 0 <= i < record_keys(jr).len() && record_keys(jr)[i] == k;
        assert(record_keys(n)[c.len() + i] == k);
    }
}


/// The store addresses of the entries, in order.
pub open spec fn entry_keys(entries: Seq<ConfigEntry>, known: Seq<Seq<char>>) -> Seq<Key> {
    Seq::new(entries.len(), |i: int| entry_key(entries[i], known))
}

/// No two entries resolve to the same store address.
pub open spec fn distinct_addresses(entries: Seq<ConfigEntry>, known: Seq<Seq<char>>) -> bool {
    forall|i: int, j: int| 0 <= i < j < entries.len() ==> entry_key(entries[i], known) != entry_key(entries[j], known)
}

/// With no snapshot yet and capture on, each job records the value its key
/// held in the store before the run.
proof fn lemma_fresh_originals(
    entries: Seq<ConfigEntry>,
    cur: Seq<Option<PrefValue>>,
    known: Seq<Seq<char>>,
    check: bool,
    s: Store,
    jobs: Seq<JobModel>,
)
    requires
        reads_of(s, entries, cur, known),
        plan_jobs(entries, cur, Seq::empty(), known, check, false) == Ok::<Seq<JobModel>, ApplyFailure>(jobs),
    ensures
        forall|j: int| 0 <= j < jobs.len() ==> (#[trigger] jobs[j]).1 == store_get(s, jobs[j].0),
    decreases entries.len(),
{
    if entries.len() > 0 {
        let n = entries.len() - 1;
        let es = entries.drop_last();
        let cs = cur.subrange(0, n);
        lemma_plan_step(entries, cur, Seq::empty(), known, check, false);
        let jobs0 = plan_jobs(es, cs, Seq::empty(), known, check, false)->Ok_0;
        assert forall|i: int| 0 <= i < es.len() implies current_model(#[trigger] cs[i]) == store_get(s, entry_key(es[i], known)) by {
            assert(cs[i] == cur[i] && es[i] == entries[i]);
        }
        lemma_fresh_originals(es, cs, known, check, s, jobs0);
        assert(lookup_original(Seq::<(Key, Option<PrefModel>)>::empty(), entry_key(entries[n], known)) is None);
        assert(current_model(cur[n]) == store_get(s, entry_key(entries[n], known)));
        assert forall|j: int| 0 <= j < jobs.len() implies (#[trigger] jobs[j]).1 == store_get(s, jobs[j].0) by {
            if j < jobs0.len() {
                assert(jobs[j] == jobs0[j]);
            }
        }
    }
}

/// After a successful run whose every write succeeded, each entry's
/// address holds its desired value, provided no two entries share an address;
/// and every job writes the address of some entry.
proof fn lemma_run_reaches_desired(
    entries: Seq<ConfigEntry>,
    cur: Seq<Option<PrefValue>>,
    prior: Seq<(Key, Option<PrefModel>)>,
    known: Seq<Seq<char>>,
    check: bool,
    suppress: bool,
    s: Store,
    jobs: Seq<JobModel>,
)
    requires
        reads_of(s, entries, cur, known),
        distinct_addresses(entries, known),
        plan_jobs(entries, cur, prior, known, check, suppress) == Ok::<Seq<JobModel>, ApplyFailure>(jobs),
    ensures
        forall|i: int| 0 <= i < entries.len() ==> store_get(apply_writes(s, jobs), entry_key(#[trigger] entries[i], known))
            == Some(entries[i].desired.model()),
        forall|j: int| 0 <= j < jobs.len() ==> entry_keys(entries, known).contains((#[trigger] jobs[j]).0),
    decreases entries.len(),
{
    if entries.len() > 0 {
        let n = entries.len() - 1;
        let es = entries.drop_last();
        let cs = cur.subrange(0, n);
        let kn = entry_key(entries[n], known);
        lemma_plan_step(entries, cur, prior, known, check, suppress);
        let jobs0 = plan_jobs(es, cs, prior, known, check, suppress)->Ok_0;
        assert forall|i: int| 0 <= i < es.len() implies current_model(#[trigger] cs[i]) == store_get(s, entry_key(es[i], known)) by {
            assert(cs[i] == cur[i] && es[i] == entries[i]);
        }
        assert forall|i: int, j: int| 0 <= i < j < es.len() implies entry_key(es[i], known) != entry_key(es[j], known) by {
            assert(es[i] == entries[i] && es[j] == entries[j]);
        }
        lemma_run_reaches_desired(es, cs, prior, known, check, suppress, s, jobs0);
        assert(entry_keys(entries, known) =~= entry_keys(es, known).push(kn));
        assert(!entry_keys(es, known).contains(kn)) by {
            if entry_keys(es, known).contains(kn) {
                let i = choose|i: int| 0 <= i < entry_keys(es, known).len() && entry_keys(es, known)[i] == kn;
                assert(es[i] == entries[i]);
            }
        }
        assert forall|j: int| 0 <= j < jobs.len() implies entry_keys(entries, known).contains((#[trigger] jobs[j]).0) by {
            lemma_push_contains(entry_keys(es, known), kn, jobs[j].0);
            if j < jobs0.len() {
                assert(jobs[j] == jobs0[j]);
            }
        }
        assert forall|j: int| 0 <= j < jobs0.len() implies (#[trigger] jobs0[j]).0 != kn by {
            assert(entry_keys(es, known).contains(jobs0[j].0));
        }
        assert forall|i: int| 0 <= i < entries.len() implies store_get(apply_writes(s, jobs), entry_key(#[trigger] entries[i], known))
            == Some(entries[i].desired.model()) by {
            if i < n {
                assert(es[i] == entries[i]);
                assert(entry_key(entries[i], known) != kn);
                if differs(cur[n], entries[n].desired) {
                    assert(jobs.drop_last() == jobs0);
                }
            } else {
                if differs(cur[n], entries[n].desired) {
                    assert(jobs.drop_last() == jobs0);
                } else {
                    lemma_apply_untouched(s, jobs0, kn);
                }
            }
        }
    }
}

/// A run in which every live value already equals its desired one, and every
/// entry passes the checks, plans no job.
proof fn lemma_no_jobs_when_matched(
    entries: Seq<ConfigEntry>,
    cur: Seq<Option<PrefValue>>,
    prior: Seq<(Key, Option<PrefModel>)>,
    known: Seq<Seq<char>>,
    check: bool,
    suppress: bool,
)
    requires
        cur.len() == entries.len(),
        forall|i: int| 0 <= i < entries.len() ==> !domain_rejected(entry_key(#[trigger] entries[i], known).0, known, check)
            && entries[i].desired.supported(),
        forall|i: int| 0 <= i < entries.len() ==> current_model(#[trigger] cur[i]) == Some(entries[i].desired.model()),
    ensures
        plan_jobs(entries, cur, prior, known, check, suppress) == Ok::<Seq<JobModel>, ApplyFailure>(Seq::empty()),
    decreases entries.len(),
{
    if entries.len() > 0 {
        let n = entries.len() - 1;
        let es = entries.drop_last();
        let cs = cur.subrange(0, n);
        assert forall|i: int| 0 <= i < es.len() implies !domain_rejected(entry_key(#[trigger] es[i], known).0, known, check)
            && es[i].desired.supported() by {
            assert(es[i] == entries[i]);
        }
        assert forall|i: int| 0 <= i < es.len() implies current_model(#[trigger] cs[i]) == Some(es[i].desired.model()) by {
            assert(cs[i] == cur[i] && es[i] == entries[i]);
        }
        lemma_no_jobs_when_matched(es, cs, prior, known, check, suppress);
        assert(entries.last() == entries[n]);
        assert(!differs(cur[n], entries[n].desired));
    }
}

/// Applying an unchanged configuration a second time, after the first run's
/// writes all succeeded, plans no job: the run is idempotent. This holds
/// when no two configured entries resolve to the same store address.
pub proof fn lemma_apply_idempotent(
    entries: Seq<ConfigEntry>,
    cur: Seq<Option<PrefValue>>,
    prior: Seq<(Key, Option<PrefModel>)>,
    known: Seq<Seq<char>>,
    check: bool,
    suppress: bool,
    s: Store,
    cur2: Seq<Option<PrefValue>>,
    prior2: Seq<(Key, Option<PrefModel>)>,
    suppress2: bool,
)
    requires
        reads_of(s, entries, cur, known),
        distinct_addresses(entries, known),
        plan_jobs(entries, cur, prior, known, check, suppress) is Ok,
        reads_of(apply_writes(s, plan_jobs(entries, cur, prior, known, check, suppress)->Ok_0), entries, cur2, known),
    ensures
        plan_jobs(entries, cur2, prior2, known, check, suppress2) == Ok::<Seq<JobModel>, ApplyFailure>(Seq::empty()),
{
    let jobs = plan_jobs(entries, cur, prior, known, check, suppress)->Ok_0;
    lemma_plan_checks(entries, cur, prior, known, check, suppress);
    lemma_run_reaches_desired(entries, cur, prior, known, check, suppress, s, jobs);
    assert forall|i: int| 0 <= i < entries.len() implies current_model(#[trigger] cur2[i]) == Some(entries[i].desired.model()) by {
        assert(store_get(apply_writes(s, jobs), entry_key(entries[i], known)) == Some(entries[i].desired.model()));
    }
    lemma_no_jobs_when_matched(entries, cur2, prior2, known, check, suppress2);
}

/// With every job recording its key's prior store value, the records of the
/// jobs hold that value for each touched key and nothing for the others.
proof fn lemma_job_records_lookup(jobs: Seq<JobModel>, s: Store, k: Key)
    requires
        forall|j: int| 0 <= j < jobs.len() ==> (#[trigger] jobs[j]).1 == store_get(s, jobs[j].0),
    ensures
        lookup_original(job_records(jobs), k) == if job_keys(jobs).contains(k) {
            Some(store_get(s, k))
        } else {
            None::<Option<PrefModel>>
        },
    decreases jobs.len(),
{
    if jobs.len() > 0 {
        let d = jobs.drop_last();
        let last = jobs.last();
        assert forall|j: int| 0 <= j < d.len() implies (#[trigger] d[j]).1 == store_get(s, d[j].0) by {
            assert(d[j] == jobs[j]);
        }
        lemma_job_records_lookup(d, s, k);
        assert(job_keys(jobs) =~= job_keys(d).push(last.0));
        lemma_push_contains(job_keys(d), last.0, k);
        let jr = job_records(d);
        if !job_keys(d).contains(last.0) {
            let x = (last.0, last.1);
            assert((jr + seq![x]).drop_last() =~= jr);
            assert(job_records(jobs) == jr + seq![x]);
        } else {
            assert(job_records(jobs) =~= jr);
        }
    }
}

/// Applying a configuration to a store that has no snapshot yet, every write
/// succeeding, and then unapplying the snapshot that run wrote, every write
/// succeeding again, gives back the store exactly: each key that held a value
/// holds it again, each key that did not is removed, all others are untouched.
pub proof fn lemma_apply_then_unapply_restores(
    entries: Seq<ConfigEntry>,
    cur: Seq<Option<PrefValue>>,
    known: Seq<Seq<char>>,
    check: bool,
    s: Store,
)
    requires
        reads_of(s, entries, cur, known),
        plan_jobs(entries, cur, Seq::empty(), known, check, false) is Ok,
    ensures
        unapply_writes(
            apply_writes(s, plan_jobs(entries, cur, Seq::empty(), known, check, false)->Ok_0),
            next_records(Seq::empty(), plan_jobs(entries, cur, Seq::empty(), known, check, false)->Ok_0),
        ) == s,
{
    let jobs = plan_jobs(entries, cur, Seq::empty(), known, check, false)->Ok_0;
    let recs = next_records(Seq::empty(), jobs);
    let s2 = apply_writes(s, jobs);
    let s3 = unapply_writes(s2, recs);
    lemma_fresh_originals(entries, cur, known, check, s, jobs);
    lemma_next_records_unique(Seq::empty(), jobs);
    assert(carried(Seq::<(Key, Option<PrefModel>)>::empty(), job_keys(jobs)) =~= Seq::empty());
    assert(recs =~= job_records(jobs));
    assert forall|k: Key| store_get(s3, k) == store_get(s, k) by {
        lemma_unapply_effect(s2, recs, k);
        lemma_job_records_lookup(jobs, s, k);
        if !job_keys(jobs).contains(k) {
            assert forall|j: int| 0 <= j < jobs.len() implies jobs[j].0 != k by {
                assert(job_keys(jobs)[j] == jobs[j].0);
            }
            lemma_apply_untouched(s, jobs, k);
        }
    }
    assert(s3 =~= s) by {
        assert forall|k: Key| s3.contains_key(k) <==> s.contains_key(k) by {
            assert(store_get(s3, k) == store_get(s, k));
        }
        assert forall|k: Key| s3.contains_key(k) implies s3[k] == s[k] by {
            assert(store_get(s3, k) == store_get(s, k));
        }
    }
}

/// Applying and then unapplying, with any prior snapshot and every write
/// succeeding, leaves each key recorded in the new snapshot with its recorded
/// original (removed when none was recorded) and every other key as it was
/// before the apply.
pub proof fn lemma_apply_then_unapply(
    entries: Seq<ConfigEntry>,
    cur: Seq<Option<PrefValue>>,
    prior: Seq<(Key, Option<PrefModel>)>,
    known: Seq<Seq<char>>,
    check: bool,
    suppress: bool,
    s: Store,
    k: Key,
)
    requires
        cur.len() == entries.len(),
        plan_jobs(entries, cur, prior, known, check, suppress) is Ok,
    ensures
        ({
            let jobs = plan_jobs(entries, cur, prior, known, check, suppress)->Ok_0;
            let recs = next_records(prior, jobs);
            store_get(unapply_writes(apply_writes(s, jobs), recs), k) == match lookup_original(recs, k) {
                Some(o) => o,
                None => store_get(s, k),
            }
        }),
{
    let jobs = plan_jobs(entries, cur, prior, known, check, suppress)->Ok_0;
    let recs = next_records(prior, jobs);
    lemma_next_records_unique(prior, jobs);
    lemma_unapply_effect(apply_writes(s, jobs), recs, k);
    if lookup_original(recs, k) is None {
        if job_keys(jobs).contains(k) {
            assert(record_keys(recs).contains(k));
            let i = choose|i: int| 0 <= i < record_keys(recs).len() && record_keys(recs)[i] == k;
            lemma_lookup_some(recs, k, i);
        }
        assert forall|j: int| 0 <= j < jobs.len() implies jobs[j].0 != k by {
            assert(job_keys(jobs)[j] == jobs[j].0);
        }
        lemma_apply_untouched(s, jobs, k);
    }
}

proof fn lemma_lookup_some(recs: Seq<(Key, Option<PrefModel>)>, k: Key, i: int)
    requires
        0 <= i < recs.len(),
        recs[i].0 == k,
    ensures
        lookup_original(recs, k) is Some,
    decreases recs.len(),
{
    if i < recs.len() - 1 {
        lemma_lookup_some(recs.drop_last(), k, i);
    }
}

} // verus!
