use vstd::prelude::*;
use crate::domains::{contains_name, global_domain, global_name, names_view, resolve, resolve_spec};
use crate::snapshot::{opt_model, record_keys, settings_view, Key, LoadedSnapshot, SettingState, Snapshot, SnapshotError};
use crate::value::{is_supported, pref_eq, prefvalue_to_serializable, PrefModel, PrefValue, SerializablePrefValue};

verus! {

/// One managed setting of the configuration: a configured domain and key and
/// the value they should hold.
pub struct ConfigEntry {
    pub domain: String,
    pub key: String,
    pub desired: PrefValue,
}

/// One change to make to the store: write `new_value` at (domain, key), and
/// remember `original` so that the change can be undone.
pub struct PreferenceJob {
    pub domain: String,
    pub key: String,
    pub original: Option<SerializablePrefValue>,
    pub new_value: PrefValue,
}

/// A job as mathematics: its store address, the value to restore on undo,
/// and the value to write.
pub type JobModel = (Key, Option<PrefModel>, PrefModel);

impl PreferenceJob {
    pub open spec fn view(self) -> JobModel {
        ((self.domain@, self.key@), opt_model(self.original), self.new_value.model())
    }
}

pub open spec fn jobs_view(s: Seq<PreferenceJob>) -> Seq<JobModel> {
    Seq::new(s.len(), |i: int| s[i].view())
}

/// Why an apply run stops before it changes anything.
#[derive(Debug)]
pub enum ApplyError {
    /// The named store domain does not exist (and the check is on).
    UnknownDomain(String),
    /// The value configured at (domain, key) has a shape the store cannot take.
    UnsupportedValue(String, String),
    /// The live value at (domain, key) cannot be recorded in the snapshot.
    UnserializableCurrent(String, String),
}

/// The meaning of an [`ApplyError`].
pub enum ApplyFailure {
    UnknownDomain(Seq<char>),
    UnsupportedValue(Key),
    UnserializableCurrent(Key),
}

impl ApplyError {
    pub open spec fn view(self) -> ApplyFailure {
        match self {
            ApplyError::UnknownDomain(d) => ApplyFailure::UnknownDomain(d@),
            ApplyError::UnsupportedValue(d, k) => ApplyFailure::UnsupportedValue((d@, k@)),
            ApplyError::UnserializableCurrent(d, k) => ApplyFailure::UnserializableCurrent((d@, k@)),
        }
    }
}

/// The store address of a configured entry.
pub open spec fn entry_key(e: ConfigEntry, known: Seq<Seq<char>>) -> Key {
    resolve_spec(e.domain@, e.key@, known)
}

/// The recorded original of the first record with key `k`, if any.
pub open spec fn lookup_original(prior: Seq<(Key, Option<PrefModel>)>, k: Key) -> Option<Option<PrefModel>>
    decreases prior.len(),
{
    if prior.len() == 0 {
        None
    } else {
        match lookup_original(prior.drop_last(), k) {
            Some(o) => Some(o),
            None => if prior.last().0 == k {
                Some(prior.last().1)
            } else {
                None
            },
        }
    }
}

pub open spec fn current_model(c: Option<PrefValue>) -> Option<PrefModel> {
    match c {
        Some(v) => Some(v.model()),
        None => None,
    }
}

/// The live value is absent or differs from the desired one.
pub open spec fn differs(c: Option<PrefValue>, desired: PrefValue) -> bool {
    current_model(c) != Some(desired.model())
}

/// The original recorded for a new job: none when capture is suppressed;
/// else the one already in the snapshot; else the live value.
pub open spec fn captured(prior: Seq<(Key, Option<PrefModel>)>, k: Key, c: Option<PrefValue>, suppress: bool) -> Option<PrefModel> {
    if suppress {
        None
    } else {
        match lookup_original(prior, k) {
            Some(o) => o,
            None => current_model(c),
        }
    }
}

/// The domain check refuses a store domain that is neither the global one
/// nor among the existing ones.
pub open spec fn domain_rejected(d: Seq<char>, known: Seq<Seq<char>>, check: bool) -> bool {
    check && d != global_domain() && !known.contains(d)
}

/// What stops a run at this entry, if anything.
pub open spec fn entry_failure(
    e: ConfigEntry,
    c: Option<PrefValue>,
    prior: Seq<(Key, Option<PrefModel>)>,
    known: Seq<Seq<char>>,
    check: bool,
    suppress: bool,
) -> Option<ApplyFailure> {
    let k = entry_key(e, known);
    if domain_rejected(k.0, known, check) {
        Some(ApplyFailure::UnknownDomain(k.0))
    } else if !e.desired.supported() {
        Some(ApplyFailure::UnsupportedValue(k))
    } else if differs(c, e.desired) && !suppress && lookup_original(prior, k) is None && (c matches Some(v) && !v.supported()) {
        Some(ApplyFailure::UnserializableCurrent(k))
    } else {
        None
    }
}

/// The jobs of a run, in document order: one for each entry whose live value
/// is absent or differs; or the failure of the first entry that fails.
pub open spec fn plan_jobs(
    entries: Seq<ConfigEntry>,
    cur: Seq<Option<PrefValue>>,
    prior: Seq<(Key, Option<PrefModel>)>,
    known: Seq<Seq<char>>,
    check: bool,
    suppress: bool,
) -> Result<Seq<JobModel>, ApplyFailure>
    decreases entries.len(),
{
    if entries.len() == 0 {
        Ok(Seq::empty())
    } else {
        let e = entries.last();
        let c = cur[entries.len() - 1];
        match plan_jobs(entries.drop_last(), cur.subrange(0, entries.len() - 1), prior, known, check, suppress) {
            Err(f) => Err(f),
            Ok(jobs) => match entry_failure(e, c, prior, known, check, suppress) {
                Some(f) => Err(f),
                None => if differs(c, e.desired) {
                    Ok(jobs.push((entry_key(e, known), captured(prior, entry_key(e, known), c, suppress), e.desired.model())))
                } else {
                    Ok(jobs)
                },
            },
        }
    }
}

pub open spec fn job_keys(jobs: Seq<JobModel>) -> Seq<Key> {
    Seq::new(jobs.len(), |i: int| jobs[i].0)
}

/// The prior records that a run keeps: those whose key no job touches, the
/// first of each key, in their order.
pub open spec fn carried(prior: Seq<(Key, Option<PrefModel>)>, touched: Seq<Key>) -> Seq<(Key, Option<PrefModel>)>
    decreases prior.len(),
{
    if prior.len() == 0 {
        Seq::empty()
    } else {
        carried(prior.drop_last(), touched) + if !touched.contains(prior.last().0) && !record_keys(prior.drop_last()).contains(prior.last().0) {
            seq![prior.last()]
        } else {
            Seq::empty()
        }
    }
}

/// One record per key that the jobs touch, from the first job with that key.
pub open spec fn job_records(jobs: Seq<JobModel>) -> Seq<(Key, Option<PrefModel>)>
    decreases jobs.len(),
{
    if jobs.len() == 0 {
        Seq::empty()
    } else {
        job_records(jobs.drop_last()) + if !job_keys(jobs.drop_last()).contains(jobs.last().0) {
            seq![(jobs.last().0, jobs.last().1)]
        } else {
            Seq::empty()
        }
    }
}

/// The snapshot records after a run: the untouched prior ones, then one per
/// key the run touched.
pub open spec fn next_records(prior: Seq<(Key, Option<PrefModel>)>, jobs: Seq<JobModel>) -> Seq<(Key, Option<PrefModel>)> {
    carried(prior, job_keys(jobs)) + job_records(jobs)
}


/// Once the entries up to `n` fail, the whole list fails the same way.
proof fn lemma_plan_failure_persists(
    entries: Seq<ConfigEntry>,
    cur: Seq<Option<PrefValue>>,
    prior: Seq<(Key, Option<PrefModel>)>,
    known: Seq<Seq<char>>,
    check: bool,
    suppress: bool,
    n: int,
)
    requires
        0 <= n <= entries.len(),
        cur.len() == entries.len(),
        plan_jobs(entries.subrange(0, n), cur.subrange(0, n), prior, known, check, suppress) is Err,
    ensures
        plan_jobs(entries, cur, prior, known, check, suppress)
            == plan_jobs(entries.subrange(0, n), cur.subrange(0, n), prior, known, check, suppress),
    decreases entries.len() - n,
{
    if n == entries.len() {
        assert(entries.subrange(0, n) =~= entries);
        assert(cur.subrange(0, n) =~= cur);
    } else {
        let es = entries.drop_last();
        let cs = cur.subrange(0, entries.len() - 1);
        assert(es.subrange(0, n) =~= entries.subrange(0, n));
        assert(cs.subrange(0, n) =~= cur.subrange(0, n));
        lemma_plan_failure_persists(es, cs, prior, known, check, suppress, n);
    }
}

proof fn lemma_lookup_absent(prior: Seq<(Key, Option<PrefModel>)>, k: Key)
    requires
        forall|m: int| 0 <= m < prior.len() ==> prior[m].0 != k,
    ensures
        lookup_original(prior, k) is None,
    decreases prior.len(),
{
    if prior.len() > 0 {
        lemma_lookup_absent(prior.drop_last(), k);
    }
}

proof fn lemma_lookup_first(prior: Seq<(Key, Option<PrefModel>)>, k: Key, j: int)
    requires
        0 <= j < prior.len(),
        prior[j].0 == k,
        forall|m: int| 0 <= m < j ==> prior[m].0 != k,
    ensures
        lookup_original(prior, k) == Some(prior[j].1),
    decreases prior.len(),
{
    if j < prior.len() - 1 {
        lemma_lookup_first(prior.drop_last(), k, j);
    } else {
        lemma_lookup_absent(prior.drop_last(), k);
    }
}

/// The position of the first record with key (d, k), if any.
fn find_record(prior: &Vec<SettingState>, d: &String, k: &String) -> (r: Option<usize>)
    ensures
        match r {
            Some(j) => j < prior@.len() && prior@[j as int].view().0 == (d@, k@)
                && forall|m: int| 0 <= m < j ==> prior@[m].view().0 != (d@, k@),
            None => forall|m: int| 0 <= m < prior@.len() ==> prior@[m].view().0 != (d@, k@),
        },
{
    let mut i: usize = 0;
    while i < prior.len()
        invariant
            0 <= i <= prior@.len(),
            forall|m: int| 0 <= m < i ==> prior@[m].view().0 != (d@, k@),
        decreases prior@.len() - i,
    {
        if prior[i].domain == *d && prior[i].key == *k {
            return Some(i);
        }
        i += 1;
    }
    None
}

/// Whether one of the first `upto` records has key (d, k).
fn record_has_key(prior: &Vec<SettingState>, upto: usize, d: &String, k: &String) -> (r: bool)
    requires
        upto <= prior@.len(),
    ensures
        r == record_keys(settings_view(prior@).subrange(0, upto as int)).contains((d@, k@)),
{
    let ghost ks = record_keys(settings_view(prior@).subrange(0, upto as int));
    let mut i: usize = 0;
    while i < upto
        invariant
            0 <= i <= upto <= prior@.len(),
            ks == record_keys(settings_view(prior@).subrange(0, upto as int)),
            ks.len() == upto,
            forall|m: int| 0 <= m < i ==> ks[m] != (d@, k@),
        decreases upto - i,
    {
        assert(ks[i as int] == prior@[i as int].view().0);
        if prior[i].domain == *d && prior[i].key == *k {
            assert(ks[i as int] == (d@, k@));
            return true;
        }
        i += 1;
    }
    false
}

/// Whether one of the first `upto` jobs has key (d, k).
fn job_has_key(jobs: &Vec<PreferenceJob>, upto: usize, d: &String, k: &String) -> (r: bool)
    requires
        upto <= jobs@.len(),
    ensures
        r == job_keys(jobs_view(jobs@).subrange(0, upto as int)).contains((d@, k@)),
{
    let ghost ks = job_keys(jobs_view(jobs@).subrange(0, upto as int));
    let mut i: usize = 0;
    while i < upto
        invariant
            0 <= i <= upto <= jobs@.len(),
            ks == job_keys(jobs_view(jobs@).subrange(0, upto as int)),
            ks.len() == upto,
            forall|m: int| 0 <= m < i ==> ks[m] != (d@, k@),
        decreases upto - i,
    {
        assert(ks[i as int] == jobs@[i as int].view().0);
        if jobs[i].domain == *d && jobs[i].key == *k {
            assert(ks[i as int] == (d@, k@));
            return true;
        }
        i += 1;
    }
    false
}


/// What an apply run will do: the jobs to execute, in document order, and
/// the records of the snapshot to write afterwards.
pub struct ApplyPlan {
    pub jobs: Vec<PreferenceJob>,
    pub settings: Vec<SettingState>,
}

/// The records of the snapshot after the jobs: the prior records whose key no
/// job touches (the first of each key, in their order), then one record per
/// key the jobs touch, from the first job with that key. A job counts here
/// whether or not its write succeeded.
pub fn next_settings(prior: &Vec<SettingState>, jobs: &Vec<PreferenceJob>) -> (r: Vec<SettingState>)
    ensures
        settings_view(r@) == next_records(settings_view(prior@), jobs_view(jobs@)),
{
    let ghost ov = settings_view(prior@);
    let ghost jv = jobs_view(jobs@);
    assert(jv.subrange(0, jobs@.len() as int) =~= jv);
    let mut out: Vec<SettingState> = Vec::new();
    let mut i: usize = 0;
    while i < prior.len()
        invariant
            0 <= i <= prior@.len(),
            ov == settings_view(prior@),
            jv == jobs_view(jobs@),
            jv.subrange(0, jobs@.len() as int) == jv,
            settings_view(out@) == carried(ov.subrange(0, i as int), job_keys(jv)),
        decreases prior@.len() - i,
    {
        let ghost before = settings_view(out@);
        assert(ov.subrange(0, i + 1).drop_last() =~= ov.subrange(0, i as int));
        assert(ov.subrange(0, i + 1).last() == prior@[i as int].view());
        let touched = job_has_key(jobs, jobs.len(), &prior[i].domain, &prior[i].key);
        let seen = record_has_key(prior, i, &prior[i].domain, &prior[i].key);
        if !touched && !seen {
            out.push(prior[i].copy_state());
            assert(settings_view(out@) =~= before + seq![prior@[i as int].view()]);
        } else {
            assert(settings_view(out@) =~= before + Seq::<(Key, Option<PrefModel>)>::empty());
        }
        i += 1;
    }
    assert(ov.subrange(0, prior@.len() as int) =~= ov);
    let ghost base = settings_view(out@);
    let mut j: usize = 0;
    while j < jobs.len()
        invariant
            0 <= j <= jobs@.len(),
            jv == jobs_view(jobs@),
            settings_view(out@) == base + job_records(jv.subrange(0, j as int)),
        decreases jobs@.len() - j,
    {
        let ghost before = settings_view(out@);
        assert(jv.subrange(0, j + 1).drop_last() =~= jv.subrange(0, j as int));
        assert(jv.subrange(0, j + 1).last() == jobs@[j as int].view());
        if !job_has_key(jobs, j, &jobs[j].domain, &jobs[j].key) {
            let rec = SettingState {
                domain: jobs[j].domain.clone(),
                key: jobs[j].key.clone(),
                original_value: match &jobs[j].original {
                    Some(v) => Some(v.copy_value()),
                    None => None,
                },
            };
            out.push(rec);
            assert(settings_view(out@) =~= before + seq![(jv[j as int].0, jv[j as int].1)]);
        } else {
            assert(settings_view(out@) =~= before + Seq::<(Key, Option<PrefModel>)>::empty());
        }
        j += 1;
    }
    assert(jv.subrange(0, jobs@.len() as int) =~= jv);
    out
}

/// Plans an apply run.
///
/// `current[i]` is the live value at the store address of `entries[i]`
/// (`None`: absent); `prior` are the records of the existing snapshot;
/// `known` names the domains that exist in the store. With `check_domains`
/// a store domain other than `NSGlobalDomain` that is not among `known`
/// stops the run. With `suppress_capture` (the prior snapshot could not be
/// read) no original is recorded.
///
/// Each entry whose live value is absent or differs from the desired one
/// (arrays in order, dictionaries whatever their order) yields a job; its
/// original is the one already recorded for its key, else the live value.
pub fn plan_apply(
    entries: &Vec<ConfigEntry>,
    current: &Vec<Option<PrefValue>>,
    prior: &Vec<SettingState>,
    known: &Vec<String>,
    check_domains: bool,
    suppress_capture: bool,
) -> (r: Result<ApplyPlan, ApplyError>)
    requires
        current@.len() == entries@.len(),
        forall|i: int| 0 <= i < entries@.len() ==> (#[trigger] entries@[i]).desired.wf(),
        forall|i: int| 0 <= i < current@.len() ==> (#[trigger] current@[i] matches Some(c) ==> c.wf()),
    ensures
        match plan_jobs(entries@, current@, settings_view(prior@), names_view(known@), check_domains, suppress_capture) {
            Ok(jobs) => r matches Ok(p) && jobs_view(p.jobs@) == jobs
                && settings_view(p.settings@) == next_records(settings_view(prior@), jobs),
            Err(f) => r matches Err(e) && e.view() == f,
        },
{
    let ghost ov = settings_view(prior@);
    let ghost kn = names_view(known@);
    let mut jobs: Vec<PreferenceJob> = Vec::new();
    assert(jobs_view(jobs@) =~= Seq::<JobModel>::empty());
    let mut i: usize = 0;
    while i < entries.len()
        invariant
            0 <= i <= entries@.len(),
            current@.len() == entries@.len(),
            ov == settings_view(prior@),
            kn == names_view(known@),
            forall|m: int| 0 <= m < entries@.len() ==> (#[trigger] entries@[m]).desired.wf(),
            forall|m: int| 0 <= m < current@.len() ==> (#[trigger] current@[m] matches Some(c) ==> c.wf()),
            plan_jobs(entries@.subrange(0, i as int), current@.subrange(0, i as int), ov, kn, check_domains, suppress_capture)
                == Ok::<Seq<JobModel>, ApplyFailure>(jobs_view(jobs@)),
        decreases entries@.len() - i,
    {
        let ghost es = entries@.subrange(0, i + 1);
        let ghost cs = current@.subrange(0, i + 1);
        assert(es.drop_last() =~= entries@.subrange(0, i as int));
        assert(cs.subrange(0, i as int) =~= current@.subrange(0, i as int));
        assert(es.last() == entries@[i as int]);
        assert(cs[i as int] == current@[i as int]);
        let e = &entries[i];
        let c = &current[i];
        let (d, k) = resolve(e.domain.as_str(), e.key.as_str(), known);
        let ghost key = entry_key(*e, kn);
        assert(key == (d@, k@));
        if check_domains && !(d == global_name()) && !contains_name(known, d.as_str()) {
            proof {
                lemma_plan_failure_persists(entries@, current@, ov, kn, check_domains, suppress_capture, i + 1);
            }
            return Err(ApplyError::UnknownDomain(d));
        }
        if !is_supported(&e.desired) {
            proof {
                lemma_plan_failure_persists(entries@, current@, ov, kn, check_domains, suppress_capture, i + 1);
            }
            return Err(ApplyError::UnsupportedValue(d, k));
        }
        let changed = match c {
            None => true,
            Some(v) => !pref_eq(v, &e.desired),
        };
        assert(changed == differs(*c, e.desired));
        if changed {
            let original = if suppress_capture {
                None
            } else {
                match find_record(prior, &d, &k) {
                    Some(j) => {
                        proof {
                            lemma_lookup_first(ov, key, j as int);
                        }
                        match &prior[j].original_value {
                            Some(v) => Some(v.copy_value()),
                            None => None,
                        }
                    },
                    None => {
                        proof {
                            lemma_lookup_absent(ov, key);
                        }
                        match c {
                            Some(v) => match prefvalue_to_serializable(v) {
                                Ok(sv) => Some(sv),
                                Err(_) => {
                                    proof {
                                        lemma_plan_failure_persists(entries@, current@, ov, kn, check_domains, suppress_capture, i + 1);
                                    }
                                    return Err(ApplyError::UnserializableCurrent(d, k));
                                },
                            },
                            None => None,
                        }
                    },
                }
            };
            assert(opt_model(original) == captured(ov, key, *c, suppress_capture));
            let job = PreferenceJob { domain: d, key: k, original, new_value: e.desired.copy_value() };
            let ghost before = jobs_view(jobs@);
            jobs.push(job);
            assert(jobs_view(jobs@) =~= before.push((key, captured(ov, key, *c, suppress_capture), e.desired.model())));
        }
        i += 1;
    }
    assert(entries@.subrange(0, entries@.len() as int) =~= entries@);
    assert(current@.subrange(0, entries@.len() as int) =~= current@);
    let settings = next_settings(prior, &jobs);
    Ok(ApplyPlan { jobs, settings })
}


/// The records an apply run starts from, and whether originals may be
/// captured.
pub struct Baseline {
    pub settings: Vec<SettingState>,
    pub suppress_capture: bool,
}

/// Decides the baseline of an apply run from the outcome of loading the
/// snapshot (`None`: there is none). A snapshot that could not be read is
/// replaced by an empty one, and no original is captured in that run: the
/// live values are no trustworthy record of what was there before.
pub fn apply_baseline(loaded: Option<Result<LoadedSnapshot, SnapshotError>>) -> (r: Baseline)
    ensures
        match loaded {
            None => r.settings@.len() == 0 && !r.suppress_capture,
            Some(Ok(s)) => r.settings == s.settings && !r.suppress_capture,
            Some(Err(_)) => r.settings@.len() == 0 && r.suppress_capture,
        },
{
    match loaded {
        None => Baseline { settings: Vec::new(), suppress_capture: false },
        Some(Ok(s)) => Baseline { settings: s.settings, suppress_capture: false },
        Some(Err(_)) => Baseline { settings: Vec::new(), suppress_capture: true },
    }
}

/// How many of the outcomes are successes.
pub open spec fn count_true(s: Seq<bool>) -> nat
    decreases s.len(),
{
    if s.len() == 0 {
        0
    } else {
        count_true(s.drop_last()) + if s.last() {
            1nat
        } else {
            0nat
        }
    }
}

/// Counts the writes that succeeded; services are restarted once when this
/// is not zero.
pub fn count_successes(results: &Vec<bool>) -> (r: usize)
    ensures
        r as nat == count_true(results@),
{
    let mut n: usize = 0;
    let mut i: usize = 0;
    while i < results.len()
        invariant
            0 <= i <= results@.len(),
            n as nat == count_true(results@.subrange(0, i as int)),
            n <= i,
        decreases results@.len() - i,
    {
        assert(results@.subrange(0, i + 1).drop_last() =~= results@.subrange(0, i as int));
        if results[i] {
            n += 1;
        }
        i += 1;
    }
    assert(results@.subrange(0, results@.len() as int) =~= results@);
    n
}

/// The snapshot an apply run writes: the planned records and the digest of
/// the document it applied, at the snapshot's path.
pub fn finish_snapshot(snapshot: &Snapshot, settings: Vec<SettingState>, digest: String, version: &str) -> (r: LoadedSnapshot)
    ensures
        r.settings == settings,
        r.digest == digest,
        r.exec_run_count == 0,
        r.version@ == version@,
        r.path_view() == snapshot.path_view(),
{
    let mut snap = snapshot.new_empty(version);
    snap.settings = settings;
    snap.digest = digest;
    snap
}

} // verus!
