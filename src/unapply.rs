use vstd::prelude::*;
use vstd::string::*;
use crate::snapshot::{settings_view, Key, LoadedSnapshot, SettingState};
use crate::value::{serializable_to_prefvalue, PrefModel, PrefValue};

verus! {

/// Write `value` back at (domain, key).
pub struct RestoreJob {
    pub domain: String,
    pub key: String,
    pub value: PrefValue,
}

/// Remove (domain, key) from the store.
pub struct DeleteJob {
    pub domain: String,
    pub key: String,
}

impl RestoreJob {
    pub open spec fn view(self) -> (Key, PrefModel) {
        ((self.domain@, self.key@), self.value.model())
    }
}

impl DeleteJob {
    pub open spec fn view(self) -> Key {
        (self.domain@, self.key@)
    }
}

pub open spec fn restores_view(s: Seq<RestoreJob>) -> Seq<(Key, PrefModel)> {
    Seq::new(s.len(), |i: int| s[i].view())
}

pub open spec fn deletes_view(s: Seq<DeleteJob>) -> Seq<Key> {
    Seq::new(s.len(), |i: int| s[i].view())
}

/// The records with an original, newest first, as writes of that original.
pub open spec fn restore_list(recs: Seq<(Key, Option<PrefModel>)>) -> Seq<(Key, PrefModel)>
    decreases recs.len(),
{
    if recs.len() == 0 {
        Seq::empty()
    } else {
        restore_list(recs.subrange(1, recs.len() as int)) + match recs[0].1 {
            Some(v) => seq![(recs[0].0, v)],
            None => Seq::empty(),
        }
    }
}

/// The keys of the records without an original, newest first.
pub open spec fn delete_list(recs: Seq<(Key, Option<PrefModel>)>) -> Seq<Key>
    decreases recs.len(),
{
    if recs.len() == 0 {
        Seq::empty()
    } else {
        delete_list(recs.subrange(1, recs.len() as int)) + match recs[0].1 {
            Some(_) => Seq::empty(),
            None => seq![recs[0].0],
        }
    }
}

/// What an unapply run will do, in this order: write back every recorded
/// original, then remove every key recorded without one.
pub struct UnapplyPlan {
    pub restores: Vec<RestoreJob>,
    pub deletes: Vec<DeleteJob>,
}

/// Splits the snapshot records, walked from the newest to the oldest, into
/// the keys to restore (a recorded original) and the keys to delete (none).
pub fn plan_unapply(settings: &Vec<SettingState>) -> (r: UnapplyPlan)
    ensures
        restores_view(r.restores@) == restore_list(settings_view(settings@)),
        deletes_view(r.deletes@) == delete_list(settings_view(settings@)),
{
    let ghost sv = settings_view(settings@);
    let n = settings.len();
    let mut restores: Vec<RestoreJob> = Vec::new();
    let mut deletes: Vec<DeleteJob> = Vec::new();
    let mut i: usize = n;
    assert(sv.subrange(n as int, n as int) =~= Seq::<(Key, Option<PrefModel>)>::empty());
    assert(restores_view(restores@) =~= Seq::<(Key, PrefModel)>::empty());
    assert(deletes_view(deletes@) =~= Seq::<Key>::empty());
    while i > 0
        invariant
            0 <= i <= n == settings@.len(),
            sv == settings_view(settings@),
            restores_view(restores@) == restore_list(sv.subrange(i as int, n as int)),
            deletes_view(deletes@) == delete_list(sv.subrange(i as int, n as int)),
        decreases i,
    {
        i -= 1;
        let ghost tail = sv.subrange(i as int, n as int);
        assert(tail.subrange(1, tail.len() as int) =~= sv.subrange(i + 1, n as int));
        assert(tail[0] == settings@[i as int].view());
        let s = &settings[i];
        let ghost rb = restores_view(restores@);
        let ghost db = deletes_view(deletes@);
        match &s.original_value {
            Some(o) => {
                let v = serializable_to_prefvalue(o);
                restores.push(RestoreJob { domain: s.domain.clone(), key: s.key.clone(), value: v });
                assert(restores_view(restores@) =~= rb + seq![(tail[0].0, o.model())]);
                assert(deletes_view(deletes@) =~= db + Seq::<Key>::empty());
            },
            None => {
                deletes.push(DeleteJob { domain: s.domain.clone(), key: s.key.clone() });
                assert(deletes_view(deletes@) =~= db + seq![tail[0].0]);
                assert(restores_view(restores@) =~= rb + Seq::<(Key, PrefModel)>::empty());
            },
        }
    }
    assert(sv.subrange(0, n as int) =~= sv);
    UnapplyPlan { restores, deletes }
}


/// What an unapply run warns about; neither stops it.
pub struct UnapplyWarnings {
    /// The document changed since the last apply: only what was recorded is
    /// undone.
    pub drift: bool,
    /// External commands ran in earlier applies; they are not undone.
    pub commands_not_reverted: bool,
}

/// The warnings of an unapply run over `snap`, given the digest of the
/// document as it is now.
pub fn unapply_warnings(snap: &LoadedSnapshot, current_digest: &str) -> (r: UnapplyWarnings)
    ensures
        r.drift == (snap.digest@ != current_digest@),
        r.commands_not_reverted == (snap.exec_run_count > 0),
{
    UnapplyWarnings {
        drift: !(snap.digest == String::from_str(current_digest)),
        commands_not_reverted: snap.exec_run_count > 0,
    }
}

} // verus!
