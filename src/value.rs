use vstd::prelude::*;

verus! {

broadcast use vstd::std_specs::vec::axiom_vec_index_decreases, vstd::std_specs::vec::axiom_vec_decreases_to_view, vstd::seq::axiom_seq_index_decreases, vstd::seq::axiom_seq_subrange_decreases;

/// A preference value in the shape that the live store holds.
///
/// Floating-point numbers are carried as their IEEE-754 binary64 bit
/// pattern, so that every value survives storage and comparison bit for bit.
#[derive(Debug)]
pub enum PrefValue {
    String(String),
    Integer(i64),
    Float(u64),
    Boolean(bool),
    Array(Vec<PrefValue>),
    Dictionary(Vec<(String, PrefValue)>),
    /// A value of a shape the store knows but the configuration cannot
    /// express (binary data, a date, a URL, ...); the string names the shape.
    Other(String),
}

/// The mathematical meaning of a preference value: arrays are sequences,
/// dictionaries are maps (so their order does not matter).
pub enum PrefModel {
    Str(Seq<char>),
    Int(i64),
    Float(u64),
    Bool(bool),
    Array(Seq<PrefModel>),
    Dict(Map<Seq<char>, PrefModel>),
    Other(Seq<char>),
}

/// The keys of a list of dictionary entries, in order.
pub open spec fn entry_keys<V>(s: Seq<(String, V)>) -> Seq<Seq<char>> {
    Seq::new(s.len(), |i: int| s[i].0@)
}

/// No two entries of the list share a key.
pub open spec fn keys_unique<V>(s: Seq<(String, V)>) -> bool {
    forall|i: int, j: int| 0 <= i < j < s.len() ==> s[i].0@ != s[j].0@
}

impl PrefValue {
    pub open spec fn model(self) -> PrefModel
        decreases self,
    {
        match self {
            PrefValue::String(s) => PrefModel::Str(s@),
            PrefValue::Integer(i) => PrefModel::Int(i),
            PrefValue::Float(f) => PrefModel::Float(f),
            PrefValue::Boolean(b) => PrefModel::Bool(b),
            PrefValue::Array(v) => PrefModel::Array(array_model(v@)),
            PrefValue::Dictionary(v) => PrefModel::Dict(dict_model(v@)),
            PrefValue::Other(s) => PrefModel::Other(s@),
        }
    }

    /// Built from the six supported shapes alone, at any depth.
    pub open spec fn supported(self) -> bool
        decreases self,
    {
        match self {
            PrefValue::Array(v) => all_supported(v@),
            PrefValue::Dictionary(v) => all_entries_supported(v@),
            PrefValue::Other(_) => false,
            _ => true,
        }
    }

    /// Well-formed: the keys of every dictionary, at any depth, are unique.
    pub open spec fn wf(self) -> bool
        decreases self,
    {
        match self {
            PrefValue::Array(v) => all_wf(v@),
            PrefValue::Dictionary(v) => keys_unique(v@) && all_entries_wf(v@),
            _ => true,
        }
    }
}

pub open spec fn array_model(s: Seq<PrefValue>) -> Seq<PrefModel>
    decreases s,
{
    if s.len() == 0 {
        Seq::empty()
    } else {
        array_model(s.drop_last()).push(s.last().model())
    }
}

pub open spec fn dict_model(s: Seq<(String, PrefValue)>) -> Map<Seq<char>, PrefModel>
    decreases s,
{
    if s.len() == 0 {
        Map::empty()
    } else {
        dict_model(s.drop_last()).insert(s.last().0@, s.last().1.model())
    }
}

pub open spec fn all_wf(s: Seq<PrefValue>) -> bool
    decreases s,
{
    if s.len() == 0 {
        true
    } else {
        all_wf(s.drop_last()) && s.last().wf()
    }
}

pub open spec fn all_supported(s: Seq<PrefValue>) -> bool
    decreases s,
{
    if s.len() == 0 {
        true
    } else {
        all_supported(s.drop_last()) && s.last().supported()
    }
}

pub open spec fn all_entries_supported(s: Seq<(String, PrefValue)>) -> bool
    decreases s,
{
    if s.len() == 0 {
        true
    } else {
        all_entries_supported(s.drop_last()) && s.last().1.supported()
    }
}

pub open spec fn all_entries_wf(s: Seq<(String, PrefValue)>) -> bool
    decreases s,
{
    if s.len() == 0 {
        true
    } else {
        all_entries_wf(s.drop_last()) && s.last().1.wf()
    }
}


pub proof fn lemma_array_model(s: Seq<PrefValue>)
    ensures
        array_model(s).len() == s.len(),
        forall|i: int| 0 <= i < s.len() ==> #[trigger] array_model(s)[i] == s[i].model(),
    decreases s.len(),
{
    if s.len() > 0 {
        lemma_array_model(s.drop_last());
    }
}

pub proof fn lemma_all_wf(s: Seq<PrefValue>)
    ensures
        all_wf(s) <==> forall|i: int| 0 <= i < s.len() ==> #[trigger] s[i].wf(),
    decreases s.len(),
{
    if s.len() > 0 {
        lemma_all_wf(s.drop_last());
        assert(s.last() == s[s.len() - 1]);
        assert(all_wf(s) == (all_wf(s.drop_last()) && s.last().wf()));
        if all_wf(s) {
            assert forall|i: int| 0 <= i < s.len() implies #[trigger] s[i].wf() by {
                if i < s.len() - 1 {
                    assert(s.drop_last()[i] == s[i]);
                }
            }
        }
        if forall|i: int| 0 <= i < s.len() ==> #[trigger] s[i].wf() {
            assert forall|i: int| 0 <= i < s.drop_last().len() implies #[trigger] s.drop_last()[i].wf() by {
                assert(s.drop_last()[i] == s[i]);
            }
        }
    }
}

pub proof fn lemma_all_entries_wf(s: Seq<(String, PrefValue)>)
    ensures
        all_entries_wf(s) <==> forall|i: int| 0 <= i < s.len() ==> #[trigger] s[i].1.wf(),
    decreases s.len(),
{
    if s.len() > 0 {
        lemma_all_entries_wf(s.drop_last());
        assert(s.last() == s[s.len() - 1]);
        assert(all_entries_wf(s) == (all_entries_wf(s.drop_last()) && s.last().1.wf()));
        if all_entries_wf(s) {
            assert forall|i: int| 0 <= i < s.len() implies #[trigger] s[i].1.wf() by {
                if i < s.len() - 1 {
                    assert(s.drop_last()[i] == s[i]);
                }
            }
        }
        if forall|i: int| 0 <= i < s.len() ==> #[trigger] s[i].1.wf() {
            assert forall|i: int| 0 <= i < s.drop_last().len() implies #[trigger] s.drop_last()[i].1.wf() by {
                assert(s.drop_last()[i] == s[i]);
            }
        }
    }
}

pub proof fn lemma_all_supported(s: Seq<PrefValue>)
    ensures
        all_supported(s) <==> forall|i: int| 0 <= i < s.len() ==> #[trigger] s[i].supported(),
    decreases s.len(),
{
    if s.len() > 0 {
        lemma_all_supported(s.drop_last());
        assert(s.last() == s[s.len() - 1]);
        assert(all_supported(s) == (all_supported(s.drop_last()) && s.last().supported()));
        if all_supported(s) {
            assert forall|i: int| 0 <= i < s.len() implies #[trigger] s[i].supported() by {
                if i < s.len() - 1 {
                    assert(s.drop_last()[i] == s[i]);
                }
            }
        }
        if forall|i: int| 0 <= i < s.len() ==> #[trigger] s[i].supported() {
            assert forall|i: int| 0 <= i < s.drop_last().len() implies #[trigger] s.drop_last()[i].supported() by {
                assert(s.drop_last()[i] == s[i]);
            }
        }
    }
}

pub proof fn lemma_all_entries_supported(s: Seq<(String, PrefValue)>)
    ensures
        all_entries_supported(s) <==> forall|i: int| 0 <= i < s.len() ==> #[trigger] s[i].1.supported(),
    decreases s.len(),
{
    if s.len() > 0 {
        lemma_all_entries_supported(s.drop_last());
        assert(s.last() == s[s.len() - 1]);
        assert(all_entries_supported(s) == (all_entries_supported(s.drop_last()) && s.last().1.supported()));
        if all_entries_supported(s) {
            assert forall|i: int| 0 <= i < s.len() implies #[trigger] s[i].1.supported() by {
                if i < s.len() - 1 {
                    assert(s.drop_last()[i] == s[i]);
                }
            }
        }
        if forall|i: int| 0 <= i < s.len() ==> #[trigger] s[i].1.supported() {
            assert forall|i: int| 0 <= i < s.drop_last().len() implies #[trigger] s.drop_last()[i].1.supported() by {
                assert(s.drop_last()[i] == s[i]);
            }
        }
    }
}

/// What the map of a list of entries holds: the last entry for each key wins,
/// and with unique keys the map has one key per entry.
pub proof fn lemma_dict_model(s: Seq<(String, PrefValue)>)
    ensures
        dict_model(s).dom().finite(),
        forall|k: Seq<char>| #[trigger] dict_model(s).contains_key(k) <==> exists|i: int| 0 <= i < s.len() && s[i].0@ == k,
        keys_unique(s) ==> forall|i: int| 0 <= i < s.len() ==> #[trigger] dict_model(s)[s[i].0@] == s[i].1.model(),
        keys_unique(s) ==> dict_model(s).dom().len() == s.len(),
    decreases s.len(),
{
    if s.len() > 0 {
        let t = s.drop_last();
        lemma_dict_model(t);
        assert forall|k: Seq<char>| #[trigger] dict_model(s).contains_key(k) <==> exists|i: int| 0 <= i < s.len() && s[i].0@ == k by {
            if dict_model(s).contains_key(k) && k != s.last().0@ {
                let i = choose|i: int| 0 <= i < t.len() && t[i].0@ == k;
                assert(s[i] == t[i]);
            }
            if exists|i: int| 0 <= i < s.len() && s[i].0@ == k {
                let i = choose|i: int| 0 <= i < s.len() && s[i].0@ == k;
                if i < s.len() - 1 {
                    assert(s[i] == t[i]);
                }
            }
        }
        if keys_unique(s) {
            assert(keys_unique(t)) by {
                assert forall|i: int, j: int| 0 <= i < j < t.len() implies t[i].0@ != t[j].0@ by {
                    assert(t[i] == s[i] && t[j] == s[j]);
                }
            }
            assert forall|i: int| 0 <= i < s.len() implies #[trigger] dict_model(s)[s[i].0@] == s[i].1.model() by {
                if i < s.len() - 1 {
                    assert(s[i] == t[i]);
                }
            }
            assert(!dict_model(t).contains_key(s.last().0@)) by {
                if dict_model(t).contains_key(s.last().0@) {
                    let i = choose|i: int| 0 <= i < t.len() && t[i].0@ == s.last().0@;
                    assert(s[i] == t[i]);
                }
            }
        }
    }
}


/// The position of the entry with the given key, if there is one.
pub fn find_key<V>(entries: &Vec<(String, V)>, key: &String) -> (r: Option<usize>)
    ensures
        match r {
            Some(i) => i < entries@.len() && entries@[i as int].0@ == key@,
            None => forall|j: int| 0 <= j < entries@.len() ==> entries@[j].0@ != key@,
        },
{
    let mut i: usize = 0;
    while i < entries.len()
        invariant
            0 <= i <= entries@.len(),
            forall|j: int| 0 <= j < i ==> entries@[j].0@ != key@,
        decreases entries@.len() - i,
    {
        if entries[i].0 == *key {
            return Some(i);
        }
        i += 1;
    }
    None
}

/// Structural equality of two preference values: arrays compare element by
/// element in order, dictionaries compare as maps, whatever their order.
pub fn pref_eq(a: &PrefValue, b: &PrefValue) -> (r: bool)
    requires
        a.wf(),
        b.wf(),
    ensures
        r == (a.model() == b.model()),
    decreases a,
{
    match a {
        PrefValue::String(x) => match b {
            PrefValue::String(y) => *x == *y,
            _ => false,
        },
        PrefValue::Integer(x) => match b {
            PrefValue::Integer(y) => *x == *y,
            _ => false,
        },
        PrefValue::Float(x) => match b {
            PrefValue::Float(y) => *x == *y,
            _ => false,
        },
        PrefValue::Boolean(x) => match b {
            PrefValue::Boolean(y) => *x == *y,
            _ => false,
        },
        PrefValue::Other(x) => match b {
            PrefValue::Other(y) => *x == *y,
            _ => false,
        },
        PrefValue::Array(x) => {
            let y = match b {
                PrefValue::Array(y) => y,
                _ => {
                    return false;
                },
            };
            proof {
                lemma_array_model(x@);
                lemma_array_model(y@);
                lemma_all_wf(x@);
                lemma_all_wf(y@);
            }
            if x.len() != y.len() {
                return false;
            }
            let mut i: usize = 0;
            while i < x.len()
                invariant
                    *a == PrefValue::Array(*x),
                    *b == PrefValue::Array(*y),
                    x@.len() == y@.len(),
                    0 <= i <= x@.len(),
                    array_model(x@).len() == x@.len(),
                    array_model(y@).len() == y@.len(),
                    forall|j: int| 0 <= j < x@.len() ==> #[trigger] array_model(x@)[j] == x@[j].model(),
                    forall|j: int| 0 <= j < y@.len() ==> #[trigger] array_model(y@)[j] == y@[j].model(),
                    forall|j: int| 0 <= j < x@.len() ==> #[trigger] x@[j].wf(),
                    forall|j: int| 0 <= j < y@.len() ==> #[trigger] y@[j].wf(),
                    forall|j: int| 0 <= j < i ==> #[trigger] array_model(x@)[j] == array_model(y@)[j],
                decreases x@.len() - i,
            {
                if !pref_eq(&x[i], &y[i]) {
                    assert(array_model(x@)[i as int] != array_model(y@)[i as int]);
                    return false;
                }
                i += 1;
            }
            assert(array_model(x@) =~= array_model(y@));
            assert(a.model() == b.model());
            true
        }
        PrefValue::Dictionary(x) => {
            let y = match b {
                PrefValue::Dictionary(y) => y,
                _ => {
                    return false;
                },
            };
            proof {
                lemma_dict_model(x@);
                lemma_dict_model(y@);
                lemma_all_entries_wf(x@);
                lemma_all_entries_wf(y@);
            }
            if x.len() != y.len() {
                return false;
            }
            let mut i: usize = 0;
            while i < x.len()
                invariant
                    *a == PrefValue::Dictionary(*x),
                    *b == PrefValue::Dictionary(*y),
                    x@.len() == y@.len(),
                    0 <= i <= x@.len(),
                    keys_unique(x@),
                    keys_unique(y@),
                    forall|j: int| 0 <= j < x@.len() ==> #[trigger] x@[j].1.wf(),
                    forall|j: int| 0 <= j < y@.len() ==> #[trigger] y@[j].1.wf(),
                    forall|j: int| 0 <= j < x@.len() ==> #[trigger] dict_model(x@)[x@[j].0@] == x@[j].1.model(),
                    forall|j: int| 0 <= j < y@.len() ==> #[trigger] dict_model(y@)[y@[j].0@] == y@[j].1.model(),
                    forall|k: Seq<char>| #[trigger] dict_model(x@).contains_key(k) <==> exists|j: int| 0 <= j < x@.len() && x@[j].0@ == k,
                    forall|k: Seq<char>| #[trigger] dict_model(y@).contains_key(k) <==> exists|j: int| 0 <= j < y@.len() && y@[j].0@ == k,
                    forall|j: int| 0 <= j < i ==> #[trigger] dict_model(y@).contains_key(x@[j].0@)
                        && dict_model(y@)[x@[j].0@] == dict_model(x@)[x@[j].0@],
                decreases x@.len() - i,
            {
                let ghost k = x@[i as int].0@;
                assert(dict_model(x@).contains_key(k));
                match find_key(y, &x[i].0) {
                    None => {
                        assert(!dict_model(y@).contains_key(k));
                        return false;
                    },
                    Some(j) => {
                        if !pref_eq(&x[i].1, &y[j].1) {
                            assert(dict_model(x@)[k] != dict_model(y@)[k]);
                            return false;
                        }
                    },
                }
                i += 1;
            }
            proof {
                let dx = dict_model(x@);
                let dy = dict_model(y@);
                assert forall|k: Seq<char>| dx.dom().contains(k) implies dy.dom().contains(k) by {
                    let j = choose|j: int| 0 <= j < x@.len() && x@[j].0@ == k;
                }
                vstd::set_lib::lemma_subset_equality(dx.dom(), dy.dom());
                assert forall|k: Seq<char>| #[trigger] dx.contains_key(k) implies dx[k] == dy[k] by {
                    let j = choose|j: int| 0 <= j < x@.len() && x@[j].0@ == k;
                }
                assert(dx =~= dy);
                assert(a.model() == b.model());
            }
            true
        }
    }
}


/// Why a value could not be converted.
#[derive(Debug, Clone, Copy, PartialEq, Eq, Structural)]
pub enum ValueError {
    /// The value holds a shape outside the six supported ones.
    Unsupported,
}

/// The form in which a preference value is written to the snapshot file:
/// the six supported shapes and nothing else.
#[derive(Debug)]
pub enum SerializablePrefValue {
    String(String),
    Integer(i64),
    Float(u64),
    Boolean(bool),
    Array(Vec<SerializablePrefValue>),
    Dictionary(Vec<(String, SerializablePrefValue)>),
}

impl SerializablePrefValue {
    pub open spec fn model(self) -> PrefModel
        decreases self,
    {
        match self {
            SerializablePrefValue::String(s) => PrefModel::Str(s@),
            SerializablePrefValue::Integer(i) => PrefModel::Int(i),
            SerializablePrefValue::Float(f) => PrefModel::Float(f),
            SerializablePrefValue::Boolean(b) => PrefModel::Bool(b),
            SerializablePrefValue::Array(v) => PrefModel::Array(sarray_model(v@)),
            SerializablePrefValue::Dictionary(v) => PrefModel::Dict(sdict_model(v@)),
        }
    }
}

pub open spec fn sarray_model(s: Seq<SerializablePrefValue>) -> Seq<PrefModel>
    decreases s,
{
    if s.len() == 0 {
        Seq::empty()
    } else {
        sarray_model(s.drop_last()).push(s.last().model())
    }
}

pub open spec fn sdict_model(s: Seq<(String, SerializablePrefValue)>) -> Map<Seq<char>, PrefModel>
    decreases s,
{
    if s.len() == 0 {
        Map::empty()
    } else {
        sdict_model(s.drop_last()).insert(s.last().0@, s.last().1.model())
    }
}

pub proof fn lemma_sarray_model(s: Seq<SerializablePrefValue>)
    ensures
        sarray_model(s).len() == s.len(),
        forall|i: int| 0 <= i < s.len() ==> #[trigger] sarray_model(s)[i] == s[i].model(),
    decreases s.len(),
{
    if s.len() > 0 {
        lemma_sarray_model(s.drop_last());
    }
}

/// Whether the value is built from the six supported shapes alone.
pub fn is_supported(v: &PrefValue) -> (r: bool)
    ensures
        r == v.supported(),
{
    prefvalue_to_serializable(v).is_ok()
}

/// Converts a store value into the form kept in the snapshot; fails exactly
/// when the value holds a shape outside the six supported ones.
pub fn prefvalue_to_serializable(v: &PrefValue) -> (r: Result<SerializablePrefValue, ValueError>)
    ensures
        r is Ok <==> v.supported(),
        r matches Ok(s) ==> s.model() == v.model(),
    decreases v,
{
    match v {
        PrefValue::String(s) => Ok(SerializablePrefValue::String(s.clone())),
        PrefValue::Integer(i) => Ok(SerializablePrefValue::Integer(*i)),
        PrefValue::Float(f) => Ok(SerializablePrefValue::Float(*f)),
        PrefValue::Boolean(b) => Ok(SerializablePrefValue::Boolean(*b)),
        PrefValue::Other(_) => Err(ValueError::Unsupported),
        PrefValue::Array(x) => {
            proof {
                lemma_array_model(x@);
                lemma_all_supported(x@);
            }
            let mut out: Vec<SerializablePrefValue> = Vec::new();
            let mut i: usize = 0;
            while i < x.len()
                invariant
                    *v == PrefValue::Array(*x),
                    0 <= i <= x@.len(),
                    out@.len() == i,
                    all_supported(x@) <==> forall|j: int| 0 <= j < x@.len() ==> #[trigger] x@[j].supported(),
                    array_model(x@).len() == x@.len(),
                    forall|j: int| 0 <= j < x@.len() ==> #[trigger] array_model(x@)[j] == x@[j].model(),
                    forall|j: int| 0 <= j < i ==> #[trigger] out@[j].model() == x@[j].model(),
                    forall|j: int| 0 <= j < i ==> #[trigger] x@[j].supported(),
                decreases x@.len() - i,
            {
                match prefvalue_to_serializable(&x[i]) {
                    Ok(e) => out.push(e),
                    Err(e) => {
                        return Err(e);
                    },
                }
                i += 1;
            }
            proof {
                lemma_sarray_model(out@);
                assert(sarray_model(out@) =~= array_model(x@));
            }
            Ok(SerializablePrefValue::Array(out))
        },
        PrefValue::Dictionary(x) => {
            proof {
                lemma_all_entries_supported(x@);
            }
            let mut out: Vec<(String, SerializablePrefValue)> = Vec::new();
            let mut i: usize = 0;
            while i < x.len()
                invariant
                    *v == PrefValue::Dictionary(*x),
                    0 <= i <= x@.len(),
                    all_entries_supported(x@) <==> forall|j: int| 0 <= j < x@.len() ==> #[trigger] x@[j].1.supported(),
                    all_entries_supported(x@) <==> forall|j: int| 0 <= j < x@.len() ==> #[trigger] x@[j].1.supported(),
                    forall|j: int| 0 <= j < i ==> #[trigger] x@[j].1.supported(),
                    sdict_model(out@) == dict_model(x@.subrange(0, i as int)),
                decreases x@.len() - i,
            {
                match prefvalue_to_serializable(&x[i].1) {
                    Ok(e) => {
                        let k = x[i].0.clone();
                        let ghost before = out@;
                        out.push((k, e));
                        assert(out@.drop_last() =~= before);
                    },
                    Err(e) => {
                        return Err(e);
                    },
                }
                assert(x@.subrange(0, i + 1).drop_last() =~= x@.subrange(0, i as int));
                i += 1;
            }
            assert(x@.subrange(0, x@.len() as int) =~= x@);
            Ok(SerializablePrefValue::Dictionary(out))
        },
    }
}


/// Converts a snapshot value back into a store value; never fails.
pub fn serializable_to_prefvalue(v: &SerializablePrefValue) -> (r: PrefValue)
    ensures
        r.model() == v.model(),
        r.supported(),
    decreases v,
{
    match v {
        SerializablePrefValue::String(s) => PrefValue::String(s.clone()),
        SerializablePrefValue::Integer(i) => PrefValue::Integer(*i),
        SerializablePrefValue::Float(f) => PrefValue::Float(*f),
        SerializablePrefValue::Boolean(b) => PrefValue::Boolean(*b),
        SerializablePrefValue::Array(x) => {
            proof {
                lemma_sarray_model(x@);
            }
            let mut out: Vec<PrefValue> = Vec::new();
            let mut i: usize = 0;
            while i < x.len()
                invariant
                    *v == SerializablePrefValue::Array(*x),
                    0 <= i <= x@.len(),
                    out@.len() == i,
                    sarray_model(x@).len() == x@.len(),
                    forall|j: int| 0 <= j < x@.len() ==> #[trigger] sarray_model(x@)[j] == x@[j].model(),
                    forall|j: int| 0 <= j < i ==> #[trigger] out@[j].model() == x@[j].model(),
                    forall|j: int| 0 <= j < i ==> #[trigger] out@[j].supported(),
                decreases x@.len() - i,
            {
                assert(decreases_to!(*v => v->Array_0));
                let e = serializable_to_prefvalue(&x[i]);
                out.push(e);
                i += 1;
            }
            proof {
                lemma_array_model(out@);
                lemma_all_supported(out@);
                assert(array_model(out@) =~= sarray_model(x@));
            }
            PrefValue::Array(out)
        },
        SerializablePrefValue::Dictionary(x) => {
            let mut out: Vec<(String, PrefValue)> = Vec::new();
            let mut i: usize = 0;
            while i < x.len()
                invariant
                    *v == SerializablePrefValue::Dictionary(*x),
                    0 <= i <= x@.len(),
                    out@.len() == i,
                    forall|j: int| 0 <= j < i ==> #[trigger] out@[j].1.supported(),
                    dict_model(out@) == sdict_model(x@.subrange(0, i as int)),
                decreases x@.len() - i,
            {
                assert(decreases_to!(*v => v->Dictionary_0));
                let e = serializable_to_prefvalue(&x[i].1);
                let k = x[i].0.clone();
                let ghost before = out@;
                out.push((k, e));
                assert(out@.drop_last() =~= before);
                assert(x@.subrange(0, i + 1).drop_last() =~= x@.subrange(0, i as int));
                i += 1;
            }
            proof {
                lemma_all_entries_supported(out@);
                assert(x@.subrange(0, x@.len() as int) =~= x@);
            }
            PrefValue::Dictionary(out)
        },
    }
}

impl PrefValue {
    /// A deep copy of the value.
    pub fn copy_value(&self) -> (r: PrefValue)
        ensures
            r.model() == self.model(),
            self.wf() ==> r.wf(),
            self.supported() ==> r.supported(),
        decreases self,
    {
        match self {
            PrefValue::String(s) => PrefValue::String(s.clone()),
            PrefValue::Integer(i) => PrefValue::Integer(*i),
            PrefValue::Float(f) => PrefValue::Float(*f),
            PrefValue::Boolean(b) => PrefValue::Boolean(*b),
            PrefValue::Other(s) => PrefValue::Other(s.clone()),
            PrefValue::Array(x) => {
                proof {
                    lemma_array_model(x@);
                    lemma_all_wf(x@);
                    lemma_all_supported(x@);
                }
                let mut out: Vec<PrefValue> = Vec::new();
                let mut i: usize = 0;
                while i < x.len()
                    invariant
                        *self == PrefValue::Array(*x),
                        0 <= i <= x@.len(),
                        out@.len() == i,
                        all_wf(x@) <==> forall|j: int| 0 <= j < x@.len() ==> #[trigger] x@[j].wf(),
                        all_supported(x@) <==> forall|j: int| 0 <= j < x@.len() ==> #[trigger] x@[j].supported(),
                        array_model(x@).len() == x@.len(),
                        forall|j: int| 0 <= j < x@.len() ==> #[trigger] array_model(x@)[j] == x@[j].model(),
                        forall|j: int| 0 <= j < i ==> #[trigger] out@[j].model() == x@[j].model(),
                        forall|j: int| 0 <= j < i ==> x@[j].wf() ==> #[trigger] out@[j].wf(),
                        forall|j: int| 0 <= j < i ==> x@[j].supported() ==> #[trigger] out@[j].supported(),
                    decreases x@.len() - i,
                {
                    assert(decreases_to!(*self => self->Array_0));
                    let e = x[i].copy_value();
                    out.push(e);
                    i += 1;
                }
                proof {
                    lemma_array_model(out@);
                    lemma_all_wf(out@);
                    lemma_all_supported(out@);
                    assert(array_model(out@) =~= array_model(x@));
                }
                PrefValue::Array(out)
            },
            PrefValue::Dictionary(x) => {
                proof {
                    lemma_all_entries_wf(x@);
                    lemma_all_entries_supported(x@);
                }
                let mut out: Vec<(String, PrefValue)> = Vec::new();
                let mut i: usize = 0;
                while i < x.len()
                    invariant
                        *self == PrefValue::Dictionary(*x),
                        0 <= i <= x@.len(),
                        out@.len() == i,
                        all_entries_wf(x@) <==> forall|j: int| 0 <= j < x@.len() ==> #[trigger] x@[j].1.wf(),
                        all_entries_supported(x@) <==> forall|j: int| 0 <= j < x@.len() ==> #[trigger] x@[j].1.supported(),
                        forall|j: int| 0 <= j < i ==> #[trigger] out@[j].0@ == x@[j].0@,
                        forall|j: int| 0 <= j < i ==> x@[j].1.wf() ==> #[trigger] out@[j].1.wf(),
                        forall|j: int| 0 <= j < i ==> x@[j].1.supported() ==> #[trigger] out@[j].1.supported(),
                        dict_model(out@) == dict_model(x@.subrange(0, i as int)),
                    decreases x@.len() - i,
                {
                    assert(decreases_to!(*self => self->Dictionary_0));
                    let e = x[i].1.copy_value();
                    let k = x[i].0.clone();
                    let ghost before = out@;
                    out.push((k, e));
                    assert(out@.drop_last() =~= before);
                    assert(x@.subrange(0, i + 1).drop_last() =~= x@.subrange(0, i as int));
                    i += 1;
                }
                proof {
                    lemma_all_entries_wf(out@);
                    lemma_all_entries_supported(out@);
                    assert(x@.subrange(0, x@.len() as int) =~= x@);
                    if keys_unique(x@) {
                        assert forall|a: int, b: int| 0 <= a < b < out@.len() implies out@[a].0@ != out@[b].0@ by {
                            assert(out@[a].0@ == x@[a].0@ && out@[b].0@ == x@[b].0@);
                        }
                    }
                }
                PrefValue::Dictionary(out)
            },
        }
    }
}

impl SerializablePrefValue {
    /// A deep copy of the value.
    pub fn copy_value(&self) -> (r: SerializablePrefValue)
        ensures
            r.model() == self.model(),
        decreases self,
    {
        match self {
            SerializablePrefValue::String(s) => SerializablePrefValue::String(s.clone()),
            SerializablePrefValue::Integer(i) => SerializablePrefValue::Integer(*i),
            SerializablePrefValue::Float(f) => SerializablePrefValue::Float(*f),
            SerializablePrefValue::Boolean(b) => SerializablePrefValue::Boolean(*b),
            SerializablePrefValue::Array(x) => {
                proof {
                    lemma_sarray_model(x@);
                }
                let mut out: Vec<SerializablePrefValue> = Vec::new();
                let mut i: usize = 0;
                while i < x.len()
                    invariant
                        *self == SerializablePrefValue::Array(*x),
                        0 <= i <= x@.len(),
                        out@.len() == i,
                        sarray_model(x@).len() == x@.len(),
                        forall|j: int| 0 <= j < x@.len() ==> #[trigger] sarray_model(x@)[j] == x@[j].model(),
                        forall|j: int| 0 <= j < i ==> #[trigger] out@[j].model() == x@[j].model(),
                    decreases x@.len() - i,
                {
                    assert(decreases_to!(*self => self->Array_0));
                    let e = x[i].copy_value();
                    out.push(e);
                    i += 1;
                }
                proof {
                    lemma_sarray_model(out@);
                    assert(sarray_model(out@) =~= sarray_model(x@));
                }
                SerializablePrefValue::Array(out)
            },
            SerializablePrefValue::Dictionary(x) => {
                let mut out: Vec<(String, SerializablePrefValue)> = Vec::new();
                let mut i: usize = 0;
                while i < x.len()
                    invariant
                        *self == SerializablePrefValue::Dictionary(*x),
                        0 <= i <= x@.len(),
                        out@.len() == i,
                        sdict_model(out@) == sdict_model(x@.subrange(0, i as int)),
                    decreases x@.len() - i,
                {
                    assert(decreases_to!(*self => self->Dictionary_0));
                    let e = x[i].1.copy_value();
                    let k = x[i].0.clone();
                    let ghost before = out@;
                    out.push((k, e));
                    assert(out@.drop_last() =~= before);
                    assert(x@.subrange(0, i + 1).drop_last() =~= x@.subrange(0, i as int));
                    i += 1;
                }
                assert(x@.subrange(0, x@.len() as int) =~= x@);
                SerializablePrefValue::Dictionary(out)
            },
        }
    }
}

} // verus!

verus! {

/// Whether no two entries of the list share a key.
fn distinct_keys(x: &Vec<(String, PrefValue)>) -> (r: bool)
    ensures
        r == keys_unique(x@),
{
    let mut i: usize = 0;
    while i < x.len()
        invariant
            0 <= i <= x@.len(),
            forall|a: int, b: int| 0 <= a < b < i ==> x@[a].0@ != x@[b].0@,
        decreases x@.len() - i,
    {
        let mut j: usize = 0;
        while j < i
            invariant
                0 <= j <= i < x@.len(),
                forall|a: int, b: int| 0 <= a < b < i ==> x@[a].0@ != x@[b].0@,
                forall|a: int| 0 <= a < j ==> x@[a].0@ != x@[i as int].0@,
            decreases i - j,
        {
            if x[j].0 == x[i].0 {
                return false;
            }
            j += 1;
        }
        i += 1;
    }
    true
}

/// Whether the keys of every dictionary in the value, at any depth, are
/// unique.
pub fn well_formed(v: &PrefValue) -> (r: bool)
    ensures
        r == v.wf(),
    decreases v,
{
    match v {
        PrefValue::Array(x) => {
            proof {
                lemma_all_wf(x@);
            }
            let mut i: usize = 0;
            while i < x.len()
                invariant
                    *v == PrefValue::Array(*x),
                    0 <= i <= x@.len(),
                    all_wf(x@) <==> forall|j: int| 0 <= j < x@.len() ==> #[trigger] x@[j].wf(),
                    forall|j: int| 0 <= j < i ==> #[trigger] x@[j].wf(),
                decreases x@.len() - i,
            {
                assert(decreases_to!(*v => v->Array_0));
                if !well_formed(&x[i]) {
                    return false;
                }
                i += 1;
            }
            true
        },
        PrefValue::Dictionary(x) => {
            proof {
                lemma_all_entries_wf(x@);
            }
            if !distinct_keys(x) {
                return false;
            }
            let mut i: usize = 0;
            while i < x.len()
                invariant
                    *v == PrefValue::Dictionary(*x),
                    0 <= i <= x@.len(),
                    keys_unique(x@),
                    all_entries_wf(x@) <==> forall|j: int| 0 <= j < x@.len() ==> #[trigger] x@[j].1.wf(),
                    forall|j: int| 0 <= j < i ==> #[trigger] x@[j].1.wf(),
                decreases x@.len() - i,
            {
                assert(decreases_to!(*v => v->Dictionary_0));
                if !well_formed(&x[i].1) {
                    return false;
                }
                i += 1;
            }
            true
        },
        _ => true,
    }
}

} // verus!

verus! {

/// Converting a supported value to its snapshot form and back gives a value
/// equal to the first, whatever its shape and depth.
pub proof fn lemma_serializable_round_trip(v: PrefValue, s: SerializablePrefValue, back: PrefValue)
    requires
        v.supported(),
        s.model() == v.model(),
        back.model() == s.model(),
    ensures
        back.model() == v.model(),
{
}

} // verus!
