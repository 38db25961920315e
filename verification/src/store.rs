use vstd::prelude::*;
use crate::persist::{
    FieldModel, FieldValue, ProgressRecord, RawRecord, SchemaError, load_record, save_record,
    spec_load_record, spec_save_record, lemma_record_round_trip,
};

verus! {

/// One value of the persisted store mapping: a record object, or some other
/// value that cannot hold a record.
#[derive(Debug)]
pub enum RawValue {
    Record(RawRecord),
    Other(FieldValue),
}

/// Mathematical model of a persisted store value.
#[verifier::ext_equal]
pub ghost enum RawValueModel {
    Record(Seq<(Seq<char>, FieldModel)>),
    Other(FieldModel),
}

impl View for RawValue {
    type V = RawValueModel;

    open spec fn view(&self) -> RawValueModel {
        match self {
            RawValue::Record(r) => RawValueModel::Record(r@),
            RawValue::Other(v) => RawValueModel::Other(v@),
        }
    }
}

/// The persisted form of the whole store: (file identity, value) pairs in the
/// order they were read or written.
#[derive(Debug)]
pub struct RawStore {
    pub entries: Vec<(String, RawValue)>,
}

impl View for RawStore {
    type V = Seq<(Seq<char>, RawValueModel)>;

    open spec fn view(&self) -> Seq<(Seq<char>, RawValueModel)> {
        self.entries@.map_values(|p: (String, RawValue)| (p.0@, p.1@))
    }
}

/// No file identity occurs twice.
pub open spec fn unique_keys(s: Seq<(Seq<char>, ProgressRecord)>) -> bool {
    forall|i: int, j: int| 0 <= i < j < s.len() ==> (#[trigger] s[i]).0 != (#[trigger] s[j]).0
}

/// The record stored under `key`, if any.
pub open spec fn spec_find(s: Seq<(Seq<char>, ProgressRecord)>, key: Seq<char>) -> Option<
    ProgressRecord,
>
    decreases s.len(),
{
    if s.len() == 0 {
        None
    } else if s[0].0 == key {
        Some(s[0].1)
    } else {
        spec_find(s.skip(1), key)
    }
}

/// The store after `key` is bound to `rec`: an existing entry is overwritten
/// in place, a new key is appended, and all other entries are untouched.
pub open spec fn spec_store_set(
    s: Seq<(Seq<char>, ProgressRecord)>,
    key: Seq<char>,
    rec: ProgressRecord,
) -> Seq<(Seq<char>, ProgressRecord)>
    decreases s.len(),
{
    if s.len() == 0 {
        seq![(key, rec)]
    } else if s[0].0 == key {
        seq![(key, rec)] + s.skip(1)
    } else {
        seq![s[0]] + spec_store_set(s.skip(1), key, rec)
    }
}

/// A key is absent exactly when no entry carries it.
pub proof fn lemma_find_none(s: Seq<(Seq<char>, ProgressRecord)>, key: Seq<char>)
    ensures
        (spec_find(s, key) is None) <==> (forall|j: int|
            0 <= j < s.len() ==> (#[trigger] s[j]).0 != key),
    decreases s.len(),
{
    if s.len() != 0 {
        lemma_find_none(s.skip(1), key);
        if spec_find(s, key) is None {
            assert forall|j: int| 0 <= j < s.len() implies (#[trigger] s[j]).0 != key by {
                if j > 0 {
                    assert(s.skip(1)[j - 1] == s[j]);
                }
            }
        } else {
            if s[0].0 != key {
                let j0 = choose|j: int| 0 <= j < s.skip(1).len() && (#[trigger] s.skip(1)[j]).0
                    == key;
                assert(s[j0 + 1] == s.skip(1)[j0]);
            }
        }
    }
}

/// Binding a key found at position `i` overwrites exactly that entry.
proof fn lemma_store_set_update(
    s: Seq<(Seq<char>, ProgressRecord)>,
    key: Seq<char>,
    rec: ProgressRecord,
    i: int,
)
    requires
        0 <= i < s.len(),
        s[i].0 == key,
        forall|j: int| 0 <= j < i ==> (#[trigger] s[j]).0 != key,
    ensures
        spec_store_set(s, key, rec) == s.update(i, (key, rec)),
    decreases i,
{
    if i == 0 {
        assert(spec_store_set(s, key, rec) =~= s.update(0, (key, rec)));
    } else {
        assert(s.skip(1)[i - 1] == s[i]);
        assert(forall|j: int| 0 <= j < i - 1 ==> (#[trigger] s.skip(1)[j]).0 != key);
        lemma_store_set_update(s.skip(1), key, rec, i - 1);
        assert(seq![s[0]] + s.skip(1).update(i - 1, (key, rec)) =~= s.update(i, (key, rec)));
    }
}

/// Binding an absent key appends a new entry.
proof fn lemma_store_set_append(
    s: Seq<(Seq<char>, ProgressRecord)>,
    key: Seq<char>,
    rec: ProgressRecord,
)
    requires
        forall|j: int| 0 <= j < s.len() ==> (#[trigger] s[j]).0 != key,
    ensures
        spec_store_set(s, key, rec) == s.push((key, rec)),
    decreases s.len(),
{
    if s.len() == 0 {
        assert(spec_store_set(s, key, rec) =~= s.push((key, rec)));
    } else {
        assert(forall|j: int| 0 <= j < s.skip(1).len() ==> (#[trigger] s.skip(1)[j]).0 != key);
        lemma_store_set_append(s.skip(1), key, rec);
        assert(seq![s[0]] + s.skip(1).push((key, rec)) =~= s.push((key, rec)));
    }
}

/// The persisted form of the whole store: each record serialized in store
/// order.
pub open spec fn spec_save_store(s: Seq<(Seq<char>, ProgressRecord)>) -> Seq<
    (Seq<char>, RawValueModel),
> {
    s.map_values(
        |e: (Seq<char>, ProgressRecord)| (e.0, RawValueModel::Record(spec_save_record(e.1))),
    )
}

/// Loading of persisted entries, front to back, onto `acc`: an entry whose
/// value is a schema-valid record is bound, overwriting an earlier entry with
/// the same identity; any other entry fails to load and is dropped.
pub open spec fn spec_load_entries(
    entries: Seq<(Seq<char>, RawValueModel)>,
    acc: Seq<(Seq<char>, ProgressRecord)>,
) -> Seq<(Seq<char>, ProgressRecord)>
    decreases entries.len(),
{
    if entries.len() == 0 {
        acc
    } else {
        let (key, value) = entries[0];
        match value {
            RawValueModel::Record(fields) => match spec_load_record(fields) {
                Ok(rec) => spec_load_entries(entries.skip(1), spec_store_set(acc, key, rec)),
                Err(_) => spec_load_entries(entries.skip(1), acc),
            },
            RawValueModel::Other(_) => spec_load_entries(entries.skip(1), acc),
        }
    }
}

/// What loading a persisted store yields.
pub open spec fn spec_load_store(entries: Seq<(Seq<char>, RawValueModel)>) -> Seq<
    (Seq<char>, ProgressRecord),
> {
    spec_load_entries(entries, Seq::empty())
}

/// The pairs shown by the history listing.
pub open spec fn spec_history_view(h: Seq<(String, u64)>) -> Seq<(Seq<char>, u64)> {
    h.map_values(|p: (String, u64)| (p.0@, p.1))
}

/// Stable insertion by page number: `x` goes after every entry whose page is
/// not greater, so ties keep their existing order.
pub open spec fn spec_insert_by_page(sorted: Seq<(Seq<char>, u64)>, x: (Seq<char>, u64)) -> Seq<
    (Seq<char>, u64),
>
    decreases sorted.len(),
{
    if sorted.len() == 0 {
        seq![x]
    } else if sorted.last().1 <= x.1 {
        sorted.push(x)
    } else {
        spec_insert_by_page(sorted.drop_last(), x).push(sorted.last())
    }
}

/// The history listing: (file identity, page) pairs ordered by page
/// ascending, with ties in insertion order.
pub open spec fn spec_history(s: Seq<(Seq<char>, ProgressRecord)>) -> Seq<(Seq<char>, u64)>
    decreases s.len(),
{
    if s.len() == 0 {
        Seq::empty()
    } else {
        spec_insert_by_page(spec_history(s.drop_last()), (s.last().0, s.last().1.page))
    }
}

/// Pages never descend along the history listing.
pub open spec fn pages_ascending(h: Seq<(Seq<char>, u64)>) -> bool {
    forall|i: int, j: int| 0 <= i < j < h.len() ==> (#[trigger] h[i]).1 <= (#[trigger] h[j]).1
}

proof fn lemma_insert_by_page_ascending(sorted: Seq<(Seq<char>, u64)>, x: (Seq<char>, u64))
    requires
        pages_ascending(sorted),
    ensures
        pages_ascending(spec_insert_by_page(sorted, x)),
    decreases sorted.len(),
{
    if sorted.len() == 0 {
        assert(pages_ascending(seq![x]));
    } else if sorted.last().1 <= x.1 {
        let out = sorted.push(x);
        assert forall|i: int, j: int| 0 <= i < j < out.len() implies (#[trigger] out[i]).1 <= (
        #[trigger] out[j]).1 by {
            if j < out.len() - 1 {
                assert(out[i] == sorted[i] && out[j] == sorted[j]);
            } else {
                assert(out[j] == x);
                if i < sorted.len() - 1 {
                    assert(sorted[i].1 <= sorted[sorted.len() - 1].1);
                }
            }
        }
    } else {
        let shorter = sorted.drop_last();
        assert forall|i: int, j: int| 0 <= i < j < shorter.len() implies (#[trigger] shorter[i]).1
            <= (#[trigger] shorter[j]).1 by {
            assert(shorter[i] == sorted[i] && shorter[j] == sorted[j]);
        }
        lemma_insert_by_page_ascending(shorter, x);
        let inner = spec_insert_by_page(shorter, x);
        let out = inner.push(sorted.last());
        assert forall|i: int, j: int| 0 <= i < j < out.len() implies (#[trigger] out[i]).1 <= (
        #[trigger] out[j]).1 by {
            if j < out.len() - 1 {
                assert(out[i] == inner[i] && out[j] == inner[j]);
            } else {
                assert(out[j] == sorted.last());
                assert(out[i] == inner[i]);
                lemma_insert_by_page_members(shorter, x, i);
                if inner[i] != x {
                    let m = choose|m: int| 0 <= m < shorter.len() && (#[trigger] shorter[m])
                        == inner[i];
                    assert(shorter[m] == sorted[m]);
                    assert(sorted[m].1 <= sorted[sorted.len() - 1].1);
                }
            }
        }
    }
}

/// Every entry of an insertion result is the inserted pair or one of the
/// existing entries.
proof fn lemma_insert_by_page_members(sorted: Seq<(Seq<char>, u64)>, x: (Seq<char>, u64), i: int)
    requires
        0 <= i < spec_insert_by_page(sorted, x).len(),
    ensures
        spec_insert_by_page(sorted, x)[i] == x || exists|m: int|
            0 <= m < sorted.len() && (#[trigger] sorted[m]) == spec_insert_by_page(sorted, x)[i],
    decreases sorted.len(),
{
    if sorted.len() == 0 {
    } else if sorted.last().1 <= x.1 {
        if i < sorted.len() {
            assert(sorted.push(x)[i] == sorted[i]);
        }
    } else {
        let shorter = sorted.drop_last();
        let inner = spec_insert_by_page(shorter, x);
        if i < inner.len() {
            assert(inner.push(sorted.last())[i] == inner[i]);
            lemma_insert_by_page_members(shorter, x, i);
            if inner[i] != x {
                let m = choose|m: int| 0 <= m < shorter.len() && (#[trigger] shorter[m])
                    == inner[i];
                assert(sorted[m] == shorter[m]);
            }
        } else {
            assert(inner.push(sorted.last())[i] == sorted.last());
            assert(sorted[sorted.len() - 1] == sorted.last());
        }
    }
}

/// The history listing is ordered by page number, ascending.
pub proof fn lemma_history_ascending(s: Seq<(Seq<char>, ProgressRecord)>)
    ensures
        pages_ascending(spec_history(s)),
    decreases s.len(),
{
    if s.len() == 0 {
        assert(pages_ascending(spec_history(s)));
    } else {
        lemma_history_ascending(s.drop_last());
        lemma_insert_by_page_ascending(spec_history(s.drop_last()), (s.last().0, s.last().1.page));
    }
}

proof fn lemma_insert_by_page_at(sorted: Seq<(Seq<char>, u64)>, x: (Seq<char>, u64), k: int)
    requires
        0 <= k <= sorted.len(),
        forall|j: int| k <= j < sorted.len() ==> (#[trigger] sorted[j]).1 > x.1,
        k > 0 ==> sorted[k - 1].1 <= x.1,
    ensures
        spec_insert_by_page(sorted, x) == sorted.insert(k, x),
    decreases sorted.len(),
{
    if k == sorted.len() {
        if sorted.len() == 0 {
            assert(spec_insert_by_page(sorted, x) =~= sorted.insert(k, x));
        } else {
            assert(sorted.last().1 <= x.1);
            assert(sorted.push(x) =~= sorted.insert(k, x));
        }
    } else {
        assert(sorted[sorted.len() - 1].1 > x.1);
        assert(sorted.last().1 > x.1);
        let shorter = sorted.drop_last();
        assert forall|j: int| k <= j < shorter.len() implies (#[trigger] shorter[j]).1 > x.1 by {
            assert(shorter[j] == sorted[j]);
        }
        if k > 0 {
            assert(shorter[k - 1] == sorted[k - 1]);
        }
        lemma_insert_by_page_at(shorter, x, k);
        assert(sorted.drop_last().insert(k, x).push(sorted.last()) =~= sorted.insert(k, x));
    }
}

/// The reading-progress store: at most one record per file identity, in
/// insertion order.
#[derive(Debug)]
pub struct ProgressStore {
    pub entries: Vec<(String, ProgressRecord)>,
}

impl View for ProgressStore {
    type V = Seq<(Seq<char>, ProgressRecord)>;

    open spec fn view(&self) -> Seq<(Seq<char>, ProgressRecord)> {
        self.entries@.map_values(|p: (String, ProgressRecord)| (p.0@, p.1))
    }
}

impl ProgressStore {
    /// The store's invariant: one record per file identity.
    pub open spec fn wf(&self) -> bool {
        unique_keys(self@)
    }

    /// An empty store.
    pub fn new() -> (s: Self)
        ensures
            s@ == Seq::<(Seq<char>, ProgressRecord)>::empty(),
            s.wf(),
    {
        let s = ProgressStore { entries: Vec::new() };
        proof {
            assert(s@ =~= Seq::<(Seq<char>, ProgressRecord)>::empty());
        }
        s
    }

    /// The record stored for `file_id`, if any.
    pub fn get(&self, file_id: &String) -> (r: Option<ProgressRecord>)
        ensures
            r == spec_find(self@, file_id@),
    {
        let n = self.entries.len();
        let mut i: usize = 0;
        proof {
            assert(self@.skip(0) =~= self@);
        }
        while i < n
            invariant
                0 <= i <= n,
                n == self.entries.len(),
                spec_find(self@, file_id@) == spec_find(self@.skip(i as int), file_id@),
            decreases n - i,
        {
            proof {
                assert(self@.skip(i as int)[0] == self@[i as int]);
                assert(self@.skip(i as int).skip(1) =~= self@.skip(i + 1));
            }
            if self.entries[i].0 == *file_id {
                return Some(self.entries[i].1);
            }
            i = i + 1;
        }
        proof {
            assert(self@.skip(n as int) =~= Seq::<(Seq<char>, ProgressRecord)>::empty());
        }
        None
    }

    /// Bind `file_id` to the given page, refreshing its timestamp to `now`.
    #[verifier::loop_isolation(false)]
    pub fn set(&mut self, file_id: &String, page: u64, now: i64)
        requires
            old(self).wf(),
        ensures
            final(self).wf(),
            final(self)@ == spec_store_set(
                old(self)@,
                file_id@,
                ProgressRecord { page, readed_time: now },
            ),
    {
        let rec = ProgressRecord { page, readed_time: now };
        let n = self.entries.len();
        let mut i: usize = 0;
        while i < n
            invariant
                0 <= i <= n,
                n == self.entries.len(),
                *self == *old(self),
                forall|j: int| 0 <= j < i ==> (#[trigger] old(self)@[j]).0 != file_id@,
            decreases n - i,
        {
            if self.entries[i].0 == *file_id {
                proof {
                    assert(old(self)@[i as int] == (
                        self.entries@[i as int].0@,
                        self.entries@[i as int].1,
                    ));
                    assert(old(self)@[i as int].0 == file_id@);
                }
                let key_copy = self.entries[i].0.clone();
                self.entries.set(i, (key_copy, rec));
                proof {
                    lemma_store_set_update(old(self)@, file_id@, rec, i as int);
                    assert(self.entries@[i as int] == (
                        self.entries@[i as int].0,
                        self.entries@[i as int].1,
                    ));
                    assert(self@ =~= old(self)@.update(i as int, (file_id@, rec)));
                    assert forall|j: int| 0 <= j < self@.len() implies (#[trigger] self@[j]).0
                        == old(self)@[j].0 by {
                        if j == i as int {
                            assert(self@[j].0 == file_id@);
                        }
                    }
                    assert forall|a: int, b: int| 0 <= a < b < self@.len() implies (
                    #[trigger] self@[a]).0 != (#[trigger] self@[b]).0 by {
                        assert(self@[a].0 == old(self)@[a].0);
                        assert(self@[b].0 == old(self)@[b].0);
                    }
                }
                return ;
            }
            i = i + 1;
        }
        self.entries.push((file_id.clone(), rec));
        proof {
            lemma_store_set_append(old(self)@, file_id@, rec);
            assert(self@ =~= old(self)@.push((file_id@, rec)));
            assert forall|a: int, b: int| 0 <= a < b < self@.len() implies (#[trigger] self@[a]).0
                != (#[trigger] self@[b]).0 by {
                if b < self@.len() - 1 {
                    assert(self@[a].0 == old(self)@[a].0);
                    assert(self@[b].0 == old(self)@[b].0);
                } else {
                    assert(self@[a].0 == old(self)@[a].0);
                    assert(self@[b] == (file_id@, rec));
                }
            }
        }
    }

    /// The stored page for `file_id`; a missing record is created with page 0
    /// and timestamp `now`.
    pub fn get_or_create(&mut self, file_id: &String, now: i64) -> (page: u64)
        requires
            old(self).wf(),
        ensures
            final(self).wf(),
            match spec_find(old(self)@, file_id@) {
                Some(rec) => final(self)@ == old(self)@ && page == rec.page,
                None => final(self)@ == old(self)@.push(
                    (file_id@, ProgressRecord { page: 0, readed_time: now }),
                ) && page == 0,
            },
    {
        match self.get(file_id) {
            Some(rec) => rec.page,
            None => {
                let rec = ProgressRecord { page: 0, readed_time: now };
                self.entries.push((file_id.clone(), rec));
                proof {
                    lemma_find_none(old(self)@, file_id@);
                    assert(self@ =~= old(self)@.push((file_id@, rec)));
                    assert forall|a: int, b: int| 0 <= a < b < self@.len() implies (
                    #[trigger] self@[a]).0 != (#[trigger] self@[b]).0 by {
                        if b < self@.len() - 1 {
                            assert(self@[a].0 == old(self)@[a].0);
                            assert(self@[b].0 == old(self)@[b].0);
                        } else {
                            assert(self@[a].0 == old(self)@[a].0);
                            assert(self@[b] == (file_id@, rec));
                        }
                    }
                }
                0
            },
        }
    }

    /// Serialize the full mapping into its persisted form.
    #[verifier::loop_isolation(false)]
    pub fn save(&self) -> (raw: RawStore)
        ensures
            raw@ == spec_save_store(self@),
    {
        let mut entries: Vec<(String, RawValue)> = Vec::new();
        let n = self.entries.len();
        let mut i: usize = 0;
        while i < n
            invariant
                0 <= i <= n,
                n == self.entries.len(),
                entries@.len() == i,
                forall|j: int|
                    0 <= j < i ==> ((#[trigger] entries@[j]).0@, entries@[j].1@)
                        == spec_save_store(self@)[j],
            decreases n - i,
        {
            let e = &self.entries[i];
            let rr = save_record(&e.1);
            entries.push((e.0.clone(), RawValue::Record(rr)));
            proof {
                assert(self@[i as int] == (e.0@, e.1));
            }
            i = i + 1;
        }
        let raw = RawStore { entries };
        proof {
            assert(raw@ =~= spec_save_store(self@));
        }
        raw
    }

    /// Deserialize persisted entries into a store. Entries that are not
    /// schema-valid records fail to load individually and are dropped; the
    /// rest of the store still loads.
    #[verifier::loop_isolation(false)]
    pub fn load(raw: &RawStore) -> (s: ProgressStore)
        ensures
            s.wf(),
            s@ == spec_load_store(raw@),
    {
        let mut s = ProgressStore::new();
        let n = raw.entries.len();
        let mut i: usize = 0;
        proof {
            assert(raw@.skip(0) =~= raw@);
        }
        while i < n
            invariant
                0 <= i <= n,
                n == raw.entries.len(),
                s.wf(),
                spec_load_store(raw@) == spec_load_entries(raw@.skip(i as int), s@),
            decreases n - i,
        {
            let entry = &raw.entries[i];
            proof {
                assert(raw@[i as int] == (entry.0@, entry.1@));
                assert(raw@.skip(i as int)[0] == raw@[i as int]);
                assert(raw@.skip(i as int).skip(1) =~= raw@.skip(i + 1));
            }
            match &entry.1 {
                RawValue::Record(rr) => {
                    match load_record(rr) {
                        Ok(rec) => {
                            s.set(&entry.0, rec.page, rec.readed_time);
                            proof {
                                assert(rec == (ProgressRecord {
                                    page: rec.page,
                                    readed_time: rec.readed_time,
                                }));
                            }
                        },
                        Err(_) => {},
                    }
                },
                RawValue::Other(_) => {},
            }
            i = i + 1;
        }
        proof {
            assert(raw@.skip(n as int) =~= Seq::<(Seq<char>, RawValueModel)>::empty());
        }
        s
    }

    /// The (file identity, page) listing for display: ordered by page
    /// ascending, with ties in insertion order.
    #[verifier::loop_isolation(false)]
    pub fn history(&self) -> (h: Vec<(String, u64)>)
        ensures
            spec_history_view(h@) == spec_history(self@),
    {
        let mut h: Vec<(String, u64)> = Vec::new();
        let n = self.entries.len();
        let mut i: usize = 0;
        proof {
            assert(self@.take(0) =~= Seq::<(Seq<char>, ProgressRecord)>::empty());
            assert(spec_history_view(h@) =~= spec_history(self@.take(0)));
        }
        while i < n
            invariant
                0 <= i <= n,
                n == self.entries.len(),
                spec_history_view(h@) == spec_history(self@.take(i as int)),
            decreases n - i,
        {
            let e = &self.entries[i];
            let x: (String, u64) = (e.0.clone(), e.1.page);
            let ghost xm: (Seq<char>, u64) = (x.0@, x.1);
            let mut k: usize = h.len();
            while k > 0 && h[k - 1].1 > x.1
                invariant
                    0 <= k <= h@.len(),
                    forall|j: int| k <= j < h@.len() ==> (#[trigger] h@[j]).1 > x.1,
                decreases k,
            {
                k = k - 1;
            }
            let ghost old_h = h@;
            h.insert(k, x);
            proof {
                let prev = spec_history_view(old_h);
                assert forall|j: int| k <= j < prev.len() implies (#[trigger] prev[j]).1 > xm.1 by {
                    assert(prev[j] == (old_h[j].0@, old_h[j].1));
                }
                if k > 0 {
                    assert(prev[k - 1] == (old_h[k - 1].0@, old_h[k - 1].1));
                }
                lemma_insert_by_page_at(prev, xm, k as int);
                old_h.insert_ensures(k as int, x);
                prev.insert_ensures(k as int, xm);
                assert forall|j: int| 0 <= j < h@.len() implies spec_history_view(h@)[j]
                    == prev.insert(k as int, xm)[j] by {
                    assert(h@[j] == old_h.insert(k as int, x)[j]);
                    if j < k as int {
                        assert(old_h.insert(k as int, x)[j] == old_h[j]);
                        assert(prev.insert(k as int, xm)[j] == prev[j]);
                        assert(prev[j] == (old_h[j].0@, old_h[j].1));
                    } else if j == k as int {
                        assert(old_h.insert(k as int, x)[j] == x);
                        assert(prev.insert(k as int, xm)[j] == xm);
                    } else {
                        assert(old_h.insert(k as int, x)[(j - 1) + 1] == old_h[j - 1]);
                        assert(prev.insert(k as int, xm)[(j - 1) + 1] == prev[j - 1]);
                        assert(prev[j - 1] == (old_h[j - 1].0@, old_h[j - 1].1));
                    }
                }
                assert(spec_history_view(h@) =~= prev.insert(k as int, xm));
                assert(self@.take(i + 1).drop_last() =~= self@.take(i as int));
                assert(self@.take(i + 1).last() == self@[i as int]);
                assert(self@[i as int] == (e.0@, e.1));
                assert(xm == (self@[i as int].0, self@[i as int].1.page));
                assert(spec_history_view(h@) == spec_history(self@.take(i + 1)));
            }
            i = i + 1;
        }
        proof {
            assert(self@.take(n as int) =~= self@);
        }
        h
    }
}

proof fn lemma_load_saved(
    s: Seq<(Seq<char>, ProgressRecord)>,
    acc: Seq<(Seq<char>, ProgressRecord)>,
)
    requires
        unique_keys(acc + s),
    ensures
        spec_load_entries(spec_save_store(s), acc) == acc + s,
    decreases s.len(),
{
    if s.len() == 0 {
        assert(spec_save_store(s).len() == 0);
        assert(acc + s =~= acc);
    } else {
        let saved = spec_save_store(s);
        assert(saved[0] == (s[0].0, RawValueModel::Record(spec_save_record(s[0].1))));
        lemma_record_round_trip(s[0].1);
        assert forall|j: int| 0 <= j < acc.len() implies (#[trigger] acc[j]).0 != s[0].0 by {
            assert((acc + s)[j] == acc[j]);
            assert((acc + s)[acc.len() as int] == s[0]);
        }
        lemma_store_set_append(acc, s[0].0, s[0].1);
        assert(saved.skip(1) =~= spec_save_store(s.skip(1)));
        assert(acc.push(s[0]) + s.skip(1) =~= acc + s);
        lemma_load_saved(s.skip(1), acc.push(s[0]));
    }
}

/// Loading a saved store reproduces the mapping exactly, record for record.
pub proof fn lemma_store_round_trip(s: Seq<(Seq<char>, ProgressRecord)>)
    requires
        unique_keys(s),
    ensures
        spec_load_store(spec_save_store(s)) == s,
{
    assert(Seq::<(Seq<char>, ProgressRecord)>::empty() + s =~= s);
    lemma_load_saved(s, Seq::empty());
}

} // verus!
