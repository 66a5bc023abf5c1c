//! Cross-run seen-state tracking: a persistent mapping from listing id to
//! first/last-seen metadata, and the classifier that decides NEW versus
//! ALREADY-SEEN for each freshly crawled listing while updating the store
//! in place. An id, once seen, is never forgotten by the tracker itself.

use vstd::prelude::*;
use crate::listing::{Housing, HousingView};

verus! {

/// Tracking metadata for one listing id.
pub struct SeenData {
    /// When the id was first observed; immutable after creation.
    pub first_timestamp: u64,
    /// When the id was most recently observed.
    pub last_timestamp: u64,
    /// The listing as first observed; immutable after creation.
    pub first_data: Option<Housing>,
    /// The listing as most recently observed.
    pub last_data: Option<Housing>,
}

/// The mathematical view of a [`SeenData`].
pub ghost struct SeenDataView {
    pub first_timestamp: u64,
    pub last_timestamp: u64,
    pub first_data: Option<HousingView>,
    pub last_data: Option<HousingView>,
}

impl View for SeenData {
    type V = SeenDataView;

    open spec fn view(&self) -> SeenDataView {
        SeenDataView {
            first_timestamp: self.first_timestamp,
            last_timestamp: self.last_timestamp,
            first_data: self.first_data.deep_view(),
            last_data: self.last_data.deep_view(),
        }
    }
}

impl DeepView for SeenData {
    type V = SeenDataView;

    open spec fn deep_view(&self) -> SeenDataView {
        self.view()
    }
}

impl Default for SeenData {
    /// The empty record: zero timestamps, no snapshots.
    fn default() -> (r: SeenData)
        ensures
            r@ == (SeenDataView {
                first_timestamp: 0,
                last_timestamp: 0,
                first_data: None,
                last_data: None,
            }),
    {
        SeenData { first_timestamp: 0, last_timestamp: 0, first_data: None, last_data: None }
    }
}

fn duplicate_opt(o: &Option<Housing>) -> (r: Option<Housing>)
    ensures
        r.deep_view() == o.deep_view(),
{
    match o {
        Some(h) => Some(h.duplicate()),
        None => None,
    }
}

impl SeenData {
    /// An exact copy whose view is stated to equal the source's.
    pub fn duplicate(&self) -> (r: SeenData)
        ensures
            r@ == self@,
    {
        SeenData {
            first_timestamp: self.first_timestamp,
            last_timestamp: self.last_timestamp,
            first_data: duplicate_opt(&self.first_data),
            last_data: duplicate_opt(&self.last_data),
        }
    }
}

/// What the tracker says about one listing of a run.
#[derive(PartialEq, Eq, Structural, Clone, Copy, Debug)]
pub enum Classification {
    /// The id was absent from the store: first observation.
    New,
    /// The id was already present: repeat observation.
    AlreadySeen,
}

/// The mapping that a sequence of (id, record) entries denotes; a later
/// entry for the same id overwrites an earlier one.
pub open spec fn entries_map(s: Seq<(Seq<char>, SeenDataView)>) -> Map<Seq<char>, SeenDataView>
    decreases s.len(),
{
    if s.len() == 0 {
        Map::empty()
    } else {
        entries_map(s.drop_last()).insert(s.last().0, s.last().1)
    }
}

/// No id occurs twice in `s`.
pub open spec fn unique_keys(s: Seq<(Seq<char>, SeenDataView)>) -> bool {
    forall|i: int, j: int| 0 <= i < j < s.len() ==> (#[trigger] s[i]).0 != (#[trigger] s[j]).0
}

proof fn lemma_entries_map_contains(s: Seq<(Seq<char>, SeenDataView)>, k: Seq<char>)
    ensures
        entries_map(s).contains_key(k) <==> exists|i: int| 0 <= i < s.len() && (#[trigger] s[i]).0
            == k,
    decreases s.len(),
{
    if s.len() > 0 {
        lemma_entries_map_contains(s.drop_last(), k);
        if entries_map(s).contains_key(k) {
            if s.last().0 == k {
                assert(s[s.len() - 1].0 == k);
            } else {
                let i = choose|i: int| 0 <= i < s.drop_last().len() && (#[trigger] s.drop_last()[i]).0 == k;
                assert(s[i].0 == k);
            }
        }
        if exists|i: int| 0 <= i < s.len() && (#[trigger] s[i]).0 == k {
            let i = choose|i: int| 0 <= i < s.len() && (#[trigger] s[i]).0 == k;
            if i < s.len() - 1 {
                assert(s.drop_last()[i].0 == k);
            }
        }
    }
}

proof fn lemma_entries_map_at(s: Seq<(Seq<char>, SeenDataView)>, i: int)
    requires
        unique_keys(s),
        0 <= i < s.len(),
    ensures
        entries_map(s).contains_key(s[i].0),
        entries_map(s)[s[i].0] == s[i].1,
    decreases s.len(),
{
    if i == s.len() - 1 {
    } else {
        assert(unique_keys(s.drop_last()));
        assert(s.drop_last()[i] == s[i]);
        lemma_entries_map_at(s.drop_last(), i);
        assert(s.last().0 != s[i].0);
    }
}

proof fn lemma_entries_map_update(s: Seq<(Seq<char>, SeenDataView)>, i: int, v: SeenDataView)
    requires
        unique_keys(s),
        0 <= i < s.len(),
    ensures
        entries_map(s.update(i, (s[i].0, v))) == entries_map(s).insert(s[i].0, v),
    decreases s.len(),
{
    let k = s[i].0;
    let t = s.update(i, (k, v));
    if i == s.len() - 1 {
        assert(t.drop_last() =~= s.drop_last());
        assert(t.last() == (k, v));
        assert(entries_map(t) == entries_map(s.drop_last()).insert(k, v));
        assert(entries_map(s.drop_last()).insert(k, s[i].1).insert(k, v) =~= entries_map(
            s.drop_last(),
        ).insert(k, v));
    } else {
        assert(unique_keys(s.drop_last()));
        assert(s.drop_last()[i] == s[i]);
        lemma_entries_map_update(s.drop_last(), i, v);
        assert(t.drop_last() =~= s.drop_last().update(i, (k, v)));
        assert(t.last() == s.last());
        let lk = s.last().0;
        let lv = s.last().1;
        assert(lk != k);
        assert(entries_map(s.drop_last()).insert(k, v).insert(lk, lv) =~= entries_map(
            s.drop_last(),
        ).insert(lk, lv).insert(k, v));
    }
}

/// The persistent store: listing id to tracking record, each id at most
/// once, in first-insertion order.
pub struct SeenStore {
    entries: Vec<(String, SeenData)>,
}

impl View for SeenStore {
    type V = Map<Seq<char>, SeenDataView>;

    closed spec fn view(&self) -> Map<Seq<char>, SeenDataView> {
        entries_map(self.entries.deep_view())
    }
}

impl SeenStore {
    /// The store's entries as a sequence, in stored order.
    pub closed spec fn entry_seq(self) -> Seq<(Seq<char>, SeenDataView)> {
        self.entries.deep_view()
    }

    /// Well-formed: no id occurs twice.
    pub closed spec fn wf(self) -> bool {
        unique_keys(self.entries.deep_view())
    }

    /// The id-to-record mapping a store denotes is exactly the mapping its
    /// entry sequence denotes; rebuilding a store from its exported
    /// entries therefore reproduces an identical mapping.
    pub proof fn lemma_round_trip(self)
        ensures
            entries_map(self.entry_seq()) == self@,
    {
    }

    /// An empty store.
    pub fn new() -> (r: SeenStore)
        ensures
            r.wf(),
            r@ == Map::<Seq<char>, SeenDataView>::empty(),
            r.entry_seq().len() == 0,
    {
        let entries: Vec<(String, SeenData)> = Vec::new();
        proof {
            assert(entries.deep_view() =~= Seq::<(Seq<char>, SeenDataView)>::empty());
        }
        SeenStore { entries }
    }

    fn position_of(&self, id: &String) -> (r: Option<usize>)
        ensures
            match r {
                Some(i) => i < self.entry_seq().len() && self.entry_seq()[i as int].0 == id@,
                None => forall|i: int|
                    0 <= i < self.entry_seq().len() ==> (#[trigger] self.entry_seq()[i]).0 != id@,
            },
{
        let n = self.entries.len();
        let mut i: usize = 0;
        while i < n
            invariant
                0 <= i <= n,
                n == self.entries@.len(),
                forall|k: int|
                    0 <= k < i ==> (#[trigger] self.entries.deep_view()[k]).0 != id@,
            decreases n - i,
        {
            if self.entries[i].0 == *id {
                proof {
                    assert(self.entries.deep_view()[i as int].0 == id@);
                }
                return Some(i);
            }
            proof {
                assert(self.entries.deep_view()[i as int].0 != id@);
            }
            i = i + 1;
        }
        None
    }

    /// Is `id` present in the store?
    pub fn contains_id(&self, id: &String) -> (r: bool)
        ensures
            r == self@.contains_key(id@),
    {
        proof {
            lemma_entries_map_contains(self.entries.deep_view(), id@);
            assert(self.entry_seq() == self.entries.deep_view());
        }
        match self.position_of(id) {
            Some(i) => {
                proof {
                    assert(self.entries.deep_view()[i as int].0 == id@);
                }
                true
            },
            None => {
                proof {
                    assert(forall|k: int|
                        0 <= k < self.entries.deep_view().len() ==> (
                        #[trigger] self.entries.deep_view()[k]).0 != id@);
                }
                false
            },
        }
    }

    /// The record stored for `id`, if any.
    pub fn get(&self, id: &String) -> (r: Option<&SeenData>)
        requires
            self.wf(),
        ensures
            match r {
                Some(d) => self@.contains_key(id@) && d@ == self@[id@],
                None => !self@.contains_key(id@),
            },
    {
        proof {
            lemma_entries_map_contains(self.entries.deep_view(), id@);
            assert(self.entry_seq() == self.entries.deep_view());
        }
        match self.position_of(id) {
            Some(i) => {
                proof {
                    assert(self.entries.deep_view()[i as int].0 == id@);
                    lemma_entries_map_at(self.entries.deep_view(), i as int);
                    assert(self.entries.deep_view()[i as int].1 == self.entries@[i as int].1
                        .deep_view());
                }
                Some(&self.entries[i].1)
            },
            None => {
                proof {
                    assert(forall|k: int|
                        0 <= k < self.entries.deep_view().len() ==> (
                        #[trigger] self.entries.deep_view()[k]).0 != id@);
                }
                None
            },
        }
    }

    /// Exports the store's entries in stored order; together with
    /// [`SeenStore::from_entries`] this is the persistence boundary.
    pub fn to_entries(&self) -> (r: Vec<(String, SeenData)>)
        ensures
            r.deep_view() == self.entry_seq(),
    {
        let n = self.entries.len();
        let mut out: Vec<(String, SeenData)> = Vec::new();
        proof {
            assert(out.deep_view() =~= self.entries.deep_view().take(0));
        }
        let mut i: usize = 0;
        while i < n
            invariant
                0 <= i <= n,
                n == self.entries@.len(),
                out.deep_view() == self.entries.deep_view().take(i as int),
            decreases n - i,
        {
            let pair = &self.entries[i];
            let copy = (pair.0.clone(), pair.1.duplicate());
            let ghost pre = out.deep_view();
            let ghost cv = copy.deep_view();
            proof {
                assert(cv == self.entries.deep_view()[i as int]);
            }
            out.push(copy);
            i = i + 1;
            proof {
                assert(out.deep_view() =~= pre.push(cv));
                assert(out.deep_view() =~= self.entries.deep_view().take(i as int));
            }
        }
        proof {
            assert(self.entries.deep_view().take(n as int) =~= self.entries.deep_view());
        }
        out
    }

    /// Rebuilds a store from exported entries. A repeated id keeps its
    /// first position but the later record wins, as in a map built by
    /// repeated insertion; the result denotes exactly [`entries_map`] of
    /// the input.
    pub fn from_entries(list: Vec<(String, SeenData)>) -> (r: SeenStore)
        ensures
            r.wf(),
            r@ == entries_map(list.deep_view()),
    {
        let mut store = SeenStore::new();
        let n = list.len();
        let mut i: usize = 0;
        while i < n
            invariant
                0 <= i <= n,
                n == list@.len(),
                store.wf(),
                store@ == entries_map(list.deep_view().take(i as int)),
            decreases n - i,
        {
            let pair = &list[i];
            let ghost prefix = list.deep_view().take(i as int);
            proof {
                assert(list.deep_view().take(i + 1).drop_last() =~= prefix);
                assert(list.deep_view().take(i + 1).last() == list.deep_view()[i as int]);
            }
            store.put(&pair.0, pair.1.duplicate());
            i = i + 1;
        }
        proof {
            assert(list.deep_view().take(n as int) =~= list.deep_view());
        }
        store
    }

    /// Inserts or overwrites the record for `id`.
    fn put(&mut self, id: &String, data: SeenData)
        requires
            old(self).wf(),
        ensures
            final(self).wf(),
            final(self)@ == old(self)@.insert(id@, data@),
    {
        let ghost s = self.entries.deep_view();
        proof {
            assert(self.entry_seq() == s);
        }
        match self.position_of(id) {
            Some(i) => {
                proof {
                    assert(s[i as int].0 == id@);
                    lemma_entries_map_update(s, i as int, data@);
                }
                let updated = (id.clone(), data);
                self.entries[i] = updated;
                proof {
                    assert(self.entries.deep_view() =~= s.update(i as int, (id@, data@)));
                    assert(forall|k: int|
                        0 <= k < s.len() ==> (#[trigger] self.entries.deep_view()[k]).0 == s[k].0);
                    assert(unique_keys(self.entries.deep_view()));
                }
            },
            None => {
                proof {
                    assert(forall|k: int| 0 <= k < s.len() ==> (#[trigger] s[k]).0 != id@);
                }
                self.entries.push((id.clone(), data));
                proof {
                    assert(self.entries.deep_view().drop_last() =~= s);
                    assert(self.entries.deep_view().last() == (id@, data@));
                    assert(forall|k: int|
                        0 <= k < s.len() ==> #[trigger] self.entries.deep_view()[k] == s[k]);
                    assert(unique_keys(self.entries.deep_view()));
                }
            },
        }
    }
}

/// One classification step: how the store changes and what is reported
/// when `h` is observed at time `now`.
pub open spec fn spec_track_one(
    m: Map<Seq<char>, SeenDataView>,
    h: HousingView,
    now: u64,
) -> (Map<Seq<char>, SeenDataView>, Classification) {
    if m.contains_key(h.id) {
        (
            m.insert(
                h.id,
                SeenDataView {
                    first_timestamp: m[h.id].first_timestamp,
                    last_timestamp: now,
                    first_data: m[h.id].first_data,
                    last_data: Some(h),
                },
            ),
            Classification::AlreadySeen,
        )
    } else {
        (
            m.insert(
                h.id,
                SeenDataView {
                    first_timestamp: now,
                    last_timestamp: now,
                    first_data: Some(h),
                    last_data: Some(h),
                },
            ),
            Classification::New,
        )
    }
}

/// Classifying a whole run, listing by listing, in input order.
pub open spec fn spec_track(
    m: Map<Seq<char>, SeenDataView>,
    hs: Seq<HousingView>,
    now: u64,
) -> (Map<Seq<char>, SeenDataView>, Seq<Classification>)
    decreases hs.len(),
{
    if hs.len() == 0 {
        (m, Seq::empty())
    } else {
        let pre = spec_track(m, hs.drop_last(), now);
        let step = spec_track_one(pre.0, hs.last(), now);
        (step.0, pre.1.push(step.1))
    }
}

/// Every run produces exactly one classification per listing.
pub proof fn lemma_track_len(m: Map<Seq<char>, SeenDataView>, hs: Seq<HousingView>, now: u64)
    ensures
        spec_track(m, hs, now).1.len() == hs.len(),
    decreases hs.len(),
{
    if hs.len() > 0 {
        lemma_track_len(m, hs.drop_last(), now);
    }
}

/// Classifies each listing of a run against the store and mutates the
/// store accordingly: exactly one classification per input listing, in
/// input order; a listing is reported NEW exactly when its id was absent,
/// and then its record is created with both timestamps at `now`; a
/// repeated id only has `last_timestamp` and `last_snapshot` refreshed.
pub fn track(store: &mut SeenStore, listings: &Vec<Housing>, now: u64) -> (r: Vec<Classification>)
    requires
        old(store).wf(),
    ensures
        final(store).wf(),
        r@.len() == listings@.len(),
        final(store)@ == spec_track(old(store)@, listings.deep_view(), now).0,
        r@ == spec_track(old(store)@, listings.deep_view(), now).1,
{
    let ghost m0 = store@;
    let ghost hs = listings.deep_view();
    let n = listings.len();
    let mut classes: Vec<Classification> = Vec::new();
    proof {
        assert(hs.take(0) =~= Seq::<HousingView>::empty());
        assert(classes@ =~= Seq::<Classification>::empty());
    }
    let mut i: usize = 0;
    while i < n
        invariant
            0 <= i <= n,
            n == listings@.len(),
            hs == listings.deep_view(),
            store.wf(),
            store@ == spec_track(m0, hs.take(i as int), now).0,
            classes@ == spec_track(m0, hs.take(i as int), now).1,
        decreases n - i,
    {
        let listing = &listings[i];
        proof {
            assert(hs.take(i + 1).drop_last() =~= hs.take(i as int));
            assert(hs.take(i + 1).last() == hs[i as int]);
            assert(hs[i as int] == listing@);
        }
        let class = match store.get(&listing.id) {
            Some(existing) => {
                let refreshed = SeenData {
                    first_timestamp: existing.first_timestamp,
                    last_timestamp: now,
                    first_data: duplicate_opt(&existing.first_data),
                    last_data: Some(listing.duplicate()),
                };
                store.put(&listing.id, refreshed);
                Classification::AlreadySeen
            },
            None => {
                let created = SeenData {
                    first_timestamp: now,
                    last_timestamp: now,
                    first_data: Some(listing.duplicate()),
                    last_data: Some(listing.duplicate()),
                };
                store.put(&listing.id, created);
                Classification::New
            },
        };
        classes.push(class);
        i = i + 1;
    }
    proof {
        assert(hs.take(n as int) =~= hs);
        lemma_track_len(m0, hs, now);
    }
    classes
}

/// Classification and store mutation agree, listing by listing: NEW is
/// reported exactly when the id was absent, the id is present afterwards
/// in either case, a NEW record carries the observation time as both
/// timestamps and the listing as both snapshots, and a repeat observation
/// keeps `first_timestamp` while advancing `last_timestamp`.
pub proof fn lemma_classification_agrees(
    m: Map<Seq<char>, SeenDataView>,
    h: HousingView,
    now: u64,
)
    ensures
        ({
            let step = spec_track_one(m, h, now);
            &&& (step.1 is New <==> !m.contains_key(h.id))
            &&& step.0.contains_key(h.id)
            &&& step.1 is New ==> step.0[h.id] == (SeenDataView {
                first_timestamp: now,
                last_timestamp: now,
                first_data: Some(h),
                last_data: Some(h),
            })
            &&& step.1 is AlreadySeen ==> {
                &&& step.0[h.id].first_timestamp == m[h.id].first_timestamp
                &&& step.0[h.id].first_data == m[h.id].first_data
                &&& step.0[h.id].last_timestamp == now
                &&& step.0[h.id].last_data == Some(h)
            }
        }),
{
}

/// The tracker never forgets an id: every id present before a run is
/// still present, with its `first_timestamp` intact, after the run.
pub proof fn lemma_never_forgets(
    m: Map<Seq<char>, SeenDataView>,
    hs: Seq<HousingView>,
    now: u64,
    k: Seq<char>,
)
    requires
        m.contains_key(k),
    ensures
        spec_track(m, hs, now).0.contains_key(k),
        spec_track(m, hs, now).0[k].first_timestamp == m[k].first_timestamp,
    decreases hs.len(),
{
    if hs.len() > 0 {
        lemma_never_forgets(m, hs.drop_last(), now, k);
    }
}

/// The listings of a run that were classified NEW, in run order, taking
/// the first `k` positions.
pub open spec fn spec_new_upto(
    hs: Seq<HousingView>,
    cs: Seq<Classification>,
    k: int,
) -> Seq<HousingView>
    decreases k,
{
    if k <= 0 {
        Seq::empty()
    } else {
        let pre = spec_new_upto(hs, cs, k - 1);
        if cs[k - 1] is New {
            pre.push(hs[k - 1])
        } else {
            pre
        }
    }
}

/// Keeps exactly the listings classified NEW, in order: these and no
/// others are owed to notification.
pub fn select_new(listings: &Vec<Housing>, classes: &Vec<Classification>) -> (r: Vec<Housing>)
    requires
        listings@.len() == classes@.len(),
    ensures
        r.deep_view() == spec_new_upto(listings.deep_view(), classes@, listings@.len() as int),
{
    let n = listings.len();
    let mut out: Vec<Housing> = Vec::new();
    proof {
        assert(out.deep_view() =~= Seq::<HousingView>::empty());
    }
    let mut i: usize = 0;
    while i < n
        invariant
            0 <= i <= n,
            n == listings@.len(),
            n == classes@.len(),
            out.deep_view() == spec_new_upto(listings.deep_view(), classes@, i as int),
        decreases n - i,
    {
        let ghost pre = out.deep_view();
        match classes[i] {
            Classification::New => {
                out.push(listings[i].duplicate());
                proof {
                    assert(out.deep_view() =~= pre.push(listings.deep_view()[i as int]));
                }
            },
            Classification::AlreadySeen => {},
        }
        i = i + 1;
    }
    out
}

/// Seen-state idempotence: when an id absent from the store is observed
/// in one run and again in a later run, the first run reports NEW and the
/// second ALREADY-SEEN; the second run leaves `first_timestamp` and the
/// first snapshot untouched while advancing `last_timestamp` and the last
/// snapshot.
pub proof fn lemma_seen_idempotence(
    m: Map<Seq<char>, SeenDataView>,
    h1: HousingView,
    h2: HousingView,
    t1: u64,
    t2: u64,
)
    requires
        !m.contains_key(h1.id),
        h2.id == h1.id,
    ensures
        ({
            let run1 = spec_track(m, seq![h1], t1);
            let run2 = spec_track(run1.0, seq![h2], t2);
            &&& run1.1 == seq![Classification::New]
            &&& run2.1 == seq![Classification::AlreadySeen]
            &&& run1.0[h1.id].first_timestamp == t1
            &&& run1.0[h1.id].last_timestamp == t1
            &&& run2.0[h1.id].first_timestamp == t1
            &&& run2.0[h1.id].last_timestamp == t2
            &&& run2.0[h1.id].first_data == Some(h1)
            &&& run2.0[h1.id].last_data == Some(h2)
        }),
{
    let s1 = seq![h1];
    let s2 = seq![h2];
    let e = Seq::<HousingView>::empty();
    assert(s1.drop_last() =~= e);
    assert(s2.drop_last() =~= e);
    assert(s1.last() == h1);
    assert(s2.last() == h2);
    assert(spec_track(m, e, t1) == (m, Seq::<Classification>::empty()));
    let run1 = spec_track(m, s1, t1);
    assert(run1 == (spec_track_one(m, h1, t1).0, Seq::<Classification>::empty().push(
        spec_track_one(m, h1, t1).1,
    )));
    assert(spec_track(run1.0, e, t2) == (run1.0, Seq::<Classification>::empty()));
    let run2 = spec_track(run1.0, s2, t2);
    assert(run2 == (spec_track_one(run1.0, h2, t2).0, Seq::<Classification>::empty().push(
        spec_track_one(run1.0, h2, t2).1,
    )));
    assert(run1.0.contains_key(h2.id));
    assert(run1.1 =~= seq![Classification::New]);
    assert(run2.1 =~= seq![Classification::AlreadySeen]);
}

} // verus!
