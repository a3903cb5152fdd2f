//! The keyed record store: idempotent upserts and date-ordered reads.
//!
//! Two logical tables — per-asset market data and named metric points —
//! share one verified store shape: records keyed by a name string and a
//! calendar date.  An upsert inserts a missing key and overwrites the
//! value fields of a present one, never producing a second row for a key;
//! the store's view is the map from keys to records, and the upsert
//! contract says exactly that the view becomes `old view + this record`.

use vstd::prelude::*;

use crate::date::{epoch_days, Date};
use crate::fixed::Fixed;
use crate::symbol::{has_name, lemma_has_name_at, str_eq};

verus! {

/// One stored record: the natural key (name, date) plus value fields.
#[derive(Debug)]
#[verifier::ext_equal]
pub struct Record<P> {
    pub name: String,
    pub date: Date,
    pub payload: P,
}

/// The value fields of a per-asset market-data row.
#[derive(Debug, Clone, Copy, PartialEq, Eq, Structural)]
pub struct PriceFields {
    pub price_usd: Fixed,
    pub volume_usd: Option<Fixed>,
    pub market_cap_usd: Option<Fixed>,
    pub dominance: Option<Fixed>,
}

/// Where a metric value came from.
#[derive(Debug, Clone, Copy, PartialEq, Eq, Structural)]
pub enum SourceTag {
    AlternativeMe,
    Fred,
    Coingecko,
    Computed,
    Tradingview,
}

/// The value fields of a named metric row.
#[derive(Debug, Clone, Copy, PartialEq, Eq, Structural)]
pub struct MetricFields {
    pub value: Option<Fixed>,
    pub source: Option<SourceTag>,
}

/// One asset's observation for one calendar date.
pub type MarketDataPoint = Record<PriceFields>;

/// One named scalar metric for one calendar date.
pub type MarketMetricPoint = Record<MetricFields>;

impl<P> Record<P> {
    /// The natural key: the name's characters and the date's day number.
    pub open spec fn key(self) -> (Seq<char>, int) {
        (self.name@, epoch_days(self.date))
    }

    /// The day number of this record's date.
    pub open spec fn dayn(self) -> int {
        epoch_days(self.date)
    }
}

impl<P: Copy> Record<P> {
    /// An equal copy of this record.
    pub fn duplicate(&self) -> (r: Record<P>)
        ensures
            r == *self,
    {
        let r = Record { name: self.name.clone(), date: self.date, payload: self.payload };
        assert(r =~= *self);
        r
    }
}

/// The map a sequence of records denotes: later records win on key
/// collisions.
pub open spec fn map_of<P>(rows: Seq<Record<P>>) -> Map<(Seq<char>, int), Record<P>>
    decreases rows.len(),
{
    if rows.len() == 0 {
        Map::empty()
    } else {
        map_of(rows.drop_last()).insert(rows.last().key(), rows.last())
    }
}

/// No two records share a key.
pub open spec fn distinct_keys<P>(rows: Seq<Record<P>>) -> bool {
    forall|i: int, j: int| 0 <= i < j < rows.len() ==> rows[i].key() != rows[j].key()
}

/// Membership in the denoted map is existence of a row, and with distinct
/// keys each row is the map's value at its key.
pub proof fn lemma_map_of_rows<P>(rows: Seq<Record<P>>)
    ensures
        forall|k: (Seq<char>, int)|
            #[trigger] map_of(rows).dom().contains(k) <==> exists|i: int|
                0 <= i < rows.len() && rows[i].key() == k,
        distinct_keys(rows) ==> forall|i: int|
            0 <= i < rows.len() ==> map_of(rows).dom().contains(#[trigger] rows[i].key())
                && map_of(rows)[rows[i].key()] == rows[i],
    decreases rows.len(),
{
    if rows.len() > 0 {
        lemma_map_of_rows(rows.drop_last());
        assert forall|k: (Seq<char>, int)| #[trigger]
            map_of(rows).dom().contains(k) implies exists|i: int|
            0 <= i < rows.len() && rows[i].key() == k by {
            if k == rows.last().key() {
                assert(rows[rows.len() - 1].key() == k);
            } else {
                assert(map_of(rows.drop_last()).dom().contains(k));
                let i = choose|i: int|
                    0 <= i < rows.drop_last().len() && rows.drop_last()[i].key() == k;
                assert(rows[i] == rows.drop_last()[i]);
                assert(rows[i].key() == k);
            }
        }
        assert forall|k: (Seq<char>, int)|
            (exists|i: int| 0 <= i < rows.len() && rows[i].key() == k) implies #[trigger] map_of(
            rows,
        ).dom().contains(k) by {
            let i = choose|i: int| 0 <= i < rows.len() && rows[i].key() == k;
            if i < rows.len() - 1 {
                assert(rows.drop_last()[i].key() == k);
                assert(map_of(rows.drop_last()).dom().contains(k));
            }
        }
        if distinct_keys(rows) {
            assert(distinct_keys(rows.drop_last())) by {
                assert forall|i: int, j: int|
                    0 <= i < j < rows.len() - 1 implies rows.drop_last()[i].key()
                    != rows.drop_last()[j].key() by {
                    assert(rows[i].key() != rows[j].key());
                }
            }
            assert forall|i: int| 0 <= i < rows.len() implies map_of(rows).dom().contains(
                #[trigger] rows[i].key(),
            ) && map_of(rows)[rows[i].key()] == rows[i] by {
                if i < rows.len() - 1 {
                    assert(rows.drop_last()[i].key() == rows[i].key());
                    assert(rows[i].key() != rows[rows.len() - 1].key());
                }
            }
        }
    }
}

/// Replacing the row that holds a key updates the denoted map at that key.
pub proof fn lemma_map_of_update<P>(rows: Seq<Record<P>>, i: int, rec: Record<P>)
    requires
        distinct_keys(rows),
        0 <= i < rows.len(),
        rows[i].key() == rec.key(),
    ensures
        map_of(rows.update(i, rec)) == map_of(rows).insert(rec.key(), rec),
    decreases rows.len(),
{
    let upd = rows.update(i, rec);
    if i == rows.len() - 1 {
        assert(upd.drop_last() =~= rows.drop_last());
        assert(map_of(upd) == map_of(rows.drop_last()).insert(rec.key(), rec));
        assert(map_of(rows).insert(rec.key(), rec) =~= map_of(rows.drop_last()).insert(
            rec.key(),
            rec,
        ));
    } else {
        assert(distinct_keys(rows.drop_last())) by {
            assert forall|p: int, q: int|
                0 <= p < q < rows.len() - 1 implies rows.drop_last()[p].key()
                != rows.drop_last()[q].key() by {
                assert(rows[p].key() != rows[q].key());
            }
        }
        assert(rows.drop_last()[i].key() == rec.key());
        lemma_map_of_update(rows.drop_last(), i, rec);
        assert(upd.drop_last() =~= rows.drop_last().update(i, rec));
        assert(upd.last() == rows.last());
        assert(rows[i].key() != rows[rows.len() - 1].key());
        assert(map_of(upd) == map_of(rows.drop_last()).insert(rec.key(), rec).insert(
            rows.last().key(),
            rows.last(),
        ));
        assert(map_of(rows.drop_last()).insert(rec.key(), rec).insert(
            rows.last().key(),
            rows.last(),
        ) =~= map_of(rows.drop_last()).insert(rows.last().key(), rows.last()).insert(
            rec.key(),
            rec,
        ));
    }
}

/// A keyed table of records: the persistence stage's storage capability.
pub struct RecordStore<P> {
    rows: Vec<Record<P>>,
}

impl<P> View for RecordStore<P> {
    type V = Map<(Seq<char>, int), Record<P>>;

    closed spec fn view(&self) -> Map<(Seq<char>, int), Record<P>> {
        map_of(self.rows@)
    }
}

impl<P: Copy> RecordStore<P> {
    /// Every stored date is valid and no two rows share a key.
    pub closed spec fn wf(&self) -> bool {
        &&& distinct_keys(self.rows@)
        &&& forall|i: int| 0 <= i < self.rows@.len() ==> (#[trigger] self.rows@[i]).date.valid()
    }

    /// How many rows the store holds.
    pub closed spec fn spec_len(&self) -> int {
        self.rows@.len() as int
    }

    /// An empty store.
    pub fn new() -> (r: RecordStore<P>)
        ensures
            r.wf(),
            r@ == Map::<(Seq<char>, int), Record<P>>::empty(),
            r.spec_len() == 0,
    {
        let r = RecordStore { rows: Vec::new() };
        assert(map_of(r.rows@) =~= Map::<(Seq<char>, int), Record<P>>::empty());
        r
    }

    /// How many rows the store holds.
    pub fn len(&self) -> (r: usize)
        ensures
            r == self.spec_len(),
    {
        self.rows.len()
    }

    /// Insert the record under its key, or overwrite the value fields of
    /// the row already holding that key.  Afterwards the store denotes the
    /// old map with this record put at its key; the row count grows only
    /// when the key was absent.
    #[verifier::loop_isolation(false)]
    pub fn upsert(&mut self, rec: Record<P>)
        requires
            old(self).wf(),
            rec.date.valid(),
        ensures
            final(self).wf(),
            final(self)@ == old(self)@.insert(rec.key(), rec),
            final(self).spec_len() == old(self).spec_len() + if old(self)@.dom().contains(
                rec.key(),
            ) {
                0int
            } else {
                1int
            },
    {
        proof {
            lemma_map_of_rows(self.rows@);
        }
        let rec_dayn: i64 = rec.date.to_epoch_days();
        let n = self.rows.len();
        let mut i: usize = 0;
        while i < n
            invariant
                n == self.rows@.len(),
                0 <= i <= n,
                forall|j: int| 0 <= j < i ==> (#[trigger] self.rows@[j]).key() != rec.key(),
                rec_dayn == rec.dayn(),
                old(self).wf(),
                rec.date.valid(),
                self == old(self),
            decreases n - i,
        {
            let same_name = str_eq(self.rows[i].name.as_str(), rec.name.as_str());
            let same_day = self.rows[i].date.to_epoch_days() == rec_dayn;
            if same_name && same_day {
                assert(self.rows@[i as int].key() == rec.key());
                proof {
                    lemma_map_of_update(self.rows@, i as int, rec);
                    assert(old(self)@.dom().contains(rec.key()));
                }
                self.rows.set(i, rec);
                assert(final(self).wf()) by {
                    assert(forall|p: int|
                        0 <= p < self.rows@.len() ==> (#[trigger] self.rows@[p]).date.valid());
                }
                return ;
            }
            i = i + 1;
        }
        assert(forall|j: int| 0 <= j < self.rows@.len() ==> (#[trigger] self.rows@[j]).key()
            != rec.key());
        assert(!old(self)@.dom().contains(rec.key()));
        self.rows.push(rec);
        proof {
            assert(self.rows@.drop_last() =~= old(self).rows@);
            assert(distinct_keys(self.rows@)) by {
                assert forall|p: int, q: int|
                    0 <= p < q < self.rows@.len() implies self.rows@[p].key()
                    != self.rows@[q].key() by {
                    if q < self.rows@.len() - 1 {
                        assert(old(self).rows@[p].key() != old(self).rows@[q].key());
                    } else {
                        assert(old(self).rows@[p].key() != rec.key());
                    }
                }
            }
        }
    }

    /// The record stored under `(name, date)`, if any.
    #[verifier::loop_isolation(false)]
    pub fn get(&self, name: &str, date: &Date) -> (r: Option<Record<P>>)
        requires
            self.wf(),
            date.valid(),
        ensures
            match r {
                Some(p) => self@.dom().contains((name@, epoch_days(*date))) && p == self@[
                    (name@, epoch_days(*date))
                ],
                None => !self@.dom().contains((name@, epoch_days(*date))),
            },
    {
        proof {
            lemma_map_of_rows(self.rows@);
        }
        let dayn: i64 = date.to_epoch_days();
        let n = self.rows.len();
        let mut i: usize = 0;
        while i < n
            invariant
                n == self.rows@.len(),
                0 <= i <= n,
                self.wf(),
                date.valid(),
                dayn == epoch_days(*date),
                forall|j: int| 0 <= j < i ==> (#[trigger] self.rows@[j]).key() != (
                    name@,
                    epoch_days(*date),
                ),
            decreases n - i,
        {
            let same_name = str_eq(self.rows[i].name.as_str(), name);
            let same_day = self.rows[i].date.to_epoch_days() == dayn;
            if same_name && same_day {
                assert(self.rows@[i as int].key() == (name@, epoch_days(*date)));
                proof {
                    lemma_map_of_rows(self.rows@);
                }
                return Some(self.rows[i].duplicate());
            }
            i = i + 1;
        }
        proof {
            lemma_map_of_rows(self.rows@);
        }
        None
    }

    /// The most recent record stored under `name`: the one whose date's
    /// day number is greatest; `None` exactly when the name has no row.
    #[verifier::loop_isolation(false)]
    pub fn latest(&self, name: &str) -> (r: Option<Record<P>>)
        requires
            self.wf(),
        ensures
            match r {
                Some(p) => {
                    &&& self@.dom().contains(p.key())
                    &&& self@[p.key()] == p
                    &&& p.name@ == name@
                    &&& forall|k: (Seq<char>, int)|
                        #[trigger] self@.dom().contains(k) && k.0 == name@ ==> k.1 <= p.dayn()
                },
                None => forall|k: (Seq<char>, int)|
                    #[trigger] self@.dom().contains(k) ==> k.0 != name@,
            },
    {
        proof {
            lemma_map_of_rows(self.rows@);
        }
        let n = self.rows.len();
        let mut best: Option<usize> = None;
        let mut best_dayn: i64 = 0;
        let mut i: usize = 0;
        while i < n
            invariant
                n == self.rows@.len(),
                0 <= i <= n,
                self.wf(),
                match best {
                    Some(b) => {
                        &&& b < i
                        &&& self.rows@[b as int].name@ == name@
                        &&& best_dayn == self.rows@[b as int].dayn()
                        &&& forall|j: int|
                            0 <= j < i && (#[trigger] self.rows@[j]).name@ == name@
                                ==> self.rows@[j].dayn() <= best_dayn
                    },
                    None => forall|j: int| 0 <= j < i ==> (#[trigger] self.rows@[j]).name@ != name@,
                },
            decreases n - i,
        {
            let same_name = str_eq(self.rows[i].name.as_str(), name);
            if same_name {
                let d = self.rows[i].date.to_epoch_days();
                match best {
                    Some(_) => {
                        if d > best_dayn {
                            best = Some(i);
                            best_dayn = d;
                        }
                    },
                    None => {
                        best = Some(i);
                        best_dayn = d;
                    },
                }
            }
            i = i + 1;
        }
        proof {
            lemma_map_of_rows(self.rows@);
        }
        match best {
            Some(b) => {
                let r = self.rows[b].duplicate();
                assert forall|k: (Seq<char>, int)|
                    #[trigger] self@.dom().contains(k) && k.0 == name@ implies k.1 <= r.dayn() by {
                    let j = choose|j: int| 0 <= j < self.rows@.len() && self.rows@[j].key() == k;
                    assert(self.rows@[j].dayn() <= best_dayn);
                }
                Some(r)
            },
            None => {
                assert forall|k: (Seq<char>, int)| #[trigger]
                    self@.dom().contains(k) implies k.0 != name@ by {
                    let j = choose|j: int| 0 <= j < self.rows@.len() && self.rows@[j].key() == k;
                }
                None
            },
        }
    }
}

impl<P: Copy> RecordStore<P> {
    /// The records stored under `name` with dates between `from` and `to`
    /// inclusive, in ascending date order.
    #[verifier::loop_isolation(false)]
    pub fn range(&self, name: &str, from: &Date, to: &Date) -> (r: Vec<Record<P>>)
        requires
            self.wf(),
            from.valid(),
            to.valid(),
        ensures
            forall|x: int|
                0 <= x < r@.len() ==> self@.dom().contains((#[trigger] r@[x]).key()) && self@[
                    r@[x].key()
                ] == r@[x] && r@[x].name@ == name@ && epoch_days(*from) <= r@[x].dayn()
                    <= epoch_days(*to),
            forall|x: int, y: int| 0 <= x < y < r@.len() ==> r@[x].dayn() < r@[y].dayn(),
            forall|k: (Seq<char>, int)|
                #[trigger] self@.dom().contains(k) && k.0 == name@ && epoch_days(*from) <= k.1
                    <= epoch_days(*to) ==> exists|x: int| 0 <= x < r@.len() && r@[x].key() == k,
    {
        proof {
            lemma_map_of_rows(self.rows@);
        }
        let from_dn: i64 = from.to_epoch_days();
        let to_dn: i64 = to.to_epoch_days();
        let mut out: Vec<Record<P>> = Vec::new();
        if from_dn > to_dn {
            return out;
        }
        let mut last: i64 = from_dn - 1;
        let n = self.rows.len();
        loop
            invariant
                n == self.rows@.len(),
                from_dn == epoch_days(*from),
                to_dn == epoch_days(*to),
                from_dn - 1 <= last <= to_dn,
                out@.len() >= 1 ==> last == out@.last().dayn(),
                out@.len() == 0 ==> last == from_dn - 1,
                forall|x: int|
                    0 <= x < out@.len() ==> self@.dom().contains((#[trigger] out@[x]).key())
                        && self@[out@[x].key()] == out@[x] && out@[x].name@ == name@ && from_dn
                        <= out@[x].dayn() <= last,
                forall|x: int, y: int| 0 <= x < y < out@.len() ==> out@[x].dayn() < out@[y].dayn(),
                forall|k: (Seq<char>, int)|
                    #[trigger] self@.dom().contains(k) && k.0 == name@ && from_dn <= k.1 <= last
                        ==> exists|x: int| 0 <= x < out@.len() && out@[x].key() == k,
            decreases to_dn - last,
        {
            let mut best: Option<usize> = None;
            let mut best_dn: i64 = 0;
            let mut i: usize = 0;
            while i < n
                invariant
                    0 <= i <= n,
                    match best {
                        Some(b) => {
                            &&& b < n
                            &&& self.rows@[b as int].name@ == name@
                            &&& best_dn == self.rows@[b as int].dayn()
                            &&& last < best_dn <= to_dn
                            &&& forall|j: int|
                                0 <= j < i && (#[trigger] self.rows@[j]).name@ == name@ && last
                                    < self.rows@[j].dayn() <= to_dn ==> best_dn
                                    <= self.rows@[j].dayn()
                        },
                        None => forall|j: int|
                            0 <= j < i ==> !((#[trigger] self.rows@[j]).name@ == name@ && last
                                < self.rows@[j].dayn() <= to_dn),
                    },
                decreases n - i,
            {
                let same_name = str_eq(self.rows[i].name.as_str(), name);
                if same_name {
                    let d = self.rows[i].date.to_epoch_days();
                    if d > last && d <= to_dn {
                        match best {
                            Some(_) => {
                                if d < best_dn {
                                    best = Some(i);
                                    best_dn = d;
                                }
                            },
                            None => {
                                best = Some(i);
                                best_dn = d;
                            },
                        }
                    }
                }
                i = i + 1;
            }
            match best {
                None => {
                    proof {
                        assert forall|k: (Seq<char>, int)|
                            #[trigger] self@.dom().contains(k) && k.0 == name@ && from_dn <= k.1
                                <= to_dn implies exists|x: int|
                            0 <= x < out@.len() && out@[x].key() == k by {
                            let j = choose|j: int|
                                0 <= j < self.rows@.len() && self.rows@[j].key() == k;
                            if k.1 > last {
                                assert(self.rows@[j].name@ == name@ && last < self.rows@[j].dayn()
                                    <= to_dn);
                                assert(false);
                            }
                        }
                    }
                    return out;
                },
                Some(b) => {
                    proof {
                        assert forall|k: (Seq<char>, int)|
                            #[trigger] self@.dom().contains(k) && k.0 == name@ && from_dn <= k.1
                                <= best_dn implies exists|x: int|
                            0 <= x < out@.len() + 1 && out@.push(self.rows@[b as int])[x].key()
                                == k by {
                            let j = choose|j: int|
                                0 <= j < self.rows@.len() && self.rows@[j].key() == k;
                            if k.1 <= last {
                                let x = choose|x: int| 0 <= x < out@.len() && out@[x].key() == k;
                                assert(out@.push(self.rows@[b as int])[x].key() == k);
                            } else {
                                assert(self.rows@[j].name@ == name@ && last < self.rows@[j].dayn()
                                    <= to_dn);
                                assert(best_dn <= self.rows@[j].dayn());
                                assert(self.rows@[j].dayn() == best_dn);
                                assert(self.rows@[j].key() == self.rows@[b as int].key());
                                assert(j == b);
                                assert(out@.push(self.rows@[b as int])[out@.len() as int].key()
                                    == k);
                            }
                        }
                    }
                    let rec = self.rows[b].duplicate();
                    out.push(rec);
                    last = best_dn;
                },
            }
        }
    }
}

impl<P: Copy> RecordStore<P> {
    /// The most recent `limit` records stored under `name`, in descending
    /// date order: every stored row of the name is either returned or
    /// older than everything returned.
    #[verifier::loop_isolation(false)]
    pub fn latest_n(&self, name: &str, limit: usize) -> (r: Vec<Record<P>>)
        requires
            self.wf(),
        ensures
            r@.len() <= limit,
            forall|x: int|
                0 <= x < r@.len() ==> self@.dom().contains((#[trigger] r@[x]).key()) && self@[
                    r@[x].key()
                ] == r@[x] && r@[x].name@ == name@ && r@[x].date.valid(),
            forall|x: int, y: int| 0 <= x < y < r@.len() ==> r@[x].dayn() > r@[y].dayn(),
            forall|k: (Seq<char>, int)|
                #[trigger] self@.dom().contains(k) && k.0 == name@ ==> (exists|x: int|
                    0 <= x < r@.len() && r@[x].key() == k) || (r@.len() == limit && (r@.len() == 0
                    || k.1 < r@.last().dayn())),
    {
        proof {
            lemma_map_of_rows(self.rows@);
        }
        let mut out: Vec<Record<P>> = Vec::new();
        if limit == 0 {
            return out;
        }
        let n = self.rows.len();
        let mut have_bound = false;
        let mut bound: i64 = 0;
        loop
            invariant
                n == self.rows@.len(),
                0 < limit,
                out@.len() <= limit,
                have_bound == (out@.len() > 0),
                have_bound ==> bound == out@.last().dayn(),
                forall|x: int|
                    0 <= x < out@.len() ==> self@.dom().contains((#[trigger] out@[x]).key())
                        && self@[out@[x].key()] == out@[x] && out@[x].name@ == name@
                        && out@[x].date.valid(),
                forall|x: int, y: int| 0 <= x < y < out@.len() ==> out@[x].dayn() > out@[y].dayn(),
                forall|k: (Seq<char>, int)|
                    #[trigger] self@.dom().contains(k) && k.0 == name@ && have_bound && k.1 > bound
                        ==> exists|x: int| 0 <= x < out@.len() && out@[x].key() == k,
            decreases limit - out@.len(),
        {
            if out.len() == limit {
                proof {
                    assert forall|k: (Seq<char>, int)|
                        #[trigger] self@.dom().contains(k) && k.0 == name@ implies (exists|x: int|
                        0 <= x < out@.len() && out@[x].key() == k) || (out@.len() == limit && (
                        out@.len() == 0 || k.1 < out@.last().dayn())) by {
                        if !(k.1 > bound) {
                            if k.1 == bound {
                                let j = choose|j: int|
                                    0 <= j < self.rows@.len() && self.rows@[j].key() == k;
                                assert(self.rows@[j].key() == out@.last().key());
                            }
                        }
                    }
                }
                return out;
            }
            let mut best: Option<usize> = None;
            let mut best_dn: i64 = 0;
            let mut i: usize = 0;
            while i < n
                invariant
                    0 <= i <= n,
                    match best {
                        Some(b) => {
                            &&& b < n
                            &&& self.rows@[b as int].name@ == name@
                            &&& best_dn == self.rows@[b as int].dayn()
                            &&& (have_bound ==> best_dn < bound)
                            &&& forall|j: int|
                                0 <= j < i && (#[trigger] self.rows@[j]).name@ == name@ && (
                                have_bound ==> self.rows@[j].dayn() < bound) ==> self.rows@[
                                    j
                                ].dayn() <= best_dn
                        },
                        None => forall|j: int|
                            0 <= j < i ==> !((#[trigger] self.rows@[j]).name@ == name@ && (
                            have_bound ==> self.rows@[j].dayn() < bound)),
                    },
                decreases n - i,
            {
                let same_name = str_eq(self.rows[i].name.as_str(), name);
                if same_name {
                    let d = self.rows[i].date.to_epoch_days();
                    if !have_bound || d < bound {
                        match best {
                            Some(_) => {
                                if d > best_dn {
                                    best = Some(i);
                                    best_dn = d;
                                }
                            },
                            None => {
                                best = Some(i);
                                best_dn = d;
                            },
                        }
                    }
                }
                i = i + 1;
            }
            match best {
                None => {
                    proof {
                        assert forall|k: (Seq<char>, int)|
                            #[trigger] self@.dom().contains(k) && k.0 == name@ implies exists|
                        x: int|
                            0 <= x < out@.len() && out@[x].key() == k by {
                            let j = choose|j: int|
                                0 <= j < self.rows@.len() && self.rows@[j].key() == k;
                            if !have_bound {
                                assert(self.rows@[j].name@ == name@);
                                assert(false);
                            } else if k.1 == bound {
                                assert(self.rows@[j].key() == out@.last().key());
                            } else if k.1 < bound {
                                assert(self.rows@[j].name@ == name@ && self.rows@[j].dayn()
                                    < bound);
                                assert(false);
                            }
                        }
                    }
                    return out;
                },
                Some(b) => {
                    proof {
                        assert forall|k: (Seq<char>, int)|
                            #[trigger] self@.dom().contains(k) && k.0 == name@ && k.1 > best_dn
                                implies exists|x: int|
                            0 <= x < out@.len() + 1 && out@.push(self.rows@[b as int])[x].key()
                                == k by {
                            if have_bound && k.1 > bound {
                                let x = choose|x: int| 0 <= x < out@.len() && out@[x].key() == k;
                                assert(out@.push(self.rows@[b as int])[x].key() == k);
                            } else if have_bound && k.1 == bound {
                                let j = choose|j: int|
                                    0 <= j < self.rows@.len() && self.rows@[j].key() == k;
                                assert(self.rows@[j].key() == out@.last().key());
                                let x = choose|x: int| 0 <= x < out@.len() && out@[x].key() == k;
                                assert(out@.push(self.rows@[b as int])[x].key() == k);
                            } else {
                                let j = choose|j: int|
                                    0 <= j < self.rows@.len() && self.rows@[j].key() == k;
                                assert(self.rows@[j].name@ == name@);
                                assert(self.rows@[j].dayn() <= best_dn);
                                assert(false);
                            }
                        }
                    }
                    let rec = self.rows[b].duplicate();
                    out.push(rec);
                    have_bound = true;
                    bound = best_dn;
                },
            }
        }
    }

    /// The most recent record of each listed name that has one, in list
    /// order.
    #[verifier::loop_isolation(false)]
    pub fn latest_array_metrics(&self, names: &Vec<String>) -> (r: Vec<Record<P>>)
        requires
            self.wf(),
        ensures
            forall|x: int|
                0 <= x < r@.len() ==> self@.dom().contains((#[trigger] r@[x]).key()) && self@[
                    r@[x].key()
                ] == r@[x],
            forall|x: int|
                0 <= x < r@.len() ==> has_name(names@, (#[trigger] r@[x]).name@),
    {
        let n = names.len();
        let mut out: Vec<Record<P>> = Vec::new();
        let mut t: usize = 0;
        while t < n
            invariant
                0 <= t <= n,
                n == names@.len(),
                forall|x: int|
                    0 <= x < out@.len() ==> self@.dom().contains((#[trigger] out@[x]).key())
                        && self@[out@[x].key()] == out@[x],
                forall|x: int|
                    0 <= x < out@.len() ==> has_name(names@, (#[trigger] out@[x]).name@),
            decreases n - t,
        {
            match self.latest(names[t].as_str()) {
                Some(rec) => {
                    proof {
                        assert(rec.name@ == names@[t as int]@);
                        lemma_has_name_at(names@, t as int);
                    }
                    out.push(rec);
                },
                None => {},
            }
            t = t + 1;
        }
        out
    }
}

/// Upsert is idempotent: writing the same record twice denotes the same
/// map as writing it once, so a repeated upsert leaves exactly one stored
/// row for the key, unchanged.
pub proof fn lemma_upsert_idempotent<P>(
    m: Map<(Seq<char>, int), Record<P>>,
    k: (Seq<char>, int),
    rec: Record<P>,
)
    ensures
        m.insert(k, rec).insert(k, rec) == m.insert(k, rec),
{
    assert(m.insert(k, rec).insert(k, rec) =~= m.insert(k, rec));
}

/// Upsert is last-write-wins: two writes under one key leave exactly the
/// second record, whatever the first held.
pub proof fn lemma_upsert_last_write_wins<P>(
    m: Map<(Seq<char>, int), Record<P>>,
    k: (Seq<char>, int),
    rec1: Record<P>,
    rec2: Record<P>,
)
    ensures
        m.insert(k, rec1).insert(k, rec2) == m.insert(k, rec2),
{
    assert(m.insert(k, rec1).insert(k, rec2) =~= m.insert(k, rec2));
}

} // verus!
