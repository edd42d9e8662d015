//! The record store: per-key records plus a chronological index, with
//! `append` and `list_chronological` over them.
//!
//! `StoreModel` is the mathematical state of the backing store: the keyed
//! records, and the index as a score-sorted sequence of `(score, member)`
//! entries. `MemoryStore` is an executable backing store with exactly that
//! model, verified against it; the same layout is what a networked backing
//! store holds on the wire.

use vstd::prelude::*;
use vstd::string::StrSliceExecFns;

use crate::record::fields_view;
use crate::record::is_record_key;
use crate::record::parse_record;
use crate::record::parse_record_spec;
use crate::record::record_fields;
use crate::record::record_fields_model;
use crate::record::fresh_record_key;
use crate::record::str_eq;
use crate::record::StoreError;
use crate::record::Update;
use crate::record::UpdateView;

verus! {

/// The state of the backing store: records keyed by strings (newest
/// binding first), and the chronological index, kept ascending by score.
pub struct StoreModel {
    pub records: Seq<(Seq<char>, Seq<(Seq<char>, Seq<char>)>)>,
    pub index: Seq<(u64, Seq<char>)>,
}

/// The fields of the first (newest) record bound to a key, if any.
pub open spec fn lookup_record(
    records: Seq<(Seq<char>, Seq<(Seq<char>, Seq<char>)>)>,
    key: Seq<char>,
) -> Option<Seq<(Seq<char>, Seq<char>)>>
    decreases records.len(),
{
    if records.len() == 0 {
        None
    } else if records[0].0 == key {
        Some(records[0].1)
    } else {
        lookup_record(records.skip(1), key)
    }
}

/// Ascending by score; entries of equal score keep insertion order.
pub open spec fn index_sorted(index: Seq<(u64, Seq<char>)>) -> bool {
    forall|i: int, j: int| 0 <= i < j < index.len() ==> index[i].0 <= index[j].0
}

/// Whether some index entry has the given member.
pub open spec fn in_index(index: Seq<(u64, Seq<char>)>, member: Seq<char>) -> bool {
    exists|i: int| 0 <= i < index.len() && index[i].1 == member
}

/// Where a new entry of the given score lands: after every entry of equal
/// or lower score.
pub open spec fn insert_pos(index: Seq<(u64, Seq<char>)>, score: u64) -> int
    decreases index.len(),
{
    if index.len() == 0 {
        0
    } else if index[0].0 <= score {
        1 + insert_pos(index.skip(1), score)
    } else {
        0
    }
}

/// The index after inserting one entry at its position.
pub open spec fn zadd_model(index: Seq<(u64, Seq<char>)>, score: u64, member: Seq<char>) -> Seq<
    (u64, Seq<char>),
> {
    let p = insert_pos(index, score);
    index.take(p) + seq![(score, member)] + index.skip(p)
}

/// The whole effect of one `append`: the record prepended under its key,
/// and the key inserted into the index scored by the write time.
pub open spec fn append_model(
    m: StoreModel,
    key: Seq<char>,
    user_id: u64,
    message: Seq<char>,
    time: u64,
) -> StoreModel {
    StoreModel {
        records: seq![(key, record_fields_model(user_id, message, time))] + m.records,
        index: zadd_model(m.index, time, key),
    }
}

/// What `list_chronological` yields on a store state: the updates parsed
/// from the indexed records in index order, or the member key of the first
/// entry whose record is missing or malformed.
pub open spec fn listing(m: StoreModel) -> Result<Seq<UpdateView>, Seq<char>>
    decreases m.index.len(),
{
    if m.index.len() == 0 {
        Ok(Seq::<UpdateView>::empty())
    } else {
        let member = m.index[0].1;
        match lookup_record(m.records, member) {
            None => Err(member),
            Some(fields) => match parse_record_spec(fields) {
                None => Err(member),
                Some(u) => match listing(StoreModel { records: m.records, index: m.index.skip(1) }) {
                    Ok(rest) => Ok(seq![u] + rest),
                    Err(k) => Err(k),
                },
            },
        }
    }
}

/// The views of a sequence of updates.
pub open spec fn updates_view(s: Seq<Update>) -> Seq<UpdateView> {
    s.map(|i: int, u: Update| u@)
}

/// The character view of `(key, fields)` rows.
pub open spec fn rows_view(rows: Seq<(String, Vec<(String, String)>)>) -> Seq<
    (Seq<char>, Seq<(Seq<char>, Seq<char>)>),
> {
    rows.map(|i: int, p: (String, Vec<(String, String)>)| (p.0@, fields_view(p.1@)))
}

/// The updates parsed from `(key, fields)` rows in row order, or the key
/// of the first row whose record does not parse.
pub open spec fn parse_rows(rows: Seq<(Seq<char>, Seq<(Seq<char>, Seq<char>)>)>) -> Result<
    Seq<UpdateView>,
    Seq<char>,
>
    decreases rows.len(),
{
    if rows.len() == 0 {
        Ok(Seq::<UpdateView>::empty())
    } else {
        match parse_record_spec(rows[0].1) {
            None => Err(rows[0].0),
            Some(u) => match parse_rows(rows.skip(1)) {
                Ok(rest) => Ok(seq![u] + rest),
                Err(k) => Err(k),
            },
        }
    }
}

/// Rebuilds the listing from rows fetched out of a backing store, one
/// `(key, fields)` row per indexed key in index order. A record that was
/// missing arrives as an empty field list and fails like any malformed
/// record, naming its key: one unreadable record poisons the whole
/// listing.
pub fn collect_updates(rows: &Vec<(String, Vec<(String, String)>)>) -> (r: Result<
    Vec<Update>,
    StoreError,
>)
    ensures
        r is Ok <==> parse_rows(rows_view(rows@)) is Ok,
        r is Ok ==> updates_view(r->Ok_0@) == parse_rows(rows_view(rows@))->Ok_0,
        r is Err ==> (r->Err_0 matches StoreError::Deserialization(k) && k@ == parse_rows(
            rows_view(rows@),
        )->Err_0),
{
    let ghost rv = rows_view(rows@);
    let mut out: Vec<Update> = Vec::new();
    proof {
        assert(rv.skip(0) =~= rv);
        assert(updates_view(out@) =~= Seq::<UpdateView>::empty());
    }
    let mut i: usize = 0;
    while i < rows.len()
        invariant
            0 <= i <= rows.len(),
            rv == rows_view(rows@),
            rv.len() == rows.len(),
            ({
                match parse_rows(rv.skip(i as int)) {
                    Ok(l) => parse_rows(rv) == Ok::<Seq<UpdateView>, Seq<char>>(
                        updates_view(out@) + l,
                    ),
                    Err(k) => parse_rows(rv) == Err::<Seq<UpdateView>, Seq<char>>(k),
                }
            }),
        decreases rows.len() - i,
    {
        proof {
            assert(rv[i as int] == (rows@[i as int].0@, fields_view(rows@[i as int].1@)));
            assert(rv.skip(i as int)[0] == rv[i as int]);
            assert(rv.skip(i as int).skip(1) =~= rv.skip(i + 1));
        }
        match parse_record(&rows[i].1) {
            Err(_) => {
                return Err(StoreError::Deserialization(rows[i].0.clone()));
            },
            Ok(u) => {
                proof {
                    match parse_rows(rv.skip(i + 1)) {
                        Ok(l1) => {
                            assert(parse_rows(rv.skip(i as int)) == Ok::<
                                Seq<UpdateView>,
                                Seq<char>,
                            >(seq![u@] + l1));
                            assert(updates_view(out@.push(u)) =~= updates_view(out@) + seq![u@]);
                            assert(updates_view(out@) + (seq![u@] + l1) =~= (updates_view(out@)
                                + seq![u@]) + l1);
                        },
                        Err(k) => {
                            assert(parse_rows(rv.skip(i as int)) == Err::<
                                Seq<UpdateView>,
                                Seq<char>,
                            >(k));
                        },
                    }
                }
                out.push(u);
            },
        }
        i += 1;
    }
    proof {
        assert(rv.skip(i as int) =~= Seq::<(Seq<char>, Seq<(Seq<char>, Seq<char>)>)>::empty());
        assert(updates_view(out@) + Seq::<UpdateView>::empty() =~= updates_view(out@));
    }
    Ok(out)
}

/// An in-memory backing store: the records and the chronological index as
/// plain vectors, the index kept sorted by score.
pub struct MemoryStore {
    records: Vec<(String, Vec<(String, String)>)>,
    index: Vec<(u64, String)>,
    fail_next_index_insert: bool,
}

impl View for MemoryStore {
    type V = StoreModel;

    closed spec fn view(&self) -> StoreModel {
        StoreModel {
            records: self.records@.map(
                |i: int, p: (String, Vec<(String, String)>)| (p.0@, fields_view(p.1@)),
            ),
            index: self.index@.map(|i: int, p: (u64, String)| (p.0, p.1@)),
        }
    }
}

impl MemoryStore {
    /// A well-formed store keeps its index sorted by score.
    pub open spec fn wf(&self) -> bool {
        index_sorted(self@.index)
    }

    /// Whether the next index insert has been set up to fail.
    pub closed spec fn fault_pending(&self) -> bool {
        self.fail_next_index_insert
    }

    /// A store with no records and an empty index.
    pub fn new() -> (r: Self)
        ensures
            r.wf(),
            !r.fault_pending(),
            r@.records == Seq::<(Seq<char>, Seq<(Seq<char>, Seq<char>)>)>::empty(),
            r@.index == Seq::<(u64, Seq<char>)>::empty(),
    {
        let r = MemoryStore { records: Vec::new(), index: Vec::new(), fail_next_index_insert: false };
        proof {
            assert(r@.records =~= Seq::<(Seq<char>, Seq<(Seq<char>, Seq<char>)>)>::empty());
            assert(r@.index =~= Seq::<(u64, Seq<char>)>::empty());
        }
        r
    }

    /// Writes a record's fields under a key. A newer binding shadows an
    /// older one of the same key.
    pub fn hset(&mut self, key: String, fields: Vec<(String, String)>)
        ensures
            final(self)@.records == seq![(key@, fields_view(fields@))] + old(self)@.records,
            final(self)@.index == old(self)@.index,
            final(self).fault_pending() == old(self).fault_pending(),
    {
        self.records.insert(0, (key, fields));
        proof {
            assert(final(self)@.records =~~= seq![(key@, fields_view(fields@))]
                + old(self)@.records);
        }
    }

    /// Inserts one `(score, member)` entry into the index, after all
    /// entries of equal or lower score.
    pub fn zadd(&mut self, score: u64, member: String)
        requires
            old(self).wf(),
        ensures
            final(self).wf(),
            final(self)@.index == zadd_model(old(self)@.index, score, member@),
            final(self)@.records == old(self)@.records,
            final(self).fault_pending() == old(self).fault_pending(),
    {
        let ghost iv = self@.index;
        proof {
            assert(iv.skip(0) =~= iv);
        }
        let mut p: usize = 0;
        while p < self.index.len() && self.index[p].0 <= score
            invariant
                0 <= p <= self.index.len(),
                iv == self@.index,
                iv.len() == self.index.len(),
                insert_pos(iv, score) == p + insert_pos(iv.skip(p as int), score),
                forall|j: int| 0 <= j < p ==> iv[j].0 <= score,
            decreases self.index.len() - p,
        {
            proof {
                assert(iv.skip(p as int)[0] == iv[p as int]);
                assert(iv.skip(p as int).skip(1) =~= iv.skip(p + 1));
            }
            p += 1;
        }
        proof {
            if p < iv.len() {
                assert(iv.skip(p as int)[0] == iv[p as int]);
                assert(insert_pos(iv.skip(p as int), score) == 0);
            } else {
                assert(iv.skip(p as int) =~= Seq::<(u64, Seq<char>)>::empty());
                assert(insert_pos(iv.skip(p as int), score) == 0);
            }
            assert(insert_pos(iv, score) == p as int);
        }
        self.index.insert(p, (score, member));
        proof {
            let new_iv = final(self)@.index;
            assert(new_iv =~~= iv.take(p as int) + seq![(score, member@)] + iv.skip(p as int));
            assert forall|i: int, j: int| 0 <= i < j < new_iv.len() implies new_iv[i].0
                <= new_iv[j].0 by {
                if p < iv.len() {
                    assert(iv[p as int].0 > score);
                }
                assert(forall|k: int|
                    p <= k < iv.len() ==> #[trigger] iv[p as int].0 <= iv[k].0);
            }
        }
    }

    /// Reads the fields of the record under a key, if present.
    pub fn hgetall(&self, key: &str) -> (r: Option<&Vec<(String, String)>>)
        ensures
            match r {
                Some(v) => lookup_record(self@.records, key@) == Some(fields_view(v@)),
                None => lookup_record(self@.records, key@) is None,
            },
    {
        let ghost rv = self@.records;
        proof {
            assert(rv.skip(0) =~= rv);
        }
        let mut i: usize = 0;
        while i < self.records.len()
            invariant
                0 <= i <= self.records.len(),
                rv == self@.records,
                rv.len() == self.records.len(),
                lookup_record(rv, key@) == lookup_record(rv.skip(i as int), key@),
            decreases self.records.len() - i,
        {
            proof {
                assert(rv.skip(i as int)[0] == rv[i as int]);
                assert(rv.skip(i as int).skip(1) =~= rv.skip(i + 1));
            }
            if str_eq(self.records[i].0.as_str(), key) {
                return Some(&self.records[i].1);
            }
            i += 1;
        }
        proof {
            assert(rv.skip(i as int) =~= Seq::<(Seq<char>, Seq<(Seq<char>, Seq<char>)>)>::empty());
        }
        None
    }

    /// Reads the whole index ascending: every member key, in score order.
    pub fn zrange_all(&self) -> (r: Vec<String>)
        ensures
            r@.map(|i: int, s: String| s@) == self@.index.map(|i: int, e: (u64, Seq<char>)| e.1),
    {
        let mut out: Vec<String> = Vec::new();
        let mut i: usize = 0;
        while i < self.index.len()
            invariant
                0 <= i <= self.index.len(),
                out@.len() == i,
                forall|j: int| 0 <= j < i ==> out@.map(|k: int, s: String| s@)[j]
                    == self@.index[j].1,
            decreases self.index.len() - i,
        {
            out.push(self.index[i].1.clone());
            i += 1;
        }
        proof {
            assert(out@.map(|i: int, s: String| s@) =~= self@.index.map(
                |i: int, e: (u64, Seq<char>)| e.1,
            ));
        }
        out
    }

    /// Arms a one-shot fault: the next index insert (the second write of
    /// an `append`) will fail after the record write succeeded.
    pub fn fail_next_index_insert(&mut self)
        ensures
            final(self)@ == old(self)@,
            final(self).fault_pending(),
    {
        self.fail_next_index_insert = true;
    }

    /// Appends one update with the given write time: writes the record
    /// under a fresh key, then inserts the key into the index scored by
    /// that time. The two writes are separate; when the one-shot index
    /// fault is armed, the second fails after the first succeeded, the
    /// operation reports the failure, and the orphaned record stays
    /// behind, unreachable through the index. No rollback is attempted.
    pub fn append_at(&mut self, user_id: u64, message: &str, time: u64) -> (r: Result<
        String,
        StoreError,
    >)
        requires
            old(self).wf(),
        ensures
            final(self).wf(),
            !final(self).fault_pending(),
            r is Ok <==> !old(self).fault_pending(),
            !old(self).fault_pending() ==> is_record_key(r->Ok_0@) && final(self)@ == append_model(
                old(self)@,
                r->Ok_0@,
                user_id,
                message@,
                time,
            ),
            old(self).fault_pending() ==> (r->Err_0 matches StoreError::Command(_)) && (exists|
                k: Seq<char>,
            |
                is_record_key(k) && final(self)@ == (StoreModel {
                    records: seq![(k, record_fields_model(user_id, message@, time))]
                        + old(self)@.records,
                    index: old(self)@.index,
                })),
    {
        let key = fresh_record_key();
        let fields = record_fields(user_id, message, time);
        self.hset(key.clone(), fields);
        if self.fail_next_index_insert {
            self.fail_next_index_insert = false;
            proof {
                let k = key@;
                assert(is_record_key(k) && final(self)@ == (StoreModel {
                    records: seq![(k, record_fields_model(user_id, message@, time))]
                        + old(self)@.records,
                    index: old(self)@.index,
                }));
            }
            return Err(StoreError::Command("append: index insert failed".to_owned()));
        }
        self.zadd(time, key.clone());
        Ok(key)
    }

    /// Appends one update at the current wall-clock second, returning the
    /// generated id. The clock is outside the store's control, so the
    /// write time is pinned only by the new state itself.
    pub fn append(&mut self, user_id: u64, message: &str) -> (r: Result<String, StoreError>)
        requires
            old(self).wf(),
        ensures
            final(self).wf(),
            !final(self).fault_pending(),
            r is Ok <==> !old(self).fault_pending(),
            !old(self).fault_pending() ==> is_record_key(r->Ok_0@) && (exists|t: u64|
                final(self)@ == append_model(old(self)@, r->Ok_0@, user_id, message@, t)),
            old(self).fault_pending() ==> (r->Err_0 matches StoreError::Command(_))
                && final(self)@.index == old(self)@.index,
    {
        let time = crate::common::get_time();
        let r = self.append_at(user_id, message, time);
        proof {
            if !old(self).fault_pending() {
                assert(final(self)@ == append_model(old(self)@, r->Ok_0@, user_id, message@, time));
            }
        }
        r
    }

    /// Reads the full index ascending and reconstructs each indexed
    /// record, oldest first; an empty index yields an empty listing. Fails
    /// on the first indexed key whose record is missing or malformed,
    /// naming that key: one unreadable record poisons the whole listing.
    pub fn list_chronological(&self) -> (r: Result<Vec<Update>, StoreError>)
        ensures
            r is Ok <==> listing(self@) is Ok,
            r is Ok ==> updates_view(r->Ok_0@) == listing(self@)->Ok_0,
            r is Err ==> (r->Err_0 matches StoreError::Deserialization(k) && k@ == listing(
                self@,
            )->Err_0),
    {
        let ghost m = self@;
        let mut out: Vec<Update> = Vec::new();
        proof {
            assert(m.index.skip(0) =~= m.index);
            assert(updates_view(out@) =~= Seq::<UpdateView>::empty());
        }
        let mut i: usize = 0;
        while i < self.index.len()
            invariant
                0 <= i <= self.index.len(),
                m == self@,
                m.index.len() == self.index.len(),
                ({
                    let rest = listing(
                        StoreModel { records: m.records, index: m.index.skip(i as int) },
                    );
                    match rest {
                        Ok(l) => listing(m) == Ok::<Seq<UpdateView>, Seq<char>>(
                            updates_view(out@) + l,
                        ),
                        Err(k) => listing(m) == Err::<Seq<UpdateView>, Seq<char>>(k),
                    }
                }),
            decreases self.index.len() - i,
        {
            let ghost sub = StoreModel { records: m.records, index: m.index.skip(i as int) };
            proof {
                assert(m.index[i as int] == (self.index@[i as int].0, self.index@[i as int].1@));
                assert(sub.index[0] == m.index[i as int]);
                assert(sub.index.skip(1) =~= m.index.skip(i + 1));
            }
            let member = &self.index[i].1;
            match self.hgetall(member.as_str()) {
                None => {
                    proof {
                        assert(listing(sub) == Err::<Seq<UpdateView>, Seq<char>>(member@));
                    }
                    return Err(StoreError::Deserialization(member.clone()));
                },
                Some(fields) => {
                    match parse_record(fields) {
                        Err(_) => {
                            proof {
                                assert(listing(sub) == Err::<Seq<UpdateView>, Seq<char>>(member@));
                            }
                            return Err(StoreError::Deserialization(member.clone()));
                        },
                        Ok(u) => {
                            proof {
                                let sub1 = StoreModel {
                                    records: m.records,
                                    index: m.index.skip(i + 1),
                                };
                                match listing(sub1) {
                                    Ok(l1) => {
                                        assert(listing(sub) == Ok::<Seq<UpdateView>, Seq<char>>(
                                            seq![u@] + l1,
                                        ));
                                        assert(updates_view(out@.push(u)) =~= updates_view(out@)
                                            + seq![u@]);
                                        assert(updates_view(out@) + (seq![u@] + l1) =~= (
                                        updates_view(out@) + seq![u@]) + l1);
                                    },
                                    Err(k) => {
                                        assert(listing(sub) == Err::<Seq<UpdateView>, Seq<char>>(
                                            k,
                                        ));
                                    },
                                }
                            }
                            out.push(u);
                        },
                    }
                },
            }
            i += 1;
        }
        proof {
            assert(m.index.skip(i as int) =~= Seq::<(u64, Seq<char>)>::empty());
            assert(updates_view(out@) + Seq::<UpdateView>::empty() =~= updates_view(out@));
        }
        Ok(out)
    }
}

} // verus!
