//! The store's laws: what appending and listing guarantee together.
//!
//! Each proof function here states one behavioral guarantee of the record
//! store over its model: listing an empty store, the append/list round
//! trip, preservation of listing order under chronological appends, the
//! immutability of stored records, and the invisibility of an orphaned
//! record after a failed index insert.

use vstd::prelude::*;

use crate::record::lemma_record_round_trip;
use crate::record::parse_record_spec;
use crate::record::record_fields_model;
use crate::record::UpdateView;
use crate::store::append_model;
use crate::store::in_index;
use crate::store::insert_pos;
use crate::store::listing;
use crate::store::lookup_record;
use crate::store::StoreModel;

verus! {

/// A store with an empty index lists no updates and reports no failure.
pub proof fn lemma_empty_store_lists_nothing(m: StoreModel)
    requires
        m.index.len() == 0,
    ensures
        listing(m) == Ok::<Seq<UpdateView>, Seq<char>>(Seq::<UpdateView>::empty()),
{
}

/// An entry whose score is at least every indexed score lands at the very
/// end of the index.
proof fn lemma_insert_pos_at_end(index: Seq<(u64, Seq<char>)>, score: u64)
    requires
        forall|i: int| 0 <= i < index.len() ==> (#[trigger] index[i]).0 <= score,
    ensures
        insert_pos(index, score) == index.len(),
    decreases index.len(),
{
    if index.len() > 0 {
        assert forall|i: int| 0 <= i < index.skip(1).len() implies (#[trigger] index.skip(1)[
        i]).0 <= score by {
            assert(index.skip(1)[i] == index[i + 1]);
        }
        lemma_insert_pos_at_end(index.skip(1), score);
    }
}

/// A record bound to a key that the index never references is invisible
/// to listing: prepending it changes no listing result.
proof fn lemma_listing_fresh_record(
    records: Seq<(Seq<char>, Seq<(Seq<char>, Seq<char>)>)>,
    entry: (Seq<char>, Seq<(Seq<char>, Seq<char>)>),
    index: Seq<(u64, Seq<char>)>,
)
    requires
        !in_index(index, entry.0),
    ensures
        listing(StoreModel { records: seq![entry] + records, index }) == listing(
            StoreModel { records, index },
        ),
    decreases index.len(),
{
    if index.len() > 0 {
        let member = index[0].1;
        assert(member != entry.0);
        assert((seq![entry] + records)[0] == entry);
        assert((seq![entry] + records).skip(1) =~= records);
        assert forall|i: int| 0 <= i < index.skip(1).len() implies (#[trigger] index.skip(1)[
        i]).1 != entry.0 by {
            assert(index.skip(1)[i] == index[i + 1]);
        }
        assert(!in_index(index.skip(1), entry.0));
        lemma_listing_fresh_record(records, entry, index.skip(1));
    }
}

/// The orphan left behind when the index insert of an `append` fails
/// after the record write succeeded is absent from every later listing:
/// the inconsistency window loses the record, it never corrupts the list.
pub proof fn lemma_orphan_record_invisible(
    m: StoreModel,
    key: Seq<char>,
    fields: Seq<(Seq<char>, Seq<char>)>,
)
    requires
        !in_index(m.index, key),
    ensures
        listing(StoreModel { records: seq![(key, fields)] + m.records, index: m.index }) == listing(
            m,
        ),
{
    lemma_listing_fresh_record(m.records, (key, fields), m.index);
}

/// Appending an entry at the end of the index appends its update at the
/// end of the listing, and leaves a failing listing failing the same way.
proof fn lemma_listing_snoc(
    records: Seq<(Seq<char>, Seq<(Seq<char>, Seq<char>)>)>,
    index: Seq<(u64, Seq<char>)>,
    entry: (u64, Seq<char>),
)
    requires
        lookup_record(records, entry.1) is Some,
        parse_record_spec(lookup_record(records, entry.1)->0) is Some,
    ensures
        ({
            let u = parse_record_spec(lookup_record(records, entry.1)->0)->0;
            let l0 = listing(StoreModel { records, index });
            let l1 = listing(StoreModel { records, index: index + seq![entry] });
            &&& l0 is Ok ==> l1 == Ok::<Seq<UpdateView>, Seq<char>>(l0->Ok_0 + seq![u])
            &&& l0 is Err ==> l1 == l0
        }),
    decreases index.len(),
{
    reveal_with_fuel(listing, 3);
    let u = parse_record_spec(lookup_record(records, entry.1)->0)->0;
    if index.len() == 0 {
        assert((index + seq![entry])[0] == entry);
        assert((index + seq![entry]).skip(1) =~= Seq::<(u64, Seq<char>)>::empty());
        assert(seq![u] + Seq::<UpdateView>::empty() =~= seq![u]);
        assert(Seq::<UpdateView>::empty() + seq![u] =~= seq![u]);
    } else {
        assert((index + seq![entry])[0] == index[0]);
        assert((index + seq![entry]).skip(1) =~= index.skip(1) + seq![entry]);
        lemma_listing_snoc(records, index.skip(1), entry);
        let l0r = listing(StoreModel { records, index: index.skip(1) });
        if l0r is Ok {
            match lookup_record(records, index[0].1) {
                Some(fields0) => {
                    match parse_record_spec(fields0) {
                        Some(u0) => {
                            assert(seq![u0] + (l0r->Ok_0 + seq![u]) =~= (seq![u0] + l0r->Ok_0)
                                + seq![u]);
                        },
                        None => {
                        },
                    }
                },
                None => {
                },
            }
        }
    }
}

/// The round trip: appending an update with a fresh key at a time no
/// earlier than anything indexed extends the listing by exactly that
/// update — same author, same message, the assigned write time — at the
/// end; a listing that was failing keeps failing identically.
pub proof fn lemma_append_extends_listing(
    m: StoreModel,
    key: Seq<char>,
    user_id: u64,
    message: Seq<char>,
    time: u64,
)
    requires
        !in_index(m.index, key),
        forall|i: int| 0 <= i < m.index.len() ==> (#[trigger] m.index[i]).0 <= time,
    ensures
        ({
            let l0 = listing(m);
            let l1 = listing(append_model(m, key, user_id, message, time));
            &&& l0 is Ok ==> l1 == Ok::<Seq<UpdateView>, Seq<char>>(
                l0->Ok_0 + seq![(UpdateView { user_id, message, time })],
            )
            &&& l0 is Err ==> l1 == l0
        }),
{
    lemma_insert_pos_at_end(m.index, time);
    let m2 = append_model(m, key, user_id, message, time);
    assert(m2.index =~= m.index + seq![(time, key)]);
    let entry = (key, record_fields_model(user_id, message, time));
    let records2 = seq![entry] + m.records;
    lemma_listing_fresh_record(m.records, entry, m.index);
    lemma_record_round_trip(user_id, message, time);
    assert(records2[0] == entry);
    assert(lookup_record(records2, key) == Some(entry.1));
    lemma_listing_snoc(records2, m.index, (time, key));
}

/// Where an entry lands always lies within the index.
proof fn lemma_insert_pos_bounds(index: Seq<(u64, Seq<char>)>, score: u64)
    ensures
        0 <= insert_pos(index, score) <= index.len(),
    decreases index.len(),
{
    if index.len() > 0 && index[0].0 <= score {
        lemma_insert_pos_bounds(index.skip(1), score);
    }
}

/// A listing that succeeds has one update per index entry.
proof fn lemma_listing_len(
    records: Seq<(Seq<char>, Seq<(Seq<char>, Seq<char>)>)>,
    index: Seq<(u64, Seq<char>)>,
)
    requires
        listing(StoreModel { records, index }) is Ok,
    ensures
        listing(StoreModel { records, index })->Ok_0.len() == index.len(),
    decreases index.len(),
{
    if index.len() > 0 {
        lemma_listing_len(records, index.skip(1));
    }
}

/// Listing splits over a split index: a failure in the front part wins,
/// then one in the back part; otherwise the two listings concatenate.
proof fn lemma_listing_concat(
    records: Seq<(Seq<char>, Seq<(Seq<char>, Seq<char>)>)>,
    a: Seq<(u64, Seq<char>)>,
    b: Seq<(u64, Seq<char>)>,
)
    ensures
        ({
            let la = listing(StoreModel { records, index: a });
            let lb = listing(StoreModel { records, index: b });
            let lab = listing(StoreModel { records, index: a + b });
            &&& la is Err ==> lab == la
            &&& la is Ok && lb is Err ==> lab == lb
            &&& la is Ok && lb is Ok ==> lab == Ok::<Seq<UpdateView>, Seq<char>>(
                la->Ok_0 + lb->Ok_0,
            )
        }),
    decreases a.len(),
{
    let lb = listing(StoreModel { records, index: b });
    if a.len() == 0 {
        assert(a + b =~= b);
        if lb is Ok {
            assert(Seq::<UpdateView>::empty() + lb->Ok_0 =~= lb->Ok_0);
        }
    } else {
        assert((a + b)[0] == a[0]);
        assert((a + b).skip(1) =~= a.skip(1) + b);
        lemma_listing_concat(records, a.skip(1), b);
        let la1 = listing(StoreModel { records, index: a.skip(1) });
        match lookup_record(records, a[0].1) {
            Some(f0) => {
                match parse_record_spec(f0) {
                    Some(u0) => {
                        if la1 is Ok && lb is Ok {
                            assert(seq![u0] + (la1->Ok_0 + lb->Ok_0) =~= (seq![u0] + la1->Ok_0)
                                + lb->Ok_0);
                        }
                    },
                    None => {
                    },
                }
            },
            None => {
            },
        }
    }
}

/// The round trip with no assumption on the clock: appending an update
/// with a fresh key to a healthy store splices exactly that update into
/// the listing at its score's position — at the end when its time is
/// latest, earlier if the clock stepped back — and every update already
/// listed stays, in its old relative order.
pub proof fn lemma_append_splices_listing(
    m: StoreModel,
    key: Seq<char>,
    user_id: u64,
    message: Seq<char>,
    time: u64,
)
    requires
        !in_index(m.index, key),
        listing(m) is Ok,
    ensures
        ({
            let p = insert_pos(m.index, time);
            let l0 = listing(m)->Ok_0;
            listing(append_model(m, key, user_id, message, time)) == Ok::<
                Seq<UpdateView>,
                Seq<char>,
            >(l0.take(p) + seq![(UpdateView { user_id, message, time })] + l0.skip(p))
        }),
{
    let p = insert_pos(m.index, time);
    lemma_insert_pos_bounds(m.index, time);
    let a = m.index.take(p);
    let b = m.index.skip(p);
    assert(m.index =~= a + b);
    assert(m == StoreModel { records: m.records, index: a + b });
    lemma_listing_concat(m.records, a, b);
    let la = listing(StoreModel { records: m.records, index: a });
    let lb = listing(StoreModel { records: m.records, index: b });
    assert(la is Ok && lb is Ok);
    let l0 = listing(m)->Ok_0;
    lemma_listing_len(m.records, a);
    lemma_listing_len(m.records, b);
    assert(l0.take(p) =~= la->Ok_0);
    assert(l0.skip(p) =~= lb->Ok_0);

    let entry = (key, record_fields_model(user_id, message, time));
    let records2 = seq![entry] + m.records;
    let e = (time, key);
    let m2 = append_model(m, key, user_id, message, time);
    assert(m2.index == a + seq![e] + b);
    assert(m2.index =~= a + (seq![e] + b));

    assert forall|i: int| 0 <= i < a.len() implies (#[trigger] a[i]).1 != key by {
        assert(a[i] == m.index[i]);
    }
    assert(!in_index(a, key));
    assert forall|i: int| 0 <= i < b.len() implies (#[trigger] b[i]).1 != key by {
        assert(b[i] == m.index[i + p]);
    }
    assert(!in_index(b, key));
    lemma_listing_fresh_record(m.records, entry, a);
    lemma_listing_fresh_record(m.records, entry, b);

    lemma_record_round_trip(user_id, message, time);
    assert(records2[0] == entry);
    assert(lookup_record(records2, key) == Some(entry.1));
    let uv = UpdateView { user_id, message, time };
    assert(listing(StoreModel { records: records2, index: seq![e] + b }) == Ok::<
        Seq<UpdateView>,
        Seq<char>,
    >(seq![uv] + lb->Ok_0)) by {
        lemma_listing_concat(records2, seq![e], b);
        assert(seq![e][0] == e);
        assert(seq![e].skip(1) =~= Seq::<(u64, Seq<char>)>::empty());
        reveal_with_fuel(listing, 3);
        assert(listing(StoreModel { records: records2, index: seq![e] }) == Ok::<
            Seq<UpdateView>,
            Seq<char>,
        >(seq![uv] + Seq::<UpdateView>::empty()));
        assert(seq![uv] + Seq::<UpdateView>::empty() =~= seq![uv]);
    }
    lemma_listing_concat(records2, a, seq![e] + b);
    assert(listing(m2) == Ok::<Seq<UpdateView>, Seq<char>>(la->Ok_0 + (seq![uv] + lb->Ok_0)));
    assert(la->Ok_0 + (seq![uv] + lb->Ok_0) =~= l0.take(p) + seq![uv] + l0.skip(p));
}

/// Immutability: no operation of the store rewrites an existing
/// record. Appending binds only its own fresh key; the record looked up
/// under any other key is exactly what it was before.
pub proof fn lemma_append_preserves_records(
    m: StoreModel,
    key: Seq<char>,
    user_id: u64,
    message: Seq<char>,
    time: u64,
    other: Seq<char>,
)
    requires
        other != key,
    ensures
        lookup_record(append_model(m, key, user_id, message, time).records, other)
            == lookup_record(m.records, other),
{
    let entry = (key, record_fields_model(user_id, message, time));
    assert((seq![entry] + m.records)[0] == entry);
    assert((seq![entry] + m.records).skip(1) =~= m.records);
}

/// One requested append: the fresh key chosen for it, the author, the
/// message, and the write time the store assigns.
pub struct AppendReq {
    pub key: Seq<char>,
    pub user_id: u64,
    pub message: Seq<char>,
    pub time: u64,
}

/// The update an append request turns into.
pub open spec fn req_view(r: AppendReq) -> UpdateView {
    UpdateView { user_id: r.user_id, message: r.message, time: r.time }
}

/// The store state after performing a sequence of appends in call order.
pub open spec fn apply_appends(m: StoreModel, reqs: Seq<AppendReq>) -> StoreModel
    decreases reqs.len(),
{
    if reqs.len() == 0 {
        m
    } else {
        apply_appends(
            append_model(m, reqs[0].key, reqs[0].user_id, reqs[0].message, reqs[0].time),
            reqs.skip(1),
        )
    }
}

/// Every requested key is new: absent from the index and not repeated.
pub open spec fn keys_fresh(index: Seq<(u64, Seq<char>)>, reqs: Seq<AppendReq>) -> bool {
    (forall|i: int| 0 <= i < reqs.len() ==> !in_index(index, (#[trigger] reqs[i]).key)) && (forall|
        i: int,
        j: int,
    | 0 <= i < j < reqs.len() ==> reqs[i].key != reqs[j].key)
}

/// The requested write times never decrease, and none precedes a score
/// already in the index.
pub open spec fn times_ascending(index: Seq<(u64, Seq<char>)>, reqs: Seq<AppendReq>) -> bool {
    (forall|i: int, j: int|
        0 <= i < index.len() && 0 <= j < reqs.len() ==> (#[trigger] index[i]).0 <= (
        #[trigger] reqs[j]).time) && (forall|i: int, j: int|
        0 <= i <= j < reqs.len() ==> (#[trigger] reqs[i]).time <= (#[trigger] reqs[j]).time)
}

/// Ordering: appends whose write times ascend extend the listing in
/// exactly their call order, each update after everything already listed.
pub proof fn lemma_chronological_appends_keep_order(m: StoreModel, reqs: Seq<AppendReq>)
    requires
        keys_fresh(m.index, reqs),
        times_ascending(m.index, reqs),
        listing(m) is Ok,
    ensures
        listing(apply_appends(m, reqs)) == Ok::<Seq<UpdateView>, Seq<char>>(
            listing(m)->Ok_0 + reqs.map(|i: int, r: AppendReq| req_view(r)),
        ),
    decreases reqs.len(),
{
    let f = |i: int, r: AppendReq| req_view(r);
    if reqs.len() == 0 {
        assert(listing(m)->Ok_0 + reqs.map(f) =~= listing(m)->Ok_0);
    } else {
        let r0 = reqs[0];
        lemma_append_extends_listing(m, r0.key, r0.user_id, r0.message, r0.time);
        lemma_insert_pos_at_end(m.index, r0.time);
        let m1 = append_model(m, r0.key, r0.user_id, r0.message, r0.time);
        assert(m1.index =~= m.index + seq![(r0.time, r0.key)]);
        let rest = reqs.skip(1);
        assert forall|i: int| 0 <= i < rest.len() implies !in_index(
            m1.index,
            (#[trigger] rest[i]).key,
        ) by {
            assert(rest[i] == reqs[i + 1]);
            assert(!in_index(m.index, reqs[i + 1].key));
            assert(reqs[0].key != reqs[i + 1].key);
            assert forall|k: int| 0 <= k < m1.index.len() implies (#[trigger] m1.index[k]).1
                != rest[i].key by {
                if k < m.index.len() {
                    assert(m1.index[k] == m.index[k]);
                } else {
                    assert(m1.index[k] == (r0.time, r0.key));
                }
            }
        }
        assert forall|i: int, j: int| 0 <= i < j < rest.len() implies rest[i].key != rest[j].key by {
            assert(rest[i] == reqs[i + 1]);
            assert(rest[j] == reqs[j + 1]);
        }
        assert forall|i: int, j: int|
            0 <= i < m1.index.len() && 0 <= j < rest.len() implies (#[trigger] m1.index[i]).0 <= (
        #[trigger] rest[j]).time by {
            assert(rest[j] == reqs[j + 1]);
            if i < m.index.len() {
                assert(m1.index[i] == m.index[i]);
            } else {
                assert(m1.index[i] == (r0.time, r0.key));
                assert(reqs[0].time <= reqs[j + 1].time);
            }
        }
        assert forall|i: int, j: int| 0 <= i <= j < rest.len() implies (#[trigger] rest[i]).time
            <= (#[trigger] rest[j]).time by {
            assert(rest[i] == reqs[i + 1]);
            assert(rest[j] == reqs[j + 1]);
        }
        lemma_chronological_appends_keep_order(m1, rest);
        assert(listing(m1)->Ok_0 =~= listing(m)->Ok_0 + seq![req_view(r0)]);
        assert(rest.map(f) =~= reqs.map(f).skip(1));
        assert(reqs.map(f)[0] == req_view(r0));
        assert((listing(m)->Ok_0 + seq![req_view(r0)]) + rest.map(f) =~= listing(m)->Ok_0
            + reqs.map(f));
    }
}

} // verus!
