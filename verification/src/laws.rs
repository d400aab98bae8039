//! The engine's cross-cutting guarantees, stated and proved over the same
//! models the operation contracts use: what a store leaves findable, why
//! engine-generated ids never collide, and why deleting an absent id is a
//! no-op.

use vstd::prelude::*;

use crate::byte_reader::frame;
use crate::db::{blob_dec, first_idx, has_id, pre_table, stored_row, stored_table};
use crate::entity::Entity;
use crate::entity_meta::{EntityMeta, MetaView};
use crate::id::IdType;
use crate::storable::Storable;

verus! {

/// Every stored id stays at or below the table's last assigned id: the
/// invariant engine-generated tables maintain, which makes freshly generated
/// ids unique.
pub open spec fn ids_bounded<T: Entity>(mv: MetaView<T::Id, <T as DeepView>::V>) -> bool {
    forall|k: int|
        0 <= k < mv.entities.len() ==> (T::vid(#[trigger] mv.entities[k]) == mv.last_id || T::vid(
            mv.entities[k],
        ).below(mv.last_id))
}

/// No two stored rows share an id.
pub open spec fn ids_unique<T: Entity>(mv: MetaView<T::Id, <T as DeepView>::V>) -> bool {
    forall|j: int, k: int|
        0 <= j < k < mv.entities.len() ==> T::vid(#[trigger] mv.entities[j]) != T::vid(
            #[trigger] mv.entities[k],
        )
}

/// A fresh table satisfies the generated-id invariant.
pub proof fn lemma_empty_table_invariant<T: Entity>()
    ensures
        ids_bounded::<T>(crate::db::empty_meta::<T>()),
        ids_unique::<T>(crate::db::empty_meta::<T>()),
{
}

/// Generated-id uniqueness: on a table satisfying the generated-id
/// invariant whose last id can still advance, the row a store lays down
/// carries an id no stored row carries, and the rewritten table satisfies
/// the invariant again. Storing the same logical entity twice therefore
/// yields two distinct ids.
pub proof fn lemma_generated_id_unique<T: Entity>(
    p: MetaView<T::Id, <T as DeepView>::V>,
    d: <T as DeepView>::V,
)
    requires
        T::spec_generate_id(),
        ids_bounded::<T>(p),
        ids_unique::<T>(p),
        p.last_id.can_advance(),
    ensures
        ({
            let sv = stored_row::<T>(p, d);
            let t = stored_table::<T>(p, sv);
            &&& forall|k: int|
                0 <= k < p.entities.len() ==> T::vid(#[trigger] p.entities[k]) != T::vid(sv)
            &&& ids_bounded::<T>(t)
            &&& ids_unique::<T>(t)
        }),
{
    let sv = stored_row::<T>(p, d);
    let t = stored_table::<T>(p, sv);
    T::lemma_with_vid(d, p.last_id.next());
    assert(T::vid(sv) == p.last_id.next());
    assert forall|k: int| 0 <= k < p.entities.len() implies T::vid(#[trigger] p.entities[k])
        != T::vid(sv) by {
        let idk = T::vid(p.entities[k]);
        <T::Id as IdType>::lemma_order(p.last_id, p.last_id.next(), p.last_id.next());
        if idk == p.last_id {
            <T::Id as IdType>::lemma_order(idk, p.last_id.next(), p.last_id.next());
        } else {
            <T::Id as IdType>::lemma_order(idk, p.last_id, p.last_id.next());
            <T::Id as IdType>::lemma_order(idk, p.last_id.next(), p.last_id.next());
        }
    }
    assert forall|k: int|
        0 <= k < t.entities.len() implies (T::vid(#[trigger] t.entities[k]) == t.last_id || T::vid(
        t.entities[k],
    ).below(t.last_id)) by {
        if k < p.entities.len() {
            let idk = T::vid(p.entities[k]);
            <T::Id as IdType>::lemma_order(p.last_id, p.last_id.next(), p.last_id.next());
            if idk == p.last_id {
            } else {
                <T::Id as IdType>::lemma_order(idk, p.last_id, p.last_id.next());
            }
            assert(t.entities[k] == p.entities[k]);
        } else {
            assert(t.entities[k] == sv);
        }
    }
    assert forall|j: int, k: int| 0 <= j < k < t.entities.len() implies T::vid(
        #[trigger] t.entities[j],
    ) != T::vid(#[trigger] t.entities[k]) by {
        if k < p.entities.len() {
            assert(t.entities[j] == p.entities[j] && t.entities[k] == p.entities[k]);
        } else {
            assert(t.entities[k] == sv && t.entities[j] == p.entities[j]);
        }
    }
}

/// Store→find: the whole-table blob a successful store writes decodes back
/// to the rewritten table, and the first row carrying the stored id is
/// exactly the stored row — provided no prior row carried it, which a
/// manual-id store checks and a generated-id store guarantees.
pub proof fn lemma_store_find<T: Entity>(
    m0: Map<Seq<u8>, Seq<u8>>,
    p: MetaView<T::Id, <T as DeepView>::V>,
    sv: <T as DeepView>::V,
)
    requires
        pre_table::<T>(m0) == Some(p),
        forall|k: int| 0 <= k < p.entities.len() ==> T::vid(#[trigger] p.entities[k]) != T::vid(sv),
        <EntityMeta<T> as Storable>::enc(stored_table::<T>(p, sv)).len() <= u32::MAX,
    ensures
        ({
            let t = stored_table::<T>(p, sv);
            let m1 = m0.insert(T::spec_hash(), frame(<EntityMeta<T> as Storable>::enc(t)));
            &&& m1.contains_key(T::spec_hash())
            &&& blob_dec::<T>(m1[T::spec_hash()]) == Some(t)
            &&& has_id::<T>(t.entities, T::vid(sv))
            &&& first_idx::<T>(t.entities, T::vid(sv)) == p.entities.len()
            &&& t.entities[first_idx::<T>(t.entities, T::vid(sv))] == sv
        }),
{
    let t = stored_table::<T>(p, sv);
    let enc = <EntityMeta<T> as Storable>::enc(t);
    let m1 = m0.insert(T::spec_hash(), frame(enc));
    crate::byte_reader::lemma_take_block_frame(enc, Seq::<u8>::empty());
    assert(frame(enc) =~= frame(enc) + Seq::<u8>::empty());
    <EntityMeta<T> as Storable>::lemma_round_trip(t);
    assert(blob_dec::<T>(m1[T::spec_hash()]) == Some(t));
    let n = p.entities.len() as int;
    assert(t.entities[n] == sv);
    assert(has_id::<T>(t.entities, T::vid(sv)));
    crate::db::lemma_first_idx::<T>(t.entities, T::vid(sv));
    let f = first_idx::<T>(t.entities, T::vid(sv));
    if f < n {
        assert(t.entities[f] == p.entities[f]);
    }
}

/// Fingerprint determinism: a shape's fingerprint is a pure function of its
/// name, its field names in declared order, and its fields' own
/// fingerprints — the same declared shape yields the same fingerprint, run
/// to run. That distinct shapes yield distinct fingerprints rests on the
/// digest's collision resistance, which no proof here claims.
pub proof fn lemma_fingerprint_deterministic(
    n1: Seq<char>,
    f1: Seq<Seq<char>>,
    t1: Seq<Seq<u8>>,
    n2: Seq<char>,
    f2: Seq<Seq<char>>,
    t2: Seq<Seq<u8>>,
)
    requires
        n1 == n2,
        f1 == f2,
        t1 == t2,
    ensures
        crate::sha::sha1(crate::type_hash::fingerprint_input(n1, f1, t1)) == crate::sha::sha1(
            crate::type_hash::fingerprint_input(n2, f2, t2),
        ),
{
}

/// Update scope: rewriting the first row carrying an entity's id replaces
/// exactly that row — every other row is untouched, and the replacement
/// carries the same id.
pub proof fn lemma_update_scope<T: Entity>(rows: Seq<<T as DeepView>::V>, e: <T as DeepView>::V)
    requires
        has_id::<T>(rows, T::vid(e)),
    ensures
        ({
            let i = first_idx::<T>(rows, T::vid(e));
            let after = rows.update(i, e);
            &&& 0 <= i < rows.len()
            &&& T::vid(rows[i]) == T::vid(e)
            &&& after.len() == rows.len()
            &&& after[i] == e
            &&& forall|k: int| 0 <= k < rows.len() && k != i ==> after[k] == rows[k]
        }),
{
    crate::db::lemma_first_idx::<T>(rows, T::vid(e));
}

/// Delete idempotence, first half: removing an id that no row carries
/// removes nothing.
pub proof fn lemma_delete_absent<T: Entity>(rows: Seq<<T as DeepView>::V>, id: T::Id)
    requires
        !has_id::<T>(rows, id),
    ensures
        rows.filter(|m: <T as DeepView>::V| T::vid(m) != id) == rows,
    decreases rows.len(),
{
    reveal(Seq::filter);
    let pred = |m: <T as DeepView>::V| T::vid(m) != id;
    if rows.len() == 0 {
        assert(rows.filter(pred) =~= rows);
    } else {
        assert(!has_id::<T>(rows.drop_last(), id)) by {
            if has_id::<T>(rows.drop_last(), id) {
                let w = choose|i: int|
                    0 <= i < rows.drop_last().len() && T::vid(
                        #[trigger] rows.drop_last()[i],
                    ) == id;
                assert(rows[w] == rows.drop_last()[w]);
                assert(T::vid(rows[w]) == id);
            }
        }
        lemma_delete_absent::<T>(rows.drop_last(), id);
        assert(T::vid(rows.last()) != id) by {
            assert(rows[rows.len() - 1] == rows.last());
        }
        assert(rows.filter(pred) == rows.drop_last().filter(pred).push(rows.last()));
        assert(rows.drop_last().push(rows.last()) =~= rows);
    }
}

/// Delete idempotence, second half: removing an id twice removes exactly
/// what removing it once does.
pub proof fn lemma_delete_idempotent<T: Entity>(rows: Seq<<T as DeepView>::V>, id: T::Id)
    ensures
        ({
            let once = rows.filter(|m: <T as DeepView>::V| T::vid(m) != id);
            once.filter(|m: <T as DeepView>::V| T::vid(m) != id) == once
        }),
{
    let pred = |m: <T as DeepView>::V| T::vid(m) != id;
    let once = rows.filter(pred);
    assert(!has_id::<T>(once, id)) by {
        if has_id::<T>(once, id) {
            let w = choose|i: int| 0 <= i < once.len() && T::vid(#[trigger] once[i]) == id;
            rows.lemma_filter_pred(pred, w);
        }
    }
    lemma_delete_absent::<T>(once, id);
}

} // verus!
