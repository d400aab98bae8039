//! The lazy query layer: a read-only query yields cloned rows of one
//! snapshot in stored order; a mutable query pipeline filters and maps the
//! same kind of snapshot and ends in one whole-table rewrite.

use vstd::prelude::*;

use crate::db::{Database, DbResult};
use crate::entity::Entity;
use crate::entity_meta::{EntityMeta, MetaView};
use crate::gen_query::{eval, ExprEntity, GenExpr, ResolveAttrExpr, Value, ValueView};
use crate::storable::Storable;

verus! {

/// Splitting a sequence at its head splits its filtered image.
proof fn lemma_filter_head<A>(s: Seq<A>, pred: spec_fn(A) -> bool)
    requires
        s.len() > 0,
    ensures
        s.filter(pred) == (if pred(s[0]) {
            seq![s[0]]
        } else {
            Seq::<A>::empty()
        }) + s.skip(1).filter(pred),
    decreases s.len(),
{
    reveal(Seq::filter);
    let head: Seq<A> = if pred(s[0]) {
        seq![s[0]]
    } else {
        Seq::<A>::empty()
    };
    if s.len() == 1 {
        assert(s.drop_last() =~= Seq::<A>::empty());
        assert(s.skip(1) =~= Seq::<A>::empty());
        assert(s.last() == s[0]);
        if pred(s[0]) {
            assert(s.filter(pred) =~= head + s.skip(1).filter(pred));
        } else {
            assert(s.filter(pred) =~= head + s.skip(1).filter(pred));
        }
    } else {
        lemma_filter_head(s.drop_last(), pred);
        assert(s.drop_last()[0] == s[0]);
        assert(s.drop_last().skip(1) =~= s.skip(1).drop_last());
        assert(s.skip(1).last() == s.last());
        assert(s.skip(1).len() > 0);
        if pred(s.last()) {
            assert(s.filter(pred) == s.drop_last().filter(pred).push(s.last()));
            assert(s.skip(1).filter(pred) == s.skip(1).drop_last().filter(pred).push(s.last()));
            assert(s.filter(pred) =~= head + s.skip(1).filter(pred));
        } else {
            assert(s.filter(pred) == s.drop_last().filter(pred));
            assert(s.skip(1).filter(pred) == s.skip(1).drop_last().filter(pred));
            assert(s.filter(pred) =~= head + s.skip(1).filter(pred));
        }
    }
}

/// Whether a filter keeps a row: its expression evaluates to true against
/// the row's id.
pub open spec fn keeps<T: crate::gen_query::EntityFields>(
    e: GenExpr,
    m: Map<Seq<u8>, Seq<u8>>,
    v: <T as DeepView>::V,
) -> bool {
    eval::<T>(e, m, T::vid(v)) == Some(ValueView::Bool(true))
}

/// Whether `b` is the image of `a` under the transform: some entity with
/// model `a` went in, and one with model `b` came out.
pub open spec fn mapped_at<T: Entity, F: Fn(T) -> T>(
    f: F,
    a: <T as DeepView>::V,
    b: <T as DeepView>::V,
) -> bool {
    exists|x: T, y: T|
        {
            &&& #[trigger] f.ensures((x,), y)
            &&& x.deep_view() == a
            &&& y.deep_view() == b
        }
}

/// A read-only query: one snapshot of a type's table, loaded when the query
/// is built, yielding cloned rows in stored order.
pub struct DbQuery<T: Entity> {
    data: EntityMeta<T>,
    index: usize,
}

impl<T: Entity> DbQuery<T> {
    /// The snapshot's rows.
    pub closed spec fn rows(&self) -> Seq<<T as DeepView>::V> {
        self.data.entities.deep_view()
    }

    /// How many rows were already yielded.
    pub closed spec fn at(&self) -> int {
        self.index as int
    }

    /// A query over the current table of `T`.
    pub(crate) fn new(db: &Database) -> (r: DbResult<DbQuery<T>>)
        ensures
            match r {
                Ok(q) => db@.contains_key(T::spec_hash()) && (crate::db::blob_dec::<T>(
                    db@[T::spec_hash()],
                ) matches Some(mv) && q.rows() == mv.entities && q.at() == 0),
                Err(e) => if db@.contains_key(T::spec_hash()) {
                    crate::db::blob_dec::<T>(db@[T::spec_hash()]) is None && e
                        == crate::db::blob_dec_err::<T>(db@[T::spec_hash()])
                } else {
                    e is IoError
                },
            },
    {
        let data = match db.raw_read_all::<T>() {
            Ok(m) => m,
            Err(e) => {
                return Err(e);
            },
        };
        Ok(DbQuery { data, index: 0 })
    }

    /// The next row of the snapshot, cloned, or `None` past the end.
    pub fn next(&mut self) -> (r: Option<T>)
        ensures
            final(self).rows() == old(self).rows(),
            match r {
                Some(row) => old(self).at() < old(self).rows().len() && row.deep_view() == old(
                    self,
                ).rows()[old(self).at()] && final(self).at() == old(self).at() + 1,
                None => old(self).at() >= old(self).rows().len() && final(self).at() == old(
                    self,
                ).at(),
            },
    {
        if self.index >= self.data.entities.len() {
            return None;
        }
        let row = self.data.entities[self.index].duplicate();
        proof {
            assert(self.data.entities.deep_view()[self.index as int] == self.data.entities@[
                self.index as int
            ].deep_view());
        }
        self.index = self.index + 1;
        Some(row)
    }
}

/// A step of a mutable query pipeline: it knows what rows it will still
/// yield against a database state, and which last-assigned id it threads
/// through to the terminal rewrite.
pub trait DbIterator: Sized {
    /// The entity type flowing through the pipeline.
    type Item: ResolveAttrExpr;

    /// The rows this pipeline will yield against database state `m`.
    spec fn results(&self, m: Map<Seq<u8>, Seq<u8>>) -> Seq<<Self::Item as DeepView>::V>;

    /// The last-assigned id carried to the terminal rewrite.
    spec fn last(&self) -> <Self::Item as Entity>::Id;

    /// The last-assigned id carried to the terminal rewrite.
    fn get_last_id(&self) -> (r: <Self::Item as Entity>::Id)
        ensures
            r == self.last(),
    ;

    /// The next row, or `None` once the pipeline is drained.
    fn next(&mut self, db: &Database) -> (r: Option<Self::Item>)
        ensures
            final(self).last() == old(self).last(),
            match r {
                Some(row) => old(self).results(db@).len() > 0 && row.deep_view() == old(
                    self,
                ).results(db@)[0] && final(self).results(db@) == old(self).results(db@).skip(1),
                None => old(self).results(db@).len() == 0 && final(self).results(db@) == old(
                    self,
                ).results(db@),
            },
    ;

    /// Keep only the rows the given expression evaluates to true on,
    /// re-fetching each candidate's fields by its id.
    fn filter_expr(self, query: GenExpr) -> (r: DbFilter<Self>)
        ensures
            r.inner_of() == self,
            r.expr_of() == query,
    {
        DbFilter { inner: self, query }
    }

    /// Keep only the rows the predicate's expression evaluates to true on.
    /// The predicate is built once, from a capability object with one typed
    /// accessor per field.
    fn filter<P: Fn(&<Self::Item as Entity>::ExprBase) -> GenExpr>(self, predicate: P) -> (r:
        DbFilter<Self>)
        requires
            forall|b: &<Self::Item as Entity>::ExprBase| #[trigger] predicate.requires((b,)),
        ensures
            r.inner_of() == self,
            exists|b: &<Self::Item as Entity>::ExprBase|
                #[trigger] predicate.ensures((b,), r.expr_of()),
    {
        let base = <<Self::Item as Entity>::ExprBase as ExprEntity>::new();
        let query = predicate(&base);
        DbFilter { inner: self, query }
    }

    /// Transform every remaining row, draining the pipeline now: each
    /// yielded row is the transform of the row the inner pipeline yielded.
    fn map<F: Fn(Self::Item) -> Self::Item>(self, db: &Database, f: F) -> (r: DbMap<Self::Item>)
        requires
            forall|x: Self::Item| #[trigger] f.requires((x,)),
        ensures
            r.carried_last() == self.last(),
            r.at() == 0,
            r.items_of().len() == self.results(db@).len(),
            forall|i: int|
                #![trigger r.items_of()[i]]
                0 <= i < self.results(db@).len() ==> mapped_at::<Self::Item, F>(
                    f,
                    self.results(db@)[i],
                    r.items_of()[i],
                ),
    {
        let ghost orig = self.results(db@);
        let last_id = self.get_last_id();
        let mut it = self;
        let mut items: Vec<Self::Item> = Vec::new();
        proof {
            assert(items.deep_view() =~= Seq::<<Self::Item as DeepView>::V>::empty());
        }
        loop
            invariant
                forall|x: Self::Item| #[trigger] f.requires((x,)),
                it.results(db@) == orig.skip(items.deep_view().len() as int),
                items.deep_view().len() <= orig.len(),
                forall|i: int|
                    #![trigger items.deep_view()[i]]
                    0 <= i < items.deep_view().len() ==> mapped_at::<Self::Item, F>(
                        f,
                        orig[i],
                        items.deep_view()[i],
                    ),
            ensures
                items.deep_view().len() == orig.len(),
                forall|i: int|
                    #![trigger items.deep_view()[i]]
                    0 <= i < items.deep_view().len() ==> mapped_at::<Self::Item, F>(
                        f,
                        orig[i],
                        items.deep_view()[i],
                    ),
            decreases it.results(db@).len(),
        {
            let ghost k = items.deep_view().len() as int;
            match it.next(db) {
                Some(row) => {
                    let ghost rowg = row;
                    let ghost items0 = items.deep_view();
                    let y = f(row);
                    let ghost yg = y;
                    items.push(y);
                    proof {
                        assert(items.deep_view() =~= items0.push(yg.deep_view()));
                        assert(orig.skip(k)[0] == orig[k]);
                        assert(rowg.deep_view() == orig[k]);
                        assert(orig.skip(k).skip(1) =~= orig.skip(k + 1));
                        assert(f.ensures((rowg,), yg));
                        assert(items.deep_view()[k] == yg.deep_view());
                        assert forall|i: int| #![trigger items.deep_view()[i]]
                            0 <= i < items.deep_view().len() implies mapped_at::<Self::Item, F>(
                            f,
                            orig[i],
                            items.deep_view()[i],
                        ) by {
                            if i < k {
                                assert(items.deep_view()[i] == items0[i]);
                                assert(mapped_at::<Self::Item, F>(f, orig[i], items0[i]));
                            } else {
                                assert(f.ensures((rowg,), yg) && rowg.deep_view() == orig[i]
                                    && items.deep_view()[i] == yg.deep_view());
                                assert(mapped_at::<Self::Item, F>(f, orig[i], yg.deep_view()));
                            }
                        }
                    }
                },
                None => {
                    proof {
                        assert(orig.skip(k).len() == 0);
                        assert(items.deep_view().len() == orig.len());
                    }
                    break ;
                },
            }
        }
        DbMap { items, index: 0, last_id }
    }

    /// Drain the pipeline into a list, in yielded order.
    fn collect_vec(self, db: &Database) -> (r: Vec<Self::Item>)
        ensures
            r.deep_view() == self.results(db@),
    {
        let ghost orig = self.results(db@);
        let mut it = self;
        let mut res: Vec<Self::Item> = Vec::new();
        proof {
            assert(res.deep_view() =~= Seq::<<Self::Item as DeepView>::V>::empty());
            assert(res.deep_view() + it.results(db@) =~= orig);
        }
        loop
            invariant
                res.deep_view() + it.results(db@) == orig,
            ensures
                res.deep_view() == orig,
            decreases it.results(db@).len(),
        {
            let ghost res0 = res.deep_view();
            let ghost rem = it.results(db@);
            match it.next(db) {
                Some(row) => {
                    res.push(row);
                    proof {
                        assert(res.deep_view() =~= res0.push(rem[0]));
                        assert(res0.push(rem[0]) + rem.skip(1) =~= res0 + rem);
                    }
                },
                None => {
                    proof {
                        assert(rem =~= Seq::<<Self::Item as DeepView>::V>::empty());
                        assert(res0 + rem =~= res0);
                    }
                    break ;
                },
            }
        }
        res
    }

    /// The terminal rewrite: drain the pipeline to a list, pair it with the
    /// table's original last id, and rewrite the whole table — filtered-out
    /// rows are dropped for good, mapped rows persist in mapped form.
    fn save_to_db(self, db: &mut Database) -> (r: DbResult<()>)
        ensures
            final(db).spec_dir() == old(db).spec_dir(),
            match r {
                Ok(()) => {
                    let mv = MetaView {
                        last_id: self.last(),
                        entities: self.results(old(db)@),
                    };
                    <EntityMeta<Self::Item> as Storable>::enc(mv).len() <= u32::MAX && final(db)@
                        == old(db)@.insert(
                        <Self::Item as Storable>::spec_hash(),
                        frame_of::<Self::Item>(mv),
                    )
                },
                Err(e) => {
                    let mv = MetaView {
                        last_id: self.last(),
                        entities: self.results(old(db)@),
                    };
                    final(db)@ == old(db)@ && e is IoError && <EntityMeta<
                        Self::Item,
                    > as Storable>::enc(mv).len() > u32::MAX
                },
            },
    {
        let last_id = self.get_last_id();
        let entities = self.collect_vec(db);
        let meta: EntityMeta<Self::Item> = EntityMeta { last_id, entities };
        db.write_table(meta)
    }
}

/// The framed whole-table blob of a table model.
pub open spec fn frame_of<T: Entity>(mv: MetaView<T::Id, <T as DeepView>::V>) -> Seq<u8> {
    crate::byte_reader::frame(<EntityMeta<T> as Storable>::enc(mv))
}

/// A mutable query over one snapshot of a type's table.
pub struct DbQueryMut<T: Entity> {
    data: EntityMeta<T>,
    index: usize,
}

impl<T: Entity> DbQueryMut<T> {
    /// A mutable query over the current table of `T`.
    pub(crate) fn new(db: &Database) -> (r: DbResult<DbQueryMut<T>>)
        ensures
            match r {
                Ok(q) => db@.contains_key(T::spec_hash()) && (crate::db::blob_dec::<T>(
                    db@[T::spec_hash()],
                ) matches Some(mv) && q.snapshot() == mv.entities && q.at() == 0
                    && q.snapshot_last() == mv.last_id),
                Err(e) => if db@.contains_key(T::spec_hash()) {
                    crate::db::blob_dec::<T>(db@[T::spec_hash()]) is None && e
                        == crate::db::blob_dec_err::<T>(db@[T::spec_hash()])
                } else {
                    e is IoError
                },
            },
    {
        let data = match db.raw_read_all::<T>() {
            Ok(m) => m,
            Err(e) => {
                return Err(e);
            },
        };
        Ok(DbQueryMut { data, index: 0 })
    }

    /// The snapshot's rows.
    pub closed spec fn snapshot(&self) -> Seq<<T as DeepView>::V> {
        self.data.entities.deep_view()
    }

    /// How many rows were already yielded.
    pub closed spec fn at(&self) -> int {
        self.index as int
    }

    /// The snapshot's last-assigned id.
    pub closed spec fn snapshot_last(&self) -> T::Id {
        self.data.last_id
    }
}

impl<T: ResolveAttrExpr> DbIterator for DbQueryMut<T> {
    type Item = T;

    open spec fn results(&self, m: Map<Seq<u8>, Seq<u8>>) -> Seq<<T as DeepView>::V> {
        if self.at() <= self.snapshot().len() {
            self.snapshot().skip(self.at())
        } else {
            Seq::<<T as DeepView>::V>::empty()
        }
    }

    open spec fn last(&self) -> T::Id {
        self.snapshot_last()
    }

    fn get_last_id(&self) -> (r: T::Id) {
        self.data.last_id
    }

    fn next(&mut self, db: &Database) -> (r: Option<T>) {
        if self.index >= self.data.entities.len() {
            return None;
        }
        let row = self.data.entities[self.index].duplicate();
        proof {
            assert(self.data.entities.deep_view()[self.index as int] == self.data.entities@[
                self.index as int
            ].deep_view());
            assert(old(self).results(db@)[0] == self.snapshot().skip(self.index as int)[0]);
        }
        self.index = self.index + 1;
        proof {
            assert(self.snapshot().skip(self.index - 1).skip(1) =~= self.snapshot().skip(
                self.index as int,
            ));
        }
        Some(row)
    }
}

/// A filtering step: yields only the inner pipeline's rows on which the
/// expression evaluates to true, each candidate's fields re-fetched from the
/// database by its id.
pub struct DbFilter<I> {
    inner: I,
    query: GenExpr,
}

impl<I> DbFilter<I> {
    /// The pipeline this filter draws from.
    pub closed spec fn inner_of(&self) -> I {
        self.inner
    }

    /// The filtering expression.
    pub closed spec fn expr_of(&self) -> GenExpr {
        self.query
    }
}

impl<I: DbIterator> DbIterator for DbFilter<I> {
    type Item = I::Item;

    open spec fn results(&self, m: Map<Seq<u8>, Seq<u8>>) -> Seq<<I::Item as DeepView>::V> {
        self.inner_of().results(m).filter(
            |v: <I::Item as DeepView>::V| keeps::<I::Item>(self.expr_of(), m, v),
        )
    }

    open spec fn last(&self) -> <I::Item as Entity>::Id {
        self.inner_of().last()
    }

    fn get_last_id(&self) -> (r: <I::Item as Entity>::Id) {
        self.inner.get_last_id()
    }

    fn next(&mut self, db: &Database) -> (r: Option<I::Item>)
        decreases self.inner_of().results(db@).len(),
    {
        let ghost pre = self.inner.results(db@);
        let ghost pred = |v: <I::Item as DeepView>::V| keeps::<I::Item>(self.expr_of(), db@, v);
        match self.inner.next(db) {
            None => {
                proof {
                    assert(pre =~= Seq::<<I::Item as DeepView>::V>::empty());
                    reveal(Seq::filter);
                }
                None
            },
            Some(row) => {
                proof {
                    lemma_filter_head(pre, pred);
                }
                let keep = match self.query.exec::<I::Item>(db, row.get_id()) {
                    Some(v) => match v {
                        Value::Bool(b) => b,
                        _ => false,
                    },
                    _ => false,
                };
                proof {
                    assert(keep == pred(row.deep_view()));
                    assert(pred(pre[0]) == keep);
                }
                if keep {
                    proof {
                        assert(pre.filter(pred) == seq![pre[0]] + pre.skip(1).filter(pred));
                        assert(pre.filter(pred)[0] == pre[0]);
                        assert(pre.filter(pred).skip(1) =~= pre.skip(1).filter(pred));
                    }
                    Some(row)
                } else {
                    proof {
                        assert(pre.filter(pred) =~= pre.skip(1).filter(pred));
                    }
                    self.next(db)
                }
            },
        }
    }
}

/// A mapping step: the rows of the inner pipeline, already transformed.
pub struct DbMap<T: Entity> {
    items: Vec<T>,
    index: usize,
    last_id: T::Id,
}

impl<T: Entity> DbMap<T> {
    /// The transformed rows.
    pub closed spec fn items_of(&self) -> Seq<<T as DeepView>::V> {
        self.items.deep_view()
    }

    /// How many rows were already yielded.
    pub closed spec fn at(&self) -> int {
        self.index as int
    }

    /// The last-assigned id carried through.
    pub closed spec fn carried_last(&self) -> T::Id {
        self.last_id
    }
}

impl<T: ResolveAttrExpr> DbIterator for DbMap<T> {
    type Item = T;

    open spec fn results(&self, m: Map<Seq<u8>, Seq<u8>>) -> Seq<<T as DeepView>::V> {
        if self.at() <= self.items_of().len() {
            self.items_of().skip(self.at())
        } else {
            Seq::<<T as DeepView>::V>::empty()
        }
    }

    open spec fn last(&self) -> T::Id {
        self.carried_last()
    }

    fn get_last_id(&self) -> (r: T::Id) {
        self.last_id
    }

    fn next(&mut self, db: &Database) -> (r: Option<T>) {
        if self.index >= self.items.len() {
            return None;
        }
        let row = self.items[self.index].duplicate();
        proof {
            assert(self.items.deep_view()[self.index as int] == self.items@[
                self.index as int
            ].deep_view());
            assert(old(self).results(db@)[0] == self.items.deep_view().skip(self.index as int)[0]);
        }
        self.index = self.index + 1;
        proof {
            assert(self.items.deep_view().skip(self.index - 1).skip(1)
                =~= self.items.deep_view().skip(self.index as int));
        }
        Some(row)
    }
}

} // verus!
