//! The iterators over the records that indexes find.
//!
//! An iterator is described here by what it reads; the caller opens it on its store.
use crate::executor::{
    FtIndex, InnerQueryExecutor, IteratorEntry, KnnIteratorResult, QueryExecutor, TermsDocs,
};
use crate::keys::{
    are_keys, are_keys_of_all, as_columns, keys_of, law_array_is_looked_up,
    law_each_value_is_looked_up,
};
use crate::plan::{
    Error, Index, IndexOperator, IndexOption, IndexReference, IteratorRange, IteratorRef, Options,
    ValueType,
};
use crate::shared::share;
use crate::value::{Array, RangeValue, Value};
use crate::variants::are_ranges;
use std::collections::VecDeque;
use std::sync::Arc;
use vstd::prelude::*;
use vstd::std_specs::vecdeque::VecDequeAdditionalSpecFns;

verus! {

broadcast use vstd::std_specs::hash::group_hash_axioms;

/// An index of a database, read for an iterator.
#[derive(Debug, PartialEq, Eq)]
pub struct Scan {
    pub irf: IteratorRef,
    pub ns: Arc<String>,
    pub db: Arc<String>,
    pub ix: IndexReference,
}

/// An index read for an iterator, where the caller resolves the database.
#[derive(Debug, PartialEq, Eq)]
pub struct Source {
    pub irf: IteratorRef,
    pub opt: Options,
    pub ix: IndexReference,
}

pub enum ThingIterator {
    /// The records with a key.
    IndexEqual(Scan, Array),
    /// The records in a range of keys, or all of them.
    IndexRange(Scan, Option<IteratorRange>),
    /// All records, backwards.
    IndexRangeReverse(Scan),
    /// The records with one of several keys.
    IndexUnion(Scan, Vec<Array>),
    /// The records that link to those of other iterators.
    IndexJoin(Source, VecDeque<ThingIterator>),
    UniqueEqual(Scan, Array),
    UniqueRange(Scan, Option<IteratorRange>),
    UniqueRangeReverse(Scan),
    UniqueUnion(Source, Vec<Array>),
    UniqueJoin(Source, VecDeque<ThingIterator>),
    /// The records that hold the terms of a query.
    Matches(IteratorRef, FtIndex, Arc<TermsDocs>),
    /// The records that a nearest-neighbour search has found.
    Knn(IteratorRef, Arc<VecDeque<KnnIteratorResult>>),
    /// One iterator after the other.
    Multiples(VecDeque<ThingIterator>),
}

/// A `ThingIterator` with sequences in place of vectors.
pub enum IteratorView {
    IndexEqual(Scan, Seq<Value>),
    IndexRange(Scan, Option<IteratorRange>),
    IndexRangeReverse(Scan),
    IndexUnion(Scan, Seq<Seq<Value>>),
    IndexJoin(Source, Seq<IteratorView>),
    UniqueEqual(Scan, Seq<Value>),
    UniqueRange(Scan, Option<IteratorRange>),
    UniqueRangeReverse(Scan),
    UniqueUnion(Source, Seq<Seq<Value>>),
    UniqueJoin(Source, Seq<IteratorView>),
    Matches(IteratorRef, FtIndex, Arc<TermsDocs>),
    Knn(IteratorRef, Arc<VecDeque<KnnIteratorResult>>),
    Multiples(Seq<IteratorView>),
}

impl ThingIterator {
    pub open spec fn describe(self) -> IteratorView
        decreases self, 0nat,
    {
        match self {
            ThingIterator::IndexEqual(s, a) => IteratorView::IndexEqual(s, a.items()),
            ThingIterator::IndexRange(s, r) => IteratorView::IndexRange(s, r),
            ThingIterator::IndexRangeReverse(s) => IteratorView::IndexRangeReverse(s),
            ThingIterator::IndexUnion(s, keys) => IteratorView::IndexUnion(s, keys_of(keys@)),
            ThingIterator::IndexJoin(s, its) => IteratorView::IndexJoin(
                s,
                describe_first(its, its@.len()),
            ),
            ThingIterator::UniqueEqual(s, a) => IteratorView::UniqueEqual(s, a.items()),
            ThingIterator::UniqueRange(s, r) => IteratorView::UniqueRange(s, r),
            ThingIterator::UniqueRangeReverse(s) => IteratorView::UniqueRangeReverse(s),
            ThingIterator::UniqueUnion(s, keys) => IteratorView::UniqueUnion(s, keys_of(keys@)),
            ThingIterator::UniqueJoin(s, its) => IteratorView::UniqueJoin(
                s,
                describe_first(its, its@.len()),
            ),
            ThingIterator::Matches(irf, ft, docs) => IteratorView::Matches(irf, ft, docs),
            ThingIterator::Knn(irf, res) => IteratorView::Knn(irf, res),
            ThingIterator::Multiples(its) => IteratorView::Multiples(
                describe_first(its, its@.len()),
            ),
        }
    }
}

/// The descriptions of the first `n` iterators.
pub open spec fn describe_first(its: VecDeque<ThingIterator>, n: nat) -> Seq<IteratorView>
    decreases its, n,
{
    if n == 0 || n > its@.len() {
        Seq::empty()
    } else {
        describe_first(its, (n - 1) as nat).push(its[n - 1].describe())
    }
}

/// The descriptions of iterators.
pub open spec fn describe_all(its: VecDeque<ThingIterator>) -> Seq<IteratorView> {
    describe_first(its, its@.len())
}

proof fn lemma_describe_prefix(its: VecDeque<ThingIterator>, more: VecDeque<ThingIterator>, n: nat)
    requires
        n <= its@.len(),
        its@.is_prefix_of(more@),
    ensures
        describe_first(more, n) == describe_first(its, n),
    decreases n,
{
    if n > 0 {
        assert(more@[n - 1] == its@[n - 1]);
        lemma_describe_prefix(its, more, (n - 1) as nat);
    }
}

proof fn lemma_describe_push(
    its: VecDeque<ThingIterator>,
    more: VecDeque<ThingIterator>,
    it: ThingIterator,
)
    requires
        more@ == its@.push(it),
    ensures
        describe_all(more) == describe_all(its).push(it.describe()),
{
    lemma_describe_prefix(its, more, its@.len());
}

proof fn lemma_only_key(arrays: Seq<Array>)
    ensures
        keys_of(arrays).len() == arrays.len(),
        arrays.len() == 1 ==> keys_of(arrays)[0] == arrays[0].items(),
{
}

/// What building an iterator results in.
pub type Built = Result<Option<IteratorView>, Error>;

/// The index in the selected database, or the error of the selection.
pub open spec fn scan_of(opt: Options, irf: IteratorRef, ix: IndexReference) -> Result<
    Scan,
    Error,
> {
    match opt.spec_ns_db() {
        Ok((ns, db)) => Ok(Scan { irf, ns, db, ix }),
        Err(e) => Err(e),
    }
}

/// An iterator over an index, or the error of the selection.
pub open spec fn on_scan(scan: Result<Scan, Error>, it: IteratorView) -> Built {
    match scan {
        Ok(_) => Ok(Some(it)),
        Err(e) => Err(e),
    }
}

/// The description of what was built.
pub open spec fn built(r: Result<Option<ThingIterator>, Error>) -> Built {
    match r {
        Ok(Some(it)) => Ok(Some(it.describe())),
        Ok(None) => Ok(None),
        Err(e) => Err(e),
    }
}

pub open spec fn built_one(r: Result<ThingIterator, Error>) -> Built {
    match r {
        Ok(it) => Ok(Some(it.describe())),
        Err(e) => Err(e),
    }
}

/// The iterator over the records with one of the keys of a value.
pub open spec fn index_equality(
    opt: Options,
    irf: IteratorRef,
    ix: IndexReference,
    keys: Seq<Seq<Value>>,
) -> Built {
    if keys.len() == 1 {
        on_scan(
            scan_of(opt, irf, ix),
            IteratorView::IndexEqual(scan_of(opt, irf, ix)->Ok_0, keys[0]),
        )
    } else {
        on_scan(
            scan_of(opt, irf, ix),
            IteratorView::IndexUnion(scan_of(opt, irf, ix)->Ok_0, keys),
        )
    }
}

/// The iterator over the records with one key of a unique index: with several columns the key may
/// be that of the first ones alone, which several records share.
pub open spec fn unique_equal(
    opt: Options,
    irf: IteratorRef,
    ix: IndexReference,
    key: Seq<Value>,
) -> Built {
    if ix.def.cols@.len() > 1 {
        on_scan(
            scan_of(opt, irf, ix),
            IteratorView::IndexEqual(scan_of(opt, irf, ix)->Ok_0, key),
        )
    } else {
        on_scan(
            scan_of(opt, irf, ix),
            IteratorView::UniqueEqual(scan_of(opt, irf, ix)->Ok_0, key),
        )
    }
}

pub open spec fn unique_equality(
    opt: Options,
    irf: IteratorRef,
    ix: IndexReference,
    keys: Seq<Seq<Value>>,
) -> Built {
    if keys.len() == 1 {
        unique_equal(opt, irf, ix, keys[0])
    } else {
        Ok(Some(IteratorView::UniqueUnion(Source { irf, opt, ix }, keys)))
    }
}

/// `keys` are the keys that are looked up for the values of an array; none for another value.
pub open spec fn are_union_keys(values: Value, keys: Seq<Seq<Value>>) -> bool {
    match values {
        Value::Array(a) => are_keys_of_all(a.items(), keys),
        _ => keys.len() == 0,
    }
}

/// The iterator over all records; backwards only where the store can.
pub open spec fn index_order(
    opt: Options,
    irf: IteratorRef,
    ix: IndexReference,
    reverse: bool,
) -> Built {
    if !reverse {
        on_scan(
            scan_of(opt, irf, ix),
            IteratorView::IndexRange(scan_of(opt, irf, ix)->Ok_0, None),
        )
    } else if opt.reverse_scan {
        on_scan(
            scan_of(opt, irf, ix),
            IteratorView::IndexRangeReverse(scan_of(opt, irf, ix)->Ok_0),
        )
    } else {
        Ok(None)
    }
}

pub open spec fn unique_order(
    opt: Options,
    irf: IteratorRef,
    ix: IndexReference,
    reverse: bool,
) -> Built {
    if !reverse {
        on_scan(
            scan_of(opt, irf, ix),
            IteratorView::UniqueRange(scan_of(opt, irf, ix)->Ok_0, None),
        )
    } else if opt.reverse_scan {
        on_scan(
            scan_of(opt, irf, ix),
            IteratorView::UniqueRangeReverse(scan_of(opt, irf, ix)->Ok_0),
        )
    } else {
        Ok(None)
    }
}

/// The iterators among results.
pub open spec fn collected(rs: Seq<Built>) -> Seq<IteratorView>
    decreases rs.len(),
{
    if rs.len() == 0 {
        Seq::empty()
    } else {
        match rs.last() {
            Ok(Some(it)) => collected(rs.drop_last()).push(it),
            _ => collected(rs.drop_last()),
        }
    }
}

/// The iterators of results, or the error that ended them.
pub open spec fn gathered(rs: Seq<Built>) -> Result<Seq<IteratorView>, Error> {
    if rs.len() > 0 && rs.last() is Err {
        Err(rs.last()->Err_0)
    } else {
        Ok(collected(rs))
    }
}

/// Only the last result may be an error, and only an error ends the results early.
pub open spec fn ends_at_error(rs: Seq<Built>, n: nat) -> bool {
    &&& rs.len() <= n
    &&& forall|i: int| 0 <= i < rs.len() - 1 ==> #[trigger] rs[i] is Ok
    &&& rs.len() < n ==> rs.len() > 0 && rs.last() is Err
}

/// The iterator over the records that hold the terms of the query of the iterator's expression.
pub open spec fn search_iterator(
    q: QueryExecutor,
    irf: IteratorRef,
    io: IndexOption,
) -> Option<IteratorView> {
    match q.expression_of(irf) {
        Some(exp) => if *io.operator is Matches && q.0.ft_map@.contains_key(io.ixr.idx)
            && q.0.exp_entries@.contains_key(exp) {
            Some(
                IteratorView::Matches(
                    irf,
                    q.0.ft_map@[io.ixr.idx],
                    q.0.exp_entries@[exp].0.query.terms_docs,
                ),
            )
        } else {
            None
        },
        None => None,
    }
}

/// The iterator over the records that an M-tree has found for the iterator's expression.
pub open spec fn mtree_iterator(q: QueryExecutor, irf: IteratorRef) -> Option<IteratorView> {
    match q.expression_of(irf) {
        Some(exp) => if q.0.mt_entries@.contains_key(exp) {
            Some(IteratorView::Knn(irf, q.0.mt_entries@[exp].res))
        } else {
            None
        },
        None => None,
    }
}

/// The iterator over the records that an HNSW graph has found for the iterator's expression.
pub open spec fn hnsw_iterator(q: QueryExecutor, irf: IteratorRef) -> Option<IteratorView> {
    match q.expression_of(irf) {
        Some(exp) => if q.0.hnsw_entries@.contains_key(exp) {
            Some(IteratorView::Knn(irf, q.0.hnsw_entries@[exp].res))
        } else {
            None
        },
        None => None,
    }
}

/// `r` is what building an iterator for an option may result in.
pub open spec fn builds(
    q: QueryExecutor,
    opt: Options,
    irf: IteratorRef,
    io: IndexOption,
    r: Built,
) -> bool
    decreases io, 2nat,
{
    match io.ixr.def.index {
        Index::Idx => builds_on_index(q, opt, irf, io.ixr, io, r),
        Index::Uniq => builds_on_unique_index(q, opt, irf, io.ixr, io, r),
        Index::Search(_) => r == Built::Ok(search_iterator(q, irf, io)),
        Index::MTree(_) => r == Built::Ok(mtree_iterator(q, irf)),
        Index::Hnsw(_) => r == Built::Ok(hnsw_iterator(q, irf)),
    }
}

/// The same for an index that is not unique.
pub open spec fn builds_on_index(
    q: QueryExecutor,
    opt: Options,
    irf: IteratorRef,
    ix: IndexReference,
    io: IndexOption,
    r: Built,
) -> bool
    decreases io, 1nat,
{
    match *io.operator {
        IndexOperator::Equality(value) => exists|keys: Seq<Seq<Value>>| #[trigger]
            are_keys(value, keys) && r == index_equality(opt, irf, ix, keys),
        IndexOperator::Union(values) => exists|keys: Seq<Seq<Value>>| #[trigger]
            are_union_keys(values, keys) && r == on_scan(
                scan_of(opt, irf, ix),
                IteratorView::IndexUnion(scan_of(opt, irf, ix)->Ok_0, keys),
            ),
        IndexOperator::Join(ios) => exists|rs: Seq<Built>| #[trigger]
            ends_at_error(rs, ios@.len()) && builds_each(q, opt, irf, ios@, rs)
                && r == match gathered(rs) {
                Ok(its) => Ok(Some(IteratorView::IndexJoin(Source { irf, opt, ix }, its))),
                Err(e) => Err(e),
            },
        IndexOperator::Order(reverse) => r == index_order(opt, irf, ix, reverse),
        _ => r == Built::Ok(None),
    }
}

/// The same for a unique index.
pub open spec fn builds_on_unique_index(
    q: QueryExecutor,
    opt: Options,
    irf: IteratorRef,
    ix: IndexReference,
    io: IndexOption,
    r: Built,
) -> bool
    decreases io, 1nat,
{
    match *io.operator {
        IndexOperator::Equality(value) => exists|keys: Seq<Seq<Value>>| #[trigger]
            are_keys(value, keys) && r == unique_equality(opt, irf, ix, keys),
        IndexOperator::Union(values) => exists|keys: Seq<Seq<Value>>| #[trigger]
            are_union_keys(values, keys) && r == Built::Ok(
                Some(IteratorView::UniqueUnion(Source { irf, opt, ix }, keys)),
            ),
        IndexOperator::Join(ios) => exists|rs: Seq<Built>| #[trigger]
            ends_at_error(rs, ios@.len()) && builds_each(q, opt, irf, ios@, rs)
                && r == match gathered(rs) {
                Ok(its) => Ok(Some(IteratorView::UniqueJoin(Source { irf, opt, ix }, its))),
                Err(e) => Err(e),
            },
        IndexOperator::Order(reverse) => r == unique_order(opt, irf, ix, reverse),
        _ => r == Built::Ok(None),
    }
}

/// `rs` are what building iterators for one option after the other may result in, up to the
/// first error.
pub open spec fn builds_each(
    q: QueryExecutor,
    opt: Options,
    irf: IteratorRef,
    ios: Seq<IndexOption>,
    rs: Seq<Built>,
) -> bool
    decreases ios, 0nat,
{
    &&& ends_at_error(rs, ios.len())
    &&& rs.len() <= ios.len()
    &&& forall|i: int| 0 <= i < rs.len() ==> builds(q, opt, irf, ios[i], #[trigger] rs[i])
}

impl QueryExecutor {
    /// The key of the expression that a single iterator serves.
    pub open spec fn expression_of(self, irf: IteratorRef) -> Option<u64> {
        if irf < self.0.it_entries@.len() {
            match self.0.it_entries@[irf as int] {
                IteratorEntry::Single(Some(exp), _) => Some(exp.key),
                _ => None,
            }
        } else {
            None
        }
    }

    /// The iterator for an entry of the executor; none where there is no such entry.
    pub fn new_iterator(&self, opt: &Options, ir: IteratorRef) -> (r: Result<
        Option<ThingIterator>,
        Error,
    >)
        ensures
            ir >= self.0.it_entries@.len() ==> built(r) == Built::Ok(None),
            ir < self.0.it_entries@.len() ==> match self.0.it_entries@[ir as int] {
                IteratorEntry::Single(_, io) => builds(*self, *opt, ir, io, built(r)),
                IteratorEntry::Range(_, ixr, from, to) => builds_range(
                    *opt,
                    ir,
                    ixr,
                    from,
                    to,
                    built(r),
                ),
            },
    {
        if ir < self.0.it_entries.len() {
            match &self.0.it_entries[ir] {
                IteratorEntry::Single(_, io) => self.new_single_iterator(opt, ir, io),
                IteratorEntry::Range(_, ixr, from, to) => self.new_range_iterator(
                    ir,
                    opt,
                    ixr,
                    from,
                    to,
                ),
            }
        } else {
            Ok(None)
        }
    }

    /// The iterator for an option.
    pub fn new_single_iterator(&self, opt: &Options, irf: IteratorRef, io: &IndexOption) -> (r:
        Result<Option<ThingIterator>, Error>)
        ensures
            builds(*self, *opt, irf, *io, built(r)),
        decreases *io, 2nat,
    {
        let ixr = io.ix_ref();
        match &ixr.def.index {
            Index::Idx => self.new_index_iterator(opt, irf, ixr, io),
            Index::Uniq => self.new_unique_index_iterator(opt, irf, ixr, io),
            Index::Search(_) => Ok(self.new_search_index_iterator(irf, io)),
            Index::MTree(_) => Ok(self.new_mtree_index_knn_iterator(irf)),
            Index::Hnsw(_) => Ok(self.new_hnsw_index_ann_iterator(irf)),
        }
    }

    /// The iterator for an option of an index that is not unique.
    pub fn new_index_iterator(
        &self,
        opt: &Options,
        ir: IteratorRef,
        ix: &IndexReference,
        io: &IndexOption,
    ) -> (r: Result<Option<ThingIterator>, Error>)
        ensures
            builds_on_index(*self, *opt, ir, *ix, *io, built(r)),
        decreases *io, 1nat,
    {
        match io.op() {
            IndexOperator::Equality(value) => {
                let variants = Self::get_equal_variants_from_value(value);
                proof {
                    lemma_only_key(variants@);
                }
                if variants.len() == 1 {
                    match Self::new_index_equal_iterator(ir, opt, ix, &variants[0]) {
                        Ok(it) => Ok(Some(it)),
                        Err(e) => Err(e),
                    }
                } else {
                    match Self::new_scan(ir, opt, ix) {
                        Ok(scan) => Ok(Some(ThingIterator::IndexUnion(scan, variants))),
                        Err(e) => Err(e),
                    }
                }
            },
            IndexOperator::Union(values) => {
                let variants = Self::get_equal_variants_from_values(values);
                assert(are_union_keys(*values, keys_of(variants@)));
                match Self::new_scan(ir, opt, ix) {
                    Ok(scan) => Ok(Some(ThingIterator::IndexUnion(scan, variants))),
                    Err(e) => Err(e),
                }
            },
            IndexOperator::Join(ios) => match self.build_iterators(opt, ir, ios) {
                Ok(iterators) => Ok(
                    Some(ThingIterator::IndexJoin(Self::new_source(ir, opt, ix), iterators)),
                ),
                Err(e) => Err(e),
            },
            IndexOperator::Order(reverse) => {
                if *reverse {
                    if opt.reverse_scan {
                        match Self::new_scan(ir, opt, ix) {
                            Ok(scan) => Ok(Some(ThingIterator::IndexRangeReverse(scan))),
                            Err(e) => Err(e),
                        }
                    } else {
                        Ok(None)
                    }
                } else {
                    match Self::new_scan(ir, opt, ix) {
                        Ok(scan) => Ok(Some(ThingIterator::IndexRange(scan, None))),
                        Err(e) => Err(e),
                    }
                }
            },
            _ => Ok(None),
        }
    }

    /// The iterator for an option of a unique index.
    pub fn new_unique_index_iterator(
        &self,
        opt: &Options,
        irf: IteratorRef,
        ixr: &IndexReference,
        io: &IndexOption,
    ) -> (r: Result<Option<ThingIterator>, Error>)
        ensures
            builds_on_unique_index(*self, *opt, irf, *ixr, *io, built(r)),
        decreases *io, 1nat,
    {
        match io.op() {
            IndexOperator::Equality(values) => {
                let variants = Self::get_equal_variants_from_value(values);
                proof {
                    lemma_only_key(variants@);
                }
                if variants.len() == 1 {
                    match Self::new_unique_equal_iterator(irf, opt, ixr, &variants[0]) {
                        Ok(it) => Ok(Some(it)),
                        Err(e) => Err(e),
                    }
                } else {
                    Ok(
                        Some(
                            ThingIterator::UniqueUnion(
                                Self::new_source(irf, opt, ixr),
                                variants,
                            ),
                        ),
                    )
                }
            },
            IndexOperator::Union(values) => {
                let variants = Self::get_equal_variants_from_values(values);
                assert(are_union_keys(*values, keys_of(variants@)));
                Ok(Some(ThingIterator::UniqueUnion(Self::new_source(irf, opt, ixr), variants)))
            },
            IndexOperator::Join(ios) => match self.build_iterators(opt, irf, ios) {
                Ok(iterators) => Ok(
                    Some(ThingIterator::UniqueJoin(Self::new_source(irf, opt, ixr), iterators)),
                ),
                Err(e) => Err(e),
            },
            IndexOperator::Order(reverse) => {
                if *reverse {
                    if opt.reverse_scan {
                        match Self::new_scan(irf, opt, ixr) {
                            Ok(scan) => Ok(Some(ThingIterator::UniqueRangeReverse(scan))),
                            Err(e) => Err(e),
                        }
                    } else {
                        Ok(None)
                    }
                } else {
                    match Self::new_scan(irf, opt, ixr) {
                        Ok(scan) => Ok(Some(ThingIterator::UniqueRange(scan, None))),
                        Err(e) => Err(e),
                    }
                }
            },
            _ => Ok(None),
        }
    }

    /// The iterators for one option after the other; options without an iterator are passed over.
    pub fn build_iterators(&self, opt: &Options, irf: IteratorRef, ios: &Vec<IndexOption>) -> (r:
        Result<VecDeque<ThingIterator>, Error>)
        ensures
            exists|rs: Seq<Built>| #[trigger]
                ends_at_error(rs, ios@.len()) && builds_each(*self, *opt, irf, ios@, rs)
                    && gathered(rs) == match r {
                    Ok(its) => Ok(describe_all(its)),
                    Err(e) => Err(e),
                },
        decreases ios@, 3nat,
    {
        let mut iterators: VecDeque<ThingIterator> = VecDeque::with_capacity(ios.len());
        let ghost mut rs: Seq<Built> = Seq::empty();
        let mut i: usize = 0;
        while i < ios.len()
            invariant
                i <= ios.len(),
                rs.len() == i,
                forall|j: int| 0 <= j < i ==> #[trigger] rs[j] is Ok,
                forall|j: int| 0 <= j < i ==> builds(*self, *opt, irf, ios@[j], #[trigger] rs[j]),
                describe_all(iterators) == collected(rs),
            decreases ios.len() - i,
        {
            let r = self.new_single_iterator(opt, irf, &ios[i]);
            let ghost before = rs;
            proof {
                rs = rs.push(built(r));
                assert(rs.drop_last() =~= before);
            }
            match r {
                Ok(Some(it)) => {
                    let ghost fewer = iterators;
                    iterators.push_back(it);
                    proof {
                        lemma_describe_push(fewer, iterators, it);
                    }
                },
                Ok(None) => {},
                Err(e) => {
                    assert(builds_each(*self, *opt, irf, ios@, rs));
                    return Err(e);
                },
            }
            i = i + 1;
        }
        assert(builds_each(*self, *opt, irf, ios@, rs));
        Ok(iterators)
    }

    fn new_scan(irf: IteratorRef, opt: &Options, ix: &IndexReference) -> (r: Result<Scan, Error>)
        ensures
            r == scan_of(*opt, irf, *ix),
    {
        match opt.ns_db() {
            Ok((ns, db)) => Ok(Scan { irf, ns, db, ix: ix.clone() }),
            Err(e) => Err(e),
        }
    }

    fn new_source(irf: IteratorRef, opt: &Options, ix: &IndexReference) -> (r: Source)
        ensures
            r == (Source { irf, opt: *opt, ix: *ix }),
    {
        Source { irf, opt: opt.clone(), ix: ix.clone() }
    }

    /// The iterator over the records with a key.
    pub fn new_index_equal_iterator(
        irf: IteratorRef,
        opt: &Options,
        ix: &IndexReference,
        array: &Array,
    ) -> (r: Result<ThingIterator, Error>)
        ensures
            built_one(r) == on_scan(
                scan_of(*opt, irf, *ix),
                IteratorView::IndexEqual(scan_of(*opt, irf, *ix)->Ok_0, array.items()),
            ),
    {
        match Self::new_scan(irf, opt, ix) {
            Ok(scan) => Ok(ThingIterator::IndexEqual(scan, array.clone())),
            Err(e) => Err(e),
        }
    }

    /// The iterator over the records with a key of a unique index.
    pub fn new_unique_equal_iterator(
        irf: IteratorRef,
        opt: &Options,
        ix: &IndexReference,
        array: &Array,
    ) -> (r: Result<ThingIterator, Error>)
        ensures
            built_one(r) == unique_equal(*opt, irf, *ix, array.items()),
    {
        match Self::new_scan(irf, opt, ix) {
            Ok(scan) => if ix.def.cols.len() > 1 {
                // If the index is unique and the index is a composite index,
                // then we have the opportunity to iterate on the first column of the index
                // and consider it as a standard index (rather than a unique one)
                Ok(ThingIterator::IndexEqual(scan, array.clone()))
            } else {
                Ok(ThingIterator::UniqueEqual(scan, array.clone()))
            },
            Err(e) => Err(e),
        }
    }

    /// The iterator over the records in a range.
    pub fn new_index_range_iterator(
        ir: IteratorRef,
        opt: &Options,
        ix: &IndexReference,
        range: &IteratorRange,
    ) -> (r: Result<ThingIterator, Error>)
        ensures
            built_one(r) == on_scan(
                scan_of(*opt, ir, *ix),
                in_range(false, scan_of(*opt, ir, *ix)->Ok_0, *range),
            ),
    {
        match Self::new_scan(ir, opt, ix) {
            Ok(scan) => Ok(ThingIterator::IndexRange(scan, Some(range.clone()))),
            Err(e) => Err(e),
        }
    }

    /// The iterator over the records in a range of a unique index.
    pub fn new_unique_range_iterator(
        ir: IteratorRef,
        opt: &Options,
        ix: &IndexReference,
        range: &IteratorRange,
    ) -> (r: Result<ThingIterator, Error>)
        ensures
            built_one(r) == on_scan(
                scan_of(*opt, ir, *ix),
                in_range(true, scan_of(*opt, ir, *ix)->Ok_0, *range),
            ),
    {
        match Self::new_scan(ir, opt, ix) {
            Ok(scan) => Ok(ThingIterator::UniqueRange(scan, Some(range.clone()))),
            Err(e) => Err(e),
        }
    }

    /// The iterators over the records in one range after the other.
    pub fn new_multiple_index_range_iterator(
        ir: IteratorRef,
        opt: &Options,
        ix: &IndexReference,
        ranges: &Vec<IteratorRange>,
    ) -> (r: Result<ThingIterator, Error>)
        ensures
            built_one(r) == in_ranges(false, *opt, ir, *ix, ranges@),
    {
        let mut iterators: VecDeque<ThingIterator> = VecDeque::with_capacity(ranges.len());
        let mut i: usize = 0;
        while i < ranges.len()
            invariant
                i <= ranges.len(),
                i > 0 ==> scan_of(*opt, ir, *ix) is Ok,
                describe_all(iterators) == in_each(
                    false,
                    scan_of(*opt, ir, *ix)->Ok_0,
                    ranges@.take(i as int),
                ),
            decreases ranges.len() - i,
        {
            match Self::new_index_range_iterator(ir, opt, ix, &ranges[i]) {
                Ok(it) => {
                    let ghost before = iterators;
                    iterators.push_back(it);
                    proof {
                        lemma_describe_push(before, iterators, it);
                        lemma_in_each_push(
                            false,
                            scan_of(*opt, ir, *ix)->Ok_0,
                            ranges@,
                            i as int,
                        );
                    }
                },
                Err(e) => {
                    return Err(e);
                },
            }
            i = i + 1;
        }
        assert(ranges@.take(i as int) =~= ranges@);
        Ok(ThingIterator::Multiples(iterators))
    }

    /// The iterators over the records in one range of a unique index after the other.
    pub fn new_multiple_unique_range_iterator(
        ir: IteratorRef,
        opt: &Options,
        ix: &IndexReference,
        ranges: &Vec<IteratorRange>,
    ) -> (r: Result<ThingIterator, Error>)
        ensures
            built_one(r) == in_ranges(true, *opt, ir, *ix, ranges@),
    {
        let mut iterators: VecDeque<ThingIterator> = VecDeque::with_capacity(ranges.len());
        let mut i: usize = 0;
        while i < ranges.len()
            invariant
                i <= ranges.len(),
                i > 0 ==> scan_of(*opt, ir, *ix) is Ok,
                describe_all(iterators) == in_each(
                    true,
                    scan_of(*opt, ir, *ix)->Ok_0,
                    ranges@.take(i as int),
                ),
            decreases ranges.len() - i,
        {
            match Self::new_unique_range_iterator(ir, opt, ix, &ranges[i]) {
                Ok(it) => {
                    let ghost before = iterators;
                    iterators.push_back(it);
                    proof {
                        lemma_describe_push(before, iterators, it);
                        lemma_in_each_push(
                            true,
                            scan_of(*opt, ir, *ix)->Ok_0,
                            ranges@,
                            i as int,
                        );
                    }
                },
                Err(e) => {
                    return Err(e);
                },
            }
            i = i + 1;
        }
        assert(ranges@.take(i as int) =~= ranges@);
        Ok(ThingIterator::Multiples(iterators))
    }

    /// The iterator over the records between two ends. A range over numbers is split by the kinds
    /// of numbers. Only plain and unique indexes have ranges.
    pub fn new_range_iterator(
        &self,
        ir: IteratorRef,
        opt: &Options,
        ix: &IndexReference,
        from: &RangeValue,
        to: &RangeValue,
    ) -> (r: Result<Option<ThingIterator>, Error>)
        ensures
            builds_range(*opt, ir, *ix, *from, *to, built(r)),
    {
        match &ix.def.index {
            Index::Idx => {
                let ranges = Self::get_ranges_variants(from, to);
                let it = match &ranges {
                    Some(ranges) => if ranges.len() == 1 {
                        Self::new_index_range_iterator(ir, opt, ix, &ranges[0])
                    } else {
                        Self::new_multiple_index_range_iterator(ir, opt, ix, ranges)
                    },
                    None => Self::new_index_range_iterator(
                        ir,
                        opt,
                        ix,
                        &IteratorRange::new_ref(ValueType::Unspecified, from, to),
                    ),
                };
                match it {
                    Ok(it) => Ok(Some(it)),
                    Err(e) => Err(e),
                }
            },
            Index::Uniq => {
                let ranges = Self::get_ranges_variants(from, to);
                let it = match &ranges {
                    Some(ranges) => if ranges.len() == 1 {
                        Self::new_unique_range_iterator(ir, opt, ix, &ranges[0])
                    } else {
                        Self::new_multiple_unique_range_iterator(ir, opt, ix, ranges)
                    },
                    None => Self::new_unique_range_iterator(
                        ir,
                        opt,
                        ix,
                        &IteratorRange::new_ref(ValueType::Unspecified, from, to),
                    ),
                };
                match it {
                    Ok(it) => Ok(Some(it)),
                    Err(e) => Err(e),
                }
            },
            _ => Ok(None),
        }
    }

    /// The iterator over the records that match the query of the iterator's expression.
    pub fn new_search_index_iterator(&self, ir: IteratorRef, io: &IndexOption) -> (r: Option<
        ThingIterator,
    >)
        ensures
            built(Ok(r)) == Built::Ok(search_iterator(*self, ir, *io)),
    {
        if ir < self.0.it_entries.len() {
            if let IteratorEntry::Single(Some(exp), _) = &self.0.it_entries[ir] {
                if let IndexOperator::Matches(_, _) = io.op() {
                    if let Some(fti) = self.0.ft_map.get(&io.ix_ref().idx) {
                        if let Some(fte) = self.0.exp_entries.get(&exp.key) {
                            return Some(
                                ThingIterator::Matches(ir, *fti, share(&fte.0.query.terms_docs)),
                            );
                        }
                    }
                }
            }
        }
        None
    }

    /// The iterator over what an M-tree has found for the iterator's expression.
    pub fn new_mtree_index_knn_iterator(&self, ir: IteratorRef) -> (r: Option<ThingIterator>)
        ensures
            built(Ok(r)) == Built::Ok(mtree_iterator(*self, ir)),
    {
        if ir < self.0.it_entries.len() {
            if let IteratorEntry::Single(Some(exp), _) = &self.0.it_entries[ir] {
                if let Some(mte) = self.0.mt_entries.get(&exp.key) {
                    return Some(ThingIterator::Knn(ir, share(&mte.res)));
                }
            }
        }
        None
    }

    /// The iterator over what an HNSW graph has found for the iterator's expression.
    pub fn new_hnsw_index_ann_iterator(&self, ir: IteratorRef) -> (r: Option<ThingIterator>)
        ensures
            built(Ok(r)) == Built::Ok(hnsw_iterator(*self, ir)),
    {
        if ir < self.0.it_entries.len() {
            if let IteratorEntry::Single(Some(exp), _) = &self.0.it_entries[ir] {
                if let Some(he) = self.0.hnsw_entries.get(&exp.key) {
                    return Some(ThingIterator::Knn(ir, share(&he.res)));
                }
            }
        }
        None
    }
}

/// The iterator over a range of a plain or of a unique index.
pub open spec fn in_range(unique: bool, s: Scan, range: IteratorRange) -> IteratorView {
    if unique {
        IteratorView::UniqueRange(s, Some(range))
    } else {
        IteratorView::IndexRange(s, Some(range))
    }
}

/// The iterators over ranges.
pub open spec fn in_each(unique: bool, s: Scan, ranges: Seq<IteratorRange>) -> Seq<IteratorView> {
    ranges.map_values(|range: IteratorRange| in_range(unique, s, range))
}

proof fn lemma_in_each_push(unique: bool, s: Scan, ranges: Seq<IteratorRange>, i: int)
    requires
        0 <= i < ranges.len(),
    ensures
        in_each(unique, s, ranges.take(i + 1)) == in_each(unique, s, ranges.take(i)).push(
            in_range(unique, s, ranges[i]),
        ),
{
    assert(in_each(unique, s, ranges.take(i + 1)) =~= in_each(unique, s, ranges.take(i)).push(
        in_range(unique, s, ranges[i]),
    ));
}

/// One iterator after the other over ranges; without any range no database is asked for.
pub open spec fn in_ranges(
    unique: bool,
    opt: Options,
    irf: IteratorRef,
    ix: IndexReference,
    ranges: Seq<IteratorRange>,
) -> Built {
    if ranges.len() == 0 {
        Ok(Some(IteratorView::Multiples(Seq::empty())))
    } else {
        on_scan(
            scan_of(opt, irf, ix),
            IteratorView::Multiples(in_each(unique, scan_of(opt, irf, ix)->Ok_0, ranges)),
        )
    }
}

/// The iterator over a range that was split, or that was not.
pub open spec fn range_iterator(
    unique: bool,
    opt: Options,
    irf: IteratorRef,
    ix: IndexReference,
    from: RangeValue,
    to: RangeValue,
    ranges: Option<Seq<IteratorRange>>,
) -> Built {
    match ranges {
        Some(ranges) => if ranges.len() == 1 {
            on_scan(
                scan_of(opt, irf, ix),
                in_range(unique, scan_of(opt, irf, ix)->Ok_0, ranges[0]),
            )
        } else {
            in_ranges(unique, opt, irf, ix, ranges)
        },
        None => on_scan(
            scan_of(opt, irf, ix),
            in_range(
                unique,
                scan_of(opt, irf, ix)->Ok_0,
                IteratorRange { value_type: ValueType::Unspecified, from, to },
            ),
        ),
    }
}

/// `r` is what building an iterator for a range may result in.
pub open spec fn builds_range(
    opt: Options,
    irf: IteratorRef,
    ix: IndexReference,
    from: RangeValue,
    to: RangeValue,
    r: Built,
) -> bool {
    match ix.def.index {
        Index::Idx => exists|ranges: Option<Seq<IteratorRange>>| #[trigger]
            are_ranges(from, to, ranges) && r == range_iterator(
                false,
                opt,
                irf,
                ix,
                from,
                to,
                ranges,
            ),
        Index::Uniq => exists|ranges: Option<Seq<IteratorRange>>| #[trigger]
            are_ranges(from, to, ranges) && r == range_iterator(
                true,
                opt,
                irf,
                ix,
                from,
                to,
                ranges,
            ),
        _ => r == Built::Ok(None),
    }
}

/// Only the selection of a database can fail: with a database selected an iterator is built or
/// there is none, and without one the error is that of the selection.
pub proof fn law_only_the_selection_fails(
    q: QueryExecutor,
    opt: Options,
    irf: IteratorRef,
    io: IndexOption,
    r: Built,
)
    requires
        builds(q, opt, irf, io, r),
    ensures
        r matches Err(e) ==> opt.spec_ns_db() == Err::<(Arc<String>, Arc<String>), Error>(e),
    decreases io,
{
    if let IndexOperator::Join(ios) = *io.operator {
        if r is Err {
            let rs = choose|rs: Seq<Built>| #[trigger]
                ends_at_error(rs, ios@.len()) && builds_each(q, opt, irf, ios@, rs) && gathered(rs)
                    is Err && gathered(rs)->Err_0 == r->Err_0;
            let n = rs.len() - 1;
            law_only_the_selection_fails(q, opt, irf, ios@[n], rs[n]);
        }
    }
}

/// An executor with one more iterator.
pub open spec fn has_one_more(q: QueryExecutor, more: QueryExecutor, entry: IteratorEntry) -> bool {
    &&& more.0.it_entries@ == q.0.it_entries@.push(entry)
    &&& *more.0 == (InnerQueryExecutor { it_entries: more.0.it_entries, ..*q.0 })
}

/// An iterator that was added is found by the reference that it got, and the entries stay served.
pub proof fn law_added_iterator_is_found(
    q: QueryExecutor,
    more: QueryExecutor,
    entry: IteratorEntry,
)
    requires
        has_one_more(q, more, entry),
    ensures
        more.0.it_entries@[q.0.it_entries@.len() as int] == entry,
        q.0.wf() ==> more.0.wf(),
{
}

/// A further iterator changes nothing for those that are there: what may be built for them stays
/// the same.
pub proof fn law_further_iterator_changes_no_other(
    q: QueryExecutor,
    more: QueryExecutor,
    entry: IteratorEntry,
    opt: Options,
    irf: IteratorRef,
    io: IndexOption,
)
    requires
        has_one_more(q, more, entry),
        irf < q.0.it_entries@.len(),
    ensures
        more.0.it_entries@[irf as int] == q.0.it_entries@[irf as int],
        forall|r: Built| builds(q, opt, irf, io, r) <==> builds(more, opt, irf, io, r),
    decreases io,
{
    if let IndexOperator::Join(ios) = *io.operator {
        assert forall|rs: Seq<Built>| #[trigger]
            ends_at_error(rs, ios@.len()) implies builds_each(q, opt, irf, ios@, rs) == builds_each(
            more,
            opt,
            irf,
            ios@,
            rs,
        ) by {
            assert forall|i: int| 0 <= i < rs.len() implies builds(
                q,
                opt,
                irf,
                ios@[i],
                #[trigger] rs[i],
            ) == builds(more, opt, irf, ios@[i], rs[i]) by {
                law_further_iterator_changes_no_other(q, more, entry, opt, irf, ios@[i]);
            }
        }
    }
}

/// The iterator for the option of a full-text entry reads that entry: its index and the documents
/// of its terms.
pub proof fn law_search_reads_its_entry(q: QueryExecutor, irf: IteratorRef, exp: u64)
    requires
        q.0.wf(),
        q.expression_of(irf) == Some(exp),
        q.0.exp_entries@.contains_key(exp),
    ensures
        ({
            let e = q.0.exp_entries@[exp];
            search_iterator(q, irf, e.0.index_option) == Some(
                IteratorView::Matches(irf, e.0.ft, e.0.query.terms_docs),
            )
        }),
{
}

/// An iterator reads a key of its index.
pub open spec fn reads_key(it: IteratorView, key: Seq<Value>) -> bool {
    match it {
        IteratorView::IndexEqual(_, k) => k == key,
        IteratorView::UniqueEqual(_, k) => k == key,
        IteratorView::IndexUnion(_, keys) => keys.contains(key),
        IteratorView::UniqueUnion(_, keys) => keys.contains(key),
        _ => false,
    }
}

/// An option of a plain or of a unique index.
pub open spec fn has_keys(io: IndexOption) -> bool {
    io.ixr.def.index is Idx || io.ixr.def.index is Uniq
}

/// The iterator for an equality reads the very value that is asked for.
pub proof fn law_equality_reads_the_value(
    q: QueryExecutor,
    opt: Options,
    irf: IteratorRef,
    io: IndexOption,
    value: Value,
    r: Built,
)
    requires
        has_keys(io),
        *io.operator == IndexOperator::Equality(value),
        builds(q, opt, irf, io, r),
        r is Ok,
    ensures
        r->Ok_0 is Some,
        reads_key(r->Ok_0->0, as_columns(value)),
{
    let keys = choose|keys: Seq<Seq<Value>>| #[trigger]
        are_keys(value, keys) && (r == index_equality(opt, irf, io.ixr, keys) || r
            == unique_equality(opt, irf, io.ixr, keys));
    law_array_is_looked_up(as_columns(value), keys);
}

/// The iterator for a union reads each of the values that are asked for.
pub proof fn law_union_reads_each_value(
    q: QueryExecutor,
    opt: Options,
    irf: IteratorRef,
    io: IndexOption,
    values: Array,
    i: int,
    r: Built,
)
    requires
        has_keys(io),
        *io.operator == IndexOperator::Union(Value::Array(values)),
        builds(q, opt, irf, io, r),
        r is Ok,
        0 <= i < values.items().len(),
    ensures
        r->Ok_0 is Some,
        reads_key(r->Ok_0->0, as_columns(values.items()[i])),
{
    let keys = match r->Ok_0->0 {
        IteratorView::IndexUnion(_, keys) => keys,
        IteratorView::UniqueUnion(_, keys) => keys,
        _ => Seq::empty(),
    };
    assert(are_union_keys(Value::Array(values), keys));
    law_each_value_is_looked_up(values.items(), keys, i);
}

spec fn is_plain(ix: IndexReference) -> bool {
    ix.def.index is Idx
}

/// No index is read without a namespace and a database, in this order.
pub open spec fn needs_selection(opt: Options, r: Built) -> bool {
    &&& opt.ns is None ==> r == Built::Err(Error::NsEmpty)
    &&& opt.ns is Some && opt.db is None ==> r == Built::Err(Error::DbEmpty)
    &&& opt.ns is Some && opt.db is Some ==> r is Ok && r->Ok_0 is Some
}

/// An equality on a plain index reads exactly the keys of its value in the selected database: one
/// key by itself, several together.
pub proof fn law_plain_equality_reads_the_keys(
    q: QueryExecutor,
    opt: Options,
    irf: IteratorRef,
    ix: IndexReference,
    io: IndexOption,
    value: Value,
    r: Built,
) -> (keys: Seq<Seq<Value>>)
    requires
        *io.operator == IndexOperator::Equality(value),
        builds_on_index(q, opt, irf, ix, io, r),
    ensures
        are_keys(value, keys),
        needs_selection(opt, r),
        r is Ok && keys.len() == 1 ==> r->Ok_0->0 == IteratorView::IndexEqual(
            (Scan { irf, ns: opt.ns->0, db: opt.db->0, ix }),
            keys[0],
        ),
        r is Ok && keys.len() != 1 ==> r->Ok_0->0 == IteratorView::IndexUnion(
            (Scan { irf, ns: opt.ns->0, db: opt.db->0, ix }),
            keys,
        ),
{
    choose|keys: Seq<Seq<Value>>| #[trigger]
        are_keys(value, keys) && r == index_equality(opt, irf, ix, keys)
}

/// An equality on a unique index reads exactly the keys of its value: one key by itself, as on a
/// plain index if there are several columns; several keys together.
pub proof fn law_unique_equality_reads_the_keys(
    q: QueryExecutor,
    opt: Options,
    irf: IteratorRef,
    ix: IndexReference,
    io: IndexOption,
    value: Value,
    r: Built,
) -> (keys: Seq<Seq<Value>>)
    requires
        *io.operator == IndexOperator::Equality(value),
        builds_on_unique_index(q, opt, irf, ix, io, r),
    ensures
        are_keys(value, keys),
        keys.len() == 1 ==> needs_selection(opt, r),
        r is Ok && keys.len() == 1 && ix.def.cols@.len() > 1 ==> r->Ok_0->0
            == IteratorView::IndexEqual(
            (Scan { irf, ns: opt.ns->0, db: opt.db->0, ix }),
            keys[0],
        ),
        r is Ok && keys.len() == 1 && ix.def.cols@.len() <= 1 ==> r->Ok_0->0
            == IteratorView::UniqueEqual(
            (Scan { irf, ns: opt.ns->0, db: opt.db->0, ix }),
            keys[0],
        ),
        keys.len() != 1 ==> r == Built::Ok(
            Some(IteratorView::UniqueUnion((Source { irf, opt, ix }), keys)),
        ),
{
    choose|keys: Seq<Seq<Value>>| #[trigger]
        are_keys(value, keys) && r == unique_equality(opt, irf, ix, keys)
}

/// A union reads exactly the keys of the values of its array, one value after the other, and
/// nothing for a value that is no array.
pub proof fn law_union_reads_the_keys(
    q: QueryExecutor,
    opt: Options,
    irf: IteratorRef,
    ix: IndexReference,
    unique: bool,
    io: IndexOption,
    values: Value,
    r: Built,
) -> (keys: Seq<Seq<Value>>)
    requires
        *io.operator == IndexOperator::Union(values),
        !unique ==> builds_on_index(q, opt, irf, ix, io, r),
        unique ==> builds_on_unique_index(q, opt, irf, ix, io, r),
    ensures
        values is Array ==> are_keys_of_all(values->Array_0.0@, keys),
        !(values is Array) ==> keys.len() == 0,
        !unique ==> needs_selection(opt, r),
        !unique && r is Ok ==> r->Ok_0->0 == IteratorView::IndexUnion(
            (Scan { irf, ns: opt.ns->0, db: opt.db->0, ix }),
            keys,
        ),
        unique ==> r == Built::Ok(
            Some(IteratorView::UniqueUnion((Source { irf, opt, ix }), keys)),
        ),
{
    if !unique {
        choose|keys: Seq<Seq<Value>>| #[trigger]
            are_union_keys(values, keys) && r == on_scan(
                scan_of(opt, irf, ix),
                IteratorView::IndexUnion(scan_of(opt, irf, ix)->Ok_0, keys),
            )
    } else {
        choose|keys: Seq<Seq<Value>>| #[trigger]
            are_union_keys(values, keys) && r == Built::Ok(
                Some(IteratorView::UniqueUnion(Source { irf, opt, ix }, keys)),
            )
    }
}

/// An index is walked as a whole, forwards always, and backwards exactly if the store can.
pub proof fn law_order_walks_the_index(
    q: QueryExecutor,
    opt: Options,
    irf: IteratorRef,
    ix: IndexReference,
    unique: bool,
    io: IndexOption,
    reverse: bool,
    r: Built,
)
    requires
        *io.operator == IndexOperator::Order(reverse),
        !unique ==> builds_on_index(q, opt, irf, ix, io, r),
        unique ==> builds_on_unique_index(q, opt, irf, ix, io, r),
    ensures
        reverse && !opt.reverse_scan <==> r == Built::Ok(None),
        !reverse || opt.reverse_scan ==> needs_selection(opt, r),
        r is Ok && r->Ok_0 is Some ==> {
            let s = Scan { irf, ns: opt.ns->0, db: opt.db->0, ix };
            match (unique, reverse) {
                (false, false) => r->Ok_0->0 == IteratorView::IndexRange(s, None),
                (false, true) => r->Ok_0->0 == IteratorView::IndexRangeReverse(s),
                (true, false) => r->Ok_0->0 == IteratorView::UniqueRange(s, None),
                (true, true) => r->Ok_0->0 == IteratorView::UniqueRangeReverse(s),
            }
        },
{
}

/// A plain or a unique index has no iterator for the other operators.
pub proof fn law_other_operators_have_no_iterator(
    q: QueryExecutor,
    opt: Options,
    irf: IteratorRef,
    ix: IndexReference,
    unique: bool,
    io: IndexOption,
    r: Built,
)
    requires
        !(*io.operator is Equality),
        !(*io.operator is Union),
        !(*io.operator is Join),
        !(*io.operator is Order),
        !unique ==> builds_on_index(q, opt, irf, ix, io, r),
        unique ==> builds_on_unique_index(q, opt, irf, ix, io, r),
    ensures
        r == Built::Ok(None),
{
}

/// A result holds an iterator.
pub open spec fn is_some_built(r: Built) -> bool {
    r is Ok && r->Ok_0 is Some
}

proof fn lemma_collected(rs: Seq<Built>)
    ensures
        collected(rs) == rs.filter(|r: Built| is_some_built(r)).map_values(
            |r: Built| r->Ok_0->0,
        ),
    decreases rs.len(),
{
    reveal(Seq::filter);
    let p = |r: Built| is_some_built(r);
    let f = |r: Built| r->Ok_0->0;
    if rs.len() > 0 {
        lemma_collected(rs.drop_last());
        let before = rs.drop_last().filter(p);
        if is_some_built(rs.last()) {
            assert(before.push(rs.last()).map_values(f) =~= before.map_values(f).push(
                f(rs.last()),
            ));
        }
    } else {
        assert(collected(rs) =~= rs.filter(p).map_values(f));
    }
}

/// A join joins the iterators of its options, in their order and without those that have none; the
/// first option that fails fails the join.
pub proof fn law_join_joins_the_iterators(
    q: QueryExecutor,
    opt: Options,
    irf: IteratorRef,
    ix: IndexReference,
    unique: bool,
    io: IndexOption,
    ios: Vec<IndexOption>,
    r: Built,
) -> (rs: Seq<Built>)
    requires
        *io.operator == IndexOperator::Join(ios),
        !unique ==> builds_on_index(q, opt, irf, ix, io, r),
        unique ==> builds_on_unique_index(q, opt, irf, ix, io, r),
    ensures
        rs.len() <= ios@.len(),
        forall|i: int| 0 <= i < rs.len() ==> builds(q, opt, irf, ios@[i], #[trigger] rs[i]),
        forall|i: int| 0 <= i < rs.len() - 1 ==> #[trigger] rs[i] is Ok,
        match r {
            Err(e) => rs.len() > 0 && rs.last() == Built::Err(e),
            Ok(None) => false,
            Ok(Some(it)) => {
                &&& rs.len() == ios@.len()
                &&& rs.len() > 0 ==> rs.last() is Ok
                &&& !unique ==> it == IteratorView::IndexJoin(
                    (Source { irf, opt, ix }),
                    rs.filter(|r: Built| is_some_built(r)).map_values(|r: Built| r->Ok_0->0),
                )
                &&& unique ==> it == IteratorView::UniqueJoin(
                    (Source { irf, opt, ix }),
                    rs.filter(|r: Built| is_some_built(r)).map_values(|r: Built| r->Ok_0->0),
                )
            },
        },
{
    let rs = if !unique {
        choose|rs: Seq<Built>| #[trigger]
            ends_at_error(rs, ios@.len()) && builds_each(q, opt, irf, ios@, rs)
                && r == match gathered(rs) {
                Ok(its) => Ok(
                    Some(IteratorView::IndexJoin(Source { irf, opt, ix }, its)),
                ),
                Err(e) => Err(e),
            }
    } else {
        choose|rs: Seq<Built>| #[trigger]
            ends_at_error(rs, ios@.len()) && builds_each(q, opt, irf, ios@, rs)
                && r == match gathered(rs) {
                Ok(its) => Ok(
                    Some(IteratorView::UniqueJoin(Source { irf, opt, ix }, its)),
                ),
                Err(e) => Err(e),
            }
    };
    lemma_collected(rs);
    rs
}

/// The iterator of a full-text index is there exactly if the option is a MATCHES on an open index
/// and the iterator stands for an expression that has an entry; it reads the documents of the
/// terms of that entry from that index.
pub proof fn law_search_reads_the_documents(
    q: QueryExecutor,
    irf: IteratorRef,
    io: IndexOption,
)
    ensures
        search_iterator(q, irf, io) is Some <==> {
            &&& irf < q.0.it_entries@.len()
            &&& q.0.it_entries@[irf as int] is Single
            &&& q.0.it_entries@[irf as int]->Single_0 is Some
            &&& *io.operator is Matches
            &&& q.0.ft_map@.contains_key(io.ixr.idx)
            &&& q.0.exp_entries@.contains_key(q.0.it_entries@[irf as int]->Single_0->0.key)
        },
        search_iterator(q, irf, io) is Some ==> search_iterator(q, irf, io)->0
            == IteratorView::Matches(
            irf,
            q.0.ft_map@[io.ixr.idx],
            q.0.exp_entries@[q.0.it_entries@[irf as int]->Single_0->0.key].0.query.terms_docs,
        ),
{
}

/// The iterator of an M-tree or of an HNSW graph is there exactly if it stands for an expression
/// that has an entry of that kind; it gives what was found for that entry.
pub proof fn law_neighbours_are_those_found(q: QueryExecutor, irf: IteratorRef)
    ensures
        mtree_iterator(q, irf) is Some <==> {
            &&& irf < q.0.it_entries@.len()
            &&& q.0.it_entries@[irf as int] is Single
            &&& q.0.it_entries@[irf as int]->Single_0 is Some
            &&& q.0.mt_entries@.contains_key(q.0.it_entries@[irf as int]->Single_0->0.key)
        },
        mtree_iterator(q, irf) is Some ==> mtree_iterator(q, irf)->0 == IteratorView::Knn(
            irf,
            q.0.mt_entries@[q.0.it_entries@[irf as int]->Single_0->0.key].res,
        ),
        hnsw_iterator(q, irf) is Some <==> {
            &&& irf < q.0.it_entries@.len()
            &&& q.0.it_entries@[irf as int] is Single
            &&& q.0.it_entries@[irf as int]->Single_0 is Some
            &&& q.0.hnsw_entries@.contains_key(q.0.it_entries@[irf as int]->Single_0->0.key)
        },
        hnsw_iterator(q, irf) is Some ==> hnsw_iterator(q, irf)->0 == IteratorView::Knn(
            irf,
            q.0.hnsw_entries@[q.0.it_entries@[irf as int]->Single_0->0.key].res,
        ),
{
}

/// The kind of the index decides how an option is served, and only plain and unique indexes can
/// fail.
pub proof fn law_kind_of_the_index_decides(
    q: QueryExecutor,
    opt: Options,
    irf: IteratorRef,
    io: IndexOption,
    r: Built,
)
    ensures
        io.ixr.def.index is Idx ==> (builds(q, opt, irf, io, r) <==> builds_on_index(
            q,
            opt,
            irf,
            io.ixr,
            io,
            r,
        )),
        io.ixr.def.index is Uniq ==> (builds(q, opt, irf, io, r) <==> builds_on_unique_index(
            q,
            opt,
            irf,
            io.ixr,
            io,
            r,
        )),
        io.ixr.def.index is Search ==> (builds(q, opt, irf, io, r) <==> r == Built::Ok(
            search_iterator(q, irf, io),
        )),
        io.ixr.def.index is MTree ==> (builds(q, opt, irf, io, r) <==> r == Built::Ok(
            mtree_iterator(q, irf),
        )),
        io.ixr.def.index is Hnsw ==> (builds(q, opt, irf, io, r) <==> r == Built::Ok(
            hnsw_iterator(q, irf),
        )),
{
}

/// One key of a unique index is read as on a plain index if there are several columns, and one
/// range is read by one iterator, both in the selected database.
pub proof fn law_one_key_or_range_is_read(
    opt: Options,
    irf: IteratorRef,
    ix: IndexReference,
    key: Seq<Value>,
    s: Scan,
    range: IteratorRange,
    it: IteratorView,
)
    ensures
        needs_selection(opt, unique_equal(opt, irf, ix, key)),
        opt.ns is Some && opt.db is Some && ix.def.cols@.len() > 1 ==> unique_equal(
            opt,
            irf,
            ix,
            key,
        ) == Built::Ok(
            Some(
                IteratorView::IndexEqual(
                    (Scan { irf, ns: opt.ns->0, db: opt.db->0, ix }),
                    key,
                ),
            ),
        ),
        opt.ns is Some && opt.db is Some && ix.def.cols@.len() <= 1 ==> unique_equal(
            opt,
            irf,
            ix,
            key,
        ) == Built::Ok(
            Some(
                IteratorView::UniqueEqual(
                    (Scan { irf, ns: opt.ns->0, db: opt.db->0, ix }),
                    key,
                ),
            ),
        ),
        in_range(false, s, range) == IteratorView::IndexRange(s, Some(range)),
        in_range(true, s, range) == IteratorView::UniqueRange(s, Some(range)),
        opt.ns is Some && opt.db is Some ==> scan_of(opt, irf, ix) == Ok::<Scan, Error>(
            Scan { irf, ns: opt.ns->0, db: opt.db->0, ix },
        ),
        needs_selection(opt, on_scan(scan_of(opt, irf, ix), it)),
        opt.ns is Some && opt.db is Some ==> on_scan(scan_of(opt, irf, ix), it) == Built::Ok(
            Some(it),
        ),
{
}

/// Several ranges are read one after the other, each by an iterator of its own, in the selected
/// database; without ranges there is nothing to read and no database is needed.
pub proof fn law_ranges_are_read_one_after_the_other(
    unique: bool,
    opt: Options,
    irf: IteratorRef,
    ix: IndexReference,
    ranges: Seq<IteratorRange>,
)
    ensures
        ({
            let r = in_ranges(unique, opt, irf, ix, ranges);
            let s = Scan { irf, ns: opt.ns->0, db: opt.db->0, ix };
            &&& ranges.len() == 0 ==> r is Ok
            &&& ranges.len() > 0 ==> needs_selection(opt, r)
            &&& r is Ok ==> {
                &&& r->Ok_0 is Some
                &&& r->Ok_0->0 is Multiples
                &&& r->Ok_0->0->Multiples_0.len() == ranges.len()
                &&& forall|i: int|
                    0 <= i < ranges.len() ==> #[trigger] r->Ok_0->0->Multiples_0[i] == (
                    if unique {
                        IteratorView::UniqueRange(s, Some(ranges[i]))
                    } else {
                        IteratorView::IndexRange(s, Some(ranges[i]))
                    })
            }
        }),
{
}

/// An iterator, or one of several iterators that follow each other.
pub open spec fn is_among(it: IteratorView, part: IteratorView) -> bool {
    match it {
        IteratorView::Multiples(parts) => parts.contains(part),
        _ => it == part,
    }
}

/// A range that is split into ranges is read by an iterator over each of them, and by no other, on
/// a plain and on a unique index alike and in the order of the ranges.
pub proof fn law_split_range_is_read_in_all_parts(
    opt: Options,
    irf: IteratorRef,
    ix: IndexReference,
    from: RangeValue,
    to: RangeValue,
    r: Built,
) -> (ranges: Seq<IteratorRange>)
    requires
        ix.def.index is Idx || ix.def.index is Uniq,
        from.value is Number || to.value is Number,
        from.value is Number || from.value is Absent,
        to.value is Number || to.value is Absent,
        builds_range(opt, irf, ix, from, to, r),
    ensures
        are_ranges(from, to, Some(ranges)),
        ranges.len() > 0 ==> needs_selection(opt, r),
        r is Ok ==> {
            let s = Scan { irf, ns: opt.ns->0, db: opt.db->0, ix };
            let it = r->Ok_0->0;
            &&& r->Ok_0 is Some
            &&& forall|range: IteratorRange| #[trigger]
                ranges.contains(range) && ix.def.index is Idx ==> is_among(
                    it,
                    IteratorView::IndexRange(s, Some(range)),
                )
            &&& forall|range: IteratorRange| #[trigger]
                ranges.contains(range) && ix.def.index is Uniq ==> is_among(
                    it,
                    IteratorView::UniqueRange(s, Some(range)),
                )
            &&& forall|part: IteratorView| #[trigger]
                is_among(it, part) ==> exists|i: int|
                    0 <= i < ranges.len() && part == (if ix.def.index is Idx {
                        IteratorView::IndexRange(s, Some(#[trigger] ranges[i]))
                    } else {
                        IteratorView::UniqueRange(s, Some(ranges[i]))
                    })
            &&& it matches IteratorView::Multiples(parts) ==> parts.len() == ranges.len() && (
            forall|i: int|
                0 <= i < parts.len() ==> #[trigger] parts[i] == (if ix.def.index is Idx {
                    IteratorView::IndexRange(s, Some(ranges[i]))
                } else {
                    IteratorView::UniqueRange(s, Some(ranges[i]))
                }))
        },
{
    let unique = !is_plain(ix);
    let split = choose|split: Option<Seq<IteratorRange>>| #[trigger]
        are_ranges(from, to, split) && r == range_iterator(unique, opt, irf, ix, from, to, split);
    let ranges = split->0;
    if r is Ok {
        let s = Scan { irf, ns: opt.ns->0, db: opt.db->0, ix };
        let it = r->Ok_0->0;
        if ranges.len() != 1 {
            let parts = it->Multiples_0;
            assert forall|i: int| 0 <= i < parts.len() implies #[trigger] parts[i] == in_range(
                unique,
                s,
                ranges[i],
            ) by {}
            assert forall|range: IteratorRange| #[trigger] ranges.contains(range) implies is_among(
                it,
                in_range(unique, s, range),
            ) by {
                let i = choose|i: int| 0 <= i < ranges.len() && ranges[i] == range;
                assert(parts[i] == in_range(unique, s, range));
            }
            assert forall|part: IteratorView| #[trigger] is_among(it, part) implies exists|i: int|
                0 <= i < ranges.len() && part == (if ix.def.index is Idx {
                    IteratorView::IndexRange(s, Some(#[trigger] ranges[i]))
                } else {
                    IteratorView::UniqueRange(s, Some(ranges[i]))
                }) by {
                let i = choose|i: int| 0 <= i < parts.len() && parts[i] == part;
                assert(part == in_range(unique, s, ranges[i]));
            }
        } else {
            assert(it == in_range(unique, s, ranges[0]));
        }
    }
    ranges
}

/// Any other range of a plain or of a unique index is read as it is, and other indexes have no
/// ranges.
pub proof fn law_other_ranges_are_read_as_they_are(
    opt: Options,
    irf: IteratorRef,
    ix: IndexReference,
    from: RangeValue,
    to: RangeValue,
    r: Built,
)
    requires
        builds_range(opt, irf, ix, from, to, r),
    ensures
        !(ix.def.index is Idx) && !(ix.def.index is Uniq) ==> r == Built::Ok(None),
        (ix.def.index is Idx || ix.def.index is Uniq) && !({
            ||| from.value is Number && to.value is Number
            ||| from.value is Number && to.value is Absent
            ||| from.value is Absent && to.value is Number
        }) ==> {
            let s = Scan { irf, ns: opt.ns->0, db: opt.db->0, ix };
            let range = IteratorRange { value_type: ValueType::Unspecified, from, to };
            &&& needs_selection(opt, r)
            &&& r is Ok && ix.def.index is Idx ==> r->Ok_0->0 == IteratorView::IndexRange(
                s,
                Some(range),
            )
            &&& r is Ok && ix.def.index is Uniq ==> r->Ok_0->0 == IteratorView::UniqueRange(
                s,
                Some(range),
            )
        },
{
}

proof fn lemma_describe_at(its: VecDeque<ThingIterator>, n: nat, i: int)
    requires
        n <= its@.len(),
    ensures
        describe_first(its, n).len() == n,
        0 <= i < n ==> describe_first(its, n)[i] == its@[i].describe(),
    decreases n,
{
    if n > 0 {
        lemma_describe_at(its, (n - 1) as nat, i);
    }
}

/// The description of an iterator leaves nothing out: it has the same index, keys, range and
/// source, and describes each iterator that it is made of.
pub proof fn law_description_is_complete(it: ThingIterator, i: int)
    ensures
        match (it, it.describe()) {
            (ThingIterator::IndexEqual(s, a), IteratorView::IndexEqual(t, k)) => s == t && k == a.0@,
            (ThingIterator::IndexRange(s, a), IteratorView::IndexRange(t, b)) => s == t && a == b,
            (ThingIterator::IndexRangeReverse(s), IteratorView::IndexRangeReverse(t)) => s == t,
            (ThingIterator::IndexUnion(s, a), IteratorView::IndexUnion(t, ks)) => s == t
                && ks.len() == a@.len() && (0 <= i < a@.len() ==> ks[i] == a@[i].0@),
            (ThingIterator::IndexJoin(s, a), IteratorView::IndexJoin(t, b)) => s == t && b.len()
                == a@.len() && (0 <= i < a@.len() ==> b[i] == a@[i].describe()),
            (ThingIterator::UniqueEqual(s, a), IteratorView::UniqueEqual(t, k)) => s == t && k
                == a.0@,
            (ThingIterator::UniqueRange(s, a), IteratorView::UniqueRange(t, b)) => s == t && a == b,
            (ThingIterator::UniqueRangeReverse(s), IteratorView::UniqueRangeReverse(t)) => s == t,
            (ThingIterator::UniqueUnion(s, a), IteratorView::UniqueUnion(t, ks)) => s == t
                && ks.len() == a@.len() && (0 <= i < a@.len() ==> ks[i] == a@[i].0@),
            (ThingIterator::UniqueJoin(s, a), IteratorView::UniqueJoin(t, b)) => s == t && b.len()
                == a@.len() && (0 <= i < a@.len() ==> b[i] == a@[i].describe()),
            (ThingIterator::Matches(x, ft, d), IteratorView::Matches(y, ft2, d2)) => x == y && ft
                == ft2 && d == d2,
            (ThingIterator::Knn(x, a), IteratorView::Knn(y, b)) => x == y && a == b,
            (ThingIterator::Multiples(a), IteratorView::Multiples(b)) => b.len() == a@.len() && (0
                <= i < a@.len() ==> b[i] == a@[i].describe()),
            _ => false,
        },
{
    match it {
        ThingIterator::IndexJoin(_, a) => lemma_describe_at(a, a@.len(), i),
        ThingIterator::UniqueJoin(_, a) => lemma_describe_at(a, a@.len(), i),
        ThingIterator::Multiples(a) => lemma_describe_at(a, a@.len(), i),
        _ => {},
    }
}

/// What was built is described as it came out: an iterator, none, or an error.
pub proof fn law_outcome_is_described(
    r: Result<Option<ThingIterator>, Error>,
    one: Result<ThingIterator, Error>,
)
    ensures
        r matches Err(e) ==> built(r) == Built::Err(e),
        r is Ok && r->Ok_0 is None ==> built(r) == Built::Ok(None),
        r is Ok && r->Ok_0 is Some ==> built(r) == Built::Ok(Some(r->Ok_0->0.describe())),
        one matches Err(e) ==> built_one(one) == Built::Err(e),
        one matches Ok(it) ==> built_one(one) == Built::Ok(Some(it.describe())),
{
}

/// The results for options one after the other: each may come of its option, only the last may be
/// an error, and without an error there is one for each option. Gathered, they are the iterators
/// among them in their order, or that error.
pub proof fn law_results_are_gathered(
    q: QueryExecutor,
    opt: Options,
    irf: IteratorRef,
    ios: Seq<IndexOption>,
    rs: Seq<Built>,
)
    ensures
        builds_each(q, opt, irf, ios, rs) <==> {
            &&& rs.len() <= ios.len()
            &&& rs.len() < ios.len() ==> rs.len() > 0 && rs.last() is Err
            &&& forall|i: int| 0 <= i < rs.len() - 1 ==> #[trigger] rs[i] is Ok
            &&& forall|i: int| 0 <= i < rs.len() ==> builds(q, opt, irf, ios[i], #[trigger] rs[i])
        },
        rs.len() > 0 && rs.last() is Err ==> gathered(rs) == Err::<Seq<IteratorView>, Error>(
            rs.last()->Err_0,
        ),
        rs.len() == 0 || rs.last() is Ok ==> gathered(rs) == Ok::<Seq<IteratorView>, Error>(
            rs.filter(|r: Built| is_some_built(r)).map_values(|r: Built| r->Ok_0->0),
        ),
{
    lemma_collected(rs);
}

} // verus!
