use index_executor::builder::ExecutorBuilder;
use index_executor::executor::{
    FtEntry, FtIndex, FtQuery, HnswEntry, InnerQueryExecutor, IteratorEntry, KnnIteratorResult,
    MtEntry, QueryExecutor, TermsSet,
};
use index_executor::iterators::ThingIterator;
use index_executor::plan::{
    DefineIndexStatement, Distance, Error, Expression, HnswParams, Idiom, IdiomPosition, Index,
    IndexOperator, IndexOption, IndexReference, MTreeParams, Options, SearchParams, Thing,
    ValueType, VectorType,
};
use index_executor::value::{Array, Number, RangeValue, Value};
use std::collections::{HashSet, VecDeque};
use std::sync::Arc;

fn integer(i: i64) -> Value {
    Value::Number(Number::Int(i))
}

fn text(s: &str) -> Value {
    Value::Strand(s.to_string())
}

fn array(items: Vec<Value>) -> Array {
    Array::from(items)
}

fn options() -> Options {
    Options {
        ns: Some(Arc::new("test_ns".to_string())),
        db: Some(Arc::new("test_db".to_string())),
        reverse_scan: false,
    }
}

fn no_database() -> Options {
    Options { ns: Some(Arc::new("test_ns".to_string())), db: None, reverse_scan: true }
}

fn index(idx: usize, index: Index, cols: usize) -> IndexReference {
    IndexReference {
        idx,
        def: Arc::new(DefineIndexStatement {
            name: format!("ix{}", idx),
            what: "person".to_string(),
            cols: (0..cols).map(|c| Idiom(format!("col{}", c))).collect(),
            index,
        }),
    }
}

fn option(ixr: IndexReference, operator: IndexOperator) -> IndexOption {
    IndexOption {
        ixr,
        id: Some(Arc::new(Idiom("name".to_string()))),
        id_pos: IdiomPosition::Left,
        operator: Arc::new(operator),
        explanation: text("explained"),
    }
}

fn expression(key: u64) -> Arc<Expression> {
    Arc::new(Expression { key, sql: format!("e{}", key) })
}

fn empty() -> InnerQueryExecutor {
    ExecutorBuilder::new(options(), "person".to_string(), None).inner
}

fn single(io: IndexOption) -> QueryExecutor {
    let mut inner = empty();
    assert_eq!(inner.add_iterator(IteratorEntry::Single(Some(expression(1)), io)), 0);
    QueryExecutor::from(inner)
}

fn build(io: IndexOption, opt: &Options) -> Result<Option<ThingIterator>, Error> {
    single(io).new_iterator(opt, 0)
}

fn some(r: Result<Option<ThingIterator>, Error>) -> ThingIterator {
    match r {
        Ok(Some(it)) => it,
        Ok(None) => panic!("no iterator"),
        Err(e) => panic!("{:?}", e),
    }
}

fn error(r: Result<Option<ThingIterator>, Error>) -> Error {
    match r {
        Err(e) => e,
        Ok(_) => panic!("no error"),
    }
}

fn mtree() -> Index {
    Index::MTree(MTreeParams {
        dimension: 2,
        distance: Distance::Euclidean,
        vector_type: VectorType::F64,
        capacity: 40,
    })
}

fn hnsw() -> Index {
    Index::Hnsw(HnswParams {
        dimension: 2,
        distance: Distance::Cosine,
        vector_type: VectorType::F32,
        m: 12,
        m0: 24,
        ef_construction: 150,
        extend_candidates: false,
        keep_pruned_connections: false,
        ml: Number::Float(0.4f64.to_bits()),
    })
}

fn search() -> Index {
    Index::Search(SearchParams { az: "simple".to_string() })
}

fn query() -> FtQuery {
    FtQuery {
        terms_set: TermsSet { set: HashSet::from([1]), has_unknown_terms: false },
        terms_list: vec![Some(1)],
        terms_docs: Arc::new(vec![Some((1, HashSet::from([7])))]),
        scorer: None,
    }
}

#[test]
fn unknown_iterator_is_none() {
    let q = QueryExecutor::from(empty());
    assert!(matches!(q.new_iterator(&options(), 0), Ok(None)));
}

#[test]
fn equality_with_one_key() {
    let io = option(index(0, Index::Idx, 1), IndexOperator::Equality(text("x")));
    match some(build(io, &options())) {
        ThingIterator::IndexEqual(scan, key) => {
            assert_eq!(scan.irf, 0);
            assert_eq!(*scan.ns, "test_ns");
            assert_eq!(*scan.db, "test_db");
            assert_eq!(scan.ix.def.name, "ix0");
            assert_eq!(key, array(vec![text("x")]));
        }
        _ => panic!("another iterator"),
    }
}

#[test]
fn equality_with_several_keys() {
    let io = option(index(0, Index::Idx, 1), IndexOperator::Equality(integer(1)));
    match some(build(io, &options())) {
        ThingIterator::IndexUnion(_, keys) => {
            assert_eq!(keys, QueryExecutor::get_equal_variants_from_value(&integer(1)));
            assert!(keys.contains(&array(vec![integer(1)])));
        }
        _ => panic!("another iterator"),
    }
    let io = option(index(0, Index::Uniq, 1), IndexOperator::Equality(integer(1)));
    match some(build(io, &options())) {
        ThingIterator::UniqueUnion(source, keys) => {
            assert_eq!(source.opt, options());
            assert_eq!(keys.len(), 3);
        }
        _ => panic!("another iterator"),
    }
}

#[test]
fn equality_on_a_unique_index() {
    let io = option(index(0, Index::Uniq, 1), IndexOperator::Equality(text("x")));
    assert!(matches!(some(build(io, &options())), ThingIterator::UniqueEqual(_, _)));
    let io = option(index(0, Index::Uniq, 2), IndexOperator::Equality(text("x")));
    assert!(matches!(some(build(io, &options())), ThingIterator::IndexEqual(_, _)));
}

#[test]
fn union_reads_every_value() {
    let values = Value::Array(array(vec![text("x"), integer(2)]));
    let io = option(index(0, Index::Idx, 1), IndexOperator::Union(values.clone()));
    match some(build(io, &options())) {
        ThingIterator::IndexUnion(_, keys) => {
            assert_eq!(keys.len(), 4);
            assert!(keys.contains(&array(vec![text("x")])));
            assert!(keys.contains(&array(vec![integer(2)])));
        }
        _ => panic!("another iterator"),
    }
    let io = option(index(0, Index::Uniq, 1), IndexOperator::Union(values));
    assert!(matches!(some(build(io, &options())), ThingIterator::UniqueUnion(_, _)));
    let io = option(index(0, Index::Idx, 1), IndexOperator::Union(text("x")));
    match some(build(io, &options())) {
        ThingIterator::IndexUnion(_, keys) => assert_eq!(keys, Vec::new()),
        _ => panic!("another iterator"),
    }
}

#[test]
fn order_walks_the_whole_index() {
    let io = option(index(0, Index::Idx, 1), IndexOperator::Order(false));
    assert!(matches!(some(build(io, &options())), ThingIterator::IndexRange(_, None)));
    let io = option(index(0, Index::Uniq, 1), IndexOperator::Order(false));
    assert!(matches!(some(build(io, &options())), ThingIterator::UniqueRange(_, None)));
}

#[test]
fn reverse_order_depends_on_the_store() {
    let mut opt = options();
    let io = option(index(0, Index::Idx, 1), IndexOperator::Order(true));
    assert!(matches!(build(io.clone(), &opt), Ok(None)));
    let unique = option(index(0, Index::Uniq, 1), IndexOperator::Order(true));
    assert!(matches!(build(unique.clone(), &opt), Ok(None)));
    opt.reverse_scan = true;
    assert!(matches!(some(build(io, &opt)), ThingIterator::IndexRangeReverse(_)));
    assert!(matches!(some(build(unique, &opt)), ThingIterator::UniqueRangeReverse(_)));
}

#[test]
fn join_passes_over_options_without_iterator() {
    let ios = vec![
        option(index(1, Index::Idx, 1), IndexOperator::Equality(text("x"))),
        option(index(2, Index::Idx, 1), IndexOperator::RangePart(text("y"))),
        option(index(3, Index::Uniq, 1), IndexOperator::Equality(text("z"))),
    ];
    let io = option(index(0, Index::Idx, 1), IndexOperator::Join(ios));
    match some(build(io, &options())) {
        ThingIterator::IndexJoin(source, its) => {
            assert_eq!(source.ix.idx, 0);
            assert_eq!(its.len(), 2);
            assert!(matches!(its[0], ThingIterator::IndexEqual(_, _)));
            assert!(matches!(its[1], ThingIterator::UniqueEqual(_, _)));
        }
        _ => panic!("another iterator"),
    }
    let io = option(index(0, Index::Uniq, 1), IndexOperator::Join(Vec::new()));
    match some(build(io, &options())) {
        ThingIterator::UniqueJoin(_, its) => assert!(its.is_empty()),
        _ => panic!("another iterator"),
    }
}

#[test]
fn join_fails_with_its_first_error() {
    let ios = vec![
        option(index(1, Index::Idx, 1), IndexOperator::RangePart(text("y"))),
        option(index(2, Index::Idx, 1), IndexOperator::Equality(text("x"))),
    ];
    let io = option(index(0, Index::Idx, 1), IndexOperator::Join(ios));
    assert_eq!(error(build(io, &no_database())), Error::DbEmpty);
}

#[test]
fn selection_of_a_database_is_needed() {
    let nowhere = Options { ns: None, db: None, reverse_scan: false };
    let io = option(index(0, Index::Idx, 1), IndexOperator::Equality(text("x")));
    assert_eq!(error(build(io.clone(), &nowhere)), Error::NsEmpty);
    assert_eq!(error(build(io, &no_database())), Error::DbEmpty);
    let io = option(index(0, Index::Idx, 1), IndexOperator::Order(true));
    assert_eq!(error(build(io, &no_database())), Error::DbEmpty);
}

#[test]
fn operators_that_an_index_does_not_serve() {
    for operator in [
        IndexOperator::RangePart(integer(1)),
        IndexOperator::Matches("x".to_string(), None),
        IndexOperator::Knn(Arc::new(Vec::new()), 1),
        IndexOperator::Ann(Arc::new(Vec::new()), 1, 1),
    ] {
        let operator = Arc::new(operator);
        let mut io = option(index(0, Index::Idx, 1), IndexOperator::Order(false));
        io.operator = operator.clone();
        assert!(matches!(build(io, &options()), Ok(None)));
        let mut io = option(index(0, Index::Uniq, 1), IndexOperator::Order(false));
        io.operator = operator;
        assert!(matches!(build(io, &options()), Ok(None)));
    }
}

fn ranged(kind: Index, from: RangeValue, to: RangeValue) -> QueryExecutor {
    let mut inner = empty();
    inner.add_iterator(IteratorEntry::Range(HashSet::from([1, 2]), index(0, kind, 1), from, to));
    QueryExecutor::from(inner)
}

#[test]
fn range_over_texts_is_read_at_once() {
    let from = RangeValue { value: text("a"), inclusive: true };
    let to = RangeValue { value: Value::Absent, inclusive: false };
    let q = ranged(Index::Idx, from.clone(), to.clone());
    match some(q.new_iterator(&options(), 0)) {
        ThingIterator::IndexRange(_, Some(range)) => {
            assert_eq!(range.value_type, ValueType::Unspecified);
            assert_eq!(range.from, from);
            assert_eq!(range.to, to);
        }
        _ => panic!("another iterator"),
    }
    let q = ranged(Index::Uniq, from, to);
    assert!(matches!(
        some(q.new_iterator(&options(), 0)),
        ThingIterator::UniqueRange(_, Some(_))
    ));
}

#[test]
fn range_over_numbers_is_read_by_kinds() {
    let from = RangeValue { value: integer(1), inclusive: true };
    let to = RangeValue { value: integer(5), inclusive: false };
    let q = ranged(Index::Idx, from.clone(), to.clone());
    match some(q.new_iterator(&options(), 0)) {
        ThingIterator::Multiples(its) => {
            assert_eq!(its.len(), 3);
            for it in its.iter() {
                assert!(matches!(it, ThingIterator::IndexRange(_, Some(_))));
            }
        }
        _ => panic!("another iterator"),
    }
    let q = ranged(Index::Uniq, from.clone(), to.clone());
    match some(q.new_iterator(&options(), 0)) {
        ThingIterator::Multiples(its) => {
            for it in its.iter() {
                assert!(matches!(it, ThingIterator::UniqueRange(_, Some(_))));
            }
        }
        _ => panic!("another iterator"),
    }
    let q = ranged(Index::Idx, from, to);
    assert_eq!(error(q.new_iterator(&no_database(), 0)), Error::DbEmpty);
}

#[test]
fn range_with_a_single_kind() {
    let from = RangeValue { value: Value::Number(Number::Float(1e30f64.to_bits())), inclusive: true };
    let to = RangeValue { value: Value::Absent, inclusive: false };
    let q = ranged(Index::Idx, from.clone(), to.clone());
    match some(q.new_iterator(&options(), 0)) {
        ThingIterator::IndexRange(_, Some(range)) => {
            assert_eq!(range.value_type, ValueType::NumberFloat)
        }
        _ => panic!("another iterator"),
    }
    let q = ranged(Index::Uniq, from, to);
    assert!(matches!(
        some(q.new_iterator(&options(), 0)),
        ThingIterator::UniqueRange(_, Some(_))
    ));
}

#[test]
fn other_indexes_have_no_ranges() {
    let end = RangeValue { value: integer(1), inclusive: true };
    for kind in [search(), mtree(), hnsw()] {
        let q = ranged(kind, end.clone(), end.clone());
        assert!(matches!(q.new_iterator(&no_database(), 0), Ok(None)));
    }
}

#[test]
fn search_iterator_reads_the_entry() {
    let io = option(index(4, search(), 1), IndexOperator::Matches("hello".to_string(), Some(1)));
    let ft = FtIndex { handle: 11 };
    let mut inner = empty();
    inner.ft_map.insert(4, ft);
    inner.exp_entries.insert(1, FtEntry::new(ft, io.clone(), query()).unwrap());
    inner.add_iterator(IteratorEntry::Single(Some(expression(1)), io.clone()));
    inner.add_iterator(IteratorEntry::Single(None, io.clone()));
    inner.add_iterator(IteratorEntry::Single(Some(expression(2)), io));
    let q = QueryExecutor::from(inner);
    match some(q.new_iterator(&options(), 0)) {
        ThingIterator::Matches(irf, found, docs) => {
            assert_eq!(irf, 0);
            assert_eq!(found, ft);
            assert_eq!(*docs, vec![Some((1, HashSet::from([7])))]);
        }
        _ => panic!("another iterator"),
    }
    assert!(matches!(q.new_iterator(&options(), 1), Ok(None)));
    assert!(matches!(q.new_iterator(&options(), 2), Ok(None)));
}

#[test]
fn nearest_neighbours_are_those_found() {
    let res = Arc::new(VecDeque::from([KnnIteratorResult {
        thing: Thing { tb: "person".to_string(), id: "1".to_string() },
        dist: 2.0f64.to_bits(),
        record: None,
    }]));
    let mut inner = empty();
    inner.mt_entries.insert(1, MtEntry::new(res.clone()));
    inner.hnsw_entries.insert(2, HnswEntry::new(Arc::new(VecDeque::new())));
    let tree = option(index(5, mtree(), 1), IndexOperator::Knn(Arc::new(Vec::new()), 3));
    let graph = option(index(6, hnsw(), 1), IndexOperator::Ann(Arc::new(Vec::new()), 3, 9));
    inner.add_iterator(IteratorEntry::Single(Some(expression(1)), tree.clone()));
    inner.add_iterator(IteratorEntry::Single(Some(expression(2)), graph.clone()));
    inner.add_iterator(IteratorEntry::Single(Some(expression(2)), tree));
    inner.add_iterator(IteratorEntry::Single(Some(expression(1)), graph));
    let q = QueryExecutor::from(inner);
    match some(q.new_iterator(&options(), 0)) {
        ThingIterator::Knn(irf, found) => {
            assert_eq!(irf, 0);
            assert_eq!(found, res);
        }
        _ => panic!("another iterator"),
    }
    match some(q.new_iterator(&options(), 1)) {
        ThingIterator::Knn(_, found) => assert!(found.is_empty()),
        _ => panic!("another iterator"),
    }
    assert!(matches!(q.new_iterator(&options(), 2), Ok(None)));
    assert!(matches!(q.new_iterator(&options(), 3), Ok(None)));
}

#[test]
fn iterators_are_found_by_their_reference() {
    let io = option(index(0, Index::Idx, 1), IndexOperator::Equality(text("x")));
    let mut inner = empty();
    assert_eq!(inner.add_iterator(IteratorEntry::Single(Some(expression(1)), io.clone())), 0);
    assert_eq!(inner.add_iterator(IteratorEntry::Single(None, io)), 1);
    let end = RangeValue { value: integer(1), inclusive: true };
    let entry = IteratorEntry::Range(HashSet::from([3, 4]), index(1, Index::Idx, 1), end.clone(), end);
    assert_eq!(inner.add_iterator(entry), 2);
    let q = QueryExecutor::from(inner);
    assert!(q.is_iterator_expression(0, &expression(1)));
    assert!(!q.is_iterator_expression(0, &expression(2)));
    assert!(!q.is_iterator_expression(1, &expression(1)));
    assert!(q.is_iterator_expression(2, &expression(4)));
    assert!(!q.is_iterator_expression(2, &expression(1)));
    assert!(!q.is_iterator_expression(3, &expression(1)));
    let copy = q.clone();
    assert!(copy.is_iterator_expression(0, &expression(1)));
}

#[test]
fn further_iterator_changes_no_other() {
    let io = option(index(0, Index::Idx, 1), IndexOperator::Equality(text("x")));
    let other = option(index(1, Index::Uniq, 1), IndexOperator::Order(false));
    let mut inner = empty();
    inner.add_iterator(IteratorEntry::Single(Some(expression(1)), io));
    inner.add_iterator(IteratorEntry::Single(Some(expression(2)), other));
    let q = QueryExecutor::from(inner);
    match some(q.new_iterator(&options(), 0)) {
        ThingIterator::IndexEqual(scan, key) => {
            assert_eq!(scan.irf, 0);
            assert_eq!(key, array(vec![text("x")]));
        }
        _ => panic!("another iterator"),
    }
    match some(q.new_iterator(&options(), 1)) {
        ThingIterator::UniqueRange(scan, None) => assert_eq!(scan.irf, 1),
        _ => panic!("another iterator"),
    }
}

#[test]
fn iterators_are_explained() {
    let io = option(index(0, Index::Idx, 1), IndexOperator::Equality(text("x")));
    let mut inner = empty();
    inner.add_iterator(IteratorEntry::Single(Some(expression(1)), io));
    inner.add_iterator(IteratorEntry::Range(
        HashSet::new(),
        index(1, Index::Idx, 1),
        RangeValue { value: integer(1), inclusive: true },
        RangeValue { value: Value::Absent, inclusive: false },
    ));
    let q = QueryExecutor::from(inner);
    assert_eq!(q.explain(0), text("explained"));
    assert_eq!(q.explain(2), Value::Absent);
    let fields = |v: &Value| match v {
        Value::Object(o) => {
            o.0.iter().map(|f| (f.key.clone(), f.value.clone())).collect::<Vec<_>>()
        }
        other => panic!("{:?}", other),
    };
    let range = fields(&q.explain(1));
    assert_eq!(range.len(), 3);
    assert_eq!(range[0].0, "from");
    assert_eq!(
        fields(&range[0].1),
        vec![
            ("inclusive".to_string(), Value::Bool(true)),
            ("value".to_string(), integer(1))
        ]
    );
    assert_eq!(range[1], ("index".to_string(), text("ix1")));
    assert_eq!(range[2].0, "to");
    assert_eq!(
        fields(&range[2].1),
        vec![
            ("inclusive".to_string(), Value::Bool(false)),
            ("value".to_string(), Value::Absent)
        ]
    );
}

#[test]
fn executor_knows_its_table() {
    let q = QueryExecutor::from(empty());
    assert!(q.is_table("person"));
    assert!(!q.is_table("persons"));
    assert!(!q.is_table(""));
    assert!(!q.has_bruteforce_knn());
}
