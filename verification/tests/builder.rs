use index_executor::builder::{
    Answered, ExecutorBuilder, HnswIndex, HnswTarget, MTreeIndex, Reply, Request, Target,
};
use index_executor::executor::{
    FtIndex, FtQuery, InnerQueryExecutor, KnnBruteForceExpression, QueryExecutor, TermsSet,
};
use index_executor::plan::{
    Cond, DefineIndexStatement, Distance, Error, Expression, HnswParams, Idiom, IdiomPosition,
    Index, IndexOperator, IndexOption, IndexReference, MTreeParams, Options, SearchParams,
    VectorType,
};
use index_executor::value::{Number, Value};
use std::collections::{HashSet, VecDeque};
use std::sync::Arc;

fn options() -> Options {
    Options {
        ns: Some(Arc::new("test_ns".to_string())),
        db: Some(Arc::new("test_db".to_string())),
        reverse_scan: false,
    }
}

fn nowhere() -> Options {
    Options { ns: None, db: None, reverse_scan: false }
}

fn index(idx: usize, index: Index) -> IndexReference {
    IndexReference {
        idx,
        def: Arc::new(DefineIndexStatement {
            name: format!("ix{}", idx),
            what: "person".to_string(),
            cols: vec![Idiom("name".to_string())],
            index,
        }),
    }
}

fn option(ixr: IndexReference, operator: IndexOperator) -> IndexOption {
    IndexOption {
        ixr,
        id: None,
        id_pos: IdiomPosition::Left,
        operator: Arc::new(operator),
        explanation: Value::Null,
    }
}

fn expression(key: u64) -> Arc<Expression> {
    Arc::new(Expression { key, sql: format!("e{}", key) })
}

fn mtree() -> Index {
    Index::MTree(MTreeParams {
        dimension: 2,
        distance: Distance::Euclidean,
        vector_type: VectorType::F64,
        capacity: 40,
    })
}

fn hnsw() -> Index {
    Index::Hnsw(HnswParams {
        dimension: 2,
        distance: Distance::Cosine,
        vector_type: VectorType::F32,
        m: 12,
        m0: 24,
        ef_construction: 150,
        extend_candidates: false,
        keep_pruned_connections: false,
        ml: Number::Float(0.4f64.to_bits()),
    })
}

fn search() -> Index {
    Index::Search(SearchParams { az: "simple".to_string() })
}

fn matches(idx: usize, text: &str, mr: Option<u8>) -> IndexOption {
    option(index(idx, search()), IndexOperator::Matches(text.to_string(), mr))
}

fn vector() -> Arc<Vec<Number>> {
    Arc::new(vec![Number::Int(1), Number::Int(2)])
}

fn query() -> FtQuery {
    FtQuery {
        terms_set: TermsSet { set: HashSet::from([1]), has_unknown_terms: false },
        terms_list: vec![Some(1)],
        terms_docs: Arc::new(vec![Some((1, HashSet::from([7])))]),
        scorer: None,
    }
}

fn found(handle: u64) -> Reply {
    Reply::FullText { ft: FtIndex { handle }, query: Some(query()) }
}

fn make(opt: Options, ios: Vec<Answered>) -> Result<QueryExecutor, Error> {
    match InnerQueryExecutor::new(opt, "person".to_string(), ios, Vec::new(), None) {
        Ok(inner) => Ok(QueryExecutor::from(inner)),
        Err(e) => Err(e),
    }
}

fn failure(r: Result<QueryExecutor, Error>) -> Error {
    match r {
        Err(e) => e,
        Ok(_) => panic!("no error"),
    }
}

#[test]
fn nothing_planned_gives_an_empty_executor() {
    let q = make(nowhere(), Vec::new()).ok().unwrap();
    assert!(q.0.exp_entries.is_empty());
    assert!(q.0.it_entries.is_empty());
    assert!(q.is_table("person"));
}

#[test]
fn full_text_index_is_opened_once() {
    let mut builder = ExecutorBuilder::new(options(), "person".to_string(), None);
    let first = matches(3, "hello", Some(1));
    assert_eq!(
        builder.request(&first),
        Ok(Request::FullText {
            target: Target::ToOpen {
                ns: Arc::new("test_ns".to_string()),
                db: Arc::new("test_db".to_string()),
                ix: index(3, search()),
            },
            text: Some("hello".to_string()),
        })
    );
    assert_eq!(builder.take_reply(&expression(1), first, found(9)), Ok(()));
    assert_eq!(
        builder.request(&matches(3, "world", Some(2))),
        Ok(Request::FullText {
            target: Target::Opened(FtIndex { handle: 9 }),
            text: Some("world".to_string()),
        })
    );
}

#[test]
fn other_operator_opens_the_full_text_index_too() {
    let mut builder = ExecutorBuilder::new(options(), "person".to_string(), None);
    let io = option(index(3, search()), IndexOperator::Order(false));
    match builder.request(&io) {
        Ok(Request::FullText { target: Target::ToOpen { .. }, text }) => assert_eq!(text, None),
        other => panic!("{:?}", other),
    }
    let reply = Reply::FullText { ft: FtIndex { handle: 9 }, query: None };
    assert_eq!(builder.take_reply(&expression(1), io, reply), Ok(()));
    let inner = builder.finish(Vec::new());
    assert!(inner.exp_entries.is_empty());
    assert_eq!(inner.ft_map.get(&3), Some(&FtIndex { handle: 9 }));
}

#[test]
fn mtree_is_opened_once_and_searched_with_the_condition() {
    let cond = Some(Arc::new(Cond(Expression { key: 8, sql: "age > 3".to_string() })));
    let mut builder = ExecutorBuilder::new(options(), "person".to_string(), cond.clone());
    let io = option(index(3, mtree()), IndexOperator::Knn(vector(), 5));
    assert_eq!(
        builder.request(&io),
        Ok(Request::MTree {
            target: Target::ToOpen {
                ns: Arc::new("test_ns".to_string()),
                db: Arc::new("test_db".to_string()),
                ix: index(3, mtree()),
            },
            vector: vector(),
            k: 5,
            cond: cond.clone(),
        })
    );
    let reply = Reply::MTree { mt: MTreeIndex { handle: 4 }, res: Arc::new(VecDeque::new()) };
    assert_eq!(builder.take_reply(&expression(1), io.clone(), reply), Ok(()));
    assert_eq!(
        builder.request(&io),
        Ok(Request::MTree {
            target: Target::Opened(MTreeIndex { handle: 4 }),
            vector: vector(),
            k: 5,
            cond,
        })
    );
    assert!(builder.finish(Vec::new()).mt_entries.contains_key(&1));
}

#[test]
fn hnsw_graph_is_opened_once() {
    let mut builder = ExecutorBuilder::new(nowhere(), "person".to_string(), None);
    let io = option(index(3, hnsw()), IndexOperator::Ann(vector(), 5, 40));
    assert_eq!(
        builder.request(&io),
        Ok(Request::Hnsw {
            target: HnswTarget::ToOpen { opt: nowhere(), ix: index(3, hnsw()) },
            vector: vector(),
            k: 5,
            ef: 40,
            cond: None,
        })
    );
    let reply = Reply::Hnsw { hnsw: HnswIndex { handle: 6 }, res: Arc::new(VecDeque::new()) };
    assert_eq!(builder.take_reply(&expression(1), io.clone(), reply), Ok(()));
    match builder.request(&io) {
        Ok(Request::Hnsw { target, .. }) => {
            assert_eq!(target, HnswTarget::Opened(HnswIndex { handle: 6 }))
        }
        other => panic!("{:?}", other),
    }
    assert!(builder.finish(Vec::new()).hnsw_entries.contains_key(&1));
}

#[test]
fn options_that_need_no_entry_are_skipped() {
    let builder = ExecutorBuilder::new(nowhere(), "person".to_string(), None);
    for (kind, operator) in [
        (Index::Idx, IndexOperator::Equality(Value::Null)),
        (Index::Uniq, IndexOperator::Order(true)),
        (mtree(), IndexOperator::Order(true)),
        (hnsw(), IndexOperator::Knn(vector(), 5)),
        (mtree(), IndexOperator::Ann(vector(), 5, 5)),
    ] {
        assert_eq!(builder.request(&option(index(0, kind), operator)), Ok(Request::Skip));
    }
}

#[test]
fn entries_are_those_of_the_options() {
    let q = make(
        options(),
        vec![
            (expression(1), matches(3, "hello", Some(1)), found(9)),
            (expression(2), matches(3, "world", None), found(9)),
            (
                expression(3),
                option(index(4, Index::Idx), IndexOperator::Order(false)),
                Reply::Skipped,
            ),
        ],
    )
    .ok()
    .unwrap();
    assert_eq!(q.0.exp_entries.len(), 2);
    assert_eq!(q.0.mr_entries.len(), 1);
    let one = Value::Number(Number::Int(1));
    let (entry, ft) = q.get_ft_entry_and_index(&one).unwrap();
    assert_eq!(*ft, FtIndex { handle: 9 });
    assert_eq!(entry.0.ft, *ft);
    assert_eq!(entry.0.index_option, matches(3, "hello", Some(1)));
    assert!(q.get_ft_entry(&Value::Number(Number::Int(2))).is_none());
    assert!(q.get_ft_entry(&Value::Bool(true)).is_none());
}

#[test]
fn skipped_options_change_nothing() {
    let skipped = || {
        vec![
            option(index(6, Index::Idx), IndexOperator::Equality(Value::Null)),
            option(index(7, Index::Uniq), IndexOperator::Order(true)),
            option(index(8, mtree()), IndexOperator::Order(true)),
            option(index(9, hnsw()), IndexOperator::Knn(vector(), 5)),
        ]
    };
    let mut ios: Vec<Answered> = Vec::new();
    for io in skipped() {
        ios.push((expression(1), io, Reply::Skipped));
    }
    ios.push((expression(1), matches(3, "hello", Some(1)), found(9)));
    for io in skipped() {
        ios.push((expression(1), io, Reply::Skipped));
    }
    let q = make(options(), ios).ok().unwrap();
    assert_eq!(q.0.exp_entries.len(), 1);
    assert_eq!(q.0.mr_entries.len(), 1);
    assert_eq!(q.0.ft_map.len(), 1);
    assert!(q.0.mt_entries.is_empty() && q.0.hnsw_entries.is_empty());
    let ios = skipped().into_iter().map(|io| (expression(1), io, Reply::Skipped)).collect();
    assert!(make(nowhere(), ios).is_ok());
}

#[test]
fn last_option_of_an_expression_counts() {
    let q = make(
        options(),
        vec![
            (expression(1), matches(3, "hello", Some(1)), found(9)),
            (expression(1), matches(3, "world", Some(2)), found(9)),
        ],
    )
    .ok()
    .unwrap();
    assert_eq!(q.0.exp_entries.get(&1).unwrap().0.index_option, matches(3, "world", Some(2)));
    assert_eq!(q.0.mr_entries.len(), 2);
}

#[test]
fn duplicated_match_reference_is_refused() {
    let r = make(
        options(),
        vec![
            (expression(1), matches(3, "hello", Some(1)), found(9)),
            (expression(2), matches(3, "world", Some(2)), found(9)),
            (expression(3), matches(4, "again", Some(1)), found(10)),
            (expression(4), matches(4, "twice", Some(2)), found(10)),
        ],
    );
    assert_eq!(failure(r), Error::DuplicatedMatchRef { mr: 1 });
}

#[test]
fn operators_without_reference_do_not_clash() {
    let r = make(
        options(),
        vec![
            (expression(1), matches(3, "hello", None), found(9)),
            (expression(2), matches(3, "world", None), found(9)),
        ],
    );
    assert_eq!(r.ok().unwrap().0.exp_entries.len(), 2);
}

#[test]
fn failed_reply_ends_the_making() {
    let failed = Error::Backend { message: "gone".to_string() };
    let r = make(
        options(),
        vec![
            (expression(1), matches(3, "hello", Some(1)), found(9)),
            (
                expression(2),
                matches(3, "world", Some(1)),
                Reply::Failed(Error::Backend { message: "gone".to_string() }),
            ),
        ],
    );
    assert_eq!(failure(r), failed);
}

#[test]
fn missing_selection_ends_the_making() {
    let r = make(nowhere(), vec![(expression(1), matches(3, "hello", Some(1)), found(9))]);
    assert_eq!(failure(r), Error::NsEmpty);
    let mut opt = options();
    opt.db = None;
    let io = option(index(3, mtree()), IndexOperator::Knn(vector(), 5));
    let reply = Reply::MTree { mt: MTreeIndex { handle: 4 }, res: Arc::new(VecDeque::new()) };
    assert_eq!(failure(make(opt, vec![(expression(1), io, reply)])), Error::DbEmpty);
}

#[test]
fn bruteforce_operators_become_entries() {
    let kbtes = vec![
        (
            1,
            KnnBruteForceExpression::new(2, Idiom("a".to_string()), vector(), Distance::Euclidean),
        ),
        (
            2,
            KnnBruteForceExpression::new(3, Idiom("b".to_string()), vector(), Distance::Cosine),
        ),
        (
            1,
            KnnBruteForceExpression::new(4, Idiom("c".to_string()), vector(), Distance::Hamming),
        ),
    ];
    let inner =
        InnerQueryExecutor::new(nowhere(), "person".to_string(), Vec::new(), kbtes, None).unwrap_or_else(
            |e| panic!("{:?}", e),
        );
    assert_eq!(inner.knn_bruteforce_entries.len(), 2);
    let entry = inner.knn_bruteforce_entries.get(&1).unwrap();
    assert_eq!(entry.list.k, 4);
    assert_eq!(entry.id, Idiom("c".to_string()));
    assert_eq!(entry.d, Distance::Hamming);
    assert_eq!(inner.knn_bruteforce_entries.get(&2).unwrap().list.k, 3);
    assert!(QueryExecutor::from(inner).has_bruteforce_knn());
}
