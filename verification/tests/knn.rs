use index_executor::executor::{
    InnerQueryExecutor, KnnBruteForceExpression, QueryExecutor, Step,
};
use index_executor::knn::{
    IterationStage, KnnBruteForceResult, KnnBruteForceResults, KnnRecord,
};
use index_executor::plan::{Distance, Expression, Idiom, Options, Thing};
use index_executor::value::{Number, Value};
use std::collections::HashMap;
use std::sync::Arc;

fn thing(id: &str) -> Thing {
    Thing { tb: "person".to_string(), id: id.to_string() }
}

fn expression(key: u64) -> Expression {
    Expression { key, sql: format!("e{}", key) }
}

fn executor(keys: &[u64]) -> QueryExecutor {
    let kbtes = keys
        .iter()
        .map(|key| {
            let obj = Arc::new(vec![Number::Int(*key as i64)]);
            let id = Idiom(format!("point{}", key));
            (*key, KnnBruteForceExpression::new(2, id, obj, Distance::Euclidean))
        })
        .collect();
    let opt = Options { ns: None, db: None, reverse_scan: false };
    match InnerQueryExecutor::new(opt, "person".to_string(), Vec::new(), kbtes, None) {
        Ok(inner) => QueryExecutor::from(inner),
        Err(e) => panic!("{:?}", e),
    }
}

fn record(id: &str) -> KnnRecord {
    KnnRecord { thing: thing(id), dist: Number::Int(1) }
}

fn result(key: u64, ids: &[&str]) -> KnnBruteForceResult {
    let records = ids.iter().map(|id| record(id)).collect::<Vec<_>>();
    KnnBruteForceResult { records: HashMap::from([(key, Arc::new(records))]) }
}

fn answer(q: &QueryExecutor, stage: &IterationStage, id: &str, key: u64) -> Value {
    match q.knn(Some(stage), &thing(id), &expression(key)) {
        Step::Done(v) => v,
        Step::Ask(_) => panic!("asked"),
    }
}

#[test]
fn records_are_measured_in_the_first_pass() {
    let q = executor(&[1]);
    for stage in [None, Some(&IterationStage::CollectKnn), Some(&IterationStage::BuildKnn)] {
        match q.knn(stage, &thing("a"), &expression(1)) {
            Step::Ask(question) => {
                assert_eq!(question.entry.id, Idiom("point1".to_string()));
                assert_eq!(question.entry.obj, Arc::new(vec![Number::Int(1)]));
                assert_eq!(question.entry.d, Distance::Euclidean);
                assert_eq!(question.entry.list.k, 2);
            }
            Step::Done(_) => panic!("not measured"),
        }
        match q.knn(stage, &thing("a"), &expression(2)) {
            Step::Done(v) => assert_eq!(v, Value::Bool(false)),
            Step::Ask(_) => panic!("measured"),
        }
    }
}

#[test]
fn measured_records_are_kept() {
    let (value, kept) = QueryExecutor::knn_with_distance(&thing("a"), Some(Number::Int(3)));
    assert_eq!(value, Value::Bool(true));
    assert_eq!(kept, Some(KnnRecord { thing: thing("a"), dist: Number::Int(3) }));
    let (value, kept) = QueryExecutor::knn_with_distance(&thing("a"), None);
    assert_eq!(value, Value::Bool(false));
    assert_eq!(kept, None);
}

#[test]
fn second_pass_without_results_finds_nothing() {
    let q = executor(&[1]);
    assert_eq!(answer(&q, &IterationStage::Iterate(None), "a", 1), Value::Bool(false));
    let empty = IterationStage::Iterate(Some(KnnBruteForceResults(Vec::new())));
    assert_eq!(answer(&q, &empty, "a", 1), Value::Bool(false));
}

#[test]
fn second_pass_finds_what_was_kept() {
    let q = executor(&[1, 2]);
    let built = HashMap::from([
        (1, Arc::new(vec![record("a"), record("b")])),
        (7, Arc::new(vec![record("c")])),
    ]);
    let result = q.build_bruteforce_knn_result(&built);
    assert_eq!(result.records.len(), 2);
    assert_eq!(result.records.get(&1).unwrap().len(), 2);
    assert!(result.records.get(&2).unwrap().is_empty());
    let stage = IterationStage::Iterate(Some(KnnBruteForceResults(vec![result])));
    assert_eq!(answer(&q, &stage, "a", 1), Value::Bool(true));
    assert_eq!(answer(&q, &stage, "b", 1), Value::Bool(true));
    assert_eq!(answer(&q, &stage, "c", 1), Value::Bool(false));
    assert_eq!(answer(&q, &stage, "a", 2), Value::Bool(false));
    assert_eq!(answer(&q, &stage, "c", 7), Value::Bool(false));
}

#[test]
fn results_of_several_executors_are_joined() {
    let results = KnnBruteForceResults(vec![result(1, &["a"]), result(1, &["b"]), result(2, &["c"])]);
    assert!(results.contains(&expression(1), &thing("a")));
    assert!(results.contains(&expression(1), &thing("b")));
    assert!(!results.contains(&expression(1), &thing("c")));
    assert!(results.contains(&expression(2), &thing("c")));
    let other_table = Thing { tb: "animal".to_string(), id: "a".to_string() };
    assert!(!results.contains(&expression(1), &other_table));
}

#[test]
fn executor_without_operators_builds_an_empty_result() {
    let q = executor(&[]);
    assert!(!q.has_bruteforce_knn());
    assert!(q.build_bruteforce_knn_result(&HashMap::new()).records.is_empty());
}
