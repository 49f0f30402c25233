use index_executor::builder::ExecutorBuilder;
use index_executor::executor::{
    FtEntry, FtIndex, FtQuery, QueryExecutor, Scorer, Step, TermDocs, TermsSet,
};
use index_executor::matching::{HighlightParams, MatchQuestion, ScoreQuestion};
use index_executor::plan::{
    DefineIndexStatement, Error, Expression, Idiom, IdiomPosition, Index, IndexOperator,
    IndexOption, IndexReference, IteratorRecord, Options, SearchParams, Thing,
};
use index_executor::value::{Number, Value};
use std::collections::HashSet;
use std::sync::Arc;

fn text(s: &str) -> Value {
    Value::Strand(s.to_string())
}

fn thing() -> Thing {
    Thing { tb: "person".to_string(), id: "tobie".to_string() }
}

fn reference(i: i64) -> Value {
    Value::Number(Number::Int(i))
}

fn expression(key: u64) -> Expression {
    Expression { key, sql: format!("name @{}@ 'x'", key) }
}

fn option(table: &str, id_pos: IdiomPosition, with_path: bool) -> IndexOption {
    IndexOption {
        ixr: IndexReference {
            idx: 3,
            def: Arc::new(DefineIndexStatement {
                name: "ix".to_string(),
                what: table.to_string(),
                cols: vec![Idiom("name".to_string())],
                index: Index::Search(SearchParams { az: "simple".to_string() }),
            }),
        },
        id: if with_path { Some(Arc::new(Idiom("name".to_string()))) } else { None },
        id_pos,
        operator: Arc::new(IndexOperator::Matches("x".to_string(), Some(1))),
        explanation: Value::Null,
    }
}

fn terms(set: &[u64], has_unknown_terms: bool) -> TermsSet {
    TermsSet { set: set.iter().copied().collect(), has_unknown_terms }
}

fn query(terms_set: TermsSet, terms_docs: Vec<TermDocs>, scorer: Option<Scorer>) -> FtQuery {
    FtQuery {
        terms_set,
        terms_list: vec![Some(1), None],
        terms_docs: Arc::new(terms_docs),
        scorer,
    }
}

fn entry(io: IndexOption, q: FtQuery) -> FtEntry {
    FtEntry::new(FtIndex { handle: 9 }, io, q).unwrap()
}

fn executor(e: FtEntry) -> QueryExecutor {
    let opt = Options { ns: None, db: None, reverse_scan: false };
    let mut inner = ExecutorBuilder::new(opt, "person".to_string(), None).inner;
    inner.ft_map.insert(3, FtIndex { handle: 9 });
    inner.mr_entries.insert(1, e.clone());
    inner.exp_entries.insert(1, e);
    QueryExecutor::from(inner)
}

fn docs(ids: &[u64]) -> TermDocs {
    Some((1, ids.iter().copied().collect::<HashSet<u64>>()))
}

#[test]
fn match_without_index_is_an_error() {
    let e = entry(option("person", IdiomPosition::Left, true), query(terms(&[1], false), vec![], None));
    let q = executor(e);
    match q.matches(&thing(), &expression(2), text("l"), text("r")) {
        Err(e) => assert_eq!(
            e,
            Error::NoIndexFoundForMatch { exp: "name @2@ 'x'".to_string() }
        ),
        Ok(_) => panic!("no error"),
    }
}

#[test]
fn match_on_the_own_table_asks_for_the_document() {
    let e = entry(option("person", IdiomPosition::Left, true), query(terms(&[1], false), vec![], None));
    let q = executor(e);
    match q.matches(&thing(), &expression(1), text("l"), text("r")) {
        Ok(Step::Ask(MatchQuestion::DocId { ft, key })) => {
            assert_eq!(ft.0.ft, FtIndex { handle: 9 });
            assert_eq!(key, b"\x01\x06person\x05tobie".to_vec());
        }
        _ => panic!("another step"),
    }
}

#[test]
fn match_on_another_table_asks_for_the_opposite_value() {
    for (pos, opposite) in [(IdiomPosition::Left, "r"), (IdiomPosition::Right, "l")] {
        let q = executor(entry(option("other", pos, true), query(terms(&[1], false), vec![], None)));
        match q.matches(&thing(), &expression(1), text("l"), text("r")) {
            Ok(Step::Ask(MatchQuestion::Terms { value, .. })) => assert_eq!(value, text(opposite)),
            _ => panic!("another step"),
        }
    }
    let q = executor(entry(
        option("other", IdiomPosition::Neither, true),
        query(terms(&[1], false), vec![], None),
    ));
    assert!(matches!(q.matches(&thing(), &expression(1), text("l"), text("r")), Ok(Step::Done(false))));
}

#[test]
fn unmatchable_query_matches_no_value() {
    for set in [terms(&[], false), terms(&[1], true)] {
        let e = entry(option("other", IdiomPosition::Left, true), query(set, vec![], None));
        assert!(matches!(
            QueryExecutor::matches_with_value(&e, text("l"), text("r")),
            Step::Done(false)
        ));
    }
}

#[test]
fn value_matches_with_all_terms() {
    let e = entry(option("other", IdiomPosition::Left, true), query(terms(&[1, 2], false), vec![], None));
    assert!(QueryExecutor::matches_with_terms(&e, &terms(&[2, 1], false)));
    assert!(QueryExecutor::matches_with_terms(&e, &terms(&[3, 2, 1], true)));
    assert!(!QueryExecutor::matches_with_terms(&e, &terms(&[2], false)));
    assert!(!QueryExecutor::matches_with_terms(&e, &terms(&[], false)));
    let e = entry(option("other", IdiomPosition::Left, true), query(terms(&[1], true), vec![], None));
    assert!(!QueryExecutor::matches_with_terms(&e, &terms(&[1], false)));
}

#[test]
fn document_matches_with_all_terms() {
    let io = option("person", IdiomPosition::Left, true);
    let with = |terms_docs: Vec<TermDocs>| entry(io.clone(), query(terms(&[1], false), terms_docs, None));
    let e = with(vec![docs(&[4, 7]), docs(&[7])]);
    assert!(QueryExecutor::matches_with_doc_id(&e, Some(7)));
    assert!(!QueryExecutor::matches_with_doc_id(&e, Some(4)));
    assert!(!QueryExecutor::matches_with_doc_id(&e, Some(5)));
    assert!(!QueryExecutor::matches_with_doc_id(&e, None));
    assert!(QueryExecutor::matches_with_doc_id(&with(vec![docs(&[4, 7])]), Some(4)));
}

#[test]
fn query_without_terms_or_with_unknown_ones_matches_no_document() {
    let io = option("person", IdiomPosition::Left, true);
    let with = |terms_docs: Vec<TermDocs>| entry(io.clone(), query(terms(&[1], false), terms_docs, None));
    assert!(!QueryExecutor::matches_with_doc_id(&with(vec![]), Some(7)));
    assert!(!QueryExecutor::matches_with_doc_id(&with(vec![docs(&[7]), None]), Some(7)));
    assert!(!QueryExecutor::matches_with_doc_id(&with(vec![None]), Some(7)));
}

fn params(match_ref: Value) -> HighlightParams {
    HighlightParams { prefix: text("<b>"), suffix: text("</b>"), match_ref, partial: true }
}

#[test]
fn highlight_asks_the_index_of_the_operator() {
    let q = executor(entry(
        option("person", IdiomPosition::Left, true),
        query(terms(&[1], false), vec![], None),
    ));
    let (thg, doc) = (thing(), text("doc"));
    match q.highlight(&thg, params(reference(1)), &doc) {
        Step::Ask(question) => {
            assert_eq!(question.ft, FtIndex { handle: 9 });
            assert_eq!(question.thg, &thg);
            assert_eq!(question.terms, &vec![Some(1), None]);
            assert_eq!(question.hlp, params(reference(1)));
            assert_eq!(question.id, &Idiom("name".to_string()));
            assert_eq!(question.doc, &doc);
        }
        Step::Done(_) => panic!("nothing asked"),
    }
}

#[test]
fn highlight_of_nothing() {
    let (thg, doc) = (thing(), text("doc"));
    let q = executor(entry(
        option("person", IdiomPosition::Left, false),
        query(terms(&[1], false), vec![], None),
    ));
    for match_ref in [reference(1), reference(2), text("1")] {
        match q.highlight(&thg, params(match_ref), &doc) {
            Step::Done(v) => assert_eq!(v, Value::Absent),
            Step::Ask(_) => panic!("asked"),
        }
    }
}

#[test]
fn offsets_ask_the_index_of_the_operator() {
    let q = executor(entry(
        option("person", IdiomPosition::Left, false),
        query(terms(&[1], false), vec![], None),
    ));
    let thg = thing();
    match q.offsets(&thg, &reference(257), true) {
        Step::Ask(question) => {
            assert_eq!(question.ft, FtIndex { handle: 9 });
            assert_eq!(question.thg, &thg);
            assert_eq!(question.terms, &vec![Some(1), None]);
            assert!(question.partial);
        }
        Step::Done(_) => panic!("nothing asked"),
    }
    match q.offsets(&thg, &reference(2), true) {
        Step::Done(v) => assert_eq!(v, Value::Absent),
        Step::Ask(_) => panic!("asked"),
    }
}

#[test]
fn score_of_a_document() {
    let scorer = Scorer { handle: 5 };
    let q = executor(entry(
        option("person", IdiomPosition::Left, true),
        query(terms(&[1], false), vec![], Some(scorer)),
    ));
    let thg = thing();
    let known = IteratorRecord { irf: 0, doc_id: Some(7), dist: None };
    match q.score(&reference(1), &thg, Some(&known)) {
        Ok(Step::Ask(ScoreQuestion::Score { scorer: s, doc_id })) => {
            assert_eq!((s, doc_id), (scorer, 7))
        }
        other => panic!("{:?}", other),
    }
    let unknown = IteratorRecord { irf: 0, doc_id: None, dist: None };
    for ir in [None, Some(&unknown)] {
        match q.score(&reference(1), &thg, ir) {
            Ok(Step::Ask(ScoreQuestion::DocId { ft, key, scorer: s })) => {
                assert_eq!((ft, s), (FtIndex { handle: 9 }, scorer));
                assert_eq!(key, b"\x01\x06person\x05tobie".to_vec());
            }
            other => panic!("{:?}", other),
        }
    }
    match QueryExecutor::score_with_doc_id(scorer, Some(7)) {
        Step::Ask(ScoreQuestion::Score { scorer: s, doc_id }) => assert_eq!((s, doc_id), (scorer, 7)),
        other => panic!("{:?}", other),
    }
    assert_eq!(
        QueryExecutor::score_value(Some(1.25f64.to_bits())),
        Value::Number(Number::Float(1.25f64.to_bits()))
    );
}

#[test]
fn no_score() {
    let q = executor(entry(
        option("person", IdiomPosition::Left, true),
        query(terms(&[1], false), vec![], None),
    ));
    let thg = thing();
    let known = IteratorRecord { irf: 0, doc_id: Some(7), dist: None };
    for match_ref in [reference(1), reference(2), Value::Null] {
        match q.score(&match_ref, &thg, Some(&known)) {
            Ok(Step::Done(v)) => assert_eq!(v, Value::Absent),
            _ => panic!("asked"),
        }
    }
    match QueryExecutor::score_with_doc_id(Scorer { handle: 5 }, None) {
        Step::Done(v) => assert_eq!(v, Value::Absent),
        Step::Ask(_) => panic!("asked"),
    }
    assert_eq!(QueryExecutor::score_value(None), Value::Absent);
}

#[test]
fn entry_needs_a_matches_operator() {
    let mut io = option("person", IdiomPosition::Left, true);
    io.operator = Arc::new(IndexOperator::Order(false));
    assert!(FtEntry::new(FtIndex { handle: 9 }, io, query(terms(&[1], false), vec![], None)).is_none());
}
