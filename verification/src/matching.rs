//! The full-text functions of a query: whether a record matches, its score, its highlighted text
//! and the offsets of the matching terms.
//!
//! Each of them ends in a call on the index or the scorer that the caller keeps. What is decided
//! before such a call is a [`Step`]; what is made of its outcome is a function of its own.
use crate::documents::document_key_of;
use crate::executor::{FtEntry, FtIndex, QueryExecutor, Scorer, Step, TermDocs, TermsDocs, TermsSet};
use crate::plan::{Error, Expression, Idiom, IdiomPosition, IteratorRecord, Thing};
use crate::value::{Number, Value};
use vstd::prelude::*;

verus! {

broadcast use vstd::std_specs::hash::group_hash_axioms;

/// What tells whether a record matches.
pub enum MatchQuestion<'a> {
    /// The identifier of the document with a key in the index of the entry.
    DocId { ft: &'a FtEntry, key: Vec<u8> },
    /// The terms that the analyzer of the entry's index finds in a value.
    Terms { ft: &'a FtEntry, value: Value },
}

/// How a highlighted text is to look.
#[derive(Debug, PartialEq, Eq)]
pub struct HighlightParams {
    pub prefix: Value,
    pub suffix: Value,
    pub match_ref: Value,
    /// Whether a part of a word is highlighted, too.
    pub partial: bool,
}

/// The text of a field with the matching terms highlighted.
pub struct HighlightQuestion<'a> {
    pub ft: FtIndex,
    pub thg: &'a Thing,
    pub terms: &'a Vec<Option<u64>>,
    pub hlp: HighlightParams,
    pub id: &'a Idiom,
    pub doc: &'a Value,
}

/// The offsets of the matching terms in a record.
pub struct OffsetsQuestion<'a> {
    pub ft: FtIndex,
    pub thg: &'a Thing,
    pub terms: &'a Vec<Option<u64>>,
    pub partial: bool,
}

/// What tells the score of a record.
#[derive(Debug)]
pub enum ScoreQuestion {
    /// The identifier of the document with a key in an index.
    DocId { ft: FtIndex, key: Vec<u8>, scorer: Scorer },
    /// The score of a document.
    Score { scorer: Scorer, doc_id: u64 },
}

/// A document holds a term that the index knows.
pub open spec fn holds_term(term: TermDocs, doc_id: u64) -> bool {
    match term {
        Some((_, docs)) => docs@.contains(doc_id),
        None => false,
    }
}

/// A document holds every term of a query, and there is a term.
pub open spec fn holds_all_terms(terms_docs: Seq<TermDocs>, doc_id: u64) -> bool {
    &&& terms_docs.len() > 0
    &&& forall|i: int| 0 <= i < terms_docs.len() ==> holds_term(#[trigger] terms_docs[i], doc_id)
}

/// The value that stands opposite to the indexed path.
pub open spec fn value_opposite(pos: IdiomPosition, l: Value, r: Value) -> Option<Value> {
    match pos {
        IdiomPosition::Left => Some(r),
        IdiomPosition::Right => Some(l),
        IdiomPosition::Neither => None,
    }
}

/// What the value of an operator is asked for, or that it does not match.
pub open spec fn value_step<'a>(ft: &'a FtEntry, l: Value, r: Value) -> Step<
    bool,
    MatchQuestion<'a>,
> {
    match value_opposite(ft.0.index_option.id_pos, l, r) {
        Some(value) if ft.0.query.terms_set.spec_is_matchable() => Step::Ask(
            MatchQuestion::Terms { ft, value },
        ),
        _ => Step::Done(false),
    }
}

/// `res` is how it is told whether a record matches an expression: by the document with the key
/// of the record, if the index belongs to the table of the query, and by the value otherwise.
pub open spec fn is_match_step(
    q: QueryExecutor,
    thg: Thing,
    exp: Expression,
    l: Value,
    r: Value,
    res: Result<Step<bool, MatchQuestion>, Error>,
) -> bool {
    if q.0.exp_entries@.contains_key(exp.key) {
        let entry = &q.0.exp_entries@[exp.key];
        if q.0.table@ == entry.0.index_option.ixr.def.what@ {
            match res {
                Ok(Step::Ask(MatchQuestion::DocId { ft, key })) => ft == entry && key@
                    == document_key_of(thg),
                _ => false,
            }
        } else {
            res == Ok::<Step<bool, MatchQuestion>, Error>(value_step(entry, l, r))
        }
    } else {
        res == Err::<Step<bool, MatchQuestion>, Error>(
            Error::NoIndexFoundForMatch { exp: exp.sql },
        )
    }
}

/// A record matches whose document has the given identifier, if it has one.
pub open spec fn matches_document(ft: FtEntry, doc_id: Option<u64>) -> bool {
    match doc_id {
        Some(doc_id) => holds_all_terms(ft.0.query.terms_docs@, doc_id),
        None => false,
    }
}

/// A value matches in which the given terms were found.
pub open spec fn matches_terms(ft: FtEntry, terms: Set<u64>) -> bool {
    !ft.0.query.terms_set.has_unknown_terms && ft.0.query.terms_set.set@.subset_of(terms)
}

/// What to highlight in a record.
pub open spec fn highlight_step<'a>(
    q: QueryExecutor,
    thg: &'a Thing,
    hlp: HighlightParams,
    doc: &'a Value,
) -> Step<Value, HighlightQuestion<'a>> {
    match q.ft_entry_and_index_of(hlp.match_ref) {
        Some((e, ft)) => match e.0.index_option.id {
            Some(id) => Step::Ask(
                HighlightQuestion { ft, thg, terms: &e.0.query.terms_list, hlp, id: &*id, doc },
            ),
            None => Step::Done(Value::Absent),
        },
        None => Step::Done(Value::Absent),
    }
}

/// Where to look for the offsets in a record.
pub open spec fn offsets_step<'a>(
    q: QueryExecutor,
    thg: &'a Thing,
    match_ref: Value,
    partial: bool,
) -> Step<Value, OffsetsQuestion<'a>> {
    match q.ft_entry_and_index_of(match_ref) {
        Some((e, ft)) => Step::Ask(
            OffsetsQuestion { ft, thg, terms: &e.0.query.terms_list, partial },
        ),
        None => Step::Done(Value::Absent),
    }
}

/// The document that an iterator knows of its record.
pub open spec fn doc_id_of(ir: Option<&IteratorRecord>) -> Option<u64> {
    match ir {
        Some(ir) => ir.doc_id,
        None => None,
    }
}

/// `step` is what to ask for the score of a record, whose document is given if it is known.
pub open spec fn is_score_step(
    q: QueryExecutor,
    match_ref: Value,
    rid: Thing,
    known: Option<u64>,
    step: Step<Value, ScoreQuestion>,
) -> bool {
    match q.ft_entry_of(match_ref) {
        Some(e) => match (e.0.query.scorer, known) {
            (Some(scorer), Some(doc_id)) => step == Step::<Value, ScoreQuestion>::Ask(
                ScoreQuestion::Score { scorer, doc_id },
            ),
            (Some(scorer), None) => match step {
                Step::Ask(ScoreQuestion::DocId { ft, key, scorer: s }) => ft == e.0.ft && key@
                    == document_key_of(rid) && s == scorer,
                _ => false,
            },
            (None, _) => step == Step::<Value, ScoreQuestion>::Done(Value::Absent),
        },
        None => step == Step::<Value, ScoreQuestion>::Done(Value::Absent),
    }
}

/// What to ask for a score once the document of the record has been looked up.
pub open spec fn looked_up_step(scorer: Scorer, doc_id: Option<u64>) -> Step<
    Value,
    ScoreQuestion,
> {
    match doc_id {
        Some(doc_id) => Step::Ask(ScoreQuestion::Score { scorer, doc_id }),
        None => Step::Done(Value::Absent),
    }
}

/// The value of a score, which is given as the bits of a double.
pub open spec fn scored(score: Option<u64>) -> Value {
    match score {
        Some(bits) => Value::Number(Number::Float(bits)),
        None => Value::Absent,
    }
}

impl QueryExecutor {
    /// How it is told whether a record matches: by its document, if the index belongs to the
    /// table of the query, and by the value otherwise. It is an error if no full-text index
    /// serves the expression.
    pub fn matches<'a>(&'a self, thg: &Thing, exp: &Expression, l: Value, r: Value) -> (res: Result<
        Step<bool, MatchQuestion<'a>>,
        Error,
    >)
        ensures
            is_match_step(*self, *thg, *exp, l, r, res),
    {
        if let Some(ft) = self.0.exp_entries.get(&exp.key) {
            let ix = ft.0.index_option.ix_ref();
            if self.0.table == ix.def.what {
                return match thg.document_key() {
                    Ok(key) => Ok(Step::Ask(MatchQuestion::DocId { ft, key })),
                    Err(e) => Err(e),
                };
            }
            return Ok(Self::matches_with_value(ft, l, r));
        }
        Err(Error::NoIndexFoundForMatch { exp: exp.sql.clone() })
    }

    /// Whether a record matches whose document has the given identifier, if it has one.
    pub fn matches_with_doc_id(ft: &FtEntry, doc_id: Option<u64>) -> (r: bool)
        ensures
            r == matches_document(*ft, doc_id),
    {
        if let Some(id) = doc_id {
            let terms_docs: &TermsDocs = &ft.0.query.terms_docs;
            let term_goals: usize = terms_docs.len();
            // If there are no terms, it cannot be a match
            if term_goals == 0 {
                return false;
            }
            for opt_td in it: terms_docs.iter()
                invariant
                    it.seq().unref() == terms_docs@,
                    terms_docs@ == ft.0.query.terms_docs@,
                    doc_id == Some(id),
                    forall|i: int|
                        0 <= i < it.index() ==> holds_term(#[trigger] terms_docs@[i], id),
            {
                assert(terms_docs@[it.index()] == *opt_td);
                if let Some((_, docs)) = opt_td {
                    if !docs.contains(&id) {
                        return false;
                    }
                } else {
                    // If one of the terms is missing, it cannot be a match
                    return false;
                }
            }
            return true;
        }
        false
    }

    /// The value to look for terms in. There is none, and no match, if the query has no terms or
    /// one that the index does not know, or if the path stands on neither side of the operator.
    pub fn matches_with_value<'a>(ft: &'a FtEntry, l: Value, r: Value) -> (res: Step<
        bool,
        MatchQuestion<'a>,
    >)
        ensures
            res == value_step(ft, l, r),
    {
        if !ft.0.query.terms_set.is_matchable() {
            return Step::Done(false);
        }
        let value: Value = match ft.0.index_option.id_pos() {
            IdiomPosition::Left => r,
            IdiomPosition::Right => l,
            IdiomPosition::Neither => {
                return Step::Done(false);
            },
        };
        Step::Ask(MatchQuestion::Terms { ft, value })
    }

    /// Whether a value matches in which the given terms were found.
    pub fn matches_with_terms(ft: &FtEntry, terms: &TermsSet) -> (r: bool)
        ensures
            r == matches_terms(*ft, terms.set@),
    {
        ft.0.query.terms_set.is_subset(terms)
    }

    /// What to highlight; nothing, if no operator has the reference or if its option has no path.
    pub fn highlight<'a>(
        &'a self,
        thg: &'a Thing,
        hlp: HighlightParams,
        doc: &'a Value,
    ) -> (r: Step<Value, HighlightQuestion<'a>>)
        ensures
            r == highlight_step(*self, thg, hlp, doc),
    {
        if let Some((e, ft)) = self.get_ft_entry_and_index(&hlp.match_ref) {
            if let Some(id) = e.0.index_option.id_ref() {
                return Step::Ask(
                    HighlightQuestion {
                        ft: *ft,
                        thg,
                        terms: &e.0.query.terms_list,
                        hlp,
                        id,
                        doc,
                    },
                );
            }
        }
        Step::Done(Value::Absent)
    }

    /// Where to look for offsets; nowhere, if no operator has the reference.
    pub fn offsets<'a>(&'a self, thg: &'a Thing, match_ref: &Value, partial: bool) -> (r: Step<
        Value,
        OffsetsQuestion<'a>,
    >)
        ensures
            r == offsets_step(*self, thg, *match_ref, partial),
    {
        if let Some((e, ft)) = self.get_ft_entry_and_index(match_ref) {
            return Step::Ask(
                OffsetsQuestion { ft: *ft, thg, terms: &e.0.query.terms_list, partial },
            );
        }
        Step::Done(Value::Absent)
    }

    /// What to ask for the score of a record. The document is that of the iterator, if it knows
    /// it; there is no score if no operator has the reference or if its index does not score.
    pub fn score(&self, match_ref: &Value, rid: &Thing, ir: Option<&IteratorRecord>) -> (r: Result<
        Step<Value, ScoreQuestion>,
        Error,
    >)
        ensures
            r is Ok,
            is_score_step(*self, *match_ref, *rid, doc_id_of(ir), r->Ok_0),
    {
        if let Some(e) = self.get_ft_entry(match_ref) {
            if let Some(scorer) = e.0.query.scorer {
                let doc_id: Option<u64> = if let Some(ir) = ir {
                    ir.doc_id()
                } else {
                    None
                };
                return match doc_id {
                    Some(doc_id) => Ok(Step::Ask(ScoreQuestion::Score { scorer, doc_id })),
                    None => match rid.document_key() {
                        Ok(key) => Ok(Step::Ask(ScoreQuestion::DocId { ft: e.0.ft, key, scorer })),
                        Err(e) => Err(e),
                    },
                };
            }
        }
        Ok(Step::Done(Value::Absent))
    }

    /// What to ask for the score of a record once its document has been looked up.
    pub fn score_with_doc_id(scorer: Scorer, doc_id: Option<u64>) -> (r: Step<
        Value,
        ScoreQuestion,
    >)
        ensures
            r == looked_up_step(scorer, doc_id),
    {
        match doc_id {
            Some(doc_id) => Step::Ask(ScoreQuestion::Score { scorer, doc_id }),
            None => Step::Done(Value::Absent),
        }
    }

    /// The value of a score, which is given as the bits of a double.
    pub fn score_value(score: Option<u64>) -> (r: Value)
        ensures
            r == (match score {
                Some(bits) => Value::Number(Number::Float(bits)),
                None => Value::Absent,
            }),
            r == scored(score),
    {
        if let Some(score) = score {
            return Value::Number(Number::Float(score));
        }
        Value::Absent
    }
}

/// A document that matches a query matches the query without some of its terms.
pub proof fn law_fewer_terms_match_more(few: Seq<TermDocs>, more: Seq<TermDocs>, doc_id: u64)
    requires
        few.len() > 0,
        holds_all_terms(few + more, doc_id) || holds_all_terms(more + few, doc_id),
    ensures
        holds_all_terms(few, doc_id),
{
    assert forall|i: int| 0 <= i < few.len() implies holds_term(#[trigger] few[i], doc_id) by {
        assert((few + more)[i] == few[i]);
        assert((more + few)[more.len() + i] == few[i]);
    }
}

/// A query matches no document if it has no terms, or a term that the index does not know.
pub proof fn law_unknown_term_matches_nothing(ft: FtEntry, doc_id: Option<u64>)
    requires
        ft.0.query.terms_docs@.len() == 0 || ft.0.query.terms_docs@.contains(None),
    ensures
        !matches_document(ft, doc_id),
{
}

/// Nor does it match a value.
pub proof fn law_unmatchable_query_asks_nothing(ft: &FtEntry, l: Value, r: Value)
    requires
        ft.0.query.terms_set.has_unknown_terms || ft.0.query.terms_set.set@ == Set::<u64>::empty(),
    ensures
        value_step(ft, l, r) == Step::<bool, MatchQuestion>::Done(false),
{
}

/// A value that matches still matches with further terms in it.
pub proof fn law_more_text_still_matches(ft: FtEntry, terms: Set<u64>, more: Set<u64>)
    requires
        matches_terms(ft, terms),
        terms.subset_of(more),
    ensures
        matches_terms(ft, more),
{
}

/// What a match is asked of is always served by an open index.
pub proof fn law_match_asks_open_index(
    q: QueryExecutor,
    thg: Thing,
    exp: Expression,
    l: Value,
    r: Value,
    res: Result<Step<bool, MatchQuestion>, Error>,
)
    requires
        q.0.wf(),
        is_match_step(q, thg, exp, l, r, res),
    ensures
        match res {
            Ok(Step::Ask(MatchQuestion::DocId { ft, .. })) => q.0.is_served(*ft),
            Ok(Step::Ask(MatchQuestion::Terms { ft, .. })) => q.0.is_served(*ft),
            _ => true,
        },
{
}

/// Nothing is asked for a reference that no operator has: there is no score, no highlighted text
/// and there are no offsets.
pub proof fn law_unknown_reference_gives_nothing(
    q: QueryExecutor,
    thg: &Thing,
    hlp: HighlightParams,
    doc: &Value,
    partial: bool,
    known: Option<u64>,
    step: Step<Value, ScoreQuestion>,
)
    requires
        q.ft_entry_of(hlp.match_ref) is None,
        is_score_step(q, hlp.match_ref, *thg, known, step),
    ensures
        highlight_step(q, thg, hlp, doc) == Step::<Value, HighlightQuestion>::Done(Value::Absent),
        offsets_step(q, thg, hlp.match_ref, partial) == Step::<Value, OffsetsQuestion>::Done(
            Value::Absent,
        ),
        step == Step::<Value, ScoreQuestion>::Done(Value::Absent),
{
}

/// Numbers that agree in their low byte refer to the same operator.
pub proof fn law_references_are_bytes(q: QueryExecutor, a: Number, b: Number)
    requires
        a.spec_to_int() % 256 == b.spec_to_int() % 256,
    ensures
        q.ft_entry_of(Value::Number(a)) == q.ft_entry_of(Value::Number(b)),
{
}

/// Highlighting and offsets ask the index that the operator's entry was made with.
pub proof fn law_index_of_the_entry_is_asked(
    q: QueryExecutor,
    thg: &Thing,
    hlp: HighlightParams,
    doc: &Value,
    partial: bool,
)
    requires
        q.0.wf(),
        q.ft_entry_of(hlp.match_ref) is Some,
    ensures
        ({
            let e = q.ft_entry_of(hlp.match_ref)->0;
            &&& offsets_step(q, thg, hlp.match_ref, partial) == Step::<Value, OffsetsQuestion>::Ask(
                OffsetsQuestion { ft: e.0.ft, thg, terms: &e.0.query.terms_list, partial },
            )
            &&& highlight_step(q, thg, hlp, doc) matches Step::Ask(question) ==> question.ft
                == e.0.ft
            &&& highlight_step(q, thg, hlp, doc) is Ask <==> e.0.index_option.id is Some
        }),
{
}

/// It makes no difference to the score whether the iterator knew the document or whether it had
/// to be looked up.
pub proof fn law_score_is_of_the_document(
    q: QueryExecutor,
    match_ref: Value,
    rid: Thing,
    doc_id: u64,
    known: Step<Value, ScoreQuestion>,
    unknown: Step<Value, ScoreQuestion>,
)
    requires
        is_score_step(q, match_ref, rid, Some(doc_id), known),
        is_score_step(q, match_ref, rid, None, unknown),
    ensures
        known == (match unknown {
            Step::Ask(ScoreQuestion::DocId { scorer, .. }) => looked_up_step(scorer, Some(doc_id)),
            other => other,
        }),
{
}

/// A document holds two lists of terms, neither of them empty, exactly if it holds all terms of
/// the one list behind the other.
pub proof fn law_lists_of_terms_are_held_together(
    a: Seq<TermDocs>,
    b: Seq<TermDocs>,
    doc_id: u64,
)
    requires
        a.len() > 0,
        b.len() > 0,
    ensures
        holds_all_terms(a, doc_id) && holds_all_terms(b, doc_id) <==> holds_all_terms(
            a + b,
            doc_id,
        ),
{
    if holds_all_terms(a + b, doc_id) {
        law_fewer_terms_match_more(a, b, doc_id);
        law_fewer_terms_match_more(b, a, doc_id);
    }
}

/// A term that the index knows, taken alone, is held by exactly the documents in its set. A term
/// that it does not know is held by none, and neither is an empty list of terms.
pub proof fn law_one_term_is_held_by_its_documents(term: TermDocs, doc_id: u64)
    ensures
        holds_all_terms(seq![term], doc_id) <==> term is Some && (term->0).1@.contains(doc_id),
        !holds_all_terms(Seq::empty(), doc_id),
{
    assert(seq![term][0] == term);
}

/// A query with all the terms of two others, each of which has a term, matches exactly the
/// documents that both of them match.
pub proof fn law_joined_queries_match_what_both_match(
    a: FtEntry,
    b: FtEntry,
    both: FtEntry,
    doc_id: Option<u64>,
)
    requires
        a.0.query.terms_docs@.len() > 0,
        b.0.query.terms_docs@.len() > 0,
        both.0.query.terms_docs@ == a.0.query.terms_docs@ + b.0.query.terms_docs@,
    ensures
        matches_document(both, doc_id) <==> matches_document(a, doc_id) && matches_document(
            b,
            doc_id,
        ),
{
    if doc_id is Some {
        law_lists_of_terms_are_held_together(
            a.0.query.terms_docs@,
            b.0.query.terms_docs@,
            doc_id->0,
        );
    }
}

/// A record without a document does not match. Another one matches exactly if the query has a
/// term, and each of its terms is known and has the document in its set.
pub proof fn law_document_matches_by_the_sets_of_the_terms(ft: FtEntry, doc_id: Option<u64>)
    ensures
        matches_document(ft, doc_id) <==> {
            &&& doc_id is Some
            &&& ft.0.query.terms_docs@.len() > 0
            &&& forall|i: int|
                0 <= i < ft.0.query.terms_docs@.len() ==> (#[trigger] ft.0.query.terms_docs@[i]) is Some
                    && (ft.0.query.terms_docs@[i]->0).1@.contains(doc_id->0)
        },
{
    let terms_docs = ft.0.query.terms_docs@;
    if matches_document(ft, doc_id) {
        assert forall|i: int| 0 <= i < terms_docs.len() implies (#[trigger] terms_docs[i]) is Some
            && (terms_docs[i]->0).1@.contains(doc_id->0) by {
            assert(holds_term(terms_docs[i], doc_id->0));
        }
    }
}

/// A value matches exactly if the query has no unknown term and each of its terms was found in
/// the value.
pub proof fn law_value_matches_by_its_terms(ft: FtEntry, terms: Set<u64>)
    ensures
        matches_terms(ft, terms) <==> {
            &&& !ft.0.query.terms_set.has_unknown_terms
            &&& forall|term: u64| #[trigger]
                ft.0.query.terms_set.set@.contains(term) ==> terms.contains(term)
        },
{
}

/// Terms are looked for in the value opposite to the path, as it was given and for the entry that
/// was given, if the path stands on a side, all terms are known and there is one.
pub proof fn law_opposite_value_is_looked_at(ft: &FtEntry, l: Value, r: Value)
    ensures
        ({
            let pos = ft.0.index_option.id_pos;
            let terms = ft.0.query.terms_set;
            let res = value_step(ft, l, r);
            &&& res is Ask <==> (pos is Left || pos is Right) && !terms.has_unknown_terms
                && terms.set@.len() > 0
            &&& res is Done ==> res == Step::<bool, MatchQuestion>::Done(false)
            &&& res is Ask && pos is Left ==> res == Step::<bool, MatchQuestion>::Ask(
                MatchQuestion::Terms { ft, value: r },
            )
            &&& res is Ask && pos is Right ==> res == Step::<bool, MatchQuestion>::Ask(
                MatchQuestion::Terms { ft, value: l },
            )
        }),
{
}

/// Exchanging the sides of an operator, path and values alike, makes no difference.
pub proof fn law_sides_may_be_exchanged(a: &FtEntry, b: &FtEntry, l: Value, r: Value)
    requires
        a.0.index_option.id_pos is Left,
        b.0.index_option.id_pos is Right,
        a.0.query == b.0.query,
    ensures
        value_step(a, l, r) is Ask <==> value_step(b, r, l) is Ask,
        value_step(a, l, r) matches Step::Ask(MatchQuestion::Terms { value, .. }) ==> value_step(
            b,
            r,
            l,
        ) == Step::<bool, MatchQuestion>::Ask(MatchQuestion::Terms { ft: b, value }),
{
}

/// It is an error exactly if the expression has no entry, and the error tells the expression. A
/// record of the table of the entry's index is told by the document with its key, any other by
/// the values of the operator; the entry is that of the expression.
pub proof fn law_match_is_told_by_the_entry(
    q: QueryExecutor,
    thg: Thing,
    exp: Expression,
    l: Value,
    r: Value,
    res: Result<Step<bool, MatchQuestion>, Error>,
)
    requires
        is_match_step(q, thg, exp, l, r, res),
    ensures
        res is Err <==> !q.0.exp_entries@.contains_key(exp.key),
        res matches Err(e) ==> e == (Error::NoIndexFoundForMatch { exp: exp.sql }),
        q.0.exp_entries@.contains_key(exp.key) ==> {
            let entry = q.0.exp_entries@[exp.key];
            &&& q.0.table@ == entry.0.index_option.ixr.def.what@ ==> {
                match res {
                    Ok(Step::Ask(MatchQuestion::DocId { ft, key })) => *ft == entry && key@
                        == document_key_of(thg),
                    _ => false,
                }
            }
            &&& q.0.table@ != entry.0.index_option.ixr.def.what@ ==> res == Ok::<
                Step<bool, MatchQuestion>,
                Error,
            >(value_step(&entry, l, r))
        },
{
}

/// A number refers to the operator whose reference is its low byte: highlighting asks for it
/// exactly if there is such an operator, its index is open and its option has a path. The
/// question then carries the caller's parameters, record and document unchanged, the path of the
/// operator's option, the terms of its entry and its index. Otherwise there is no value.
pub proof fn law_highlight_carries_what_was_given<'a>(
    q: QueryExecutor,
    thg: &'a Thing,
    hlp: HighlightParams,
    doc: &'a Value,
    n: Number,
    mr: u8,
)
    requires
        hlp.match_ref == Value::Number(n),
        mr == n.spec_to_int() % 256,
    ensures
        ({
            let e = q.0.mr_entries@[mr];
            let idx = e.0.index_option.ixr.idx;
            &&& highlight_step(q, thg, hlp, doc) is Ask <==> {
                &&& q.0.mr_entries@.contains_key(mr)
                &&& q.0.ft_map@.contains_key(idx)
                &&& e.0.index_option.id is Some
            }
            &&& match highlight_step(q, thg, hlp, doc) {
                Step::Ask(question) => {
                    &&& question.hlp.prefix == hlp.prefix
                    &&& question.hlp.suffix == hlp.suffix
                    &&& question.hlp.match_ref == hlp.match_ref
                    &&& question.hlp.partial == hlp.partial
                    &&& question.thg == thg
                    &&& question.doc == doc
                    &&& *question.id == *e.0.index_option.id->0
                    &&& *question.terms == e.0.query.terms_list
                    &&& question.ft == q.0.ft_map@[idx]
                },
                Step::Done(v) => v == Value::Absent,
            }
        }),
{
}

/// Offsets are looked for exactly if there is an operator with the reference and its index is
/// open. The question carries the caller's record and whether parts of words count, the terms of
/// the operator's entry and its index. Otherwise there is no value.
pub proof fn law_offsets_carry_what_was_given<'a>(
    q: QueryExecutor,
    thg: &'a Thing,
    partial: bool,
    n: Number,
    mr: u8,
)
    requires
        mr == n.spec_to_int() % 256,
    ensures
        ({
            let e = q.0.mr_entries@[mr];
            let idx = e.0.index_option.ixr.idx;
            let step = offsets_step(q, thg, Value::Number(n), partial);
            &&& step is Ask <==> q.0.mr_entries@.contains_key(mr) && q.0.ft_map@.contains_key(idx)
            &&& match step {
                Step::Ask(question) => {
                    &&& question.thg == thg
                    &&& question.partial == partial
                    &&& *question.terms == e.0.query.terms_list
                    &&& question.ft == q.0.ft_map@[idx]
                },
                Step::Done(v) => v == Value::Absent,
            }
        }),
{
}

/// A score is asked for exactly if there is an operator with the reference and its index scores.
/// A known document is scored as it is; else the document with the key of the record is looked up
/// in the index of the entry. Either way it is the scorer of the entry. Otherwise there is no
/// value.
pub proof fn law_score_asks_the_scorer_of_the_entry(
    q: QueryExecutor,
    rid: Thing,
    known: Option<u64>,
    n: Number,
    mr: u8,
    step: Step<Value, ScoreQuestion>,
)
    requires
        mr == n.spec_to_int() % 256,
        is_score_step(q, Value::Number(n), rid, known, step),
    ensures
        ({
            let e = q.0.mr_entries@[mr];
            &&& step is Ask <==> q.0.mr_entries@.contains_key(mr) && e.0.query.scorer is Some
            &&& match step {
                Step::Ask(ScoreQuestion::Score { scorer, doc_id }) => {
                    &&& known == Some(doc_id)
                    &&& e.0.query.scorer == Some(scorer)
                },
                Step::Ask(ScoreQuestion::DocId { ft, key, scorer }) => {
                    &&& known is None
                    &&& ft == e.0.ft
                    &&& key@ == document_key_of(rid)
                    &&& e.0.query.scorer == Some(scorer)
                },
                Step::Done(v) => v == Value::Absent,
            }
        }),
{
}

/// A value other than a number refers to no operator.
pub proof fn law_only_numbers_are_references(
    q: QueryExecutor,
    thg: &Thing,
    hlp: HighlightParams,
    doc: &Value,
    partial: bool,
    known: Option<u64>,
    step: Step<Value, ScoreQuestion>,
)
    requires
        !(hlp.match_ref is Number),
        is_score_step(q, hlp.match_ref, *thg, known, step),
    ensures
        highlight_step(q, thg, hlp, doc) == Step::<Value, HighlightQuestion>::Done(Value::Absent),
        offsets_step(q, thg, hlp.match_ref, partial) == Step::<Value, OffsetsQuestion>::Done(
            Value::Absent,
        ),
        step == Step::<Value, ScoreQuestion>::Done(Value::Absent),
{
}

/// The document is the one that the iterator knows of its record, if there is an iterator.
pub proof fn law_document_of_the_iterator(ir: IteratorRecord)
    ensures
        doc_id_of(Some(&ir)) == ir.doc_id,
        doc_id_of(None) is None,
{
}

/// A document that was looked up is scored by the scorer that was given; without one there is no
/// value.
pub proof fn law_document_looked_up_is_scored(scorer: Scorer, doc_id: u64)
    ensures
        looked_up_step(scorer, Some(doc_id)) == Step::<Value, ScoreQuestion>::Ask(
            ScoreQuestion::Score { scorer, doc_id },
        ),
        looked_up_step(scorer, None) == Step::<Value, ScoreQuestion>::Done(Value::Absent),
{
}

/// The value of a score is the score as it is, so that no two scores have one value.
pub proof fn law_score_is_kept(a: Option<u64>, b: Option<u64>)
    ensures
        a is None ==> scored(a) == Value::Absent,
        a matches Some(bits) ==> scored(a) == Value::Number(Number::Float(bits)),
        scored(a) == scored(b) ==> a == b,
{
}

} // verus!
