//! The keys under which a full-text index keeps its documents: record identifiers in their stored
//! form.
use crate::plan::{Error, Thing};
use revision::Error as RevisionError;
use vstd::prelude::*;
use vstd::utf8::{encode_utf8, encode_utf8_decode_utf8};

verus! {

/// The revision in which record identifiers are stored.
pub const THING_REVISION: u16 = 1;

/// The low `count` bytes of a number, the lowest one first.
pub open spec fn low_bytes(n: nat, count: nat) -> Seq<u8>
    decreases count,
{
    if count == 0 {
        Seq::empty()
    } else {
        seq![(n % 256) as u8] + low_bytes(n / 256, (count - 1) as nat)
    }
}

/// A number in stored form: a small one in one byte, a larger one behind a byte that tells its
/// size.
pub open spec fn stored_number(n: nat) -> Seq<u8> {
    if n < 251 {
        seq![n as u8]
    } else if n < 0x1_0000 {
        seq![251u8] + low_bytes(n, 2)
    } else if n < 0x1_0000_0000 {
        seq![252u8] + low_bytes(n, 4)
    } else {
        seq![253u8] + low_bytes(n, 8)
    }
}

/// A text in stored form: its UTF-8 bytes behind their number.
pub open spec fn stored_text(s: Seq<char>) -> Seq<u8> {
    stored_number(encode_utf8(s).len()) + encode_utf8(s)
}

/// A revision and two texts in stored form.
pub open spec fn stored(revision: u16, a: Seq<char>, b: Seq<char>) -> Seq<u8> {
    stored_number(revision as nat) + stored_text(a) + stored_text(b)
}

/// The key of the document of a record.
pub open spec fn document_key_of(thg: Thing) -> Seq<u8> {
    stored(THING_REVISION, thg.tb@, thg.id@)
}

/// The error of `revision`; it is only told apart from success.
#[verifier::external_type_specification]
#[verifier::external_body]
pub struct ExRevisionError(RevisionError);

/// Calls `to_vec` of `revision` on a revision number and two texts, the fields of a revisioned
/// struct. It writes to memory, so it succeeds, and it gives the stored form of each of them in
/// turn.
#[verifier::external_body]
fn revision_to_vec(revision: u16, a: &String, b: &String) -> (r: Result<Vec<u8>, RevisionError>)
    ensures
        r is Ok,
        r->Ok_0@ == stored(revision, a@, b@),
{
    revision::to_vec(&(revision, a.clone(), b.clone()))
}

impl Thing {
    /// The key of the document of this record.
    pub fn document_key(&self) -> (r: Result<Vec<u8>, Error>)
        ensures
            r is Ok,
            r->Ok_0@ == document_key_of(*self),
    {
        match revision_to_vec(THING_REVISION, &self.tb, &self.id) {
            Ok(key) => Ok(key),
            Err(_) => Err(Error::Revision),
        }
    }
}

/// How many numbers have a given number of bytes.
spec fn capacity(count: nat) -> nat
    decreases count,
{
    if count == 0 {
        1
    } else {
        256 * capacity((count - 1) as nat)
    }
}

proof fn lemma_low_bytes(m: nat, n: nat, count: nat)
    requires
        m < capacity(count),
        n < capacity(count),
    ensures
        low_bytes(m, count).len() == count,
        low_bytes(m, count) == low_bytes(n, count) ==> m == n,
    decreases count,
{
    if count > 0 {
        let rest = (count - 1) as nat;
        lemma_low_bytes(m / 256, n / 256, rest);
        let a = low_bytes(m, count);
        let b = low_bytes(n, count);
        if a == b {
            assert(a[0] == (m % 256) as u8);
            assert(b[0] == (n % 256) as u8);
            assert(a.skip(1) =~= low_bytes(m / 256, rest));
            assert(b.skip(1) =~= low_bytes(n / 256, rest));
        }
    }
}

/// What a number is told apart by: the first byte, and the bytes after it.
proof fn lemma_stored_number(m: nat, n: nat, x: Seq<u8>, y: Seq<u8>)
    requires
        m <= u64::MAX,
        n <= u64::MAX,
        stored_number(m) + x == stored_number(n) + y,
    ensures
        m == n,
        x == y,
{
    reveal_with_fuel(capacity, 9);
    let a = stored_number(m);
    let b = stored_number(n);
    assert((a + x)[0] == a[0]);
    assert((b + y)[0] == b[0]);
    let count: nat = if a[0] < 251 {
        0
    } else if a[0] == 251 {
        2
    } else if a[0] == 252 {
        4
    } else {
        8
    };
    if count > 0 {
        lemma_low_bytes(m, n, count);
        lemma_low_bytes(n, m, count);
        assert(a.skip(1) =~= low_bytes(m, count));
        assert(b.skip(1) =~= low_bytes(n, count));
        assert((a + x).subrange(1, 1 + count as int) =~= a.skip(1));
        assert((b + y).subrange(1, 1 + count as int) =~= b.skip(1));
    }
    assert((a + x).skip(a.len() as int) =~= x);
    assert((b + y).skip(b.len() as int) =~= y);
}

/// A text is told apart by its stored form, whatever follows it.
proof fn lemma_stored_text(s: Seq<char>, t: Seq<char>, x: Seq<u8>, y: Seq<u8>)
    requires
        encode_utf8(s).len() <= u64::MAX,
        encode_utf8(t).len() <= u64::MAX,
        stored_text(s) + x == stored_text(t) + y,
    ensures
        s == t,
        x == y,
{
    let a = encode_utf8(s);
    let b = encode_utf8(t);
    assert(stored_text(s) + x =~= stored_number(a.len()) + (a + x));
    assert(stored_text(t) + y =~= stored_number(b.len()) + (b + y));
    lemma_stored_number(a.len(), b.len(), a + x, b + y);
    assert((a + x).take(a.len() as int) =~= a);
    assert((b + y).take(b.len() as int) =~= b);
    assert((a + x).skip(a.len() as int) =~= x);
    assert((b + y).skip(b.len() as int) =~= y);
    encode_utf8_decode_utf8(s);
    encode_utf8_decode_utf8(t);
}

/// No two records have one key. (The texts of a record are shorter than a machine word can count.)
pub proof fn law_records_have_different_keys(a: Thing, b: Thing)
    requires
        document_key_of(a) == document_key_of(b),
        encode_utf8(a.tb@).len() <= u64::MAX,
        encode_utf8(a.id@).len() <= u64::MAX,
        encode_utf8(b.tb@).len() <= u64::MAX,
        encode_utf8(b.id@).len() <= u64::MAX,
    ensures
        a.tb@ == b.tb@,
        a.id@ == b.id@,
{
    let revision = stored_number(THING_REVISION as nat);
    let (tb, id) = (stored_text(a.tb@), stored_text(a.id@));
    let (tb2, id2) = (stored_text(b.tb@), stored_text(b.id@));
    assert(document_key_of(a) =~= revision + (tb + id));
    assert(document_key_of(b) =~= revision + (tb2 + id2));
    lemma_stored_number(THING_REVISION as nat, THING_REVISION as nat, tb + id, tb2 + id2);
    lemma_stored_text(a.tb@, b.tb@, id, id2);
    assert(id + Seq::<u8>::empty() =~= id);
    assert(id2 + Seq::<u8>::empty() =~= id2);
    lemma_stored_text(a.id@, b.id@, Seq::empty(), Seq::empty());
}

/// The key of a record is its table and its identifier in UTF-8, in this order, each behind its
/// length and both behind the revision; texts of up to 250 bytes have a length of one byte.
pub proof fn law_key_holds_table_and_identifier(thg: Thing)
    ensures
        document_key_of(thg) == seq![1u8] + stored_text(thg.tb@) + stored_text(thg.id@),
        encode_utf8(thg.tb@).len() <= 250 && encode_utf8(thg.id@).len() <= 250
            ==> document_key_of(thg) == seq![1u8, encode_utf8(thg.tb@).len() as u8] + encode_utf8(
            thg.tb@,
        ) + seq![encode_utf8(thg.id@).len() as u8] + encode_utf8(thg.id@),
{
    let (tb, id) = (encode_utf8(thg.tb@), encode_utf8(thg.id@));
    if tb.len() <= 250 && id.len() <= 250 {
        assert(document_key_of(thg) =~= seq![1u8, tb.len() as u8] + tb + seq![id.len() as u8]
            + id);
    }
}

} // verus!
