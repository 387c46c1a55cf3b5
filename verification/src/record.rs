//! The entries of a snapshot, and the order of their keys.

use vstd::prelude::*;

verus! {

/// One entry of a snapshot as the backup service streams it: key, value and
/// the fragment of proof material that goes with the entry.
#[derive(Clone, Debug, PartialEq, Eq)]
pub struct StateRecord {
    pub key: Vec<u8>,
    pub value: Vec<u8>,
    pub proof: Vec<u8>,
}

/// What a [`StateRecord`] holds, as mathematical sequences.
pub struct RecordModel {
    pub key: Seq<u8>,
    pub value: Seq<u8>,
    pub proof: Seq<u8>,
}

impl View for StateRecord {
    type V = RecordModel;

    open spec fn view(&self) -> RecordModel {
        RecordModel { key: self.key@, value: self.value@, proof: self.proof@ }
    }
}

/// The models of a sequence of records, in the same order.
pub open spec fn record_models(records: Seq<StateRecord>) -> Seq<RecordModel> {
    Seq::new(records.len(), |i: int| records[i]@)
}

/// The order of keys: byte-wise lexicographic, a proper prefix first.
pub open spec fn key_lt(a: Seq<u8>, b: Seq<u8>) -> bool
    decreases a.len(),
{
    if b.len() == 0 {
        false
    } else if a.len() == 0 {
        true
    } else if a[0] != b[0] {
        a[0] < b[0]
    } else {
        key_lt(a.drop_first(), b.drop_first())
    }
}

/// Every record's key is below the key of every later record: the records
/// are in key order and no key occurs twice.
pub open spec fn ascending(records: Seq<RecordModel>) -> bool {
    forall|i: int, j: int|
        0 <= i < j < records.len() ==> key_lt(#[trigger] records[i].key, #[trigger] records[j].key)
}

/// No key is below itself.
pub proof fn lemma_key_lt_irreflexive(a: Seq<u8>)
    ensures
        !key_lt(a, a),
    decreases a.len(),
{
    if a.len() > 0 {
        lemma_key_lt_irreflexive(a.drop_first());
    }
}

/// The order of keys is transitive.
pub proof fn lemma_key_lt_transitive(a: Seq<u8>, b: Seq<u8>, c: Seq<u8>)
    requires
        key_lt(a, b),
        key_lt(b, c),
    ensures
        key_lt(a, c),
    decreases a.len(),
{
    if a.len() > 0 && a[0] == b[0] && b[0] == c[0] {
        lemma_key_lt_transitive(a.drop_first(), b.drop_first(), c.drop_first());
    }
}

/// Of two different keys one is below the other.
pub proof fn lemma_key_lt_total(a: Seq<u8>, b: Seq<u8>)
    ensures
        a == b || key_lt(a, b) || key_lt(b, a),
    decreases a.len(),
{
    if a.len() == 0 || b.len() == 0 {
        if a.len() == 0 && b.len() == 0 {
            assert(a =~= b);
        }
    } else if a[0] == b[0] {
        lemma_key_lt_total(a.drop_first(), b.drop_first());
        if a.drop_first() == b.drop_first() {
            assert(a =~= seq![a[0]] + a.drop_first());
            assert(b =~= seq![b[0]] + b.drop_first());
        }
    }
}

/// Records in key order hold each key once.
pub proof fn lemma_ascending_distinct(records: Seq<RecordModel>, i: int, j: int)
    requires
        ascending(records),
        0 <= i < j < records.len(),
    ensures
        records[i].key != records[j].key,
{
    lemma_key_lt_irreflexive(records[i].key);
}

/// A copy of a byte string.
pub fn copy_bytes(b: &Vec<u8>) -> (r: Vec<u8>)
    ensures
        r@ == b@,
{
    let mut r: Vec<u8> = Vec::new();
    let mut i: usize = 0;
    while i < b.len()
        invariant
            i <= b.len(),
            r@ == b@.subrange(0, i as int),
        decreases b.len() - i,
    {
        r.push(b[i]);
        assert(b@.subrange(0, i + 1) =~= b@.subrange(0, i as int).push(b@[i as int]));
        i += 1;
    }
    assert(b@.subrange(0, b.len() as int) =~= b@);
    r
}

/// Whether two byte strings hold the same bytes.
pub fn same_bytes(a: &Vec<u8>, b: &Vec<u8>) -> (r: bool)
    ensures
        r == (a@ == b@),
{
    if a.len() != b.len() {
        return false;
    }
    let mut i: usize = 0;
    while i < a.len()
        invariant
            i <= a.len(),
            a.len() == b.len(),
            forall|j: int| 0 <= j < i ==> a@[j] == b@[j],
        decreases a.len() - i,
    {
        if a[i] != b[i] {
            return false;
        }
        i += 1;
    }
    assert(a@ =~= b@);
    true
}

/// Whether key `a` is below key `b`.
pub fn key_less(a: &Vec<u8>, b: &Vec<u8>) -> (r: bool)
    ensures
        r == key_lt(a@, b@),
{
    let mut i: usize = 0;
    assert(a@.skip(0) =~= a@ && b@.skip(0) =~= b@);
    while i < a.len() && i < b.len()
        invariant
            i <= a.len(),
            i <= b.len(),
            key_lt(a@, b@) == key_lt(a@.skip(i as int), b@.skip(i as int)),
        decreases a.len() - i,
    {
        let ghost ra = a@.skip(i as int);
        let ghost rb = b@.skip(i as int);
        assert(ra[0] == a@[i as int] && rb[0] == b@[i as int]);
        if a[i] != b[i] {
            return a[i] < b[i];
        }
        assert(ra.drop_first() =~= a@.skip(i + 1));
        assert(rb.drop_first() =~= b@.skip(i + 1));
        i += 1;
    }
    assert(a@.skip(i as int).len() == a.len() - i);
    assert(b@.skip(i as int).len() == b.len() - i);
    i < b.len()
}

impl StateRecord {
    /// A copy of the record.
    pub fn duplicate(&self) -> (r: StateRecord)
        ensures
            r@ == self@,
    {
        StateRecord {
            key: copy_bytes(&self.key),
            value: copy_bytes(&self.value),
            proof: copy_bytes(&self.proof),
        }
    }
}

/// Whether the records are in key order with no key twice.
pub fn in_key_order(records: &Vec<StateRecord>) -> (r: bool)
    ensures
        r == ascending(record_models(records@)),
{
    let ghost models = record_models(records@);
    if records.len() < 2 {
        return true;
    }
    let mut i: usize = 1;
    while i < records.len()
        invariant
            1 <= i <= records.len(),
            models == record_models(records@),
            ascending(models.subrange(0, i as int)),
        decreases records.len() - i,
    {
        if !key_less(&records[i - 1].key, &records[i].key) {
            assert(models[i - 1].key == records@[i - 1].key@);
            assert(models[i as int].key == records@[i as int].key@);
            return false;
        }
        proof {
            let before = models.subrange(0, i as int);
            let after = models.subrange(0, i + 1);
            assert forall|p: int, q: int| 0 <= p < q < after.len() implies key_lt(
                #[trigger] after[p].key,
                #[trigger] after[q].key,
            ) by {
                if q < i {
                    assert(key_lt(before[p].key, before[q].key));
                } else if p < i - 1 {
                    assert(key_lt(before[p].key, before[i - 1].key));
                    lemma_key_lt_transitive(after[p].key, after[i - 1].key, after[q].key);
                }
            }
        }
        i += 1;
    }
    assert(models.subrange(0, i as int) =~= models);
    true
}

} // verus!
