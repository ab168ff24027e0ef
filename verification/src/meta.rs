//! The blobs stored for one identifier: a small table from key to bytes.

use vstd::prelude::*;
use crate::order::{rank_bytes, Rank};
use crate::path::lemma_bytes_determine_text;

verus! {

/// One stored blob: its key and its bytes.
pub struct MetaRecord {
    pub key: String,
    pub value: Vec<u8>,
}

/// Some record has the key `key`.
pub open spec fn has_key(records: Seq<MetaRecord>, key: Seq<char>) -> bool {
    exists|i: int| 0 <= i < records.len() && (#[trigger] records[i]).key@ == key
}

/// The place of a record with the key `key`.
pub open spec fn place_of_key(records: Seq<MetaRecord>, key: Seq<char>) -> int {
    choose|i: int| 0 <= i < records.len() && (#[trigger] records[i]).key@ == key
}

/// The records as a map from key to bytes.
pub open spec fn table_map(records: Seq<MetaRecord>) -> Map<Seq<char>, Seq<u8>> {
    Map::new(
        |k: Seq<char>| has_key(records, k),
        |k: Seq<char>| records[place_of_key(records, k)].value@,
    )
}

/// No two records have the same key.
pub open spec fn keys_distinct(records: Seq<MetaRecord>) -> bool {
    forall|i: int, j: int|
        0 <= i < records.len() && 0 <= j < records.len() && i != j ==> (#[trigger] records[i]).key@
            != (#[trigger] records[j]).key@
}

/// In a table without repeated keys, the record at a place is the record of
/// its key.
pub proof fn lemma_place_of_key(records: Seq<MetaRecord>, i: int)
    requires
        keys_distinct(records),
        0 <= i < records.len(),
    ensures
        has_key(records, records[i].key@),
        place_of_key(records, records[i].key@) == i,
        table_map(records)[records[i].key@] == records[i].value@,
{
    let j = place_of_key(records, records[i].key@);
    assert(records[j].key@ == records[i].key@);
}

/// Whether two texts are the same.
pub fn same_text(a: &str, b: &str) -> (same: bool)
    ensures
        same == (a@ == b@),
{
    proof {
        lemma_bytes_determine_text(a@, b@);
    }
    let r: Rank = rank_bytes(a.as_bytes(), b.as_bytes());
    r == Rank::Same
}

/// Finds the record with the key `key`.
pub fn find_key(records: &Vec<MetaRecord>, key: &str) -> (place: Option<usize>)
    ensures
        match place {
            Some(i) => i < records@.len() && records@[i as int].key@ == key@,
            None => !has_key(records@, key@),
        },
{
    let mut i: usize = 0;
    while i < records.len()
        invariant
            i <= records@.len(),
            forall|j: int| 0 <= j < i ==> (#[trigger] records@[j]).key@ != key@,
        decreases records@.len() - i,
    {
        if same_text(records[i].key.as_str(), key) {
            return Some(i);
        }
        i += 1;
    }
    None
}

/// The bytes stored under `key`.
pub fn table_get<'a>(records: &'a Vec<MetaRecord>, key: &str) -> (value: Option<&'a [u8]>)
    requires
        keys_distinct(records@),
    ensures
        match value {
            Some(v) => table_map(records@).contains_key(key@) && table_map(records@)[key@] == v@,
            None => !table_map(records@).contains_key(key@),
        },
{
    match find_key(records, key) {
        Some(i) => {
            proof {
                lemma_place_of_key(records@, i as int);
            }
            Some(records[i].value.as_slice())
        },
        None => None,
    }
}

/// Takes the record with the key `key` out of the table and returns its
/// bytes.
pub fn table_remove(records: &mut Vec<MetaRecord>, key: &str) -> (removed: Option<Vec<u8>>)
    requires
        keys_distinct(old(records)@),
    ensures
        keys_distinct(final(records)@),
        table_map(final(records)@) == table_map(old(records)@).remove(key@),
        match removed {
            Some(v) => table_map(old(records)@).contains_key(key@) && table_map(
                old(records)@,
            )[key@] == v@,
            None => !table_map(old(records)@).contains_key(key@),
        },
{
    let ghost before = records@;
    match find_key(records, key) {
        Some(i) => {
            proof {
                lemma_place_of_key(before, i as int);
            }
            let record: MetaRecord = records.remove(i);
            proof {
                let after = records@;
                assert(after == before.remove(i as int));
                assert forall|a: int, b: int|
                    0 <= a < after.len() && 0 <= b < after.len() && a != b implies (
                #[trigger] after[a]).key@ != (#[trigger] after[b]).key@ by {
                    let oa = if a < i {
                        a
                    } else {
                        a + 1
                    };
                    let ob = if b < i {
                        b
                    } else {
                        b + 1
                    };
                    assert(after[a] == before[oa]);
                    assert(after[b] == before[ob]);
                }
                assert forall|k: Seq<char>| has_key(after, k) <==> (has_key(before, k) && k
                    != key@) by {
                    if has_key(after, k) {
                        let a = choose|a: int| 0 <= a < after.len() && (#[trigger] after[a]).key@ == k;
                        let oa = if a < i {
                            a
                        } else {
                            a + 1
                        };
                        assert(after[a] == before[oa]);
                        assert(before[oa].key@ == k);
                    }
                    if has_key(before, k) && k != key@ {
                        let o = choose|o: int|
                            0 <= o < before.len() && (#[trigger] before[o]).key@ == k;
                        let a = if o < i {
                            o
                        } else {
                            o - 1
                        };
                        assert(after[a] == before[o]);
                    }
                }
                assert forall|k: Seq<char>| has_key(after, k) implies table_map(after)[k]
                    == table_map(before)[k] by {
                    let a = place_of_key(after, k);
                    let oa = if a < i {
                        a
                    } else {
                        a + 1
                    };
                    assert(after[a] == before[oa]);
                    lemma_place_of_key(before, oa);
                }
                assert(table_map(after) =~= table_map(before).remove(key@));
            }
            Some(record.value)
        },
        None => {
            proof {
                assert(table_map(before) =~= table_map(before).remove(key@));
            }
            None
        },
    }
}

/// Stores `value` under `key` and returns the bytes that were stored there
/// before.
pub fn table_insert(records: &mut Vec<MetaRecord>, key: &str, value: Vec<u8>) -> (previous: Option<
    Vec<u8>,
>)
    requires
        keys_distinct(old(records)@),
    ensures
        keys_distinct(final(records)@),
        table_map(final(records)@) == table_map(old(records)@).insert(key@, value@),
        match previous {
            Some(v) => table_map(old(records)@).contains_key(key@) && table_map(
                old(records)@,
            )[key@] == v@,
            None => !table_map(old(records)@).contains_key(key@),
        },
{
    let ghost start = records@;
    let previous: Option<Vec<u8>> = table_remove(records, key);
    let ghost before = records@;
    assert(!has_key(before, key@)) by {
        assert(!table_map(before).contains_key(key@));
    }
    records.push(MetaRecord { key: key.to_owned(), value });
    proof {
        let after = records@;
        let last = after.len() - 1;
        assert(after[last].key@ == key@);
        assert forall|a: int, b: int|
            0 <= a < after.len() && 0 <= b < after.len() && a != b implies (#[trigger] after[a]).key@
            != (#[trigger] after[b]).key@ by {
            if a < last {
                assert(after[a] == before[a]);
            }
            if b < last {
                assert(after[b] == before[b]);
            }
        }
        assert forall|k: Seq<char>| has_key(after, k) <==> (has_key(before, k) || k == key@) by {
            if has_key(after, k) {
                let a = choose|a: int| 0 <= a < after.len() && (#[trigger] after[a]).key@ == k;
                if a < last {
                    assert(after[a] == before[a]);
                }
            }
            if has_key(before, k) {
                let o = choose|o: int| 0 <= o < before.len() && (#[trigger] before[o]).key@ == k;
                assert(after[o] == before[o]);
            }
        }
        assert forall|k: Seq<char>| has_key(before, k) implies table_map(after)[k] == table_map(
            before,
        )[k] by {
            let o = place_of_key(before, k);
            assert(after[o] == before[o]);
            lemma_place_of_key(after, o);
        }
        lemma_place_of_key(after, last);
        let want = table_map(start).insert(key@, value@);
        assert(table_map(before) == table_map(start).remove(key@));
        assert forall|k: Seq<char>| table_map(after).contains_key(k) <==> want.contains_key(
            k,
        ) by {
            assert(table_map(before).contains_key(k) <==> has_key(before, k));
        }
        assert forall|k: Seq<char>| table_map(after).contains_key(k) implies table_map(after)[k]
            == want[k] by {
            if k != key@ {
                assert(has_key(before, k));
                assert(table_map(before).contains_key(k));
            }
        }
        assert(table_map(after) =~= want);
    }
    previous
}

/// The keys of the table, each once.
pub fn table_keys<'a>(records: &'a Vec<MetaRecord>) -> (keys: Vec<&'a str>)
    ensures
        keys@.len() == records@.len(),
        forall|i: int| 0 <= i < keys@.len() ==> (#[trigger] keys@[i])@ == records@[i].key@,
{
    let mut keys: Vec<&str> = Vec::new();
    let mut i: usize = 0;
    while i < records.len()
        invariant
            i <= records@.len(),
            keys@.len() == i,
            forall|j: int| 0 <= j < i ==> (#[trigger] keys@[j])@ == records@[j].key@,
        decreases records@.len() - i,
    {
        keys.push(records[i].key.as_str());
        i += 1;
    }
    keys
}

/// The keys of the table with their bytes, each key once.
pub fn table_pairs<'a>(records: &'a Vec<MetaRecord>) -> (pairs: Vec<(&'a str, &'a [u8])>)
    ensures
        pairs@.len() == records@.len(),
        forall|i: int|
            0 <= i < pairs@.len() ==> (#[trigger] pairs@[i]).0@ == records@[i].key@ && pairs@[i].1@
                == records@[i].value@,
{
    let mut pairs: Vec<(&str, &[u8])> = Vec::new();
    let mut i: usize = 0;
    while i < records.len()
        invariant
            i <= records@.len(),
            pairs@.len() == i,
            forall|j: int|
                0 <= j < i ==> (#[trigger] pairs@[j]).0@ == records@[j].key@ && pairs@[j].1@
                    == records@[j].value@,
        decreases records@.len() - i,
    {
        pairs.push((records[i].key.as_str(), records[i].value.as_slice()));
        i += 1;
    }
    pairs
}

} // verus!
