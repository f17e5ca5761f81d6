//! Concurrent tables from names to records of texts, and to points in time.
use vstd::prelude::*;

use crate::audit::parts::opts;
use crate::search::texts;

verus! {

#[verifier::external_type_specification]
#[verifier::external_body]
#[verifier::reject_recursive_types(K)]
#[verifier::reject_recursive_types(V)]
#[verifier::reject_recursive_types(S)]
pub struct ExDashMap<K, V, S>(dashmap::DashMap<K, V, S>);

/// What a table of records holds.
pub uninterp spec fn records(map: dashmap::DashMap<String, Vec<Option<String>>>) -> Map<
    Seq<char>,
    Seq<Option<Seq<char>>>,
>;

/// What a table of points in time holds.
pub uninterp spec fn times(map: dashmap::DashMap<String, u64>) -> Map<Seq<char>, u64>;

pub open spec fn no_records() -> Map<Seq<char>, Seq<Option<Seq<char>>>> {
    Map::empty()
}

pub open spec fn no_times() -> Map<Seq<char>, u64> {
    Map::empty()
}

/// There are `n` names.
pub open spec fn counts(names: Set<Seq<char>>, n: usize) -> bool {
    names.finite() && n == names.len()
}

/// `DashMap::new` makes an empty table.
#[verifier::external_body]
pub(crate) fn new_records() -> (map: dashmap::DashMap<String, Vec<Option<String>>>)
    ensures
        records(map) == no_records(),
{
    dashmap::DashMap::new()
}

/// `DashMap::len` counts the entries.
#[verifier::external_body]
pub(crate) fn records_len(map: &dashmap::DashMap<String, Vec<Option<String>>>) -> (n: usize)
    ensures
        counts(records(*map).dom(), n),
{
    map.len()
}

/// `DashMap::get`, its value copied: the record under this name, if any.
#[verifier::external_body]
pub(crate) fn get_record(map: &dashmap::DashMap<String, Vec<Option<String>>>, name: &str) -> (found:
    Option<Vec<Option<String>>>)
    ensures
        match found {
            Some(record) => records(*map).contains_key(name@) && records(*map)[name@] == opts(
                record@,
            ),
            None => !records(*map).contains_key(name@),
        },
{
    map.get(name).map(|entry| entry.value().clone())
}

/// `DashMap::insert` puts a record under a name, in place of one that was
/// there.
#[verifier::external_body]
pub(crate) fn put_record(
    map: &mut dashmap::DashMap<String, Vec<Option<String>>>,
    name: String,
    record: Vec<Option<String>>,
)
    ensures
        records(*final(map)) == records(*old(map)).insert(name@, opts(record@)),
{
    map.insert(name, record);
}

/// `DashMap::remove` takes out what is under a name.
#[verifier::external_body]
pub(crate) fn drop_record(map: &mut dashmap::DashMap<String, Vec<Option<String>>>, name: &str)
    ensures
        records(*final(map)) == records(*old(map)).remove(name@),
{
    map.remove(name);
}

/// `DashMap::iter` goes over every entry once, in no order that is known.
#[verifier::external_body]
pub(crate) fn record_names(map: &dashmap::DashMap<String, Vec<Option<String>>>) -> (names: Vec<
    String,
>)
    ensures
        texts(names@).no_duplicates() && texts(names@).to_set() == records(*map).dom(),
{
    map.iter().map(|entry| entry.key().clone()).collect()
}

/// `DashMap::new` makes an empty table.
#[verifier::external_body]
pub(crate) fn new_times() -> (map: dashmap::DashMap<String, u64>)
    ensures
        times(map) == no_times(),
{
    dashmap::DashMap::new()
}

/// `DashMap::get`, its value copied: the time under this name, if any.
#[verifier::external_body]
pub(crate) fn get_time(map: &dashmap::DashMap<String, u64>, name: &str) -> (found: Option<u64>)
    ensures
        found == if times(*map).contains_key(name@) {
            Some(times(*map)[name@])
        } else {
            None::<u64>
        },
{
    map.get(name).map(|entry| *entry.value())
}

/// `DashMap::insert` puts a time under a name, in place of one that was there.
#[verifier::external_body]
pub(crate) fn put_time(map: &mut dashmap::DashMap<String, u64>, name: String, at: u64)
    ensures
        times(*final(map)) == times(*old(map)).insert(name@, at),
{
    map.insert(name, at);
}

/// `DashMap::remove` takes out what is under a name.
#[verifier::external_body]
pub(crate) fn drop_time(map: &mut dashmap::DashMap<String, u64>, name: &str)
    ensures
        times(*final(map)) == times(*old(map)).remove(name@),
{
    map.remove(name);
}

/// `DashMap::iter` goes over every entry once, in no order that is known.
#[verifier::external_body]
pub(crate) fn time_names(map: &dashmap::DashMap<String, u64>) -> (names: Vec<String>)
    ensures
        texts(names@).no_duplicates() && texts(names@).to_set() == times(*map).dom(),
{
    map.iter().map(|entry| entry.key().clone()).collect()
}

/// A record is put into a table that holds at most `limit` of them: another one
/// leaves a full table. Which one is not known.
pub open spec fn bounded_put(
    before: Map<Seq<char>, Seq<Option<Seq<char>>>>,
    after: Map<Seq<char>, Seq<Option<Seq<char>>>>,
    name: Seq<char>,
    record: Seq<Option<Seq<char>>>,
    full: bool,
) -> bool {
    if !full {
        after == before.insert(name, record)
    } else if before.dom().subset_of(set![name]) {
        after == before.insert(name, record)
    } else {
        exists|victim: Seq<char>|
            victim != name && before.contains_key(victim) && after == #[trigger] before.remove(
                victim,
            ).insert(name, record)
    }
}

/// Put a record into a table; if the table is full, another record leaves it.
pub(crate) fn put_bounded(
    map: &mut dashmap::DashMap<String, Vec<Option<String>>>,
    name: &str,
    record: Vec<Option<String>>,
    full: bool,
)
    ensures
        bounded_put(records(*old(map)), records(*final(map)), name@, opts(record@), full),
{
    let ghost before = records(*map);
    if full {
        let names = record_names(map);
        let mut i: usize = 0;
        while i < names.len()
            invariant
                i <= names@.len(),
                records(*map) == before,
                before == records(*old(map)),
                full,
                texts(names@).to_set() == before.dom(),
                forall|j: int| 0 <= j < i ==> texts(names@)[j] == name@,
            decreases names.len() - i,
        {
            if !names[i].as_str().eq(name) {
                let ghost victim = names@[i as int]@;
                proof {
                    assert(texts(names@)[i as int] == victim);
                    assert(texts(names@).contains(victim));
                    assert(texts(names@).to_set().contains(victim));
                }
                drop_record(map, names[i].as_str());
                put_record(map, name.to_owned(), record);
                proof {
                    assert(records(*map) == before.remove(victim).insert(name@, opts(record@)));
                    assert(!before.dom().subset_of(set![name@])) by {
                        assert(before.dom().contains(victim));
                        assert(!set![name@].contains(victim));
                    }
                }
                return ;
            }
            i += 1;
        }
        proof {
            assert(before.dom().subset_of(set![name@])) by {
                assert forall|k: Seq<char>| before.dom().contains(k) implies set![
                    name@,
                ].contains(k) by {
                    assert(texts(names@).to_set().contains(k));
                    assert(texts(names@).contains(k));
                    let j = choose|j: int| 0 <= j < texts(names@).len() && texts(names@)[j] == k;
                }
            }
        }
    }
    put_record(map, name.to_owned(), record);
}


/// A table to which records are put as above never holds more than its limit.
pub proof fn bounded_put_keeps_limit(
    before: Map<Seq<char>, Seq<Option<Seq<char>>>>,
    after: Map<Seq<char>, Seq<Option<Seq<char>>>>,
    name: Seq<char>,
    record: Seq<Option<Seq<char>>>,
    full: bool,
    limit: nat,
)
    requires
        bounded_put(before, after, name, record, full),
        before.dom().finite(),
        before.len() <= limit,
        limit > 0,
        full || before.contains_key(name) || before.len() < limit,
    ensures
        after.dom().finite(),
        after.len() <= limit,
        after.contains_key(name) && after[name] == record,
{
    if full && !before.dom().subset_of(set![name]) {
        let victim = choose|victim: Seq<char>|
            victim != name && before.contains_key(victim) && after == #[trigger] before.remove(
                victim,
            ).insert(name, record);
        let left = before.remove(victim);
        assert(left.dom() =~= before.dom().remove(victim));
        assert(after.dom() =~= left.dom().insert(name));
    } else {
        assert(after.dom() =~= before.dom().insert(name));
        if full {
            assert(before.dom().insert(name) =~= set![name]);
            assert(set![name].len() == 1) by {
                assert(Set::<Seq<char>>::empty().insert(name).len() == 1);
            }
        }
    }
}

}
