//! Bounded read-only queries. Filtering never hides uncommitted store evidence.

use crate::error::{Error, ErrorKind};
use crate::journal;
use crate::journal::{
    valid_id, ItemState, ItemView, JournalRead, Record, RecordHeader, MAX_RECORDS,
};
use crate::order;
use crate::recover::Fault;
use crate::text;
use vstd::prelude::*;
use vstd::string::*;

verus! {

/// Which operations are asked for, and which page of them.
#[derive(Clone, Debug)]
pub struct Query {
    pub operation_id: Option<String>,
    pub states: Vec<ItemState>,
    pub since_unix_ms: Option<u64>,
    pub until_unix_ms: Option<u64>,
    pub offset: usize,
    pub limit: usize,
}

impl Default for Query {
    fn default() -> (query: Query)
        ensures
            query.operation_id is None,
            query.states@.len() == 0,
            query.since_unix_ms is None,
            query.until_unix_ms is None,
            query.offset == 0,
            query.limit == 20,
    {
        Query {
            operation_id: None,
            states: Vec::new(),
            since_unix_ms: None,
            until_unix_ms: None,
            offset: 0,
            limit: 20,
        }
    }
}

/// Whether a state can be asked for: one that is still under way is never reported.
pub open spec fn reported(state: ItemState) -> bool {
    state != ItemState::Planned && state != ItemState::Started
}

/// Whether a query can be answered.
pub open spec fn is_valid(query: Query) -> bool {
    &&& query.operation_id matches Some(id) ==> journal::is_valid_id(id@)
    &&& forall|i: int| 0 <= i < query.states@.len() ==> reported(#[trigger] query.states@[i])
    &&& query.states@.len() <= 4
    &&& 0 < query.limit <= MAX_RECORDS
    &&& query.offset <= MAX_RECORDS
    &&& query.since_unix_ms matches Some(since) ==> query.until_unix_ms matches Some(until)
        ==> since <= until
}

impl Query {
    /// Refuses a query that cannot be answered.
    pub fn validate(&self) -> (result: Result<(), Error>)
        ensures
            result is Ok <==> is_valid(*self),
            result matches Err(error) ==> error.says(
                ErrorKind::InvalidInput,
                "invalid history filter, time range or page bounds"@,
            ),
    {
        let named = match &self.operation_id {
            Some(id) => valid_id(id.as_str()),
            None => true,
        };
        let mut settled = true;
        let mut i: usize = 0;
        while i < self.states.len()
            invariant
                0 <= i <= self.states@.len(),
                settled == forall|j: int| 0 <= j < i ==> reported(#[trigger] self.states@[j]),
            decreases self.states@.len() - i,
        {
            let state: ItemState = self.states[i];
            if state == ItemState::Planned || state == ItemState::Started {
                assert(!reported(self.states@[i as int]));
                settled = false;
            }
            i += 1;
        }
        let ranged = match (self.since_unix_ms, self.until_unix_ms) {
            (Some(since), Some(until)) => since <= until,
            _ => true,
        };
        if !named || !settled || self.states.len() > 4 || self.limit == 0 || self.limit
            > MAX_RECORDS || self.offset > MAX_RECORDS || !ranged {
            return Err(
                Error::new(
                    ErrorKind::InvalidInput,
                    "invalid history filter, time range or page bounds",
                ),
            );
        }
        Ok(())
    }
}

/// One page of the operations that were asked for.
#[derive(Debug)]
pub struct Page {
    pub schema_version: u32,
    pub total_records: usize,
    pub matched_records: usize,
    pub offset: usize,
    pub limit: usize,
    pub records: Vec<Record>,
    /// Store-wide, deliberately not filtered or paginated.
    pub uncommitted_snapshots: Vec<String>,
}

/// The mathematical value of a record.
#[verifier::ext_equal]
pub struct Entry {
    pub header: RecordHeader,
    pub items: Seq<ItemView>,
}

/// The value of a record.
pub open spec fn entry(record: Record) -> Entry {
    Entry { header: record.header(), items: journal::item_views(record.items@) }
}

/// The values of a list of records.
pub open spec fn entries(records: Seq<Record>) -> Seq<Entry> {
    Seq::new(records.len(), |i: int| entry(records[i]))
}

/// An operation as it is reported: an item that was interrupted is unknown.
pub open spec fn settled(found: Entry) -> Entry {
    Entry {
        items: Seq::new(found.items.len(), |i: int| journal::reconciled_item(found.items[i])),
        ..found
    }
}

/// Whether some item of an operation is in one of the states.
pub open spec fn has_state(items: Seq<ItemView>, states: Seq<ItemState>) -> bool {
    exists|i: int| 0 <= i < items.len() && states.contains((#[trigger] items[i]).state)
}

/// Whether an operation is asked for. The time range holds its beginning, not its end.
pub open spec fn matches_query(found: Entry, query: Query) -> bool {
    &&& query.operation_id matches Some(id) ==> id@ == found.header.operation_id
    &&& query.since_unix_ms matches Some(since) ==> since <= found.header.created_unix_ms
    &&& query.until_unix_ms matches Some(until) ==> found.header.created_unix_ms < until
    &&& query.states@.len() > 0 ==> has_state(found.items, query.states@)
}

/// The order of a listing: the newest first, and by name where the time is the same.
pub open spec fn listed_before(a: Entry, b: Entry) -> bool {
    ||| a.header.created_unix_ms > b.header.created_unix_ms
    ||| a.header.created_unix_ms == b.header.created_unix_ms && order::text_less(
        a.header.operation_id,
        b.header.operation_id,
    )
}

/// A listing with one more operation.
pub open spec fn with_entry(list: Seq<Entry>, found: Entry) -> Seq<Entry>
    decreases list.len(),
{
    if list.len() == 0 || !listed_before(found, list.last()) {
        list.push(found)
    } else {
        with_entry(list.drop_last(), found).push(list.last())
    }
}

/// All the operations that are asked for, in order.
pub open spec fn listing(records: Seq<Entry>, query: Query) -> Seq<Entry>
    decreases records.len(),
{
    if records.len() == 0 {
        Seq::empty()
    } else {
        let before = listing(records.drop_last(), query);
        let last = settled(records.last());
        if matches_query(last, query) {
            with_entry(before, last)
        } else {
            before
        }
    }
}

/// The part of a listing that a page shows.
pub open spec fn page_of(list: Seq<Entry>, offset: int, limit: int) -> Seq<Entry> {
    if offset >= list.len() {
        Seq::empty()
    } else if limit >= list.len() - offset {
        list.skip(offset)
    } else {
        list.subrange(offset, offset + limit)
    }
}

/// Whether a name occurs among the operations.
pub open spec fn has_name(records: Seq<Record>, name: Seq<char>) -> bool {
    exists|i: int| 0 <= i < records.len() && (#[trigger] records[i]).operation_id@ == name
}

/// Why the store cannot be listed: the first operation that cannot be read, or whose name
/// was seen before.
pub open spec fn store_fault(records: Seq<Record>) -> Option<Fault>
    decreases records.len(),
{
    if records.len() == 0 {
        None
    } else {
        let before = store_fault(records.drop_last());
        if before is Some {
            before
        } else if !journal::readable(records.last()) {
            Some((ErrorKind::InvalidData, "unsupported journal record"@))
        } else if has_name(records.drop_last(), records.last().operation_id@) {
            Some((ErrorKind::InvalidData, "duplicate history operation identifier"@))
        } else {
            None
        }
    }
}

/// Why a query is refused, if it is.
pub open spec fn query_fault(read: JournalRead, query: Query) -> Option<Fault> {
    if !is_valid(query) {
        Some((ErrorKind::InvalidInput, "invalid history filter, time range or page bounds"@))
    } else if read.records@.len() > MAX_RECORDS || read.uncommitted_snapshots@.len()
        > MAX_RECORDS * 2 {
        Some((ErrorKind::InvalidData, "history input exceeds the journal budget"@))
    } else {
        store_fault(read.records@)
    }
}

proof fn lemma_fault_stays(records: Seq<Record>, n: int)
    requires
        0 <= n <= records.len(),
        store_fault(records.take(n)) is Some,
    ensures
        store_fault(records) == store_fault(records.take(n)),
    decreases records.len(),
{
    if n < records.len() {
        assert(records.drop_last().take(n) =~= records.take(n));
        lemma_fault_stays(records.drop_last(), n);
    } else {
        assert(records.take(n) =~= records);
    }
}

fn named_before(records: &Vec<Record>, count: usize, name: &str) -> (found: bool)
    requires
        count <= records@.len(),
    ensures
        found == has_name(records@.take(count as int), name@),
{
    let ghost seen = records@.take(count as int);
    let mut i: usize = 0;
    while i < count
        invariant
            0 <= i <= count <= records@.len(),
            seen == records@.take(count as int),
            forall|j: int| 0 <= j < i ==> (#[trigger] seen[j]).operation_id@ != name@,
        decreases count - i,
    {
        assert(seen[i as int] == records@[i as int]);
        if text::text_eq(records[i].operation_id.as_str(), name) {
            return true;
        }
        i += 1;
    }
    false
}

fn check_store(records: &Vec<Record>) -> (result: Result<(), Error>)
    ensures
        match result {
            Ok(_) => store_fault(records@) is None,
            Err(error) => store_fault(records@) == Some((error.kind, error.message@)),
        },
{
    let mut i: usize = 0;
    assert(records@.take(0) =~= Seq::empty());
    while i < records.len()
        invariant
            0 <= i <= records@.len(),
            store_fault(records@.take(i as int)) is None,
        decreases records@.len() - i,
    {
        assert(records@.take(i + 1).drop_last() =~= records@.take(i as int));
        assert(records@.take(i + 1).last() == records@[i as int]);
        if let Err(error) = records[i].validate() {
            proof {
                lemma_fault_stays(records@, i + 1);
            }
            return Err(error);
        }
        if named_before(records, i, records[i].operation_id.as_str()) {
            proof {
                lemma_fault_stays(records@, i + 1);
            }
            return Err(
                Error::new(ErrorKind::InvalidData, "duplicate history operation identifier"),
            );
        }
        i += 1;
    }
    assert(records@.take(records@.len() as int) =~= records@);
    Ok(())
}

fn any_state(record: &Record, states: &Vec<ItemState>) -> (found: bool)
    ensures
        found == has_state(entry(*record).items, states@),
{
    let ghost items = entry(*record).items;
    let mut i: usize = 0;
    while i < record.items.len()
        invariant
            0 <= i <= record.items@.len(),
            items == entry(*record).items,
            items.len() == record.items@.len(),
            forall|j: int| 0 <= j < i ==> !states@.contains((#[trigger] items[j]).state),
        decreases record.items@.len() - i,
    {
        let state: ItemState = record.items[i].state;
        assert(items[i as int].state == state);
        let mut k: usize = 0;
        while k < states.len()
            invariant
                0 <= k <= states@.len(),
                0 <= i < items.len(),
                items == entry(*record).items,
                items[i as int].state == state,
                forall|j: int| 0 <= j < k ==> states@[j] != state,
            decreases states@.len() - k,
        {
            if states[k] == state {
                assert(states@.contains(items[i as int].state));
                return true;
            }
            k += 1;
        }
        i += 1;
    }
    false
}

fn is_asked_for(record: &Record, query: &Query) -> (asked: bool)
    ensures
        asked == matches_query(entry(*record), *query),
{
    if let Some(id) = &query.operation_id {
        if !text::text_eq(id.as_str(), record.operation_id.as_str()) {
            return false;
        }
    }
    if let Some(since) = query.since_unix_ms {
        if record.created_unix_ms < since {
            return false;
        }
    }
    if let Some(until) = query.until_unix_ms {
        if record.created_unix_ms >= until {
            return false;
        }
    }
    query.states.len() == 0 || any_state(record, &query.states)
}

fn goes_before(a: &Record, b: &Record) -> (before: bool)
    ensures
        before == listed_before(entry(*a), entry(*b)),
{
    a.created_unix_ms > b.created_unix_ms || (a.created_unix_ms == b.created_unix_ms
        && order::text_before(a.operation_id.as_str(), b.operation_id.as_str()))
}

proof fn lemma_with_entry_at(list: Seq<Entry>, found: Entry, at: int)
    requires
        0 <= at <= list.len(),
        forall|i: int| at <= i < list.len() ==> listed_before(found, #[trigger] list[i]),
        at == 0 || !listed_before(found, list[at - 1]),
    ensures
        with_entry(list, found) == list.take(at).push(found) + list.skip(at),
    decreases list.len(),
{
    if at == list.len() {
        assert(list.take(at).push(found) + list.skip(at) =~= list.push(found));
    } else {
        assert(listed_before(found, list[list.len() - 1]));
        let shorter = list.drop_last();
        assert forall|i: int| at <= i < shorter.len() implies listed_before(
            found,
            #[trigger] shorter[i],
        ) by {
            assert(shorter[i] == list[i]);
        }
        lemma_with_entry_at(shorter, found, at);
        assert((shorter.take(at).push(found) + shorter.skip(at)).push(list.last()) =~= list.take(
            at,
        ).push(found) + list.skip(at));
    }
}

fn insert_record(list: &mut Vec<Record>, record: Record)
    ensures
        entries(final(list)@) == with_entry(entries(old(list)@), entry(record)),
{
    let ghost before = entries(list@);
    let mut at: usize = list.len();
    while at > 0 && goes_before(&record, &list[at - 1])
        invariant
            0 <= at <= list@.len(),
            before == entries(list@),
            forall|i: int|
                at <= i < before.len() ==> listed_before(entry(record), #[trigger] before[i]),
        decreases at,
    {
        at -= 1;
    }
    proof {
        lemma_with_entry_at(before, entry(record), at as int);
    }
    let ghost added = entry(record);
    list.insert(at, record);
    assert(entries(list@) =~= before.take(at as int).push(added) + before.skip(at as int));
}

/// Answers a query over the whole store. The page holds whole operations, newest first;
/// operations that cannot be read, or share a name, are an error whatever is asked for, and
/// the uncommitted snapshots are shown whatever is asked for.
pub fn query(read: JournalRead, asked: &Query) -> (result: Result<Page, Error>)
    ensures
        match result {
            Ok(page) => {
                let list = listing(entries(read.records@), *asked);
                &&& query_fault(read, *asked) is None
                &&& page.schema_version == 1
                &&& page.total_records == read.records@.len()
                &&& page.matched_records == list.len()
                &&& page.offset == asked.offset
                &&& page.limit == asked.limit
                &&& entries(page.records@) == page_of(
                    list,
                    asked.offset as int,
                    asked.limit as int,
                )
                &&& page.uncommitted_snapshots == read.uncommitted_snapshots
            },
            Err(error) => query_fault(read, *asked) == Some((error.kind, error.message@)),
        },
{
    if let Err(error) = asked.validate() {
        return Err(error);
    }
    if read.records.len() > MAX_RECORDS || read.uncommitted_snapshots.len() > MAX_RECORDS * 2 {
        return Err(
            Error::new(ErrorKind::InvalidData, "history input exceeds the journal budget"),
        );
    }
    if let Err(error) = check_store(&read.records) {
        return Err(error);
    }
    let total_records: usize = read.records.len();
    let ghost all = entries(read.records@);
    let mut waiting = read.records;
    let mut records: Vec<Record> = Vec::new();
    let ghost mut done: int = 0;
    assert(all.take(0) =~= Seq::empty());
    assert(entries(records@) =~= Seq::empty());
    assert(all.skip(0) =~= all);
    while waiting.len() > 0
        invariant
            all == entries(read.records@),
            0 <= done <= all.len(),
            entries(waiting@) == all.skip(done),
            waiting@.len() == all.len() - done,
            entries(records@) == listing(all.take(done), *asked),
        decreases waiting@.len(),
    {
        let ghost before = waiting@;
        let first = waiting.remove(0);
        proof {
            assert(entry(first) == entries(before)[0]);
            assert(entries(before)[0] == all[done]);
            assert forall|i: int| 0 <= i < waiting@.len() implies entries(waiting@)[i]
                == all.skip(done + 1)[i] by {
                assert(waiting@[i] == before[i + 1]);
                assert(entries(before)[i + 1] == all.skip(done)[i + 1]);
            }
            assert(entries(waiting@) =~= all.skip(done + 1));
            assert(all.take(done + 1).drop_last() =~= all.take(done));
            done = done + 1;
        }
        let record = first.reconciled();
        assert(entry(record).items =~= settled(entry(first)).items);
        assert(entry(record) == settled(entry(first)));
        if is_asked_for(&record, asked) {
            insert_record(&mut records, record);
        }
    }
    assert(all.take(done) =~= all);
    let ghost list = entries(records@);
    let matched_records: usize = records.len();
    let mut shown: Vec<Record> = Vec::new();
    if asked.offset < records.len() {
        shown = records.split_off(asked.offset);
        assert(entries(shown@) =~= list.skip(asked.offset as int));
        if asked.limit < shown.len() {
            shown.truncate(asked.limit);
            assert(entries(shown@) =~= list.subrange(
                asked.offset as int,
                asked.offset + asked.limit,
            ));
        }
    }
    assert(entries(shown@) =~= page_of(list, asked.offset as int, asked.limit as int));
    Ok(
        Page {
            schema_version: 1,
            total_records,
            matched_records,
            offset: asked.offset,
            limit: asked.limit,
            records: shown,
            uncommitted_snapshots: read.uncommitted_snapshots,
        },
    )
}

/// Whether a listing is in order: no operation stands behind one that it goes before.
pub open spec fn in_order(list: Seq<Entry>) -> bool {
    forall|i: int, j: int|
        0 <= i < j < list.len() ==> !listed_before(#[trigger] list[j], #[trigger] list[i])
}

proof fn lemma_listed_before_transitive(a: Entry, b: Entry, c: Entry)
    requires
        listed_before(a, b),
        listed_before(b, c),
    ensures
        listed_before(a, c),
        !listed_before(c, a),
{
    let x = vstd::utf8::encode_utf8(a.header.operation_id);
    let y = vstd::utf8::encode_utf8(b.header.operation_id);
    let z = vstd::utf8::encode_utf8(c.header.operation_id);
    if text::bytes_less(x, y) && text::bytes_less(y, z) {
        text::lemma_bytes_less_transitive(x, y, z);
    }
    if text::bytes_less(z, x) && text::bytes_less(x, z) {
        text::lemma_bytes_less_transitive(z, x, z);
        text::lemma_bytes_less_irreflexive(z);
    }
}

proof fn lemma_insertion_keeps_order(list: Seq<Entry>, found: Entry)
    requires
        in_order(list),
    ensures
        in_order(with_entry(list, found)),
        with_entry(list, found).len() == list.len() + 1,
        with_entry(list, found).to_multiset() == list.to_multiset().insert(found),
    decreases list.len(),
{
    broadcast use vstd::seq_lib::group_to_multiset_ensures;

    let result = with_entry(list, found);
    if list.len() == 0 || !listed_before(found, list.last()) {
        assert forall|i: int, j: int| 0 <= i < j < result.len() implies !listed_before(
            #[trigger] result[j],
            #[trigger] result[i],
        ) by {
            if j == list.len() && i < list.len() - 1 && listed_before(found, list[i]) {
                lemma_not_behind(found, list[i], list.last());
            }
        }
    } else {
        let shorter = list.drop_last();
        let last = list.last();
        assert(in_order(shorter)) by {
            assert forall|i: int, j: int| 0 <= i < j < shorter.len() implies !listed_before(
                #[trigger] shorter[j],
                #[trigger] shorter[i],
            ) by {
                assert(shorter[j] == list[j] && shorter[i] == list[i]);
            }
        }
        lemma_insertion_keeps_order(shorter, found);
        let inner = with_entry(shorter, found);
        assert(shorter.push(last) =~= list);
        assert(list.to_multiset() == shorter.to_multiset().insert(last));
        assert(result.to_multiset() == inner.to_multiset().insert(last));
        assert(result.to_multiset() =~= list.to_multiset().insert(found));
        assert forall|i: int, j: int| 0 <= i < j < result.len() implies !listed_before(
            #[trigger] result[j],
            #[trigger] result[i],
        ) by {
            if j == inner.len() {
                assert(inner.to_multiset().count(inner[i]) > 0) by {
                    assert(inner.contains(inner[i]));
                }
                if inner[i] == found {
                    if listed_before(last, found) {
                        lemma_listed_before_transitive(last, found, last);
                    }
                } else {
                    assert(shorter.to_multiset().count(inner[i]) > 0);
                    assert(shorter.contains(inner[i]));
                    let k = choose|k: int| 0 <= k < shorter.len() && shorter[k] == inner[i];
                    assert(list[k] == inner[i]);
                    assert(list[list.len() - 1] == last);
                }
            } else {
                assert(result[i] == inner[i] && result[j] == inner[j]);
            }
        }
    }
}

proof fn lemma_not_behind(found: Entry, earlier: Entry, last: Entry)
    requires
        !listed_before(found, last),
        !listed_before(last, earlier),
    ensures
        !listed_before(found, earlier),
{
    let f = vstd::utf8::encode_utf8(found.header.operation_id);
    let e = vstd::utf8::encode_utf8(earlier.header.operation_id);
    let l = vstd::utf8::encode_utf8(last.header.operation_id);
    if listed_before(found, earlier) {
        if e != l {
            text::lemma_bytes_less_total(e, l);
            if text::bytes_less(f, e) && text::bytes_less(e, l) {
                text::lemma_bytes_less_transitive(f, e, l);
            }
        }
    }
}

/// The operations that are asked for, in the order of the store.
pub open spec fn matching(records: Seq<Entry>, query: Query) -> Seq<Entry>
    decreases records.len(),
{
    if records.len() == 0 {
        Seq::empty()
    } else {
        let before = matching(records.drop_last(), query);
        let last = settled(records.last());
        if matches_query(last, query) {
            before.push(last)
        } else {
            before
        }
    }
}

/// A listing is newest first, and holds every operation that is asked for as often as the
/// store does, and no other.
pub proof fn listing_is_ordered_and_complete(records: Seq<Entry>, query: Query)
    ensures
        in_order(listing(records, query)),
        listing(records, query).to_multiset() == matching(records, query).to_multiset(),
    decreases records.len(),
{
    broadcast use vstd::seq_lib::group_to_multiset_ensures;

    if records.len() > 0 {
        listing_is_ordered_and_complete(records.drop_last(), query);
        let before = listing(records.drop_last(), query);
        lemma_insertion_keeps_order(before, settled(records.last()));
    }
}

/// A page and the page that follows it are together the page of both sizes: nothing is
/// shown twice, and nothing falls between two pages.
pub proof fn pages_follow_each_other(list: Seq<Entry>, offset: nat, first: nat, second: nat)
    ensures
        page_of(list, offset as int, first as int) + page_of(
            list,
            (offset + first) as int,
            second as int,
        ) == page_of(list, offset as int, (first + second) as int),
{
    assert(page_of(list, offset as int, first as int) + page_of(
        list,
        (offset + first) as int,
        second as int,
    ) =~= page_of(list, offset as int, (first + second) as int));
}

/// Whether the store can be listed does not depend on what is asked for: two valid queries
/// are both answered or both refused, for the same reason.
pub proof fn filters_never_hide_a_bad_store(read: JournalRead, one: Query, other: Query)
    requires
        is_valid(one),
        is_valid(other),
    ensures
        query_fault(read, one) == query_fault(read, other),
{
}

} // verus!
