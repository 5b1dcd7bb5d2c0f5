//! What holds of every answer to a question about past operations.

use crate::error::ErrorKind;
use crate::history;
use crate::history::{Entry, Query};
use crate::journal;
use crate::journal::{ItemRecord, ItemState, ItemView, JournalRead, Record};
use crate::order;
use vstd::prelude::*;
use vstd::string::*;

verus! {

/// How an item is reported: one that was interrupted is unknown.
pub open spec fn reported_state(item: ItemView) -> ItemState {
    if item.state == ItemState::Started {
        ItemState::Unknown
    } else {
        item.state
    }
}

/// Whether a listed operation is the report of a stored one: the same operation with the same
/// items, each as it is reported.
pub open spec fn reports(listed: Entry, stored: Entry) -> bool {
    &&& listed.header == stored.header
    &&& listed.items.len() == stored.items.len()
    &&& forall|i: int|
        0 <= i < stored.items.len() ==> #[trigger] listed.items[i] == (ItemView {
            state: reported_state(stored.items[i]),
            ..stored.items[i]
        })
}

/// Whether the name and the time of an operation are asked for: the range holds its beginning,
/// not its end.
pub open spec fn in_range(stored: Entry, query: Query) -> bool {
    &&& query.operation_id matches Some(id) ==> stored.header.operation_id == id@
    &&& query.since_unix_ms matches Some(since) ==> stored.header.created_unix_ms >= since
    &&& query.until_unix_ms matches Some(until) ==> stored.header.created_unix_ms < until
}

/// Whether the item at `i` is reported in an asked state.
pub open spec fn asked_item(stored: Entry, query: Query, i: int) -> bool {
    0 <= i < stored.items.len() && query.states@.contains(reported_state(stored.items[i]))
}

proof fn lemma_with_entry(list: Seq<Entry>, found: Entry)
    ensures
        forall|e: Entry| #[trigger]
            history::with_entry(list, found).contains(e) <==> list.contains(e) || e == found,
    decreases list.len(),
{
    let result = history::with_entry(list, found);
    if list.len() == 0 || !history::listed_before(found, list.last()) {
        assert forall|e: Entry| #[trigger] result.contains(e) <==> list.contains(e) || e
            == found by {
            if list.contains(e) {
                let k = choose|k: int| 0 <= k < list.len() && list[k] == e;
                assert(result[k] == e);
            }
            assert(result[list.len() as int] == found);
            if result.contains(e) && e != found {
                let k = choose|k: int| 0 <= k < result.len() && result[k] == e;
                assert(list[k] == e);
            }
        }
    } else {
        let shorter = list.drop_last();
        let inner = history::with_entry(shorter, found);
        lemma_with_entry(shorter, found);
        assert forall|e: Entry| #[trigger] result.contains(e) <==> list.contains(e) || e
            == found by {
            assert(inner.contains(e) <==> shorter.contains(e) || e == found);
            assert(result[inner.len() as int] == list.last());
            assert(list[list.len() - 1] == list.last());
            if inner.contains(e) {
                let k = choose|k: int| 0 <= k < inner.len() && inner[k] == e;
                assert(result[k] == e);
            }
            if shorter.contains(e) {
                let k = choose|k: int| 0 <= k < shorter.len() && shorter[k] == e;
                assert(list[k] == e);
            }
            if list.contains(e) && e != list.last() {
                let k = choose|k: int| 0 <= k < list.len() && list[k] == e;
                assert(shorter[k] == e);
            }
            if result.contains(e) && e != list.last() {
                let k = choose|k: int| 0 <= k < result.len() && result[k] == e;
                assert(inner[k] == e);
            }
        }
    }
}

proof fn lemma_reports(stored: Entry)
    ensures
        reports(history::settled(stored), stored),
{
}

proof fn lemma_reported(records: Seq<Entry>, query: Query, n: int)
    requires
        0 <= n < records.len(),
        history::matches_query(history::settled(records[n]), query),
    ensures
        history::listing(records, query).contains(history::settled(records[n])),
    decreases records.len(),
{
    let before = history::listing(records.drop_last(), query);
    lemma_with_entry(before, history::settled(records.last()));
    if n < records.len() - 1 {
        assert(records.drop_last()[n] == records[n]);
        lemma_reported(records.drop_last(), query, n);
    }
}

/// An operation is listed where its name and time are asked for and no state is, or some item
/// of it, whichever that is, is reported in an asked state.
pub proof fn asked_operations_are_listed(records: Seq<Entry>, query: Query, n: int, i: int) -> (k:
    int)
    requires
        0 <= n < records.len(),
        in_range(records[n], query),
        query.states@.len() == 0 || asked_item(records[n], query, i),
    ensures
        0 <= k < history::listing(records, query).len(),
        reports(history::listing(records, query)[k], records[n]),
{
    let listed = history::settled(records[n]);
    let list = history::listing(records, query);
    lemma_reports(records[n]);
    if query.states@.len() > 0 {
        assert(listed.items[i].state == reported_state(records[n].items[i]));
    }
    lemma_reported(records, query, n);
    choose|k: int| 0 <= k < list.len() && list[k] == listed
}

/// Every listed operation is the report of a stored one whose name and time are asked for, and
/// where states are asked for some item of it is reported in one of them.
pub proof fn listed_operations_were_asked_for(records: Seq<Entry>, query: Query, k: int) -> (n: int)
    requires
        0 <= k < history::listing(records, query).len(),
    ensures
        0 <= n < records.len(),
        reports(history::listing(records, query)[k], records[n]),
        in_range(records[n], query),
        query.states@.len() > 0 ==> exists|i: int| #[trigger] asked_item(records[n], query, i),
    decreases records.len(),
{
    let list = history::listing(records, query);
    let before = history::listing(records.drop_last(), query);
    let last = history::settled(records.last());
    if history::matches_query(last, query) {
        lemma_with_entry(before, last);
        assert(list.contains(list[k]));
        if list[k] == last {
            lemma_reports(records.last());
            if query.states@.len() > 0 {
                let i = choose|i: int|
                    0 <= i < last.items.len() && query.states@.contains(
                        (#[trigger] last.items[i]).state,
                    );
                assert(asked_item(records.last(), query, i));
            }
            return records.len() - 1;
        }
        let j = choose|j: int| 0 <= j < before.len() && before[j] == list[k];
        let n = listed_operations_were_asked_for(records.drop_last(), query, j);
        assert(records.drop_last()[n] == records[n]);
        return n;
    }
    let n = listed_operations_were_asked_for(records.drop_last(), query, k);
    assert(records.drop_last()[n] == records[n]);
    n
}

proof fn lemma_listed_name(records: Seq<Entry>, query: Query, k: int) -> (n: int)
    requires
        0 <= k < history::listing(records, query).len(),
    ensures
        0 <= n < records.len(),
        history::listing(records, query)[k].header.operation_id == records[n].header.operation_id,
{
    listed_operations_were_asked_for(records, query, k)
}

/// Whether no two operations have the same name.
pub open spec fn distinct_names(list: Seq<Entry>) -> bool {
    forall|i: int, j: int|
        0 <= i < j < list.len() ==> (#[trigger] list[i]).header.operation_id != (
        #[trigger] list[j]).header.operation_id
}

proof fn lemma_distinct_insert(list: Seq<Entry>, found: Entry)
    requires
        distinct_names(list),
        forall|i: int|
            0 <= i < list.len() ==> (#[trigger] list[i]).header.operation_id
                != found.header.operation_id,
    ensures
        distinct_names(history::with_entry(list, found)),
        history::with_entry(list, found).len() == list.len() + 1,
    decreases list.len(),
{
    let result = history::with_entry(list, found);
    if list.len() == 0 || !history::listed_before(found, list.last()) {
    } else {
        let shorter = list.drop_last();
        let inner = history::with_entry(shorter, found);
        assert forall|i: int, j: int| 0 <= i < j < shorter.len() implies (
        #[trigger] shorter[i]).header.operation_id != (
        #[trigger] shorter[j]).header.operation_id by {
            assert(shorter[i] == list[i] && shorter[j] == list[j]);
        }
        assert forall|i: int| 0 <= i < shorter.len() implies (
        #[trigger] shorter[i]).header.operation_id != found.header.operation_id by {
            assert(shorter[i] == list[i]);
        }
        lemma_distinct_insert(shorter, found);
        lemma_with_entry(shorter, found);
        assert forall|i: int, j: int| 0 <= i < j < result.len() implies (
        #[trigger] result[i]).header.operation_id != (#[trigger] result[j]).header.operation_id by {
            assert(result[i] == inner[i]);
            if j < inner.len() {
                assert(result[j] == inner[j]);
            } else {
                assert(inner.contains(inner[i]));
                assert(list[list.len() - 1] == list.last());
                if inner[i] != found {
                    let k = choose|k: int| 0 <= k < shorter.len() && shorter[k] == inner[i];
                    assert(list[k] == inner[i]);
                }
            }
        }
    }
}

/// No operation is listed twice, and none more are listed than are stored.
pub proof fn operations_are_listed_once(records: Seq<Entry>, query: Query)
    requires
        distinct_names(records),
    ensures
        distinct_names(history::listing(records, query)),
        history::listing(records, query).len() <= records.len(),
    decreases records.len(),
{
    if records.len() > 0 {
        let head = records.drop_last();
        let before = history::listing(head, query);
        let last = history::settled(records.last());
        assert forall|i: int, j: int| 0 <= i < j < head.len() implies (
        #[trigger] head[i]).header.operation_id != (#[trigger] head[j]).header.operation_id by {
            assert(head[i] == records[i] && head[j] == records[j]);
        }
        operations_are_listed_once(head, query);
        assert forall|i: int| 0 <= i < before.len() implies (
        #[trigger] before[i]).header.operation_id != last.header.operation_id by {
            let n = lemma_listed_name(head, query, i);
            assert(head[n] == records[n]);
            assert(records[records.len() - 1] == records.last());
        }
        lemma_distinct_insert(before, last);
    }
}

/// A listing is newest first; operations of the same time come in the order of their names.
pub proof fn listings_are_newest_first(records: Seq<Entry>, query: Query, i: int, j: int)
    requires
        0 <= i < j < history::listing(records, query).len(),
    ensures
        ({
            let a = history::listing(records, query)[i].header;
            let b = history::listing(records, query)[j].header;
            a.created_unix_ms > b.created_unix_ms || (a.created_unix_ms == b.created_unix_ms
                && !order::text_less(b.operation_id, a.operation_id))
        }),
{
    history::listing_is_ordered_and_complete(records, query);
    let list = history::listing(records, query);
    assert(!history::listed_before(list[j], list[i]));
}

/// A page shows the listing from its offset on, as many operations as fit.
pub proof fn pages_show_the_listing(list: Seq<Entry>, offset: nat, limit: nat)
    ensures
        ({
            let page = history::page_of(list, offset as int, limit as int);
            &&& page.len() <= limit
            &&& offset >= list.len() ==> page.len() == 0
            &&& offset < list.len() ==> page.len() == limit || page.len() == list.len() - offset
            &&& offset + limit <= list.len() ==> page.len() == limit
            &&& forall|i: int|
                0 <= i < page.len() ==> #[trigger] page[i] == list[offset + i]
        }),
{
}

/// A query is answered exactly if it asks for at most four states that are ever reported, for a
/// name of letters, digits and hyphens, for at most 1024 operations from at most the 1024th on,
/// and for a range of time that does not end before it begins.
pub proof fn only_bounded_queries_are_answered(query: Query)
    ensures
        history::is_valid(query) <==> {
            &&& query.operation_id matches Some(id) ==> id@.len() > 0 && forall|i: int|
                0 <= i < id@.len() ==> {
                    let c = #[trigger] id@[i];
                    ('a' <= c <= 'z') || ('A' <= c <= 'Z') || ('0' <= c <= '9') || c == '-'
                }
            &&& !query.states@.contains(ItemState::Planned)
            &&& !query.states@.contains(ItemState::Started)
            &&& query.states@.len() <= 4
            &&& 1 <= query.limit <= 1024
            &&& query.offset <= 1024
            &&& !(query.since_unix_ms matches Some(since) && query.until_unix_ms matches Some(until)
                && until < since)
        },
{
    if history::is_valid(query) {
        if query.states@.contains(ItemState::Planned) {
            let i = choose|i: int|
                0 <= i < query.states@.len() && query.states@[i] == ItemState::Planned;
            assert(history::reported(query.states@[i]));
        }
        if query.states@.contains(ItemState::Started) {
            let i = choose|i: int|
                0 <= i < query.states@.len() && query.states@[i] == ItemState::Started;
            assert(history::reported(query.states@[i]));
        }
        if let Some(id) = query.operation_id {
            assert forall|i: int| 0 <= i < id@.len() implies {
                let c = #[trigger] id@[i];
                ('a' <= c <= 'z') || ('A' <= c <= 'Z') || ('0' <= c <= '9') || c == '-'
            } by {
                assert(journal::id_char(id@[i]));
            }
        }
    } else if !query.states@.contains(ItemState::Planned) && !query.states@.contains(
        ItemState::Started,
    ) {
        assert forall|i: int| 0 <= i < query.states@.len() implies history::reported(
            #[trigger] query.states@[i],
        ) by {
            assert(query.states@.contains(query.states@[i]));
        }
    }
}

/// A store can be listed exactly if every record has one of the three known layouts and no two
/// share a name, wherever they stand.
pub proof fn readable_stores_have_known_layouts_and_distinct_names(records: Seq<Record>)
    ensures
        history::store_fault(records) is None <==> {
            &&& forall|i: int|
                0 <= i < records.len() ==> 1 <= (#[trigger] records[i]).schema_version <= 3
            &&& forall|i: int, j: int|
                0 <= i < j < records.len() ==> (#[trigger] records[i]).operation_id@ != (
                #[trigger] records[j]).operation_id@
        },
    decreases records.len(),
{
    if records.len() > 0 {
        let head = records.drop_last();
        let last = records.last();
        readable_stores_have_known_layouts_and_distinct_names(head);
        assert(records[records.len() - 1] == last);
        if history::store_fault(records) is None {
            assert forall|i: int, j: int| 0 <= i < j < records.len() implies (
            #[trigger] records[i]).operation_id@ != (#[trigger] records[j]).operation_id@ by {
                assert(head[i] == records[i]);
                if j < head.len() {
                    assert(head[j] == records[j]);
                }
            }
            assert forall|i: int| 0 <= i < records.len() implies 1 <= (
            #[trigger] records[i]).schema_version <= 3 by {
                if i < head.len() {
                    assert(head[i] == records[i]);
                }
            }
        } else if (forall|i: int|
            0 <= i < records.len() ==> 1 <= (#[trigger] records[i]).schema_version <= 3) && (
        forall|i: int, j: int|
            0 <= i < j < records.len() ==> (#[trigger] records[i]).operation_id@ != (
            #[trigger] records[j]).operation_id@) {
            assert forall|i: int| 0 <= i < head.len() implies 1 <= (
            #[trigger] head[i]).schema_version <= 3 by {
                assert(head[i] == records[i]);
            }
            assert forall|i: int, j: int| 0 <= i < j < head.len() implies (
            #[trigger] head[i]).operation_id@ != (#[trigger] head[j]).operation_id@ by {
                assert(head[i] == records[i] && head[j] == records[j]);
            }
            if history::has_name(head, last.operation_id@) {
                let i = choose|i: int|
                    0 <= i < head.len() && (#[trigger] head[i]).operation_id@
                        == last.operation_id@;
                assert(records[i] == head[i]);
            }
        }
    }
}

/// A query is refused for itself first, then for a store that is larger than the journal may
/// be, and then for what the store holds; never for anything else.
pub proof fn queries_are_refused_for_a_reason(read: JournalRead, query: Query)
    ensures
        !history::is_valid(query) ==> history::query_fault(read, query) == Some(
            (ErrorKind::InvalidInput, "invalid history filter, time range or page bounds"@),
        ),
        history::is_valid(query) && (read.records@.len() > 1024
            || read.uncommitted_snapshots@.len() > 2048) ==> history::query_fault(read, query)
            == Some((ErrorKind::InvalidData, "history input exceeds the journal budget"@)),
        history::is_valid(query) && read.records@.len() <= 1024
            && read.uncommitted_snapshots@.len() <= 2048 ==> history::query_fault(read, query)
            == history::store_fault(read.records@),
{
}

/// The bytes that were handled grow by the size of an item exactly if the item was moved.
pub proof fn only_moved_items_are_counted(items: Seq<ItemRecord>, item: ItemRecord)
    ensures
        journal::moved_bytes(items.push(item)) == journal::moved_bytes(items) + (if item.state
            == ItemState::Succeeded {
            item.logical_bytes as nat
        } else {
            0
        }),
        journal::moved_bytes(Seq::empty()) == 0,
{
    assert(items.push(item).drop_last() =~= items);
}

} // verus!
