//! Reading: entities by id, or one page of the index of a property.

use vstd::prelude::*;
use vstd::string::*;
use crate::document::{names_of, pick, project, Document, DocumentView};
use crate::error::{ContractError, ErrorKind};
use crate::index::{
    ascending,
    lemma_page_is_prefix,
    lemma_range_exact,
    lemma_resume,
    lemma_scan_ascending,
    page,
    range,
    range_start,
    rows_of,
    scan_all,
    Bound,
    BoundView,
    IndexEntry,
};
use crate::keys::{
    be_bytes,
    row_lt,
    be_decode,
    be_encode,
    be_value,
    lemma_be_bytes_len,
    lemma_be_bytes_of_value,
    lemma_be_value_of_bytes,
    lemma_span_values,
    Row,
};
use crate::msg::{IndexBound, ReadArgs, ReadTarget};
use crate::responses::{entities_view, Entity, ReadResponse};
use crate::schema::{failure_reason, EntityProperty};
use crate::state::QueryContext;
use crate::store::{coherent, entity_reason, stored_row, Store, StoreView};
use crate::table::RecordView;

verus! {

/// The most rows that one page holds.
pub const MAX_PAGE_SIZE: u8 = 50;

/// The page size for a requested limit: ten where none is given, and never
/// more than `MAX_PAGE_SIZE`.
pub open spec fn page_limit(limit: Option<u8>) -> nat {
    match limit {
        Some(n) => if n < MAX_PAGE_SIZE {
            n as nat
        } else {
            MAX_PAGE_SIZE as nat
        },
        None => 10,
    }
}

/// What a row carries of a document: nothing where no fields are selected,
/// the whole document where `*` is among them, else an object of the named
/// top-level members that the document has.
pub open spec fn selected(document: DocumentView, select: Option<Seq<Seq<char>>>) -> Option<
    DocumentView,
> {
    match select {
        None => None,
        Some(names) => if names.contains("*"@) {
            Some(document)
        } else {
            Some(DocumentView::Object(pick(document.members(), names)))
        },
    }
}

/// The names selected, as sequences of characters.
pub open spec fn select_view(select: Option<Vec<String>>) -> Option<Seq<Seq<char>>> {
    match select {
        Some(names) => Some(names_of(names@)),
        None => None,
    }
}

/// The cursor that stands for a row: the key, then the id in eight bytes,
/// most significant first.
pub open spec fn cursor_of(row: Row) -> Seq<u8> {
    row.0 + be_bytes(row.1 as nat, 8)
}

/// The row that a cursor stands for, for keys of `width` bytes: the
/// first `width` bytes are the key whatever they hold, the eight that
/// follow are the id. `None` for a cursor of any other length.
pub open spec fn row_of_cursor(cursor: Seq<u8>, width: nat) -> Option<Row> {
    if cursor.len() == width + 8 {
        Some((cursor.take(width as int), be_value(cursor.skip(width as int)) as u64))
    } else {
        None
    }
}

/// A cursor read back for the width of its key gives the row it was made
/// of, zero bytes at the end of the key included.
pub proof fn lemma_cursor_round_trip(row: Row)
    ensures
        row_of_cursor(cursor_of(row), row.0.len()) == Some(row),
{
    let cursor = cursor_of(row);
    lemma_be_bytes_len(row.1 as nat, 8);
    lemma_span_values();
    lemma_be_value_of_bytes(row.1 as nat, 8);
    assert(cursor.take(row.0.len() as int) =~= row.0);
    assert(cursor.skip(row.0.len() as int) =~= be_bytes(row.1 as nat, 8));
}

/// The end that a query gives by a value of the property, or the rule
/// that the value breaks.
pub open spec fn value_edge(property: EntityProperty, bound: Option<IndexBound>) -> Result<
    BoundView,
    Seq<char>,
> {
    match bound {
        None => Ok(BoundView::Unbounded),
        Some(IndexBound::Inclusive(value)) => match property.value.check(value@) {
            None => Ok(BoundView::Inclusive(property.value.encoding(value@))),
            Some(rule) => Err(failure_reason(property.name@, rule.text())),
        },
        Some(IndexBound::Exclusive(value)) => match property.value.check(value@) {
            None => Ok(BoundView::Exclusive(property.value.encoding(value@))),
            Some(rule) => Err(failure_reason(property.name@, rule.text())),
        },
    }
}

/// The end where a scan starts: strictly beyond the cursor where one is
/// given, whatever `start` says; else at `start`.
pub open spec fn first_edge(
    property: EntityProperty,
    cursor: Option<Vec<u8>>,
    start: Option<IndexBound>,
) -> Result<BoundView, Seq<char>> {
    match cursor {
        Some(bytes) => match row_of_cursor(bytes@, property.value.width()) {
            Some(row) => Ok(BoundView::Beyond(row.0, row.1)),
            None => Err(failure_reason(property.name@, "invalid cursor"@)),
        },
        None => value_edge(property, start),
    }
}

/// The lower and the upper end of the scan of a query. Ascending, the scan
/// starts at the first edge and goes up to `stop`; descending, it starts
/// there too and goes down to `stop`, so the two ends change places.
pub open spec fn plan(
    property: EntityProperty,
    cursor: Option<Vec<u8>>,
    start: Option<IndexBound>,
    stop: Option<IndexBound>,
    descending: bool,
) -> Result<(BoundView, BoundView), Seq<char>> {
    match first_edge(property, cursor, start) {
        Err(reason) => Err(reason),
        Ok(first) => match value_edge(property, stop) {
            Err(reason) => Err(reason),
            Ok(last) => if descending {
                Ok((last, first))
            } else {
                Ok((first, last))
            },
        },
    }
}

/// The first position at or after `from` of an id without entity.
pub open spec fn first_missing(records: Map<u64, RecordView>, ids: Seq<u64>, from: int) -> Option<
    int,
>
    decreases ids.len() - from,
{
    if from < 0 || from >= ids.len() {
        None
    } else if !records.contains_key(ids[from]) {
        Some(from)
    } else {
        first_missing(records, ids, from + 1)
    }
}

/// The rows of a read for these ids: each id with what is selected of its
/// document.
pub open spec fn entities_of(
    records: Map<u64, RecordView>,
    ids: Seq<u64>,
    select: Option<Seq<Seq<char>>>,
) -> Seq<(u64, Option<DocumentView>)> {
    Seq::new(ids.len(), |i: int| (ids[i], selected(records[ids[i]].data, select)))
}

/// The ids of rows.
pub open spec fn ids_of(rows: Seq<Row>) -> Seq<u64> {
    Seq::new(rows.len(), |i: int| rows[i].1)
}

/// What `read` returns from a consistent store.
///
/// By ids: the rows of the ids as given, or in the reverse of that order
/// where `desc` is set; the first id without entity is refused,
/// whatever is selected. By index: the property must be declared,
/// the cursor and the bounds must be valid; the rows are one page of
/// the scan, and the cursor is that of the last row, if there is one.
pub open spec fn answers(
    store: StoreView,
    args: ReadArgs,
    outcome: Result<ReadResponse, ContractError>,
) -> bool {
    let descending = args.desc == Some(true);
    let select = select_view(args.select);
    match args.target {
        ReadTarget::Ids(ids) => {
            let order = if descending {
                ids@.reverse()
            } else {
                ids@
            };
            match first_missing(store.records, order, 0) {
                Some(k) => outcome is Err && outcome->Err_0.says(
                    ErrorKind::NotFound,
                    entity_reason(order[k], " not found"@),
                ),
                None => outcome is Ok && outcome->Ok_0@ == (
                    entities_of(store.records, order, select),
                    None::<Seq<u8>>,
                ),
            }
        },
        ReadTarget::Index { property, cursor, start, stop, limit } => {
            match store.schema.position(property@) {
                None => outcome is Err && outcome->Err_0.says(
                    ErrorKind::ValidationError,
                    failure_reason(property@, "not declared"@),
                ),
                Some(at) => match plan(
                    store.schema.properties@[at],
                    cursor,
                    start,
                    stop,
                    descending,
                ) {
                    Err(reason) => outcome is Err && outcome->Err_0.says(
                        ErrorKind::ValidationError,
                        reason,
                    ),
                    Ok((lower, upper)) => {
                        let rows = page(
                            store.rows(at),
                            lower,
                            upper,
                            descending,
                            page_limit(limit),
                        );
                        outcome is Ok && outcome->Ok_0@ == (
                            entities_of(store.records, ids_of(rows), select),
                            if rows.len() > 0 {
                                Some(cursor_of(rows.last()))
                            } else {
                                None
                            },
                        )
                    },
                },
            }
        },
    }
}

/// The page size for a requested limit.
pub fn clamp_limit(limit: Option<u8>) -> (size: usize)
    ensures
        size == page_limit(limit),
        size <= MAX_PAGE_SIZE,
{
    match limit {
        Some(n) => if n < MAX_PAGE_SIZE {
            n as usize
        } else {
            MAX_PAGE_SIZE as usize
        },
        None => 10,
    }
}

/// The cursor that stands for a row.
pub fn encode_cursor(entry: &IndexEntry) -> (cursor: Vec<u8>)
    ensures
        cursor@ == cursor_of(entry@),
{
    let mut cursor: Vec<u8> = Vec::new();
    let mut i: usize = 0;
    while i < entry.key.len()
        invariant
            i <= entry.key@.len(),
            cursor@ == entry.key@.take(i as int),
        decreases entry.key@.len() - i,
    {
        cursor.push(entry.key[i]);
        assert(cursor@ =~= entry.key@.take(i + 1));
        i = i + 1;
    }
    assert(entry.key@.take(i as int) =~= entry.key@);
    let id = be_encode(entry.id as u128, 8);
    proof {
        lemma_be_bytes_len(entry.id as nat, 8);
    }
    let mut k: usize = 0;
    while k < 8
        invariant
            k <= 8,
            id@.len() == 8,
            id@ == be_bytes(entry.id as nat, 8),
            cursor@ == entry.key@ + id@.take(k as int),
        decreases 8 - k,
    {
        cursor.push(id[k]);
        assert(cursor@ =~= entry.key@ + id@.take(k + 1));
        k = k + 1;
    }
    assert(id@.take(8) =~= id@);
    cursor
}

/// The row that a cursor stands for, for keys of `width` bytes.
pub fn decode_cursor(cursor: &Vec<u8>, width: usize) -> (row: Option<IndexEntry>)
    ensures
        match row {
            Some(entry) => row_of_cursor(cursor@, width as nat) == Some(entry@),
            None => row_of_cursor(cursor@, width as nat) is None,
        },
{
    if cursor.len() < 8 || cursor.len() - 8 != width {
        return None;
    }
    let mut key: Vec<u8> = Vec::new();
    let mut i: usize = 0;
    while i < width
        invariant
            i <= width,
            cursor@.len() == width + 8,
            key@ == cursor@.take(i as int),
        decreases width - i,
    {
        key.push(cursor[i]);
        assert(key@ =~= cursor@.take(i + 1));
        i = i + 1;
    }
    let mut tail: Vec<u8> = Vec::new();
    let mut k: usize = 0;
    while k < 8
        invariant
            k <= 8,
            cursor@.len() == width + 8,
            width + 8 <= usize::MAX,
            tail@ == cursor@.skip(width as int).take(k as int),
        decreases 8 - k,
    {
        tail.push(cursor[width + k]);
        assert(tail@ =~= cursor@.skip(width as int).take(k + 1));
        k = k + 1;
    }
    assert(cursor@.skip(width as int).take(8) =~= cursor@.skip(width as int));
    proof {
        lemma_be_bytes_of_value(tail@);
        lemma_span_values();
    }
    let id = be_decode(&tail);
    Some(IndexEntry { key, id: id as u64 })
}

fn edge_of(property: &EntityProperty, bound: Option<IndexBound>) -> (outcome: Result<
    Bound,
    ContractError,
>)
    ensures
        match value_edge(*property, bound) {
            Ok(edge) => outcome is Ok && outcome->Ok_0@ == edge,
            Err(reason) => outcome is Err && outcome->Err_0.says(
                ErrorKind::ValidationError,
                reason,
            ),
        },
{
    match bound {
        None => Ok(Bound::Unbounded),
        Some(IndexBound::Inclusive(value)) => match property.to_bytes(&value) {
            Ok(key) => Ok(Bound::Inclusive(key)),
            Err(error) => Err(error),
        },
        Some(IndexBound::Exclusive(value)) => match property.to_bytes(&value) {
            Ok(key) => Ok(Bound::Exclusive(key)),
            Err(error) => Err(error),
        },
    }
}

fn has_star(names: &Vec<String>) -> (yes: bool)
    ensures
        yes == names_of(names@).contains("*"@),
{
    let star = String::from_str("*");
    let mut i: usize = 0;
    while i < names.len()
        invariant
            i <= names@.len(),
            star@ == "*"@,
            forall|k: int| 0 <= k < i ==> names_of(names@)[k] != "*"@,
        decreases names@.len() - i,
    {
        if names[i] == star {
            assert(names_of(names@)[i as int] == "*"@);
            return true;
        }
        i = i + 1;
    }
    false
}

/// What is selected of a document.
pub fn select_from(document: &Document, select: &Option<Vec<String>>) -> (data: Option<Document>)
    ensures
        match data {
            Some(d) => selected(document@, select_view(*select)) == Some(d@),
            None => selected(document@, select_view(*select)) is None,
        },
{
    match select {
        None => None,
        Some(names) => {
            if has_star(names) {
                Some(document.deep_clone())
            } else {
                Some(project(document, names))
            }
        },
    }
}

/// The rows of a read for `ids`, in that order. The first id without
/// entity is refused: as not found, or, where `indexed` says that the ids
/// came out of an index, as unexpected.
fn assemble(store: &Store, ids: &Vec<u64>, select: &Option<Vec<String>>, indexed: bool) -> (outcome:
    Result<Vec<Entity>, ContractError>)
    ensures
        match first_missing(store@.records, ids@, 0) {
            Some(k) => outcome is Err && outcome->Err_0.says(
                if indexed {
                    ErrorKind::Unexpected
                } else {
                    ErrorKind::NotFound
                },
                entity_reason(ids@[k], " not found"@),
            ),
            None => outcome is Ok && entities_view(outcome->Ok_0@) == entities_of(
                store@.records,
                ids@,
                select_view(*select),
            ),
        },
{
    let mut entities: Vec<Entity> = Vec::new();
    let mut i: usize = 0;
    while i < ids.len()
        invariant
            i <= ids@.len(),
            entities@.len() == i,
            first_missing(store@.records, ids@, 0) == first_missing(
                store@.records,
                ids@,
                i as int,
            ),
            forall|k: int|
                0 <= k < i ==> (#[trigger] entities@[k])@ == (
                    ids@[k],
                    selected(store@.records[ids@[k]].data, select_view(*select)),
                ),
        decreases ids@.len() - i,
    {
        let id = ids[i];
        match store.get(id) {
            Some(record) => {
                entities.push(Entity { id, data: select_from(&record.data, select) });
            },
            None => {
                let text = String::from_str("entity ").concat(
                    crate::text::decimal_text(id as u128).as_str(),
                ).concat(" not found");
                if indexed {
                    return Err(ContractError::Unexpected { reason: text });
                } else {
                    return Err(ContractError::NotFound { reason: text });
                }
            },
        }
        i = i + 1;
    }
    assert(entities_view(entities@) =~= entities_of(store@.records, ids@, select_view(*select)));
    Ok(entities)
}

/// The rows of a page lie in the index they were read from.
pub proof fn lemma_page_within(
    rows: Seq<Row>,
    lower: BoundView,
    upper: BoundView,
    descending: bool,
    limit: nat,
)
    requires
        ascending(rows),
    ensures
        forall|k: int|
            0 <= k < page(rows, lower, upper, descending, limit).len() ==> rows.contains(
                #[trigger] page(rows, lower, upper, descending, limit)[k],
            ),
{
    lemma_range_exact(rows, lower, upper);
    let all = range(rows, lower, upper);
    let start = range_start(rows, lower);
    let found = page(rows, lower, upper, descending, limit);
    assert forall|k: int| 0 <= k < found.len() implies rows.contains(#[trigger] found[k]) by {
        if descending {
            assert(found[k] == all[all.len() - 1 - k]);
            assert(all[all.len() - 1 - k] == rows[start + all.len() - 1 - k]);
        } else {
            assert(found[k] == all[k]);
            assert(all[k] == rows[start + k]);
        }
    }
}

/// Answers a read from the store.
pub fn read(store: &Store, args: ReadArgs) -> (outcome: Result<ReadResponse, ContractError>)
    ensures
        answers(store@, args, outcome),
        coherent(store@),
{
    store.coherence();
    let ReadArgs { target, desc, select } = args;
    let descending = match desc {
        Some(d) => d,
        None => false,
    };
    match target {
        ReadTarget::Ids(ids) => {
            let mut order: Vec<u64> = Vec::new();
            if descending {
                let mut i: usize = ids.len();
                while i > 0
                    invariant
                        i <= ids@.len(),
                        order@ == ids@.reverse().take(ids@.len() - i),
                    decreases i,
                {
                    i = i - 1;
                    order.push(ids[i]);
                    assert(order@ =~= ids@.reverse().take(ids@.len() - i));
                }
                assert(order@ =~= ids@.reverse());
            } else {
                order = ids;
            }
            match assemble(store, &order, &select, false) {
                Ok(entities) => Ok(ReadResponse { entities, cursor: None }),
                Err(error) => Err(error),
            }
        },
        ReadTarget::Index { property: name, cursor, start, stop, limit } => {
            let size = clamp_limit(limit);
            let schema = store.schema();
            let at = match schema.find(&name) {
                Some(at) => at,
                None => {
                    let mut text = name.clone();
                    text.append(" - ");
                    text.append("not declared");
                    return Err(ContractError::ValidationError { reason: text });
                },
            };
            let property = &schema.properties[at];
            let first = match cursor {
                Some(bytes) => match decode_cursor(&bytes, property.value.key_width()) {
                    Some(entry) => Bound::Beyond(entry.key, entry.id),
                    None => {
                        let mut text = property.name.clone();
                        text.append(" - ");
                        text.append("invalid cursor");
                        return Err(ContractError::ValidationError { reason: text });
                    },
                },
                None => match edge_of(property, start) {
                    Ok(edge) => edge,
                    Err(error) => {
                        return Err(error);
                    },
                },
            };
            let last = match edge_of(property, stop) {
                Ok(edge) => edge,
                Err(error) => {
                    return Err(error);
                },
            };
            let found = if descending {
                store.scan(at, &last, &first, true, size)
            } else {
                store.scan(at, &first, &last, false, size)
            };
            let ghost rows = rows_of(found@);
            let mut ids: Vec<u64> = Vec::new();
            let mut i: usize = 0;
            while i < found.len()
                invariant
                    i <= found@.len(),
                    ids@ == ids_of(rows_of(found@)).take(i as int),
                decreases found@.len() - i,
            {
                ids.push(found[i].id);
                assert(ids@ =~= ids_of(rows_of(found@)).take(i + 1));
                i = i + 1;
            }
            assert(ids@ =~= ids_of(rows));
            proof {
                let lower = if descending {
                    last@
                } else {
                    first@
                };
                let upper = if descending {
                    first@
                } else {
                    last@
                };
                lemma_page_within(store@.rows(at as int), lower, upper, descending, size as nat);
                assert forall|k: int| 0 <= k < ids@.len() implies store@.records.contains_key(
                    #[trigger] ids@[k],
                ) by {
                    assert(store@.indices[at as int].contains(rows[k]));
                    assert(stored_row(store@.schema.properties@[at as int], store@.records, rows[k]));
                }
                lemma_none_missing(store@.records, ids@, 0);
            }
            let cursor = if found.len() > 0 {
                Some(encode_cursor(&found[found.len() - 1]))
            } else {
                None
            };
            match assemble(store, &ids, &select, true) {
                Ok(entities) => Ok(ReadResponse { entities, cursor }),
                Err(error) => Err(error),
            }
        },
    }
}

/// Where every id has an entity, none is missing.
pub proof fn lemma_none_missing(records: Map<u64, RecordView>, ids: Seq<u64>, from: int)
    requires
        0 <= from,
        forall|k: int| 0 <= k < ids.len() ==> records.contains_key(#[trigger] ids[k]),
    ensures
        first_missing(records, ids, from) is None,
    decreases ids.len() - from,
{
    if from < ids.len() {
        lemma_none_missing(records, ids, from + 1);
    }
}

/// Answers a read in the context of a query.
pub fn query_read(ctx: QueryContext, args: ReadArgs) -> (outcome: Result<
    ReadResponse,
    ContractError,
>)
    ensures
        answers(ctx.store@, args, outcome),
{
    read(ctx.store, args)
}

/// The keys of an index of a consistent store have the width of the
/// property.
pub proof fn lemma_row_widths(store: StoreView, at: int)
    requires
        coherent(store),
        0 <= at < store.indices.len(),
    ensures
        forall|k: int|
            0 <= k < store.rows(at).len() ==> (#[trigger] store.rows(at)[k]).0.len()
                == store.schema.properties@[at].value.width(),
{
    let property = store.schema.properties@[at];
    assert forall|k: int| 0 <= k < store.rows(at).len() implies (#[trigger] store.rows(
        at,
    )[k]).0.len() == property.value.width() by {
        let row = store.rows(at)[k];
        assert(store.indices[at].contains(row));
        assert(stored_row(property, store.records, row));
        property.value.lemma_encoding_width(
            store.records[row.1].data.lookup(property.name@)->0,
        );
    }
}

/// Following the cursor: where `taken` rows of the scan of a query have
/// been read, the same query with the cursor of the last of them scans
/// exactly the rows that remain, whatever `start` says: no row comes
/// twice and none is left out.
pub proof fn lemma_next_page(
    property: EntityProperty,
    rows: Seq<Row>,
    cursor: Option<Vec<u8>>,
    start: Option<IndexBound>,
    stop: Option<IndexBound>,
    descending: bool,
    taken: int,
    next: Vec<u8>,
)
    requires
        ascending(rows),
        forall|k: int| 0 <= k < rows.len() ==> (#[trigger] rows[k]).0.len() == property.value.width(),
        plan(property, cursor, start, stop, descending) is Ok,
        0 < taken <= scan_all(
            rows,
            plan(property, cursor, start, stop, descending)->Ok_0.0,
            plan(property, cursor, start, stop, descending)->Ok_0.1,
            descending,
        ).len(),
        next@ == cursor_of(
            scan_all(
                rows,
                plan(property, cursor, start, stop, descending)->Ok_0.0,
                plan(property, cursor, start, stop, descending)->Ok_0.1,
                descending,
            )[taken - 1],
        ),
    ensures
        plan(property, Some(next), start, stop, descending) is Ok,
        scan_all(
            rows,
            plan(property, Some(next), start, stop, descending)->Ok_0.0,
            plan(property, Some(next), start, stop, descending)->Ok_0.1,
            descending,
        ) == scan_all(
            rows,
            plan(property, cursor, start, stop, descending)->Ok_0.0,
            plan(property, cursor, start, stop, descending)->Ok_0.1,
            descending,
        ).skip(taken),
{
    let bounds = plan(property, cursor, start, stop, descending)->Ok_0;
    let whole = scan_all(rows, bounds.0, bounds.1, descending);
    let row = whole[taken - 1];
    lemma_range_exact(rows, bounds.0, bounds.1);
    let all = range(rows, bounds.0, bounds.1);
    let first = range_start(rows, bounds.0);
    if descending {
        assert(row == all[all.len() - taken]);
        assert(row == rows[first + all.len() - taken]);
    } else {
        assert(row == rows[first + taken - 1]);
    }
    lemma_cursor_round_trip(row);
    lemma_resume(
        rows,
        bounds.0,
        bounds.1,
        descending,
        taken,
        BoundView::Beyond(row.0, row.1),
    );
}

/// A page of an index query holds at most as many rows as the limit asks
/// for, ten where it asks for none, and never more than fifty.
pub proof fn lemma_page_size(store: StoreView, args: ReadArgs, outcome: Result<
    ReadResponse,
    ContractError,
>)
    requires
        answers(store, args, outcome),
        args.target is Index,
        outcome is Ok,
    ensures
        outcome->Ok_0.entities@.len() <= page_limit(args.target->limit),
        page_limit(args.target->limit) <= 50,
        args.target->limit is None ==> outcome->Ok_0.entities@.len() <= 10,
{
    let descending = args.desc == Some(true);
    let at = store.schema.position(args.target->property@)->0;
    let bounds = plan(
        store.schema.properties@[at],
        args.target->cursor,
        args.target->start,
        args.target->stop,
        descending,
    )->Ok_0;
    lemma_page_is_prefix(
        store.rows(at),
        bounds.0,
        bounds.1,
        descending,
        page_limit(args.target->limit),
    );
    assert(entities_view(outcome->Ok_0.entities@).len() == outcome->Ok_0.entities@.len());
}

/// Creating an entity and then reading it by its id gives the document
/// that was created, as far as it is selected.
pub proof fn lemma_read_after_create(
    before: StoreView,
    after: StoreView,
    id: u64,
    data: DocumentView,
    now: u64,
    args: ReadArgs,
    outcome: Result<ReadResponse, ContractError>,
)
    requires
        crate::store::created(before, after, id, data, now, Ok(())),
        args.target matches ReadTarget::Ids(ids) && ids@ == seq![id],
        answers(after, args, outcome),
    ensures
        outcome is Ok,
        outcome->Ok_0@ == (seq![(id, selected(data, select_view(args.select)))], None::<Seq<u8>>),
{
    let order = seq![id];
    assert(order.reverse() =~= order);
    assert(after.records.contains_key(id));
    assert(first_missing(after.records, order, 1) is None);
    assert(first_missing(after.records, order, 0) is None);
    assert(entities_of(after.records, order, select_view(args.select)) =~= seq![
        (id, selected(data, select_view(args.select))),
    ]);
}

/// Ascending over the index of an integer property, the values of the
/// entities never decrease along the scan, and entities of one value
/// come by ascending id.
pub proof fn lemma_integer_scan_ordered(
    store: StoreView,
    at: int,
    lower: BoundView,
    upper: BoundView,
    i: int,
    j: int,
)
    requires
        coherent(store),
        0 <= at < store.schema.properties@.len(),
        store.schema.properties@[at].value.range() is Some,
        0 <= i < j < scan_all(store.rows(at), lower, upper, false).len(),
    ensures
        ({
            let property = store.schema.properties@[at];
            let rows = scan_all(store.rows(at), lower, upper, false);
            let a = store.records[rows[i].1].data.lookup(property.name@);
            let b = store.records[rows[j].1].data.lookup(property.name@);
            &&& store.records.contains_key(rows[i].1)
            &&& store.records.contains_key(rows[j].1)
            &&& a is Some && property.value.check(a->0) is None
            &&& b is Some && property.value.check(b->0) is None
            &&& property.value.number(a->0)->0 < property.value.number(b->0)->0 || (
            property.value.number(a->0) == property.value.number(b->0) && rows[i].1 < rows[j].1)
        }),
{
    let property = store.schema.properties@[at];
    let index = store.rows(at);
    let rows = scan_all(index, lower, upper, false);
    lemma_scan_ascending(index, lower, upper, 0);
    lemma_range_exact(index, lower, upper);
    let first = range_start(index, lower);
    assert(rows[i] == index[first + i]);
    assert(rows[j] == index[first + j]);
    assert(store.indices[at].contains(rows[i]));
    assert(store.indices[at].contains(rows[j]));
    assert(stored_row(property, store.records, rows[i]));
    assert(stored_row(property, store.records, rows[j]));
    assert(row_lt(rows[i], rows[j]));
    let a = store.records[rows[i].1].data.lookup(property.name@)->0;
    let b = store.records[rows[j].1].data.lookup(property.name@)->0;
    property.value.lemma_integer_keys_ordered(a, b);
}

/// Descending from `start` down to `stop` is the exact reverse of
/// ascending from `stop` up to `start`.
pub proof fn lemma_descending_query_reverses(
    property: EntityProperty,
    rows: Seq<Row>,
    start: Option<IndexBound>,
    stop: Option<IndexBound>,
)
    requires
        plan(property, None, start, stop, true) is Ok,
    ensures
        plan(property, None, stop, start, false) == plan(property, None, start, stop, true),
        scan_all(
            rows,
            plan(property, None, start, stop, true)->Ok_0.0,
            plan(property, None, start, stop, true)->Ok_0.1,
            true,
        ) == scan_all(
            rows,
            plan(property, None, stop, start, false)->Ok_0.0,
            plan(property, None, stop, start, false)->Ok_0.1,
            false,
        ).reverse(),
{
}

/// Reading on from a page: where a read by index has answered with a
/// cursor, the same read with that cursor scans exactly what the first
/// scan had left after the rows of the page. So the pages that follow
/// one another, put end to end, are the scan without pages.
pub proof fn lemma_read_resumes(
    store: StoreView,
    first: ReadArgs,
    answer: ReadResponse,
    again: ReadArgs,
)
    requires
        coherent(store),
        first.target is Index,
        answers(store, first, Ok(answer)),
        answer.cursor is Some,
        again.target is Index,
        again.target->property@ == first.target->property@,
        again.target->cursor == answer.cursor,
        again.target->start == first.target->start,
        again.target->stop == first.target->stop,
        again.desc == first.desc,
    ensures
        ({
            let descending = first.desc == Some(true);
            let at = store.schema.position(first.target->property@)->0;
            let property = store.schema.properties@[at];
            let before = plan(
                property,
                first.target->cursor,
                first.target->start,
                first.target->stop,
                descending,
            );
            let after = plan(
                property,
                again.target->cursor,
                again.target->start,
                again.target->stop,
                descending,
            );
            let whole = scan_all(store.rows(at), before->Ok_0.0, before->Ok_0.1, descending);
            &&& before is Ok
            &&& after is Ok
            &&& answer.entities@.len() <= whole.len()
            &&& answer@.0 == entities_of(
                store.records,
                ids_of(whole.take(answer.entities@.len() as int)),
                select_view(first.select),
            )
            &&& scan_all(store.rows(at), after->Ok_0.0, after->Ok_0.1, descending) == whole.skip(
                answer.entities@.len() as int,
            )
        }),
{
    let descending = first.desc == Some(true);
    let at = store.schema.position(first.target->property@)->0;
    crate::schema::lemma_property_from(store.schema.properties@, first.target->property@, 0);
    let property = store.schema.properties@[at];
    let before = plan(
        property,
        first.target->cursor,
        first.target->start,
        first.target->stop,
        descending,
    );
    let index = store.rows(at);
    let limit = page_limit(first.target->limit);
    let rows = page(index, before->Ok_0.0, before->Ok_0.1, descending, limit);
    let whole = scan_all(index, before->Ok_0.0, before->Ok_0.1, descending);
    lemma_page_is_prefix(index, before->Ok_0.0, before->Ok_0.1, descending, limit);
    assert(entities_view(answer.entities@).len() == answer.entities@.len());
    assert(answer.entities@.len() == rows.len());
    assert(rows.len() > 0);
    assert(rows.last() == whole[rows.len() - 1]);
    lemma_row_widths(store, at);
    lemma_next_page(
        property,
        index,
        first.target->cursor,
        first.target->start,
        first.target->stop,
        descending,
        rows.len() as int,
        again.target->cursor->0,
    );
}

} // verus!
